use vstd::prelude::*;
use crate::host_cbor::{decode_failure, decode_vm_value, encode_failure, encode_vm_value, host_decode, host_encode};
use crate::runtime::{
    query_answer, runtime_code, update_answer, Runtime, RuntimeConfig, RuntimeError, RuntimeErrorCode,
    StateHandle,
};
use crate::text::{concat_str, owned};
use crate::vm::machine::{VmError, VmErrorCode, VmLimits, VmProgram};
use crate::vm::value::{val, VmValue};

verus! {

/// The outcome of a host call.
#[allow(non_camel_case_types)]
#[derive(Debug, Clone, Copy, PartialEq, Eq, Structural)]
pub enum cino_status_t {
    CINO_STATUS_OK,
    CINO_STATUS_ERR,
}

impl cino_status_t {
    /// The number the host sees.
    pub fn value(&self) -> (r: u32)
        ensures
            r == (if *self == cino_status_t::CINO_STATUS_OK {
                0u32
            } else {
                1u32
            }),
    {
        match self {
            cino_status_t::CINO_STATUS_OK => 0,
            cino_status_t::CINO_STATUS_ERR => 1,
        }
    }
}

/// The error codes of the host interface.
#[allow(non_camel_case_types)]
#[derive(Debug, Clone, Copy, PartialEq, Eq, Structural)]
pub enum cino_error_code_t {
    CINO_ERROR_RUNTIME_STEP_LIMIT_EXCEEDED,
    CINO_ERROR_RUNTIME_MEMORY_LIMIT_EXCEEDED,
    CINO_ERROR_RUNTIME_RECURSION_LIMIT_EXCEEDED,
    CINO_ERROR_RUNTIME_INVALID_INPUT,
    CINO_ERROR_RUNTIME_TRAP,
    CINO_ERROR_RUNTIME_PANIC,
    CINO_ERROR_ABI_NULL_POINTER,
    CINO_ERROR_ABI_INVALID_CBOR,
    CINO_ERROR_ABI_INVALID_HANDLE,
    CINO_ERROR_ABI_INTERNAL,
}

/// The number the host sees for each error code.
pub open spec fn error_number(c: cino_error_code_t) -> u32 {
    match c {
        cino_error_code_t::CINO_ERROR_RUNTIME_STEP_LIMIT_EXCEEDED => 1,
        cino_error_code_t::CINO_ERROR_RUNTIME_MEMORY_LIMIT_EXCEEDED => 2,
        cino_error_code_t::CINO_ERROR_RUNTIME_RECURSION_LIMIT_EXCEEDED => 3,
        cino_error_code_t::CINO_ERROR_RUNTIME_INVALID_INPUT => 4,
        cino_error_code_t::CINO_ERROR_RUNTIME_TRAP => 5,
        cino_error_code_t::CINO_ERROR_RUNTIME_PANIC => 6,
        cino_error_code_t::CINO_ERROR_ABI_NULL_POINTER => 101,
        cino_error_code_t::CINO_ERROR_ABI_INVALID_CBOR => 102,
        cino_error_code_t::CINO_ERROR_ABI_INVALID_HANDLE => 103,
        cino_error_code_t::CINO_ERROR_ABI_INTERNAL => 199,
    }
}

impl cino_error_code_t {
    pub fn value(&self) -> (r: u32)
        ensures
            r == error_number(*self),
    {
        match self {
            cino_error_code_t::CINO_ERROR_RUNTIME_STEP_LIMIT_EXCEEDED => 1,
            cino_error_code_t::CINO_ERROR_RUNTIME_MEMORY_LIMIT_EXCEEDED => 2,
            cino_error_code_t::CINO_ERROR_RUNTIME_RECURSION_LIMIT_EXCEEDED => 3,
            cino_error_code_t::CINO_ERROR_RUNTIME_INVALID_INPUT => 4,
            cino_error_code_t::CINO_ERROR_RUNTIME_TRAP => 5,
            cino_error_code_t::CINO_ERROR_RUNTIME_PANIC => 6,
            cino_error_code_t::CINO_ERROR_ABI_NULL_POINTER => 101,
            cino_error_code_t::CINO_ERROR_ABI_INVALID_CBOR => 102,
            cino_error_code_t::CINO_ERROR_ABI_INVALID_HANDLE => 103,
            cino_error_code_t::CINO_ERROR_ABI_INTERNAL => 199,
        }
    }
}

/// A program handle: the runtime of the counter program.
#[allow(non_camel_case_types)]
pub struct cino_program_t {
    pub runtime: Runtime<CounterProgram>,
}

/// A state handle.
#[allow(non_camel_case_types)]
pub struct cino_state_t {
    pub inner: StateHandle,
}

/// A value handle: the value's CBOR bytes.
#[allow(non_camel_case_types)]
pub struct cino_value_t {
    pub bytes: Vec<u8>,
}

/// An actions handle: the CBOR bytes of the list of actions.
#[allow(non_camel_case_types)]
pub struct cino_actions_t {
    pub bytes: Vec<u8>,
}

/// An error of the host interface.
#[derive(Debug)]
pub struct FfiError {
    pub code: cino_error_code_t,
    pub message: String,
}

impl FfiError {
    pub fn new(code: cino_error_code_t, message: &str) -> (e: Self)
        ensures
            e.code == code,
            e.message@ == message@,
    {
        FfiError { code, message: owned(message) }
    }

    /// The error for a null pointer passed as `name`.
    pub fn null_pointer(name: &str) -> (e: Self)
        ensures
            e.code == cino_error_code_t::CINO_ERROR_ABI_NULL_POINTER,
            e.message@ == "null pointer: "@ + name@,
    {
        let message = concat_str(owned("null pointer: "), name);
        FfiError { code: cino_error_code_t::CINO_ERROR_ABI_NULL_POINTER, message }
    }
}

/// The host error code of each runtime error code.
pub open spec fn host_code(c: RuntimeErrorCode) -> cino_error_code_t {
    match c {
        RuntimeErrorCode::StepLimitExceeded => cino_error_code_t::CINO_ERROR_RUNTIME_STEP_LIMIT_EXCEEDED,
        RuntimeErrorCode::MemoryLimitExceeded => cino_error_code_t::CINO_ERROR_RUNTIME_MEMORY_LIMIT_EXCEEDED,
        RuntimeErrorCode::RecursionLimitExceeded => cino_error_code_t::CINO_ERROR_RUNTIME_RECURSION_LIMIT_EXCEEDED,
        RuntimeErrorCode::InvalidInput => cino_error_code_t::CINO_ERROR_RUNTIME_INVALID_INPUT,
        RuntimeErrorCode::Trap => cino_error_code_t::CINO_ERROR_RUNTIME_TRAP,
        RuntimeErrorCode::Panic => cino_error_code_t::CINO_ERROR_RUNTIME_PANIC,
    }
}

/// A runtime error as the host sees it: its code mapped, its message kept.
pub fn map_runtime_error(error: RuntimeError) -> (e: FfiError)
    ensures
        e.code == host_code(error.code),
        e.message == error.message,
{
    let code = match error.code {
        RuntimeErrorCode::StepLimitExceeded => cino_error_code_t::CINO_ERROR_RUNTIME_STEP_LIMIT_EXCEEDED,
        RuntimeErrorCode::MemoryLimitExceeded => cino_error_code_t::CINO_ERROR_RUNTIME_MEMORY_LIMIT_EXCEEDED,
        RuntimeErrorCode::RecursionLimitExceeded => cino_error_code_t::CINO_ERROR_RUNTIME_RECURSION_LIMIT_EXCEEDED,
        RuntimeErrorCode::InvalidInput => cino_error_code_t::CINO_ERROR_RUNTIME_INVALID_INPUT,
        RuntimeErrorCode::Trap => cino_error_code_t::CINO_ERROR_RUNTIME_TRAP,
        RuntimeErrorCode::Panic => cino_error_code_t::CINO_ERROR_RUNTIME_PANIC,
    };
    FfiError { code, message: error.message }
}

// ---------------------------------------------------------------------------
// The counter program
// ---------------------------------------------------------------------------

/// A program whose state is a counter: an update adds an integer event to it and reports the
/// event as its one action; a query `true` reads the state, `false` reads nothing. A sum that
/// leaves `i64` is the failure the runtime reports for a program that panics.
pub struct CounterProgram;

impl VmProgram for CounterProgram {
    open spec fn update_ensures(&self, state: VmValue, event: VmValue, limits: VmLimits, r: Result<(VmValue, Vec<VmValue>), VmError>) -> bool {
        match (state, event) {
            (VmValue::Int(c), VmValue::Int(d)) => if i64::MIN <= c + d <= i64::MAX {
                r matches Ok((s, actions)) && s == VmValue::Int((c + d) as i64) && actions@ == seq![
                    VmValue::Int(d),
                ]
            } else {
                r matches Err(e) && e.code == VmErrorCode::Panic && e.message@ == "runtime converted panic to structured error"@
            },
            _ => r matches Err(e) && e.code == VmErrorCode::InvalidInput && e.message@ == "expected Int state/event"@,
        }
    }

    open spec fn query_ensures(&self, state: VmValue, query: VmValue, limits: VmLimits, r: Result<VmValue, VmError>) -> bool {
        match query {
            VmValue::Bool(true) => r matches Ok(v) && val(v) == val(state),
            VmValue::Bool(false) => r matches Ok(v) && v == VmValue::Unit,
            _ => r matches Err(e) && e.code == VmErrorCode::InvalidInput && e.message@ == "expected Bool query"@,
        }
    }

    fn update(&self, state: &VmValue, event: &VmValue, limits: &VmLimits) -> (r: Result<(VmValue, Vec<VmValue>), VmError>) {
        match (state, event) {
            (VmValue::Int(current), VmValue::Int(delta)) => match current.checked_add(*delta) {
                Some(next) => {
                    let mut actions: Vec<VmValue> = Vec::new();
                    actions.push(VmValue::Int(*delta));
                    Ok((VmValue::Int(next), actions))
                },
                None => Err(VmError::new(VmErrorCode::Panic, "runtime converted panic to structured error")),
            },
            _ => Err(VmError::new(VmErrorCode::InvalidInput, "expected Int state/event")),
        }
    }

    fn query(&self, state: &VmValue, query: &VmValue, limits: &VmLimits) -> (r: Result<VmValue, VmError>) {
        match query {
            VmValue::Bool(read_balance) => {
                if *read_balance {
                    Ok(crate::vm::value::copy_value(state))
                } else {
                    Ok(VmValue::Unit)
                }
            },
            _ => Err(VmError::new(VmErrorCode::InvalidInput, "expected Bool query")),
        }
    }
}

/// The counter program the host interface offers.
pub fn mock_counter_program() -> (p: CounterProgram)
    ensures
        p == CounterProgram,
{
    CounterProgram
}

/// A program handle for the counter program, with the default limits.
pub fn new_mock_counter() -> (p: cino_program_t)
    ensures
        p.runtime.config().limits == crate::vm::machine::default_limits(),
{
    let config = RuntimeConfig { limits: VmLimits::default() };
    cino_program_t { runtime: Runtime::with_config(mock_counter_program(), config) }
}

/// A value handle for the host's CBOR bytes: the value they stand for, written again in
/// canonical form. The handle's bytes stand for the same value (what the decoder accepts nests
/// at most 127 levels deep, which the encoder's bytes read back within), so they are canonical
/// already: writing them again gives them back, and a handle made from them holds them again.
pub fn value_new_from_cbor(bytes: &[u8]) -> (r: Result<cino_value_t, FfiError>)
    ensures
        r matches Ok(h) ==> host_decode(h.bytes@) == host_decode(bytes@),
        r matches Ok(h) ==> (host_decode(h.bytes@) matches Some(y) && host_encode(y) == Some(h.bytes@)),
        match (r, host_decode(bytes@)) {
            (Ok(h), Some(x)) => host_encode(x) == Some(h.bytes@),
            (Err(e), None) => e.code == cino_error_code_t::CINO_ERROR_ABI_INVALID_CBOR && decode_failure(
                bytes@,
                e.message@,
            ),
            (Err(e), Some(x)) => host_encode(x) is None && e.code == cino_error_code_t::CINO_ERROR_ABI_INTERNAL
                && encode_failure(e.message@),
            _ => false,
        },
{
    let decoded = decode_vm_value(bytes)?;
    let canonical = encode_vm_value(&decoded)?;
    Ok(cino_value_t { bytes: canonical })
}

/// A state handle holding the value a value handle stands for.
pub fn state_new(value: &cino_value_t) -> (r: Result<cino_state_t, FfiError>)
    ensures
        match (r, host_decode(value.bytes@)) {
            (Ok(s), Some(x)) => val(s.inner.value()) == x,
            (Err(e), None) => e.code == cino_error_code_t::CINO_ERROR_ABI_INVALID_CBOR && decode_failure(
                value.bytes@,
                e.message@,
            ),
            _ => false,
        },
{
    let vm_state = decode_vm_value(&value.bytes)?;
    Ok(cino_state_t { inner: StateHandle::from_value(vm_state) })
}

/// A value handle holding the canonical bytes of a state.
pub fn state_to_value(state: &cino_state_t) -> (r: Result<cino_value_t, FfiError>)
    ensures
        match (r, host_encode(val(state.inner.value()))) {
            (Ok(h), Some(b)) => h.bytes@ == b,
            (Err(e), None) => e.code == cino_error_code_t::CINO_ERROR_ABI_INTERNAL && encode_failure(e.message@),
            _ => false,
        },
{
    let bytes = encode_vm_value(state.inner.as_value())?;
    Ok(cino_value_t { bytes })
}

/// An update through a program handle: the event's bytes are decoded, the runtime runs the
/// update, and the next state comes back as a handle and the actions as the bytes of a list;
/// a runtime error comes back as a host error.
pub fn update(program: &cino_program_t, state: &cino_state_t, event: &cino_value_t) -> (r: Result<
    (cino_state_t, cino_actions_t),
    FfiError,
>)
    ensures
        match host_decode(event.bytes@) {
            None => r matches Err(e) && e.code == cino_error_code_t::CINO_ERROR_ABI_INVALID_CBOR && decode_failure(
                event.bytes@,
                e.message@,
            ),
            Some(x) => exists|ev: VmValue, o: Result<(VmValue, Vec<VmValue>), VmError>|
                val(ev) == x && #[trigger] program.runtime.program().update_ensures(
                    state.inner.value(),
                    ev,
                    program.runtime.config().limits,
                    o,
                ) && match (o, r) {
                    (Ok((s, actions)), Ok((h, a))) => h.inner.value() == s && host_encode(
                        val(VmValue::List(actions)),
                    ) == Some(a.bytes@),
                    (Ok((s, actions)), Err(fe)) => host_encode(val(VmValue::List(actions))) is None && fe.code
                        == cino_error_code_t::CINO_ERROR_ABI_INTERNAL && encode_failure(fe.message@),
                    (Err(e), Err(fe)) => fe.code == host_code(runtime_code(e.code)) && fe.message == e.message,
                    _ => false,
                },
        },
{
    let ev = decode_vm_value(&event.bytes)?;
    let updated = program.runtime.update(&state.inner, &ev);
    let ghost o = choose|o: Result<(VmValue, Vec<VmValue>), VmError>|
        #[trigger] program.runtime.program().update_ensures(
            state.inner.value(),
            ev,
            program.runtime.config().limits,
            o,
        ) && update_answer(o, updated);
    match updated {
        Ok(u) => {
            let list = VmValue::List(u.actions);
            let actions_bytes = match encode_vm_value(&list) {
                Ok(b) => b,
                Err(fe) => {
                    return Err(fe);
                },
            };
            Ok((cino_state_t { inner: u.state }, cino_actions_t { bytes: actions_bytes }))
        },
        Err(e) => Err(map_runtime_error(e)),
    }
}

/// A query through a program handle: the query's bytes are decoded, the runtime runs the query,
/// and its result comes back as a value handle; a runtime error comes back as a host error.
pub fn query(program: &cino_program_t, state: &cino_state_t, query_value: &cino_value_t) -> (r: Result<
    cino_value_t,
    FfiError,
>)
    ensures
        match host_decode(query_value.bytes@) {
            None => r matches Err(e) && e.code == cino_error_code_t::CINO_ERROR_ABI_INVALID_CBOR && decode_failure(
                query_value.bytes@,
                e.message@,
            ),
            Some(x) => exists|q: VmValue, o: Result<VmValue, VmError>|
                val(q) == x && #[trigger] program.runtime.program().query_ensures(
                    state.inner.value(),
                    q,
                    program.runtime.config().limits,
                    o,
                ) && match (o, r) {
                    (Ok(v), Ok(h)) => host_encode(val(v)) == Some(h.bytes@),
                    (Ok(v), Err(fe)) => host_encode(val(v)) is None && fe.code
                        == cino_error_code_t::CINO_ERROR_ABI_INTERNAL && encode_failure(fe.message@),
                    (Err(e), Err(fe)) => fe.code == host_code(runtime_code(e.code)) && fe.message == e.message,
                    _ => false,
                },
        },
{
    let q = decode_vm_value(&query_value.bytes)?;
    let result = program.runtime.query(&state.inner, &q);
    let ghost o = choose|o: Result<VmValue, VmError>|
        #[trigger] program.runtime.program().query_ensures(
            state.inner.value(),
            q,
            program.runtime.config().limits,
            o,
        ) && query_answer(o, result);
    match result {
        Ok(res) => {
            let bytes = encode_vm_value(&res.result)?;
            Ok(cino_value_t { bytes })
        },
        Err(e) => Err(map_runtime_error(e)),
    }
}

} // verus!
