use vstd::prelude::*;
use crate::vm::machine::{default_limits, VmError, VmErrorCode, VmLimits, VmProgram};
use crate::vm::value::VmValue;

verus! {

/// Host-side settings of a runtime.
#[derive(Debug, Clone, Copy, PartialEq, Eq, Structural)]
pub struct RuntimeConfig {
    pub limits: VmLimits,
}

impl Default for RuntimeConfig {
    fn default() -> (r: Self)
        ensures
            r.limits == default_limits(),
    {
        RuntimeConfig { limits: VmLimits::default() }
    }
}

#[derive(Debug, Clone, Copy, PartialEq, Eq, Structural)]
pub enum RuntimeErrorCode {
    StepLimitExceeded,
    MemoryLimitExceeded,
    RecursionLimitExceeded,
    InvalidInput,
    Trap,
    Panic,
}

/// The runtime code that stands for a VM error code.
pub open spec fn runtime_code(code: VmErrorCode) -> RuntimeErrorCode {
    match code {
        VmErrorCode::StepLimitExceeded => RuntimeErrorCode::StepLimitExceeded,
        VmErrorCode::MemoryLimitExceeded => RuntimeErrorCode::MemoryLimitExceeded,
        VmErrorCode::RecursionLimitExceeded => RuntimeErrorCode::RecursionLimitExceeded,
        VmErrorCode::InvalidInput => RuntimeErrorCode::InvalidInput,
        VmErrorCode::Trap => RuntimeErrorCode::Trap,
        VmErrorCode::Panic => RuntimeErrorCode::Panic,
    }
}

fn map_error_code(code: VmErrorCode) -> (r: RuntimeErrorCode)
    ensures
        r == runtime_code(code),
{
    match code {
        VmErrorCode::StepLimitExceeded => RuntimeErrorCode::StepLimitExceeded,
        VmErrorCode::MemoryLimitExceeded => RuntimeErrorCode::MemoryLimitExceeded,
        VmErrorCode::RecursionLimitExceeded => RuntimeErrorCode::RecursionLimitExceeded,
        VmErrorCode::InvalidInput => RuntimeErrorCode::InvalidInput,
        VmErrorCode::Trap => RuntimeErrorCode::Trap,
        VmErrorCode::Panic => RuntimeErrorCode::Panic,
    }
}

#[derive(Debug, Clone, PartialEq, Eq)]
pub struct RuntimeError {
    pub code: RuntimeErrorCode,
    pub message: String,
}

/// The runtime error that reports a VM error: same kind, same message.
pub open spec fn runtime_error(e: VmError) -> RuntimeError {
    RuntimeError { code: runtime_code(e.code), message: e.message }
}

impl RuntimeError {
    fn from_vm_error(error: VmError) -> (r: Self)
        ensures
            r == runtime_error(error),
    {
        RuntimeError { code: map_error_code(error.code), message: error.message }
    }
}

/// A state held by the host; its value is not exposed.
#[derive(Debug, PartialEq, Eq)]
pub struct StateHandle {
    inner: VmValue,
}

impl StateHandle {
    /// The state value behind the handle.
    pub closed spec fn value(&self) -> VmValue {
        self.inner
    }

    pub fn from_value(value: VmValue) -> (h: Self)
        ensures
            h.value() == value,
    {
        StateHandle { inner: value }
    }

    /// The state value behind the handle.
    pub fn as_value(&self) -> (r: &VmValue)
        ensures
            *r == self.value(),
    {
        &self.inner
    }
}

/// The next state and the actions of an update.
#[derive(Debug, PartialEq, Eq)]
pub struct UpdateResult {
    pub state: StateHandle,
    pub actions: Vec<VmValue>,
}

#[derive(Debug, PartialEq, Eq)]
pub struct QueryResult {
    pub result: VmValue,
}

/// Whether `r` is what an update of the runtime answers when the program answered `o`.
pub open spec fn update_answer(o: Result<(VmValue, Vec<VmValue>), VmError>, r: Result<UpdateResult, RuntimeError>) -> bool {
    match (o, r) {
        (Ok((s, actions)), Ok(u)) => u.state.value() == s && u.actions == actions,
        (Err(e), Err(re)) => re == runtime_error(e),
        _ => false,
    }
}

/// Whether `r` is what a query of the runtime answers when the program answered `o`.
pub open spec fn query_answer(o: Result<VmValue, VmError>, r: Result<QueryResult, RuntimeError>) -> bool {
    match (o, r) {
        (Ok(v), Ok(q)) => q.result == v,
        (Err(e), Err(re)) => re == runtime_error(e),
        _ => false,
    }
}

/// Runs update and query calls of one program under fixed limits.
pub struct Runtime<P: VmProgram> {
    program: P,
    config: RuntimeConfig,
}

impl<P: VmProgram> Runtime<P> {
    pub closed spec fn program(&self) -> P {
        self.program
    }

    pub closed spec fn config(&self) -> RuntimeConfig {
        self.config
    }

    /// A runtime with the default limits.
    pub fn new(program: P) -> (rt: Self)
        ensures
            rt.program() == program,
            rt.config().limits == default_limits(),
    {
        Runtime { program, config: RuntimeConfig::default() }
    }

    pub fn with_config(program: P, config: RuntimeConfig) -> (rt: Self)
        ensures
            rt.program() == program,
            rt.config() == config,
    {
        Runtime { program, config }
    }

    /// Hands the state and event to the program under the runtime's limits; a program error
    /// comes back as a runtime error with the same kind and message.
    pub fn update(&self, state: &StateHandle, event: &VmValue) -> (r: Result<UpdateResult, RuntimeError>)
        ensures
            exists|o: Result<(VmValue, Vec<VmValue>), VmError>|
                #[trigger] self.program().update_ensures(state.value(), *event, self.config().limits, o)
                    && update_answer(o, r),
    {
        let o = self.program.update(&state.inner, event, &self.config.limits);
        let ghost og = o;
        let r = match o {
            Ok((next_state, actions)) => Ok(UpdateResult { state: StateHandle::from_value(next_state), actions }),
            Err(e) => Err(RuntimeError::from_vm_error(e)),
        };
        assert(self.program().update_ensures(state.value(), *event, self.config().limits, og) && update_answer(og, r));
        r
    }

    /// Hands the state and query to the program under the runtime's limits.
    pub fn query(&self, state: &StateHandle, query: &VmValue) -> (r: Result<QueryResult, RuntimeError>)
        ensures
            exists|o: Result<VmValue, VmError>|
                #[trigger] self.program().query_ensures(state.value(), *query, self.config().limits, o)
                    && query_answer(o, r),
    {
        let o = self.program.query(&state.inner, query, &self.config.limits);
        let ghost og = o;
        let r = match o {
            Ok(v) => Ok(QueryResult { result: v }),
            Err(e) => Err(RuntimeError::from_vm_error(e)),
        };
        assert(self.program().query_ensures(state.value(), *query, self.config().limits, og) && query_answer(og, r));
        r
    }
}

/// Name of this layer.
pub fn crate_name() -> (r: &'static str)
    ensures
        r@ == "cino-runtime"@,
{
    "cino-runtime"
}

} // verus!
