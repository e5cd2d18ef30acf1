use std::sync::{
    atomic::{AtomicUsize, Ordering},
    Arc,
};

use cino::runtime::{Runtime, RuntimeErrorCode, StateHandle};
use cino::vm::{NativeProgram, VmError, VmErrorCode, VmLimits, VmValue};

struct DropCounter(Arc<AtomicUsize>);

impl Drop for DropCounter {
    fn drop(&mut self) {
        self.0.fetch_add(1, Ordering::SeqCst);
    }
}

#[test]
fn sync_update_and_query_api_work() {
    let program = NativeProgram::new(
        |state: &VmValue, event: &VmValue, _limits: &VmLimits| {
            let (VmValue::Int(current), VmValue::Int(delta)) = (state, event) else {
                return Err(VmError::new(
                    VmErrorCode::InvalidInput,
                    "expected Int state/event",
                ));
            };
            Ok((VmValue::Int(current + delta), vec![VmValue::Int(*delta)]))
        },
        |state: &VmValue, query: &VmValue, _limits: &VmLimits| {
            let VmValue::Bool(read_balance) = query else {
                return Err(VmError::new(
                    VmErrorCode::InvalidInput,
                    "expected Bool query",
                ));
            };
            if *read_balance {
                Ok(state.clone())
            } else {
                Ok(VmValue::Unit)
            }
        },
    );

    let runtime = Runtime::new(program);
    let state = StateHandle::from_value(VmValue::Int(10));

    let updated = runtime
        .update(&state, &VmValue::Int(7))
        .expect("update should succeed");
    assert_eq!(updated.state, StateHandle::from_value(VmValue::Int(17)));
    assert_eq!(updated.actions, vec![VmValue::Int(7)]);

    let queried = runtime
        .query(&updated.state, &VmValue::Bool(true))
        .expect("query should succeed");
    assert_eq!(queried.result, VmValue::Int(17));
}

#[test]
fn runtime_converts_vm_error_without_panicking() {
    let program = NativeProgram::new(
        |_state: &VmValue, _event: &VmValue, _limits: &VmLimits| {
            Err(VmError::new(
                VmErrorCode::StepLimitExceeded,
                "step budget exceeded",
            ))
        },
        |_state: &VmValue, _query: &VmValue, _limits: &VmLimits| Ok(VmValue::Unit),
    );

    let runtime = Runtime::new(program);
    let state = StateHandle::from_value(VmValue::Unit);

    let error = runtime
        .update(&state, &VmValue::Unit)
        .expect_err("update should fail");
    assert_eq!(error.code, RuntimeErrorCode::StepLimitExceeded);
    assert_eq!(error.message, "step budget exceeded");
}

#[test]
fn runtime_does_not_keep_call_scoped_temporaries() {
    let dropped = Arc::new(AtomicUsize::new(0));
    let dropped_in_update = Arc::clone(&dropped);
    let program = NativeProgram::new(
        move |state: &VmValue, _event: &VmValue, _limits: &VmLimits| {
            let _temporary = DropCounter(Arc::clone(&dropped_in_update));
            Ok((state.clone(), vec![]))
        },
        |state: &VmValue, _query: &VmValue, _limits: &VmLimits| Ok(state.clone()),
    );

    let runtime = Runtime::new(program);
    let state = StateHandle::from_value(VmValue::Unit);

    runtime
        .update(&state, &VmValue::Unit)
        .expect("update should succeed");
    assert_eq!(dropped.load(Ordering::SeqCst), 1);
}
