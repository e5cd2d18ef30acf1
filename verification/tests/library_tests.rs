use cino::docgen::render_spec_markdown;
use cino::ffi::{
    map_runtime_error, new_mock_counter, cino_error_code_t, cino_state_t, cino_status_t, cino_value_t,
    query, state_new, state_to_value, update, value_new_from_cbor, FfiError,
};
use cino::ir::{lower_program, validate_program};
use cino::json::{json_to_vm_value, vm_value_to_json, Json};
use cino::runtime::{Runtime, RuntimeConfig, RuntimeError, RuntimeErrorCode, StateHandle};
use cino::sema::analyze;
use cino::syntax::parse_program;
use cino::vm::{IrVmProgram, VmError, VmErrorCode, VmLimits, VmProgram, VmValue};

const SMOKE: &str = "enum Action = | A\nenum Result<T, E> = | Ok { v: T } | Err { e: E }\nevent E = | Ev\nquery Q = | Qu\nupdate(s: Int, e: E) -> (Int, List<Action>) { (s, []) }\nquery(s: Int, q: Q) -> Result<Int, Int> { Ok { v: s } }";

fn smoke_vm() -> IrVmProgram {
    let program = parse_program(SMOKE).expect("parse");
    let lowered = lower_program(&program);
    assert!(lowered.diagnostics.is_empty(), "{:?}", lowered.diagnostics);
    let ir = lowered.program.expect("ir program");
    assert!(validate_program(&ir).is_empty());
    IrVmProgram::from_ir(ir).expect("vm")
}

fn ev() -> VmValue {
    VmValue::Enum { tag: "Ev".to_string(), fields: vec![] }
}

fn qu() -> VmValue {
    VmValue::Enum { tag: "Qu".to_string(), fields: vec![] }
}

fn member<'a>(json: &'a Json, key: &str) -> &'a Json {
    match json {
        Json::Object(ms) => &ms.iter().find(|(k, _)| k == key).expect("member").1,
        other => panic!("not an object: {other:?}"),
    }
}

#[test]
fn smoke_program_checks_runs_and_documents() {
    let program = parse_program(SMOKE).expect("parse");
    assert!(analyze(&program).is_ok());

    let vm = smoke_vm();
    let (next_state, actions) = vm.update(&VmValue::Int(0), &ev(), &VmLimits::default()).expect("update");
    assert_eq!(vm_value_to_json(&next_state), Json::Number(Some(0)));
    assert!(actions.is_empty());

    let result = vm.query(&VmValue::Int(42), &qu(), &VmLimits::default()).expect("query");
    let json = vm_value_to_json(&result);
    assert_eq!(member(&json, "$tag"), &Json::String("Ok".to_string()));
    assert_eq!(member(member(&json, "$fields"), "v"), &Json::Number(Some(42)));

    let md = render_spec_markdown(&program);
    assert_eq!(
        md,
        "# cino Specification\n\n## Top-level Declarations\n\n- **Type**: Action\n- **Type**: Result\n- **Type**: E\n- **Type**: Q\n- **Function**: update (Update)\n- **Function**: query (Query)\n"
    );
}

#[test]
fn docgen_of_empty_program_is_the_heading() {
    let program = parse_program("").expect("parse");
    assert_eq!(
        render_spec_markdown(&program),
        "# cino Specification\n\n## Top-level Declarations\n\n"
    );
}

#[test]
fn update_is_deterministic_for_equal_inputs() {
    let vm = smoke_vm();
    let first = vm.update(&VmValue::Int(5), &ev(), &VmLimits::default()).expect("first");
    let second = vm.update(&VmValue::Int(5), &ev(), &VmLimits::default()).expect("second");
    assert_eq!(first, second);
}

#[test]
fn no_steps_means_step_limit_exceeded() {
    let vm = smoke_vm();
    let limits = VmLimits { max_steps: 0, max_memory_bytes: 1 << 20, max_recursion_depth: 8 };
    let err = vm.update(&VmValue::Int(0), &ev(), &limits).expect_err("must fail");
    assert_eq!(err.code, VmErrorCode::StepLimitExceeded);
    let err = vm.query(&VmValue::Int(0), &qu(), &limits).expect_err("must fail");
    assert_eq!(err.code, VmErrorCode::StepLimitExceeded);
}

#[test]
fn no_depth_means_recursion_limit_exceeded() {
    let vm = smoke_vm();
    let limits = VmLimits { max_steps: 1000, max_memory_bytes: 1 << 20, max_recursion_depth: 0 };
    let err = vm.update(&VmValue::Int(0), &ev(), &limits).expect_err("must fail");
    assert_eq!(err.code, VmErrorCode::RecursionLimitExceeded);
    let err = vm.query(&VmValue::Int(0), &qu(), &limits).expect_err("must fail");
    assert_eq!(err.code, VmErrorCode::RecursionLimitExceeded);
}

#[test]
fn vm_without_entry_points_is_invalid_input() {
    let program = parse_program("fn f(x: Int) -> Int { x }").expect("parse");
    let ir = lower_program(&program).program.expect("ir");
    let err = IrVmProgram::from_ir(ir).err().expect("must fail");
    assert_eq!(err.code, VmErrorCode::InvalidInput);
}

#[test]
fn lowering_gives_a_program_exactly_when_clean() {
    let good = parse_program("fn f(x: Int) -> Int { x + 1 }").expect("parse");
    let lowered = lower_program(&good);
    assert!(lowered.diagnostics.is_empty());
    assert!(validate_program(&lowered.program.expect("program")).is_empty());

    let bad = parse_program("fn f(x: Int) -> Bool { x }").expect("parse");
    let lowered = lower_program(&bad);
    assert!(!lowered.diagnostics.is_empty());
    assert!(lowered.program.is_none());
}

#[test]
fn lexer_reports_unexpected_character() {
    let err = parse_program("fn f(x: Int) -> Int { x # 1 }").expect_err("must fail");
    assert_eq!(err.position.line, 1);
    assert_eq!(err.position.column, 25);
}

#[test]
fn json_round_trips_runtime_values() {
    let value = VmValue::Tuple(vec![
        VmValue::Int(-3),
        VmValue::Enum {
            tag: "Paid".to_string(),
            fields: vec![("amount".to_string(), VmValue::Int(10))],
        },
        VmValue::Dict(vec![("k".to_string(), VmValue::Bool(false))]),
        VmValue::List(vec![VmValue::Unit, VmValue::String("s".to_string())]),
    ]);
    let json = vm_value_to_json(&value);
    assert_eq!(json_to_vm_value(&json).expect("back"), value);
}

#[test]
fn json_errors_are_reported() {
    assert_eq!(
        json_to_vm_value(&Json::Number(None)).unwrap_err(),
        "Invalid number: only i64 is supported for now"
    );
    let bad_tuple = Json::Object(vec![("$tuple".to_string(), Json::Null)]);
    assert_eq!(json_to_vm_value(&bad_tuple).unwrap_err(), "$tuple must be an array");
    let bad_tag = Json::Object(vec![
        ("$fields".to_string(), Json::Object(vec![])),
        ("$tag".to_string(), Json::Bool(true)),
    ]);
    assert_eq!(json_to_vm_value(&bad_tag).unwrap_err(), "$tag must be a string");
    let bad_fields = Json::Object(vec![
        ("$fields".to_string(), Json::Null),
        ("$tag".to_string(), Json::String("T".to_string())),
    ]);
    assert_eq!(json_to_vm_value(&bad_fields).unwrap_err(), "$fields must be an object");
}

#[test]
fn json_object_keys_are_sorted_into_a_map() {
    let obj = Json::Object(vec![
        ("b".to_string(), Json::Number(Some(2))),
        ("a".to_string(), Json::Number(Some(1))),
    ]);
    assert_eq!(
        json_to_vm_value(&obj).expect("map"),
        VmValue::Dict(vec![
            ("a".to_string(), VmValue::Int(1)),
            ("b".to_string(), VmValue::Int(2)),
        ])
    );
}

#[test]
fn value_new_from_cbor_rejects_invalid_bytes() {
    let err = value_new_from_cbor(&[0xff]).err().expect("must fail");
    assert_eq!(err.code, cino_error_code_t::CINO_ERROR_ABI_INVALID_CBOR);
    assert!(err.message.starts_with("failed to decode CBOR: "));
}

#[test]
fn can_run_update_query_from_ffi_handles() {
    let program = new_mock_counter();
    let initial_value = value_new_from_cbor(&[0x0a]).expect("initial value");
    let state = state_new(&initial_value).expect("state");
    let event = value_new_from_cbor(&[0x07]).expect("event");
    let (next_state, actions) = update(&program, &state, &event).expect("update");
    let query_value = value_new_from_cbor(&[0xf5]).expect("query");
    let result = query(&program, &next_state, &query_value).expect("query");
    assert_eq!(result.bytes, vec![0x11]);
    assert_eq!(actions.bytes, vec![0x81, 0x07]);
    assert_eq!(state_to_value(&next_state).expect("state value").bytes, vec![0x11]);
}

#[test]
fn host_bytes_are_written_in_canonical_order() {
    // an enum value: serde_cbor keeps `$tag` before `$fields` (shorter keys first)
    let value = VmValue::Enum {
        tag: "E".to_string(),
        fields: vec![("bb".to_string(), VmValue::Int(1)), ("c".to_string(), VmValue::Int(2))],
    };
    let bytes = cino::host_cbor::encode_vm_value(&value).expect("encode");
    let mut expected = vec![0xa2, 0x64, b'$', b't', b'a', b'g', 0x61, b'E'];
    expected.extend_from_slice(&[0x67, b'$', b'f', b'i', b'e', b'l', b'd', b's']);
    expected.extend_from_slice(&[0xa2, 0x61, b'c', 0x02, 0x62, b'b', b'b', 0x01]);
    assert_eq!(bytes, expected);
    assert_eq!(cino::host_cbor::decode_vm_value(&bytes).expect("decode"), value);

    // a value handle made from non-canonical bytes holds the canonical ones
    let mut reordered = vec![0xa2, 0x67, b'$', b'f', b'i', b'e', b'l', b'd', b's'];
    reordered.extend_from_slice(&[0xa2, 0x62, b'b', b'b', 0x01, 0x61, b'c', 0x02]);
    reordered.extend_from_slice(&[0x64, b'$', b't', b'a', b'g', 0x61, b'E']);
    assert_eq!(value_new_from_cbor(&reordered).expect("value").bytes, expected);
    // canonical bytes are kept as they are
    assert_eq!(value_new_from_cbor(&expected).expect("value").bytes, expected);
}

#[test]
fn host_decoding_reports_invalid_values() {
    let invalid = |bytes: &[u8]| {
        let err = cino::host_cbor::decode_vm_value(bytes).err().expect("must fail");
        assert_eq!(err.code, cino_error_code_t::CINO_ERROR_ABI_INVALID_CBOR);
        err.message
    };
    // a float
    assert_eq!(invalid(&[0xf9, 0x3c, 0x00]), "unsupported CBOR type for VmValue");
    // `$tag` without `$fields`
    assert_eq!(invalid(&[0xa1, 0x64, b'$', b't', b'a', b'g', 0x61, b'E']), "enum map is missing `$fields`");
    // `$tuple` that is not an array
    assert_eq!(invalid(&[0xa1, 0x66, b'$', b't', b'u', b'p', b'l', b'e', 0x01]), "`$tuple` must be an array");
    // a map with an integer key
    assert_eq!(invalid(&[0xa1, 0x01, 0x02]), "map key must be text");
    // a `$fields` map alone is a plain map at the host interface
    let plain = cino::host_cbor::decode_vm_value(&[0xa1, 0x67, b'$', b'f', b'i', b'e', b'l', b'd', b's', 0xa0])
        .expect("plain map");
    assert_eq!(plain, VmValue::Dict(vec![("$fields".to_string(), VmValue::Dict(vec![]))]));
}

#[test]
fn ffi_counter_rejects_wrong_inputs() {
    let program = new_mock_counter();
    let state = state_new(&value_new_from_cbor(&[0x01]).expect("one")).expect("state");
    let truth = value_new_from_cbor(&[0xf5]).expect("true");
    let one = value_new_from_cbor(&[0x01]).expect("one");
    let err = update(&program, &state, &truth).err().expect("must fail");
    assert_eq!(err.code, cino_error_code_t::CINO_ERROR_RUNTIME_INVALID_INPUT);
    assert_eq!(err.message, "expected Int state/event");
    let err = query(&program, &state, &one).err().expect("must fail");
    assert_eq!(err.code, cino_error_code_t::CINO_ERROR_RUNTIME_INVALID_INPUT);
    assert_eq!(err.message, "expected Bool query");
    let full = cino_state_t { inner: StateHandle::from_value(VmValue::Int(i64::MAX)) };
    let err = update(&program, &full, &one).err().expect("must fail");
    assert_eq!(err.code, cino_error_code_t::CINO_ERROR_RUNTIME_PANIC);
    assert_eq!(err.message, "runtime converted panic to structured error");
    let bad = cino_value_t { bytes: vec![0xff] };
    let err = update(&program, &state, &bad).err().expect("must fail");
    assert_eq!(err.code, cino_error_code_t::CINO_ERROR_ABI_INVALID_CBOR);
}

#[test]
fn host_codes_and_errors() {
    assert_eq!(cino_status_t::CINO_STATUS_OK.value(), 0);
    assert_eq!(cino_status_t::CINO_STATUS_ERR.value(), 1);
    assert_eq!(cino_error_code_t::CINO_ERROR_RUNTIME_STEP_LIMIT_EXCEEDED.value(), 1);
    assert_eq!(cino_error_code_t::CINO_ERROR_ABI_INVALID_CBOR.value(), 102);
    assert_eq!(cino_error_code_t::CINO_ERROR_ABI_INTERNAL.value(), 199);
    let e = FfiError::null_pointer("out_state");
    assert_eq!(e.code, cino_error_code_t::CINO_ERROR_ABI_NULL_POINTER);
    assert_eq!(e.message, "null pointer: out_state");
    let mapped = map_runtime_error(RuntimeError {
        code: RuntimeErrorCode::Trap,
        message: "boom".to_string(),
    });
    assert_eq!(mapped.code, cino_error_code_t::CINO_ERROR_RUNTIME_TRAP);
    assert_eq!(mapped.message, "boom");
}

#[test]
fn runtime_maps_each_vm_error_code() {
    let cases = [
        (VmErrorCode::MemoryLimitExceeded, RuntimeErrorCode::MemoryLimitExceeded),
        (VmErrorCode::RecursionLimitExceeded, RuntimeErrorCode::RecursionLimitExceeded),
        (VmErrorCode::InvalidInput, RuntimeErrorCode::InvalidInput),
        (VmErrorCode::Trap, RuntimeErrorCode::Trap),
        (VmErrorCode::Panic, RuntimeErrorCode::Panic),
    ];
    for (vm_code, runtime_code) in cases {
        let program = cino::vm::NativeProgram::new(
            move |_s: &VmValue, _e: &VmValue, _l: &VmLimits| Err(VmError::new(vm_code, "x")),
            move |_s: &VmValue, _q: &VmValue, _l: &VmLimits| Err(VmError::new(vm_code, "y")),
        );
        let runtime = Runtime::with_config(program, RuntimeConfig::default());
        let state = StateHandle::from_value(VmValue::Unit);
        let err = runtime.update(&state, &VmValue::Unit).expect_err("update fails");
        assert_eq!(err.code, runtime_code);
        assert_eq!(err.message, "x");
        let err = runtime.query(&state, &VmValue::Unit).expect_err("query fails");
        assert_eq!(err.code, runtime_code);
        assert_eq!(err.message, "y");
    }
}

#[test]
fn default_limits_match_documented_values() {
    let limits = VmLimits::default();
    assert_eq!(limits.max_steps, 100_000);
    assert_eq!(limits.max_memory_bytes, 67_108_864);
    assert_eq!(limits.max_recursion_depth, 256);
    assert_eq!(RuntimeConfig::default().limits, limits);
    assert_eq!(cino::vm::crate_name(), "cino-vm");
    assert_eq!(cino::ir::crate_name(), "cino-ir");
}

#[test]
fn integer_patterns_select_arms_at_run_time() {
    let src = "enum Action = | A\nenum Result<T, E> = | Ok { v: T } | Err { e: E }\nevent E = | Ev\nquery Q = | Qu\nfn fact(n: Int) -> Int {\n  match n {\n    0 => 1\n    _ => n * fact(n - 1)\n  }\n}\nupdate(s: Int, e: E) -> (Int, List<Action>) { (s, []) }\nquery(s: Int, q: Q) -> Result<Int, Int> { Ok { v: fact(s) } }";
    let program = parse_program(src).expect("parse");
    assert!(analyze(&program).is_ok());
    let lowered = lower_program(&program);
    assert!(lowered.diagnostics.is_empty(), "{:?}", lowered.diagnostics);
    let ir = lowered.program.expect("ir program");
    assert!(validate_program(&ir).is_empty());
    let vm = IrVmProgram::from_ir(ir).expect("vm");
    let result = vm.query(&VmValue::Int(5), &qu(), &VmLimits::default()).expect("query");
    let json = vm_value_to_json(&result);
    assert_eq!(member(member(&json, "$fields"), "v"), &Json::Number(Some(120)));
    let result = vm.query(&VmValue::Int(0), &qu(), &VmLimits::default()).expect("query");
    let json = vm_value_to_json(&result);
    assert_eq!(member(member(&json, "$fields"), "v"), &Json::Number(Some(1)));
}

#[test]
fn json_text_is_read_into_documents() {
    let doc = cino::json_text::parse_json_text("{\"b\": 1, \"a\": [true, null, 1.5, \"x\"]}").expect("parse");
    assert_eq!(
        doc,
        Json::Object(vec![
            (
                "a".to_string(),
                Json::Array(vec![Json::Bool(true), Json::Null, Json::Number(None), Json::String("x".to_string())])
            ),
            ("b".to_string(), Json::Number(Some(1))),
        ])
    );
    assert!(cino::json_text::parse_json_text("{\"a\": ").is_err());
    assert_eq!(json_to_vm_value(&cino::json_text::parse_json_text("-7").expect("parse")), Ok(VmValue::Int(-7)));
}

#[test]
fn value_handles_are_canonical_and_stable() {
    let first = value_new_from_cbor(&[0x0a]).expect("ten");
    assert_eq!(first.bytes, vec![0x0a]);
    let again = value_new_from_cbor(&first.bytes).expect("again");
    assert_eq!(again.bytes, first.bytes);
    // the host decoder accepts at most 127 nested arrays
    let mut deep = vec![0x81u8; 127];
    deep.push(0x01);
    let handle = value_new_from_cbor(&deep).expect("127 levels");
    assert_eq!(value_new_from_cbor(&handle.bytes).expect("again").bytes, handle.bytes);
    let mut deeper = vec![0x81u8; 128];
    deeper.push(0x01);
    let err = value_new_from_cbor(&deeper).err().expect("128 levels are refused");
    assert_eq!(err.code, cino_error_code_t::CINO_ERROR_ABI_INVALID_CBOR);
}
