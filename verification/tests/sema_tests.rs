use cino::sema::analyze;
use cino::syntax::parse_program;

#[test]
fn reports_forbidden_side_effect_and_fn_violation() {
    let src = r#"
fn side(n: Int) -> Int {
  now(n)
}
"#;

    let program = parse_program(src).expect("parse");
    let result = analyze(&program);
    assert!(result.diagnostics.iter().any(|d| d.code == "E-PURE-001"));
    assert!(result.diagnostics.iter().any(|d| d.code == "E-FN-002"));
}

#[test]
fn reports_return_statement_usage() {
    let src = r#"
fn bad_return(n: Int) -> Int {
  return n
}
"#;

    let program = parse_program(src).expect("parse");
    let result = analyze(&program);
    assert!(result.diagnostics.iter().any(|d| d.code == "E-FN-003"));
}

#[test]
fn reports_match_non_exhaustive_and_unreachable() {
    let src = r#"
enum E =
  | A { x: Int }
  | B { x: Int }

fn bad_match(e: E) -> Int {
  match e {
    A { x } => x
    A { x } => x + 1
  }
}

fn unreachable_arm(e: E) -> Int {
  match e {
    _ => 0
    B { x } => x
  }
}
"#;

    let program = parse_program(src).expect("parse");
    let result = analyze(&program);
    assert!(result.diagnostics.iter().any(|d| d.code == "E-MATCH-001"));
    assert!(result.diagnostics.iter().any(|d| d.code == "E-MATCH-002"));
}

#[test]
fn reports_update_signature_error() {
    let src = r#"
state S { value: Int }
record NotEvent { value: Int }

update(state: S, event: NotEvent) -> S {
  state
}
"#;

    let program = parse_program(src).expect("parse");
    let result = analyze(&program);
    assert!(result.diagnostics.iter().any(|d| d.code == "E-TYPE-004"));
}

#[test]
fn reports_match_guard_unsupported() {
    let src = r#"
enum E =
  | A

fn guarded(e: E) -> Int {
  match e {
    A if true => 1
  }
}
"#;

    let program = parse_program(src).expect("parse");
    let result = analyze(&program);
    assert!(result.diagnostics.iter().any(|d| d.code == "E-MATCH-003"));
}

#[test]
fn messages_name_types_as_debug_writes_them() {
    let src = r#"
fn g(a: Int) -> Int { a }
fn f(x: Bool) -> Int {
  let xs = [1, true]
  g(x)
}
fn h(y: Int) -> Bool { [y] }
"#;
    let program = parse_program(src).expect("parse");
    let messages: Vec<String> = analyze(&program).diagnostics.into_iter().map(|d| d.message).collect();
    assert!(messages.contains(&"list items must have same type, found Int and Bool".to_string()), "{messages:?}");
    assert!(messages.contains(&"argument 1 of `g` expects Int, got Bool".to_string()), "{messages:?}");
    assert!(
        messages.contains(&"function `h` returns Named { name: \"List\", args: [Int] } but declared Bool".to_string()),
        "{messages:?}"
    );
}

#[test]
fn arity_and_operator_messages() {
    let src = r#"
fn g(a: Int, b: Int) -> Int { a }
fn f(x: Bool) -> Int { g(1) + x }
"#;
    let program = parse_program(src).expect("parse");
    let messages: Vec<String> = analyze(&program).diagnostics.into_iter().map(|d| d.message).collect();
    assert!(messages.contains(&"function `g` expects 2 arguments, got 1".to_string()), "{messages:?}");
    assert!(messages.contains(&"binary operator `Add` requires Int operands".to_string()), "{messages:?}");
}

#[test]
fn recursive_factorial_with_integer_pattern_is_accepted() {
    let src = "fn fact(n: Int) -> Int {\n  match n {\n    0 => 1\n    _ => n * fact(n - 1)\n  }\n}";
    let program = parse_program(src).expect("parse");
    assert!(analyze(&program).is_ok());
}

#[test]
fn integer_pattern_needs_an_int_subject() {
    let src = "fn f(b: Bool) -> Int {\n  match b {\n    0 => 1\n    _ => 2\n  }\n}";
    let program = parse_program(src).expect("parse");
    let result = analyze(&program);
    let d = result.diagnostics.iter().find(|d| d.code == "E-TYPE-001").expect("E-TYPE-001");
    assert_eq!(d.message, "integer pattern requires Int subject");
    assert_eq!((d.line, d.column), (3, 5));
}

#[test]
fn match_is_exhaustive_when_every_variant_or_a_wildcard_is_named() {
    let header = "enum E =\n  | A { x: Int }\n  | B { x: Int }\n";
    let all = format!("{header}fn f(e: E) -> Int {{\n  match e {{\n    B {{ x }} => x\n    A {{ x }} => x\n  }}\n}}\n");
    let program = parse_program(&all).expect("parse");
    assert!(!analyze(&program).diagnostics.iter().any(|d| d.code == "E-MATCH-001"));

    let wildcard = format!("{header}fn f(e: E) -> Int {{\n  match e {{\n    A {{ x }} => x\n    _ => 0\n  }}\n}}\n");
    let program = parse_program(&wildcard).expect("parse");
    assert!(!analyze(&program).diagnostics.iter().any(|d| d.code == "E-MATCH-001"));

    let missing = format!("{header}fn f(e: E) -> Int {{\n  match e {{\n    A {{ x }} => x\n  }}\n}}\n");
    let program = parse_program(&missing).expect("parse");
    let result = analyze(&program);
    let d = result.diagnostics.iter().find(|d| d.code == "E-MATCH-001").expect("E-MATCH-001");
    assert_eq!((d.line, d.column), (5, 3));
}
