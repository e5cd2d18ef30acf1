use cino::ir::{
    lower_program, validate_program, Diagnostic, IrExpr, IrExprKind, IrFunction, IrParam, IrProgram, IrType,
    SourceLoc,
};
use cino::syntax::{parse_program, FnKind};

#[test]
fn lowers_minimum_sample_to_typed_ir() {
    let source = r#"
enum BillingEvent =
  | InvoiceIssued { amount: Int }
  | PaymentReceived { amount: Int }

fn score(event: BillingEvent) -> Int {
  match event {
    InvoiceIssued { amount } => amount + 1
    PaymentReceived { amount } => amount
  }
}
"#;
    let program = parse_program(source).expect("parse");
    let lowered = lower_program(&program);
    assert!(
        lowered.diagnostics.is_empty(),
        "unexpected diagnostics: {:?}",
        lowered.diagnostics
    );

    let ir = lowered.program.expect("ir program");
    assert_eq!(ir.functions.len(), 1);
    assert_eq!(ir.functions[0].kind, FnKind::User);
    assert_eq!(ir.functions[0].return_type, IrType::Int);
}

#[test]
fn validates_lowered_ir_consistency() {
    let source = r#"
enum E =
  | A { value: Int }
  | B { value: Int }

fn pick(e: E) -> Int {
  match e {
    A { value } => value
    B { value } => value + 1
  }
}
"#;
    let program = parse_program(source).expect("parse");
    let lowered = lower_program(&program);
    let ir = lowered.program.expect("ir program");
    assert!(validate_program(&ir).is_empty());
}

#[test]
fn reports_diagnostic_on_lowering_failure() {
    let source = r#"
fn bad(x: Int) -> Int {
  missing(x)
}
"#;
    let program = parse_program(source).expect("parse");
    let lowered = lower_program(&program);
    assert!(lowered.program.is_none());
    assert!(
        lowered
            .diagnostics
            .iter()
            .any(|d| d.code == "E-PURE-002" || d.code == "E-TYPE-002")
    );
}

#[test]
fn validator_detects_structural_ir_errors() {
    let ir = IrProgram {
        functions: vec![IrFunction {
            kind: FnKind::User,
            name: "bad".to_string(),
            params: vec![IrParam {
                name: "x".to_string(),
                ty: IrType::Int,
                span: SourceLoc { line: 1, column: 1 },
            }],
            return_type: IrType::Int,
            body: IrExpr {
                kind: IrExprKind::Bool(true),
                ty: IrType::Bool,
                span: SourceLoc { line: 1, column: 1 },
            },
            span: SourceLoc { line: 1, column: 1 },
        }],
    };

    let diagnostics = validate_program(&ir);
    assert!(!diagnostics.is_empty());
    assert!(
        diagnostics
            .iter()
            .any(|d: &Diagnostic| d.code == "E-IR-VAL-001")
    );
}

#[test]
fn validator_messages_name_types_as_debug_writes_them() {
    let loc = SourceLoc { line: 2, column: 3 };
    let ir = IrProgram {
        functions: vec![IrFunction {
            kind: FnKind::User,
            name: "bad".to_string(),
            params: vec![],
            return_type: IrType::Int,
            body: IrExpr {
                kind: IrExprKind::Tuple(vec![IrExpr { kind: IrExprKind::Int(1), ty: IrType::Int, span: loc }]),
                ty: IrType::Named { name: "List".to_string(), args: vec![IrType::Bool] },
                span: loc,
            },
            span: loc,
        }],
    };
    let messages: Vec<String> = validate_program(&ir).into_iter().map(|d| d.message).collect();
    assert_eq!(
        messages,
        vec![
            "function `bad` return type mismatch: body Named { name: \"List\", args: [Bool] }, declared Int".to_string(),
            "tuple expression type mismatch: expr Named { name: \"List\", args: [Bool] }, inferred Tuple([Int])".to_string(),
        ]
    );
}

#[test]
fn lowering_keeps_every_function_in_order() {
    let src = "enum T = | A\nfn g(a: Int, b: Int) -> Int { a + b }\nfn f(x: Int) -> Int { g(x, 1) }";
    let program = parse_program(src).expect("parse");
    let ir = lower_program(&program).program.expect("ir");
    let names: Vec<&str> = ir.functions.iter().map(|f| f.name.as_str()).collect();
    assert_eq!(names, vec!["g", "f"]);
    let params: Vec<&str> = ir.functions[0].params.iter().map(|p| p.name.as_str()).collect();
    assert_eq!(params, vec!["a", "b"]);
    assert_eq!(ir.functions[1].kind, FnKind::User);
}

#[test]
fn one_return_type_finding_per_mismatched_function() {
    let function = |name: &str, ret: IrType, line: usize| IrFunction {
        kind: FnKind::User,
        name: name.to_string(),
        params: vec![],
        return_type: ret,
        body: IrExpr { kind: IrExprKind::Bool(true), ty: IrType::Bool, span: SourceLoc { line, column: 9 } },
        span: SourceLoc { line, column: 1 },
    };
    let ir = IrProgram {
        functions: vec![
            function("a", IrType::Int, 1),
            function("b", IrType::Bool, 2),
            function("c", IrType::Int, 3),
        ],
    };
    let found: Vec<(usize, usize)> = validate_program(&ir)
        .iter()
        .filter(|d| d.code == "E-IR-VAL-001")
        .map(|d| (d.line, d.column))
        .collect();
    assert_eq!(found, vec![(1, 1), (3, 1)]);
}
