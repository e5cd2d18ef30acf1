use cino::syntax::lexer::Lexer;
use cino::syntax::token::TokenKind;
use cino::syntax::{parse_program, BinaryOp, ExprKind, FnKind, PatternKind, TopDecl, TypeDeclKind};

#[test]
fn parse_core_decls_and_match() {
    let src = r#"
state BillingState {
  balance: Int
}

event BillingEvent =
  | InvoiceIssued { amount: Int }
  | PaymentReceived { amount: Int }

update(state: BillingState, event: BillingEvent) -> (BillingState, List<Action>) {
  match event {
    InvoiceIssued { amount } => (state, noop(amount))
    PaymentReceived { amount } => (state, noop(amount))
  }
}
"#;

    let program = parse_program(src).expect("parses");
    assert_eq!(program.decls.len(), 3);

    match &program.decls[0] {
        TopDecl::Type(td) => assert!(matches!(td.kind, TypeDeclKind::State(_))),
        _ => panic!("expected type decl"),
    }

    match &program.decls[1] {
        TopDecl::Type(td) => assert!(matches!(td.kind, TypeDeclKind::Event(_))),
        _ => panic!("expected type decl"),
    }

    let func = match &program.decls[2] {
        TopDecl::Function(f) => f,
        _ => panic!("expected function"),
    };
    assert_eq!(func.kind, FnKind::Update);
    let tail = func.body.tail.as_ref().expect("tail");
    match &tail.kind {
        ExprKind::Match(m) => {
            assert_eq!(m.arms.len(), 2);
            assert!(matches!(
                m.arms[0].pattern.kind,
                PatternKind::Variant { .. }
            ));
        }
        other => panic!("unexpected tail: {other:?}"),
    }
}

#[test]
fn parse_query_declaration_and_query_function() {
    let src = r#"
query BillingQuery =
  | CurrentBalance

query(state: BillingState, q: BillingQuery) -> Result<Int, DomainError> {
  1
}
"#;
    let program = parse_program(src).expect("parses");
    assert_eq!(program.decls.len(), 2);

    match &program.decls[0] {
        TopDecl::Type(td) => assert!(matches!(td.kind, TypeDeclKind::Query(_))),
        _ => panic!("expected query type decl"),
    }

    match &program.decls[1] {
        TopDecl::Function(f) => assert_eq!(f.kind, FnKind::Query),
        _ => panic!("expected query function"),
    }
}

#[test]
fn parse_match_guard_ast() {
    let src = r#"
fn test(x: Int) -> Int {
  match x {
    _ if true => 1
  }
}
"#;
    let program = parse_program(src).expect("parses");
    let func = match &program.decls[0] {
        TopDecl::Function(f) => f,
        _ => panic!("expected fn"),
    };
    let tail = func.body.tail.as_ref().expect("tail");
    match &tail.kind {
        ExprKind::Match(m) => {
            assert!(m.arms[0].guard.is_some());
        }
        _ => panic!("expected match"),
    }
}

#[test]
fn parse_return_statement() {
    let src = r#"
fn f(x: Int) -> Int {
  return x
}
"#;
    let program = parse_program(src).expect("parses");
    let func = match &program.decls[0] {
        TopDecl::Function(f) => f,
        _ => panic!("expected fn"),
    };
    assert!(func.body.tail.is_none());
    assert_eq!(func.body.statements.len(), 1);
}

#[test]
fn parse_reports_line_and_column_on_error() {
    let src = r#"
fn broken(a: Int -> Int {
  a
}
"#;
    let err = parse_program(src).expect_err("must fail");
    assert!(err.message.contains("expected `)`"));
    assert_eq!(err.position.line, 2);
    assert_eq!(err.position.column, 18);
}

fn tail_of(src: &str) -> cino::syntax::Expr {
    let program = parse_program(src).expect("parses");
    let func = match program.decls.into_iter().next() {
        Some(TopDecl::Function(f)) => f,
        _ => panic!("expected fn"),
    };
    *func.body.tail.expect("tail")
}

#[test]
fn multiplication_binds_tighter_than_addition() {
    let e = tail_of("fn f(x: Int) -> Int { 1 + 2 * 3 }");
    match e.kind {
        ExprKind::Binary { lhs, op, rhs } => {
            assert_eq!(op, BinaryOp::Add);
            assert!(matches!(lhs.kind, ExprKind::Int(1)));
            match rhs.kind {
                ExprKind::Binary { lhs, op, rhs } => {
                    assert_eq!(op, BinaryOp::Mul);
                    assert!(matches!(lhs.kind, ExprKind::Int(2)));
                    assert!(matches!(rhs.kind, ExprKind::Int(3)));
                }
                other => panic!("unexpected rhs: {other:?}"),
            }
        }
        other => panic!("unexpected tail: {other:?}"),
    }
}

#[test]
fn subtraction_associates_to_the_left() {
    let e = tail_of("fn f(x: Int) -> Int { 1 - 2 - 3 }");
    match e.kind {
        ExprKind::Binary { lhs, op, rhs } => {
            assert_eq!(op, BinaryOp::Sub);
            assert!(matches!(rhs.kind, ExprKind::Int(3)));
            assert!(matches!(lhs.kind, ExprKind::Binary { op: BinaryOp::Sub, .. }));
        }
        other => panic!("unexpected tail: {other:?}"),
    }
}

#[test]
fn parentheses_group_and_tuples_collect() {
    let e = tail_of("fn f(x: Int) -> Int { (1 + 2) * 3 }");
    match e.kind {
        ExprKind::Binary { lhs, op, .. } => {
            assert_eq!(op, BinaryOp::Mul);
            assert!(matches!(lhs.kind, ExprKind::Binary { op: BinaryOp::Add, .. }));
            // the span of a parenthesized expression covers the parentheses
            assert_eq!(lhs.span.start.column, 23);
            assert_eq!(lhs.span.end.column, 30);
        }
        other => panic!("unexpected tail: {other:?}"),
    }
    let e = tail_of("fn f(x: Int) -> (Int, Int) { (x, 2) }");
    match e.kind {
        ExprKind::Tuple(items) => assert_eq!(items.len(), 2),
        other => panic!("unexpected tail: {other:?}"),
    }
}

#[test]
fn records_calls_and_keywords_as_names() {
    let e = tail_of("fn f(x: Int) -> P { P { a: x, b: g(x)(1) } }");
    match e.kind {
        ExprKind::Record { name, fields } => {
            assert_eq!(name, "P");
            assert_eq!(fields.len(), 2);
            assert_eq!(fields[0].name, "a");
            match &fields[1].value.kind {
                ExprKind::Call { callee, args } => {
                    assert_eq!(args.len(), 1);
                    assert!(matches!(callee.kind, ExprKind::Call { .. }));
                }
                other => panic!("unexpected field value: {other:?}"),
            }
        }
        other => panic!("unexpected tail: {other:?}"),
    }
    let e = tail_of("fn f(state: Int) -> Int { state }");
    assert!(matches!(e.kind, ExprKind::Ident(ref n) if n == "state"));
}

#[test]
fn parse_errors_point_at_the_offending_token() {
    let err = parse_program("fn f(x: Int) -> Int { 1 + }").expect_err("must fail");
    assert_eq!(err.position.line, 1);
    assert_eq!(err.position.column, 27);
    let err = parse_program("enum E =").expect_err("must fail");
    assert_eq!(err.position.column, 9);
    let err = parse_program("oops").expect_err("must fail");
    assert_eq!(err.position.column, 1);
}

#[test]
fn parse_error_messages_name_what_was_expected_and_found() {
    assert_eq!(
        parse_program("fn broken(a: Int -> Int { a }").expect_err("fails").message,
        "expected `)`, found `->`"
    );
    assert_eq!(parse_program("42").expect_err("fails").message, "expected top-level declaration, found integer literal");
    assert_eq!(
        parse_program("fn f(x: Int) -> Int { => }").expect_err("fails").message,
        "expected expression, found `=>`"
    );
    assert_eq!(parse_program("fn (x: Int) -> Int { x }").expect_err("fails").message, "expected identifier, found `(`");
    assert_eq!(
        parse_program("enum E = ").expect_err("fails").message,
        "variant list requires at least one `|` arm"
    );
}

#[test]
fn integer_literal_patterns_parse() {
    let src = "fn fact(n: Int) -> Int {\n  match n {\n    0 => 1\n    _ => n * fact(n - 1)\n  }\n}";
    let program = parse_program(src).expect("parse");
    let func = match &program.decls[0] {
        TopDecl::Function(f) => f,
        _ => panic!("expected function"),
    };
    let tail = func.body.tail.as_ref().expect("tail");
    match &tail.kind {
        ExprKind::Match(m) => {
            assert_eq!(m.arms.len(), 2);
            assert_eq!(m.arms[0].pattern.kind, PatternKind::Int(0));
            assert_eq!(m.arms[0].pattern.span.start.line, 3);
            assert_eq!(m.arms[0].pattern.span.start.column, 5);
            assert!(matches!(m.arms[1].pattern.kind, PatternKind::Wildcard));
        }
        other => panic!("unexpected tail: {other:?}"),
    }
}

#[test]
fn tokens_are_in_text_order_and_end_with_end_of_input() {
    let src = "fn f(x: Int) -> Int { x // note\n + 12 }";
    let tokens = Lexer::new(src).tokenize().expect("tokens");
    let last = tokens.last().expect("a token");
    assert!(matches!(last.kind, TokenKind::Eof));
    assert_eq!((last.span.start.offset, last.span.end.offset), (src.len(), src.len()));
    for pair in tokens.windows(2) {
        let (a, b) = (&pair[0], &pair[1]);
        assert!(!matches!(a.kind, TokenKind::Eof));
        assert!(a.span.start.offset < a.span.end.offset);
        assert!(a.span.end.offset <= b.span.start.offset);
    }
    let plus = tokens.iter().position(|t| matches!(t.kind, TokenKind::Plus)).expect("plus");
    assert_eq!(&src[tokens[plus].span.start.offset..tokens[plus].span.end.offset], "+");
}
