pub mod span;
pub mod token;
pub mod error;
pub mod lexer;
pub mod ast;
pub mod grammar;
pub mod parser;

pub use error::ParseError;
pub use span::{Position, Span};
pub use ast::{
    BinaryOp, BlockExpr, Expr, ExprKind, FieldDecl, FnDecl, FnKind, LetStmt, MatchArm, MatchExpr,
    Param, Pattern, PatternField, PatternKind, Program, RecordBody, RecordField, ReturnStmt, Stmt,
    TopDecl, TypeDecl, TypeDeclKind, TypeExpr, TypeExprKind, VariantDecl, VariantList,
};
pub use parser::parse_program;
