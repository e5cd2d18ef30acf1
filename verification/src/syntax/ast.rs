use vstd::prelude::*;
use crate::syntax::span::Span;

verus! {

/// A whole source file: its top-level declarations in order.
#[derive(Debug, PartialEq, Eq)]
pub struct Program {
    pub decls: Vec<TopDecl>,
}

#[derive(Debug, PartialEq, Eq)]
pub enum TopDecl {
    Type(TypeDecl),
    Function(FnDecl),
}

#[derive(Debug, PartialEq, Eq)]
pub struct TypeDecl {
    pub name: String,
    pub generics: Vec<String>,
    pub kind: TypeDeclKind,
    pub span: Span,
}

#[derive(Debug, PartialEq, Eq)]
pub enum TypeDeclKind {
    State(RecordBody),
    Record(RecordBody),
    Event(VariantList),
    Query(VariantList),
    Enum(VariantList),
}

#[derive(Debug, PartialEq, Eq)]
pub struct RecordBody {
    pub fields: Vec<FieldDecl>,
    pub span: Span,
}

#[derive(Debug, PartialEq, Eq)]
pub struct VariantList {
    pub variants: Vec<VariantDecl>,
    pub span: Span,
}

#[derive(Debug, PartialEq, Eq)]
pub struct VariantDecl {
    pub name: String,
    pub payload: Vec<FieldDecl>,
    pub span: Span,
}

#[derive(Debug, PartialEq, Eq)]
pub struct FieldDecl {
    pub name: String,
    pub type_expr: TypeExpr,
    pub span: Span,
}

#[derive(Debug, PartialEq, Eq)]
pub struct FnDecl {
    pub kind: FnKind,
    pub name: String,
    pub params: Vec<Param>,
    pub return_type: TypeExpr,
    pub body: BlockExpr,
    pub span: Span,
}

#[derive(Debug, Clone, Copy, PartialEq, Eq, Structural)]
pub enum FnKind {
    User,
    Update,
    Query,
}

#[derive(Debug, PartialEq, Eq)]
pub struct Param {
    pub name: String,
    pub type_expr: TypeExpr,
    pub span: Span,
}

#[derive(Debug, PartialEq, Eq)]
pub struct TypeExpr {
    pub kind: TypeExprKind,
    pub span: Span,
}

#[derive(Debug, PartialEq, Eq)]
pub enum TypeExprKind {
    Named { name: String, generics: Vec<TypeExpr> },
    Tuple { items: Vec<TypeExpr> },
}

#[derive(Debug, PartialEq, Eq)]
pub struct BlockExpr {
    pub statements: Vec<Stmt>,
    pub tail: Option<Box<Expr>>,
    pub span: Span,
}

#[derive(Debug, PartialEq, Eq)]
pub enum Stmt {
    Let(LetStmt),
    Return(ReturnStmt),
}

#[derive(Debug, PartialEq, Eq)]
pub struct LetStmt {
    pub name: String,
    pub value: Expr,
    pub span: Span,
}

#[derive(Debug, PartialEq, Eq)]
pub struct ReturnStmt {
    pub value: Expr,
    pub span: Span,
}

#[derive(Debug, PartialEq, Eq)]
pub struct Expr {
    pub kind: ExprKind,
    pub span: Span,
}

#[derive(Debug, PartialEq, Eq)]
pub enum ExprKind {
    Ident(String),
    Int(i64),
    Bool(bool),
    Tuple(Vec<Expr>),
    List(Vec<Expr>),
    Record { name: String, fields: Vec<RecordField> },
    Binary { lhs: Box<Expr>, op: BinaryOp, rhs: Box<Expr> },
    Call { callee: Box<Expr>, args: Vec<Expr> },
    Match(MatchExpr),
    Block(BlockExpr),
}

#[derive(Debug, PartialEq, Eq)]
pub struct MatchExpr {
    pub subject: Box<Expr>,
    pub arms: Vec<MatchArm>,
    pub span: Span,
}

#[derive(Debug, PartialEq, Eq)]
pub struct MatchArm {
    pub pattern: Pattern,
    pub guard: Option<Expr>,
    pub body: Expr,
    pub span: Span,
}

#[derive(Debug, PartialEq, Eq)]
pub struct Pattern {
    pub kind: PatternKind,
    pub span: Span,
}

#[derive(Debug, PartialEq, Eq)]
pub enum PatternKind {
    Wildcard,
    Int(i64),
    Variant { name: String, fields: Vec<PatternField> },
}

#[derive(Debug, PartialEq, Eq)]
pub struct PatternField {
    pub name: String,
    pub pattern: Option<Box<Pattern>>,
    pub span: Span,
}

#[derive(Debug, PartialEq, Eq)]
pub struct RecordField {
    pub name: String,
    pub value: Expr,
    pub span: Span,
}

#[derive(Debug, Clone, Copy, PartialEq, Eq, Structural)]
pub enum BinaryOp {
    Add,
    Sub,
    Mul,
    Div,
}

/// An operator's name, as messages write it.
pub open spec fn op_name(op: BinaryOp) -> Seq<char> {
    match op {
        BinaryOp::Add => "Add"@,
        BinaryOp::Sub => "Sub"@,
        BinaryOp::Mul => "Mul"@,
        BinaryOp::Div => "Div"@,
    }
}

impl BinaryOp {
    /// The operator's name, as messages write it.
    pub fn name(&self) -> (r: &'static str)
        ensures
            r@ == op_name(*self),
    {
        match self {
            BinaryOp::Add => "Add",
            BinaryOp::Sub => "Sub",
            BinaryOp::Mul => "Mul",
            BinaryOp::Div => "Div",
        }
    }
}

} // verus!
