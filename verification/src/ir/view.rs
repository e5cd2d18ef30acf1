use vstd::prelude::*;
use crate::ir::types::{
    IrExpr, IrExprKind, IrFunction, IrMatchArm, IrParam, IrPattern, IrPatternField, IrPatternKind,
    IrRecordField, IrType, SourceLoc,
};
use crate::sema::model::TyV;
use crate::syntax::ast::{BinaryOp, FnKind};

verus! {

// ---------------------------------------------------------------------------
// The content of IR values
// ---------------------------------------------------------------------------

/// The type an IR type stands for.
pub open spec fn ir_ty(t: IrType) -> TyV
    decreases t, 0int,
{
    match t {
        IrType::Int => TyV::Int,
        IrType::Bool => TyV::Bool,
        IrType::Decimal => TyV::Decimal,
        IrType::String => TyV::Str,
        IrType::Named { name, args } => TyV::Named(name@, ir_tys(args@, 0)),
        IrType::Tuple(items) => TyV::Tuple(ir_tys(items@, 0)),
        IrType::Unknown => TyV::Unknown,
    }
}

pub open spec fn ir_tys(s: Seq<IrType>, i: int) -> Seq<TyV>
    decreases s, s.len() - i,
{
    if 0 <= i < s.len() {
        seq![ir_ty(s[i])] + ir_tys(s, i + 1)
    } else {
        seq![]
    }
}

pub enum ExprKindV {
    LocalRef(Seq<char>),
    Int(i64),
    Bool(bool),
    Tuple(Seq<ExprV>),
    List(Seq<ExprV>),
    Record(Seq<char>, Seq<(Seq<char>, ExprV)>),
    Binary(Box<ExprV>, BinaryOp, Box<ExprV>),
    Call(Seq<char>, Seq<ExprV>),
    Let(Seq<char>, Box<ExprV>, Box<ExprV>),
    Match(Box<ExprV>, Seq<ArmV>),
}

/// The content of an IR expression.
pub struct ExprV {
    pub kind: ExprKindV,
    pub ty: TyV,
    pub span: SourceLoc,
}

pub struct ArmV {
    pub pattern: PatV,
    pub body: ExprV,
    pub span: SourceLoc,
}

pub enum PatKindV {
    Wildcard,
    Int(i64),
    Binding(Seq<char>),
    Variant(Seq<char>, Seq<PatFieldV>),
}

pub struct PatV {
    pub kind: PatKindV,
    pub ty: TyV,
    pub span: SourceLoc,
}

pub struct PatFieldV {
    pub name: Seq<char>,
    pub pattern: PatV,
    pub span: SourceLoc,
}

pub struct ParamV {
    pub name: Seq<char>,
    pub ty: TyV,
    pub span: SourceLoc,
}

/// The content of an IR function.
pub struct FunctionV {
    pub kind: FnKind,
    pub name: Seq<char>,
    pub params: Seq<ParamV>,
    pub return_type: TyV,
    pub body: ExprV,
    pub span: SourceLoc,
}

pub open spec fn expr_v(e: IrExpr) -> ExprV
    decreases e, 0int,
{
    let kind = match e.kind {
        IrExprKind::LocalRef { name } => ExprKindV::LocalRef(name@),
        IrExprKind::Int(v) => ExprKindV::Int(v),
        IrExprKind::Bool(b) => ExprKindV::Bool(b),
        IrExprKind::Tuple(items) => ExprKindV::Tuple(exprs_v(items@, 0)),
        IrExprKind::List(items) => ExprKindV::List(exprs_v(items@, 0)),
        IrExprKind::Record { name, fields } => ExprKindV::Record(name@, rfields_v(fields@, 0)),
        IrExprKind::Binary { lhs, op, rhs } => ExprKindV::Binary(
            Box::new(expr_v(*lhs)),
            op,
            Box::new(expr_v(*rhs)),
        ),
        IrExprKind::Call { callee, args } => ExprKindV::Call(callee@, exprs_v(args@, 0)),
        IrExprKind::Let { name, value, body } => ExprKindV::Let(
            name@,
            Box::new(expr_v(*value)),
            Box::new(expr_v(*body)),
        ),
        IrExprKind::Match { subject, arms } => ExprKindV::Match(Box::new(expr_v(*subject)), arms_v(arms@, 0)),
    };
    ExprV { kind, ty: ir_ty(e.ty), span: e.span }
}

pub open spec fn exprs_v(s: Seq<IrExpr>, i: int) -> Seq<ExprV>
    decreases s, s.len() - i,
{
    if 0 <= i < s.len() {
        seq![expr_v(s[i])] + exprs_v(s, i + 1)
    } else {
        seq![]
    }
}

pub open spec fn rfields_v(s: Seq<IrRecordField>, i: int) -> Seq<(Seq<char>, ExprV)>
    decreases s, s.len() - i,
{
    if 0 <= i < s.len() {
        seq![(s[i].name@, expr_v(s[i].value))] + rfields_v(s, i + 1)
    } else {
        seq![]
    }
}

pub open spec fn arms_v(s: Seq<IrMatchArm>, i: int) -> Seq<ArmV>
    decreases s, s.len() - i,
{
    if 0 <= i < s.len() {
        seq![arm_v(s[i])] + arms_v(s, i + 1)
    } else {
        seq![]
    }
}

pub open spec fn arm_v(a: IrMatchArm) -> ArmV
    decreases a, 0int,
{
    ArmV { pattern: pat_v(a.pattern), body: expr_v(a.body), span: a.span }
}

pub open spec fn pat_v(p: IrPattern) -> PatV
    decreases p, 0int,
{
    let kind = match p.kind {
        IrPatternKind::Wildcard => PatKindV::Wildcard,
        IrPatternKind::Int { value } => PatKindV::Int(value),
        IrPatternKind::Binding { name } => PatKindV::Binding(name@),
        IrPatternKind::Variant { name, fields } => PatKindV::Variant(name@, pfields_v(fields@, 0)),
    };
    PatV { kind, ty: ir_ty(p.ty), span: p.span }
}

pub open spec fn pfields_v(s: Seq<IrPatternField>, i: int) -> Seq<PatFieldV>
    decreases s, s.len() - i,
{
    if 0 <= i < s.len() {
        seq![pfield_v(s[i])] + pfields_v(s, i + 1)
    } else {
        seq![]
    }
}

pub open spec fn pfield_v(f: IrPatternField) -> PatFieldV
    decreases f, 0int,
{
    PatFieldV { name: f.name@, pattern: pat_v(f.pattern), span: f.span }
}

pub open spec fn param_v(p: IrParam) -> ParamV {
    ParamV { name: p.name@, ty: ir_ty(p.ty), span: p.span }
}

pub open spec fn function_v(f: IrFunction) -> FunctionV {
    FunctionV {
        kind: f.kind,
        name: f.name@,
        params: f.params@.map_values(|p: IrParam| param_v(p)),
        return_type: ir_ty(f.return_type),
        body: expr_v(f.body),
        span: f.span,
    }
}

// ---------------------------------------------------------------------------
// Pointwise characterizations
// ---------------------------------------------------------------------------

proof fn lemma_ir_tys(s: Seq<IrType>, i: int)
    requires
        0 <= i <= s.len(),
    ensures
        ir_tys(s, i) == Seq::new((s.len() - i) as nat, |k: int| ir_ty(s[i + k])),
    decreases s.len() - i,
{
    if i < s.len() {
        lemma_ir_tys(s, i + 1);
    }
    assert(ir_tys(s, i) =~= Seq::new((s.len() - i) as nat, |k: int| ir_ty(s[i + k])));
}

pub proof fn lemma_ir_tys0(s: Seq<IrType>)
    ensures
        ir_tys(s, 0).len() == s.len(),
        forall|k: int| 0 <= k < s.len() ==> #[trigger] ir_tys(s, 0)[k] == ir_ty(s[k]),
{
    lemma_ir_tys(s, 0);
}

proof fn lemma_exprs(s: Seq<IrExpr>, i: int)
    requires
        0 <= i <= s.len(),
    ensures
        exprs_v(s, i) == Seq::new((s.len() - i) as nat, |k: int| expr_v(s[i + k])),
    decreases s.len() - i,
{
    if i < s.len() {
        lemma_exprs(s, i + 1);
    }
    assert(exprs_v(s, i) =~= Seq::new((s.len() - i) as nat, |k: int| expr_v(s[i + k])));
}

pub proof fn lemma_exprs0(s: Seq<IrExpr>)
    ensures
        exprs_v(s, 0).len() == s.len(),
        forall|k: int| 0 <= k < s.len() ==> #[trigger] exprs_v(s, 0)[k] == expr_v(s[k]),
{
    lemma_exprs(s, 0);
}

proof fn lemma_rfields(s: Seq<IrRecordField>, i: int)
    requires
        0 <= i <= s.len(),
    ensures
        rfields_v(s, i) == Seq::new((s.len() - i) as nat, |k: int| (s[i + k].name@, expr_v(s[i + k].value))),
    decreases s.len() - i,
{
    if i < s.len() {
        lemma_rfields(s, i + 1);
    }
    assert(rfields_v(s, i) =~= Seq::new((s.len() - i) as nat, |k: int| (s[i + k].name@, expr_v(s[i + k].value))));
}

pub proof fn lemma_rfields0(s: Seq<IrRecordField>)
    ensures
        rfields_v(s, 0).len() == s.len(),
        forall|k: int| 0 <= k < s.len() ==> #[trigger] rfields_v(s, 0)[k] == (s[k].name@, expr_v(s[k].value)),
{
    lemma_rfields(s, 0);
}

proof fn lemma_arms(s: Seq<IrMatchArm>, i: int)
    requires
        0 <= i <= s.len(),
    ensures
        arms_v(s, i) == Seq::new((s.len() - i) as nat, |k: int| arm_v(s[i + k])),
    decreases s.len() - i,
{
    if i < s.len() {
        lemma_arms(s, i + 1);
    }
    assert(arms_v(s, i) =~= Seq::new((s.len() - i) as nat, |k: int| arm_v(s[i + k])));
}

pub proof fn lemma_arms0(s: Seq<IrMatchArm>)
    ensures
        arms_v(s, 0).len() == s.len(),
        forall|k: int| 0 <= k < s.len() ==> #[trigger] arms_v(s, 0)[k] == arm_v(s[k]),
{
    lemma_arms(s, 0);
}

proof fn lemma_pfields(s: Seq<IrPatternField>, i: int)
    requires
        0 <= i <= s.len(),
    ensures
        pfields_v(s, i) == Seq::new((s.len() - i) as nat, |k: int| pfield_v(s[i + k])),
    decreases s.len() - i,
{
    if i < s.len() {
        lemma_pfields(s, i + 1);
    }
    assert(pfields_v(s, i) =~= Seq::new((s.len() - i) as nat, |k: int| pfield_v(s[i + k])));
}

pub proof fn lemma_pfields0(s: Seq<IrPatternField>)
    ensures
        pfields_v(s, 0).len() == s.len(),
        forall|k: int| 0 <= k < s.len() ==> #[trigger] pfields_v(s, 0)[k] == pfield_v(s[k]),
{
    lemma_pfields(s, 0);
}

} // verus!
