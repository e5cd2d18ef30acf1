use vstd::prelude::*;
use crate::syntax::ast::{BinaryOp, FnKind};
use crate::text::{concat_str, owned};
pub use crate::sema::model::Finding;
use crate::ir::view::{ir_ty, ir_tys, lemma_ir_tys0};
use crate::sema::model::{type_text, types_text};

verus! {

/// A source location: 1-based line and column.
#[derive(Debug, Clone, Copy, PartialEq, Eq, Structural)]
pub struct SourceLoc {
    pub line: usize,
    pub column: usize,
}

/// A finding of a checking pass: a stable code, a message, and where it was found.
#[derive(Debug, Clone, PartialEq, Eq)]
pub struct Diagnostic {
    pub code: &'static str,
    pub message: String,
    pub line: usize,
    pub column: usize,
}

pub open spec fn finding(code: &'static str, message: Seq<char>, loc: SourceLoc) -> Finding {
    Finding { code, message, line: loc.line, column: loc.column }
}

impl Diagnostic {
    pub open spec fn finding(&self) -> Finding {
        Finding { code: self.code, message: self.message@, line: self.line, column: self.column }
    }
}

/// The findings of a list of diagnostics, in order.
pub open spec fn findings(ds: Seq<Diagnostic>) -> Seq<Finding> {
    ds.map_values(|d: Diagnostic| d.finding())
}

#[derive(Debug, PartialEq, Eq)]
pub struct LoweringResult {
    pub program: Option<IrProgram>,
    pub diagnostics: Vec<Diagnostic>,
}

#[derive(Debug, PartialEq, Eq)]
pub struct IrProgram {
    pub functions: Vec<IrFunction>,
}

#[derive(Debug, PartialEq, Eq)]
pub struct IrFunction {
    pub kind: FnKind,
    pub name: String,
    pub params: Vec<IrParam>,
    pub return_type: IrType,
    pub body: IrExpr,
    pub span: SourceLoc,
}

#[derive(Debug, PartialEq, Eq)]
pub struct IrParam {
    pub name: String,
    pub ty: IrType,
    pub span: SourceLoc,
}

#[derive(Debug, PartialEq, Eq)]
pub struct IrExpr {
    pub kind: IrExprKind,
    pub ty: IrType,
    pub span: SourceLoc,
}

#[derive(Debug, PartialEq, Eq)]
pub enum IrExprKind {
    LocalRef { name: String },
    Int(i64),
    Bool(bool),
    Tuple(Vec<IrExpr>),
    List(Vec<IrExpr>),
    Record { name: String, fields: Vec<IrRecordField> },
    Binary { lhs: Box<IrExpr>, op: BinaryOp, rhs: Box<IrExpr> },
    Call { callee: String, args: Vec<IrExpr> },
    Let { name: String, value: Box<IrExpr>, body: Box<IrExpr> },
    Match { subject: Box<IrExpr>, arms: Vec<IrMatchArm> },
}

/// A field of a record (or variant payload) construction.
#[derive(Debug, PartialEq, Eq)]
pub struct IrRecordField {
    pub name: String,
    pub value: IrExpr,
}

#[derive(Debug, PartialEq, Eq)]
pub struct IrMatchArm {
    pub pattern: IrPattern,
    pub body: IrExpr,
    pub span: SourceLoc,
}

#[derive(Debug, PartialEq, Eq)]
pub struct IrPattern {
    pub kind: IrPatternKind,
    pub ty: IrType,
    pub span: SourceLoc,
}

#[derive(Debug, PartialEq, Eq)]
pub enum IrPatternKind {
    Wildcard,
    Int { value: i64 },
    Binding { name: String },
    Variant { name: String, fields: Vec<IrPatternField> },
}

#[derive(Debug, PartialEq, Eq)]
pub struct IrPatternField {
    pub name: String,
    pub pattern: IrPattern,
    pub span: SourceLoc,
}

#[derive(Debug, PartialEq, Eq)]
pub enum IrType {
    Int,
    Bool,
    Decimal,
    String,
    Named { name: String, args: Vec<IrType> },
    Tuple(Vec<IrType>),
    Unknown,
}

/// Type compatibility: `Unknown` is compatible with every type; otherwise the two types have
/// the same shape, the same names, and pairwise compatible components.
pub open spec fn compatible(a: IrType, b: IrType) -> bool
    decreases a, 0int,
{
    if a is Unknown || b is Unknown {
        true
    } else {
        match (a, b) {
            (IrType::Int, IrType::Int) => true,
            (IrType::Bool, IrType::Bool) => true,
            (IrType::Decimal, IrType::Decimal) => true,
            (IrType::String, IrType::String) => true,
            (IrType::Named { name: na, args: aa }, IrType::Named { name: nb, args: ab }) => {
                &&& na@ == nb@
                &&& aa.len() == ab.len()
                &&& compatible_from(aa@, ab@, 0)
            },
            (IrType::Tuple(la), IrType::Tuple(lb)) => {
                &&& la.len() == lb.len()
                &&& compatible_from(la@, lb@, 0)
            },
            _ => false,
        }
    }
}

/// `xs[k]` is compatible with `ys[k]` for every `k` from `i` on.
pub open spec fn compatible_from(xs: Seq<IrType>, ys: Seq<IrType>, i: int) -> bool
    decreases xs, xs.len() - i,
{
    if 0 <= i < xs.len() && i < ys.len() {
        compatible(xs[i], ys[i]) && compatible_from(xs, ys, i + 1)
    } else {
        true
    }
}

impl IrType {
    pub fn is_compatible(&self, other: &IrType) -> (r: bool)
        ensures
            r == compatible(*self, *other),
        decreases self, 0int,
    {
        if matches!(self, IrType::Unknown) || matches!(other, IrType::Unknown) {
            return true;
        }
        match (self, other) {
            (IrType::Int, IrType::Int) => true,
            (IrType::Bool, IrType::Bool) => true,
            (IrType::Decimal, IrType::Decimal) => true,
            (IrType::String, IrType::String) => true,
            (IrType::Named { name: na, args: aa }, IrType::Named { name: nb, args: ab }) => {
                *na == *nb && aa.len() == ab.len() && compatible_vec(aa, ab, 0)
            },
            (IrType::Tuple(la), IrType::Tuple(lb)) => {
                la.len() == lb.len() && compatible_vec(la, lb, 0)
            },
            _ => false,
        }
    }

    /// A deep copy of this type.
    pub fn copy(&self) -> (r: IrType)
        ensures
            ir_ty(r) == ir_ty(*self),
        decreases self,
    {
        match self {
            IrType::Int => IrType::Int,
            IrType::Bool => IrType::Bool,
            IrType::Decimal => IrType::Decimal,
            IrType::String => IrType::String,
            IrType::Unknown => IrType::Unknown,
            IrType::Named { name, args } => {
                let mut out: Vec<IrType> = Vec::new();
                let mut i: usize = 0;
                while i < args.len()
                    invariant
                        i <= args.len(),
                        self matches IrType::Named { args: a, .. } && a == args,
                        out.len() == i,
                        forall|k: int| 0 <= k < i ==> #[trigger] ir_ty(out@[k]) == ir_ty(args@[k]),
                    decreases args.len() - i,
                {
                    proof {
                        assert(decreases_to!(self => args@[i as int]));
                    }
                    out.push(args[i].copy());
                    i += 1;
                }
                proof {
                    lemma_ir_tys0(out@);
                    lemma_ir_tys0(args@);
                    assert(ir_tys(out@, 0) =~= ir_tys(args@, 0));
                }
                IrType::Named { name: name.clone(), args: out }
            },
            IrType::Tuple(items) => {
                let mut out: Vec<IrType> = Vec::new();
                let mut i: usize = 0;
                while i < items.len()
                    invariant
                        i <= items.len(),
                        self matches IrType::Tuple(a) && a == items,
                        out.len() == i,
                        forall|k: int| 0 <= k < i ==> #[trigger] ir_ty(out@[k]) == ir_ty(items@[k]),
                    decreases items.len() - i,
                {
                    proof {
                        assert(decreases_to!(self => items@[i as int]));
                    }
                    out.push(items[i].copy());
                    i += 1;
                }
                proof {
                    lemma_ir_tys0(out@);
                    lemma_ir_tys0(items@);
                    assert(ir_tys(out@, 0) =~= ir_tys(items@, 0));
                }
                IrType::Tuple(out)
            },
        }
    }

    /// How this type is written in messages.
    pub(crate) fn render(&self) -> (r: String)
        ensures
            r@ == type_text(ir_ty(*self)),
        decreases self,
    {
        match self {
            IrType::Int => owned("Int"),
            IrType::Bool => owned("Bool"),
            IrType::Decimal => owned("Decimal"),
            IrType::String => owned("String"),
            IrType::Unknown => owned("Unknown"),
            IrType::Named { name, args } => {
                let a = concat_str(owned("Named { name: \""), name.as_str());
                let b = concat_str(a, "\", args: [");
                let parts = render_all(self, args);
                concat_str(concat_str(b, parts.as_str()), "] }")
            },
            IrType::Tuple(items) => {
                let parts = render_all(self, items);
                concat_str(concat_str(owned("Tuple(["), parts.as_str()), "])")
            },
        }
    }
}

/// The types `items`, as messages write them, separated by `, `.
fn render_all(parent: &IrType, items: &Vec<IrType>) -> (r: String)
    requires
        (parent matches IrType::Named { args: a, .. } && a == items) || (parent matches IrType::Tuple(a) && a == items),
    ensures
        r@ == types_text(ir_tys(items@, 0), 0),
    decreases parent, 1int,
{
    let ghost ts = ir_tys(items@, 0);
    proof {
        lemma_ir_tys0(items@);
    }
    let mut out = String::new();
    let mut i: usize = 0;
    proof {
        assert(out@ + types_text(ts, 0) =~= types_text(ts, 0));
    }
    while i < items.len()
        invariant
            i <= items.len(),
            (parent matches IrType::Named { args: a, .. } && a == items) || (parent matches IrType::Tuple(a) && a
                == items),
            ts == ir_tys(items@, 0),
            ts.len() == items.len(),
            forall|k: int| 0 <= k < items.len() ==> #[trigger] ts[k] == ir_ty(items@[k]),
            out@ + types_text(ts, i as int) == types_text(ts, 0),
        decreases items.len() - i,
    {
        proof {
            assert(decreases_to!(parent => items@[i as int]));
        }
        let ghost before = out@;
        if i > 0 {
            out = concat_str(out, ", ");
        }
        let part = items[i].render();
        out = concat_str(out, part.as_str());
        proof {
            let sep: Seq<char> = if i > 0 { ", "@ } else { seq![] };
            assert(out@ == before + sep + type_text(ts[i as int]));
            assert(types_text(ts, i as int) == sep + type_text(ts[i as int]) + types_text(ts, i + 1));
            assert(out@ + types_text(ts, i + 1) =~= before + types_text(ts, i as int));
        }
        i += 1;
    }
    proof {
        assert(out@ =~= out@ + types_text(ts, i as int));
    }
    out
}

fn compatible_vec(xs: &Vec<IrType>, ys: &Vec<IrType>, i: usize) -> (r: bool)
    requires
        i <= xs.len(),
    ensures
        r == compatible_from(xs@, ys@, i as int),
    decreases xs@, xs.len() - i,
{
    if i < xs.len() && i < ys.len() {
        proof {
            assert(decreases_to!(xs@ => xs@[i as int]));
        }
        if !xs[i].is_compatible(&ys[i]) {
            return false;
        }
        compatible_vec(xs, ys, i + 1)
    } else {
        true
    }
}

} // verus!
