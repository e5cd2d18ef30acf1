use vstd::prelude::*;
use crate::syntax::ast::{
    op_name, BlockExpr, Expr, ExprKind, FieldDecl, FnDecl, FnKind, MatchArm, MatchExpr, Pattern, PatternField,
    PatternKind, RecordField, Stmt, TopDecl, TypeDecl, TypeDeclKind, TypeExpr, TypeExprKind, VariantDecl,
};
use crate::syntax::span::Position;
use crate::text::{decimal_text, named_text};

verus! {

// ---------------------------------------------------------------------------
// Types
// ---------------------------------------------------------------------------

/// A type as the checker sees it.
pub enum TyV {
    Int,
    Bool,
    Decimal,
    Str,
    Named(Seq<char>, Seq<TyV>),
    Tuple(Seq<TyV>),
    Unknown,
}

/// How a type is written in messages: the way the derived `Debug` writes the type it stands
/// for, such as `Named { name: "List", args: [Int] }` or `Tuple([Int, Bool])`.
pub open spec fn type_text(t: TyV) -> Seq<char>
    decreases t, 2int, 0int,
{
    match t {
        TyV::Int => "Int"@,
        TyV::Bool => "Bool"@,
        TyV::Decimal => "Decimal"@,
        TyV::Str => "String"@,
        TyV::Unknown => "Unknown"@,
        TyV::Named(n, args) => "Named { name: \""@ + n + "\", args: ["@ + types_text(args, 0) + "] }"@,
        TyV::Tuple(items) => "Tuple(["@ + types_text(items, 0) + "])"@,
    }
}

/// The types `ts[i..]` as messages write them, separated by `, `.
pub open spec fn types_text(ts: Seq<TyV>, i: int) -> Seq<char>
    decreases ts, 1int, ts.len() - i,
{
    if 0 <= i < ts.len() {
        (if i > 0 {
            ", "@
        } else {
            seq![]
        }) + type_text(ts[i]) + types_text(ts, i + 1)
    } else {
        seq![]
    }
}

/// Type compatibility: `Unknown` is compatible with every type; otherwise the two types have
/// the same shape, the same names, and pairwise compatible components.
pub open spec fn compat(a: TyV, b: TyV) -> bool
    decreases a, 0int,
{
    if a is Unknown || b is Unknown {
        true
    } else {
        match (a, b) {
            (TyV::Int, TyV::Int) => true,
            (TyV::Bool, TyV::Bool) => true,
            (TyV::Decimal, TyV::Decimal) => true,
            (TyV::Str, TyV::Str) => true,
            (TyV::Named(na, aa), TyV::Named(nb, ab)) => na == nb && aa.len() == ab.len() && compat_from(
                aa,
                ab,
                0,
            ),
            (TyV::Tuple(la), TyV::Tuple(lb)) => la.len() == lb.len() && compat_from(la, lb, 0),
            _ => false,
        }
    }
}

/// `xs[k]` is compatible with `ys[k]` for every `k` from `i` on.
pub open spec fn compat_from(xs: Seq<TyV>, ys: Seq<TyV>, i: int) -> bool
    decreases xs, xs.len() - i,
{
    if 0 <= i < xs.len() && i < ys.len() {
        compat(xs[i], ys[i]) && compat_from(xs, ys, i + 1)
    } else {
        true
    }
}

/// The type a type expression denotes; the four builtin names stand for the builtin types.
pub open spec fn ty_of(t: TypeExpr) -> TyV
    decreases t, 0int,
{
    match t.kind {
        TypeExprKind::Tuple { items } => TyV::Tuple(ty_list(items@, 0)),
        TypeExprKind::Named { name, generics } => if generics.len() == 0 {
            if name@ == "Int"@ {
                TyV::Int
            } else if name@ == "Bool"@ {
                TyV::Bool
            } else if name@ == "Decimal"@ {
                TyV::Decimal
            } else if name@ == "String"@ {
                TyV::Str
            } else {
                TyV::Named(name@, seq![])
            }
        } else {
            TyV::Named(name@, ty_list(generics@, 0))
        },
    }
}

/// The types of `ts[i..]`.
pub open spec fn ty_list(ts: Seq<TypeExpr>, i: int) -> Seq<TyV>
    decreases ts, ts.len() - i,
{
    if 0 <= i < ts.len() {
        seq![ty_of(ts[i])] + ty_list(ts, i + 1)
    } else {
        seq![]
    }
}

pub open spec fn is_list_action(t: TyV) -> bool {
    match t {
        TyV::Named(n, args) => n == "List"@ && args.len() == 1 && match args[0] {
            TyV::Named(a, _) => a == "Action"@,
            _ => false,
        },
        _ => false,
    }
}

pub open spec fn is_result(t: TyV) -> bool {
    match t {
        TyV::Named(n, args) => n == "Result"@ && args.len() == 2,
        _ => false,
    }
}

// ---------------------------------------------------------------------------
// Declarations
// ---------------------------------------------------------------------------

/// What kind of type a declaration introduces.
#[derive(Debug, Clone, Copy, PartialEq, Eq, Structural)]
pub enum DeclKind {
    State,
    Record,
    Event,
    Query,
    Enum,
}

/// Named fields with their types.
pub type Fields = Seq<(Seq<char>, TyV)>;

/// What the checker records of a type declaration.
pub struct TypeInfoV {
    pub kind: DeclKind,
    pub generics: Seq<Seq<char>>,
    pub fields: Fields,
    pub variants: Seq<(Seq<char>, Fields)>,
}

/// What the checker records of a function declaration.
pub struct FnInfoV {
    pub kind: FnKind,
    pub params: Seq<TyV>,
    pub return_ty: TyV,
}

pub open spec fn field_types(fs: Seq<FieldDecl>) -> Fields {
    fs.map_values(|f: FieldDecl| (f.name@, ty_of(f.type_expr)))
}

pub open spec fn variant_types(vs: Seq<VariantDecl>) -> Seq<(Seq<char>, Fields)> {
    vs.map_values(|v: VariantDecl| (v.name@, field_types(v.payload@)))
}

pub open spec fn type_info(td: TypeDecl) -> TypeInfoV {
    let generics = td.generics@.map_values(|g: String| g@);
    match td.kind {
        TypeDeclKind::State(r) => TypeInfoV {
            kind: DeclKind::State,
            generics,
            fields: field_types(r.fields@),
            variants: seq![],
        },
        TypeDeclKind::Record(r) => TypeInfoV {
            kind: DeclKind::Record,
            generics,
            fields: field_types(r.fields@),
            variants: seq![],
        },
        TypeDeclKind::Event(v) => TypeInfoV {
            kind: DeclKind::Event,
            generics,
            fields: seq![],
            variants: variant_types(v.variants@),
        },
        TypeDeclKind::Query(v) => TypeInfoV {
            kind: DeclKind::Query,
            generics,
            fields: seq![],
            variants: variant_types(v.variants@),
        },
        TypeDeclKind::Enum(v) => TypeInfoV {
            kind: DeclKind::Enum,
            generics,
            fields: seq![],
            variants: variant_types(v.variants@),
        },
    }
}

pub open spec fn param_types(fd: FnDecl) -> Seq<TyV> {
    fd.params@.map_values(|p: crate::syntax::ast::Param| ty_of(p.type_expr))
}

pub open spec fn fn_info(fd: FnDecl) -> FnInfoV {
    FnInfoV { kind: fd.kind, params: param_types(fd), return_ty: ty_of(fd.return_type) }
}

/// The names of the variants a type declaration declares, each with the declaration's name.
pub open spec fn variant_owners(td: TypeDecl) -> Seq<(Seq<char>, Seq<char>)> {
    match td.kind {
        TypeDeclKind::Event(v) => v.variants@.map_values(|x: VariantDecl| (x.name@, td.name@)),
        TypeDeclKind::Query(v) => v.variants@.map_values(|x: VariantDecl| (x.name@, td.name@)),
        TypeDeclKind::Enum(v) => v.variants@.map_values(|x: VariantDecl| (x.name@, td.name@)),
        _ => seq![],
    }
}

/// The type table: one entry per type declaration, in order.
pub open spec fn type_entries(ds: Seq<TopDecl>) -> Seq<(Seq<char>, TypeInfoV)>
    decreases ds.len(),
{
    if ds.len() == 0 {
        seq![]
    } else {
        type_entries(ds.drop_last()) + match ds.last() {
            TopDecl::Type(td) => seq![(td.name@, type_info(td))],
            TopDecl::Function(_) => seq![],
        }
    }
}

/// The function table: one entry per function declaration, in order.
pub open spec fn fn_entries(ds: Seq<TopDecl>) -> Seq<(Seq<char>, FnInfoV)>
    decreases ds.len(),
{
    if ds.len() == 0 {
        seq![]
    } else {
        fn_entries(ds.drop_last()) + match ds.last() {
            TopDecl::Function(fd) => seq![(fd.name@, fn_info(fd))],
            TopDecl::Type(_) => seq![],
        }
    }
}

/// Which type declares each variant name, in declaration order.
pub open spec fn owner_entries(ds: Seq<TopDecl>) -> Seq<(Seq<char>, Seq<char>)>
    decreases ds.len(),
{
    if ds.len() == 0 {
        seq![]
    } else {
        owner_entries(ds.drop_last()) + match ds.last() {
            TopDecl::Type(td) => variant_owners(td),
            TopDecl::Function(_) => seq![],
        }
    }
}

/// The value of the last entry for `k`: a later entry shadows an earlier one.
pub open spec fn last_entry<V>(es: Seq<(Seq<char>, V)>, k: Seq<char>) -> Option<V>
    decreases es.len(),
{
    if es.len() == 0 {
        None
    } else if es.last().0 == k {
        Some(es.last().1)
    } else {
        last_entry(es.drop_last(), k)
    }
}

/// The value of the first entry for `k`.
pub open spec fn first_entry<V>(es: Seq<(Seq<char>, V)>, k: Seq<char>) -> Option<V>
    decreases es.len(),
{
    if es.len() == 0 {
        None
    } else if es[0].0 == k {
        Some(es[0].1)
    } else {
        first_entry(es.drop_first(), k)
    }
}

/// The tables built from a program's declarations.
pub struct Tables {
    pub types: Seq<(Seq<char>, TypeInfoV)>,
    pub fns: Seq<(Seq<char>, FnInfoV)>,
    pub owners: Seq<(Seq<char>, Seq<char>)>,
}

pub open spec fn tables(ds: Seq<TopDecl>) -> Tables {
    Tables { types: type_entries(ds), fns: fn_entries(ds), owners: owner_entries(ds) }
}

pub open spec fn is_kind_type(t: TyV, tb: Tables, k: DeclKind) -> bool {
    match t {
        TyV::Named(n, _) => match last_entry(tb.types, n) {
            Some(info) => info.kind == k,
            None => false,
        },
        _ => false,
    }
}

// ---------------------------------------------------------------------------
// Findings
// ---------------------------------------------------------------------------

/// What a diagnostic states: its code, its message and where it points.
pub struct Finding {
    pub code: &'static str,
    pub message: Seq<char>,
    pub line: usize,
    pub column: usize,
}

pub open spec fn at(code: &'static str, message: Seq<char>, p: Position) -> Finding {
    Finding { code, message, line: p.line, column: p.column }
}

pub open spec fn only_if(cond: bool, f: Finding) -> Seq<Finding> {
    if cond {
        seq![f]
    } else {
        seq![]
    }
}

pub const E_TYPE_001: &'static str = "E-TYPE-001";
pub const E_TYPE_002: &'static str = "E-TYPE-002";
pub const E_TYPE_004: &'static str = "E-TYPE-004";
pub const E_PURE_001: &'static str = "E-PURE-001";
pub const E_PURE_002: &'static str = "E-PURE-002";
pub const E_FN_002: &'static str = "E-FN-002";
pub const E_FN_003: &'static str = "E-FN-003";
pub const E_MATCH_001: &'static str = "E-MATCH-001";
pub const E_MATCH_002: &'static str = "E-MATCH-002";
pub const E_MATCH_003: &'static str = "E-MATCH-003";

/// A purity violation: reported with `code`, and again as `E-FN-002` inside a plain function.
pub open spec fn purity(code: &'static str, message: Seq<char>, p: Position, kind: FnKind) -> Seq<Finding> {
    seq![at(code, message, p)] + only_if(kind == FnKind::User, at(E_FN_002, message, p))
}

/// The functions whose call is a side effect.
pub open spec fn forbidden_call(name: Seq<char>) -> bool {
    name == "now"@ || name == "rand"@ || name == "random"@ || name == "clock"@ || name == "io"@
        || name == "http_get"@
}

// ---------------------------------------------------------------------------
// Checking expressions
// ---------------------------------------------------------------------------

/// Local bindings, a later binding of a name shadowing an earlier one.
pub type TyEnv = Seq<(Seq<char>, TyV)>;

/// The type of an identifier: a local binding, else `true` / `false`.
pub open spec fn ident_ty(env: TyEnv, name: Seq<char>) -> Option<TyV> {
    match last_entry(env, name) {
        Some(t) => Some(t),
        None => if name == "true"@ || name == "false"@ {
            Some(TyV::Bool)
        } else {
            None
        },
    }
}

/// An identifier has the type of its most recent binding: after binding `n` to `t`, `n` has
/// type `t`, and every other name has the type it had before.
pub proof fn lemma_ident_ty_push(env: TyEnv, n: Seq<char>, t: TyV, m: Seq<char>)
    ensures
        ident_ty(env.push((n, t)), n) == Some(t),
        m != n ==> ident_ty(env.push((n, t)), m) == ident_ty(env, m),
{
    assert(env.push((n, t)).drop_last() =~= env);
}

/// The checker gives an identifier the type of its most recent binding: under bindings
/// extended with `n` of type `t`, the identifier `n` has type `t` and no finding.
pub proof fn lemma_infer_ident(e: Expr, env: TyEnv, tb: Tables, kind: FnKind, n: Seq<char>, t: TyV)
    requires
        e.kind matches ExprKind::Ident(name) && name@ == n,
    ensures
        infer(e, env.push((n, t)), tb, kind) == (t, Seq::<Finding>::empty()),
{
    lemma_ident_ty_push(env, n, t, n);
}

/// The type the checker infers for `e` under `env`, and its findings, in the order reported.
pub open spec fn infer(e: Expr, env: TyEnv, tb: Tables, kind: FnKind) -> (TyV, Seq<Finding>)
    decreases e, 0int,
{
    match e.kind {
        ExprKind::Ident(name) => match ident_ty(env, name@) {
            Some(t) => (t, seq![]),
            None => (TyV::Unknown, seq![at(E_TYPE_002, named_text("unresolved symbol "@, name@, ""@), e.span.start)]),
        },
        ExprKind::Int(_) => (TyV::Int, seq![]),
        ExprKind::Bool(_) => (TyV::Bool, seq![]),
        ExprKind::Tuple(items) => {
            let (ts, fs) = infer_items(items@, 0, env, tb, kind);
            (TyV::Tuple(ts), fs)
        },
        ExprKind::List(items) => {
            let (t, fs) = infer_list(items@, 0, env, tb, kind, TyV::Unknown);
            (TyV::Named("List"@, seq![t]), fs)
        },
        ExprKind::Record { name, fields } => match record_target(name@, tb) {
            None => (TyV::Unknown, seq![at(E_TYPE_002, named_text("unresolved type or variant "@, name@, ""@), e.span.start)]),
            Some((ty_name, expected, generics)) => {
                (
                    TyV::Named(ty_name, Seq::new(generics.len(), |k: int| TyV::Unknown)),
                    infer_fields(name@, fields@, 0, env, tb, kind, expected, generics),
                )
            },
        },
        ExprKind::Binary { lhs, op, rhs } => {
            let (lt, lf) = infer(*lhs, env, tb, kind);
            let (rt, rf) = infer(*rhs, env, tb, kind);
            (
                TyV::Int,
                lf + rf + only_if(
                    !compat(lt, TyV::Int) || !compat(rt, TyV::Int),
                    at(E_TYPE_001, named_text("binary operator "@, op_name(op), " requires Int operands"@), e.span.start),
                ),
            )
        },
        ExprKind::Call { callee, args } => match callee.kind {
            ExprKind::Ident(name) => if forbidden_call(name@) {
                (
                    TyV::Unknown,
                    purity(E_PURE_001, named_text("forbidden side-effect function "@, name@, ""@), e.span.start, kind)
                        + infer_each(args@, 0, env, tb, kind),
                )
            } else {
                match last_entry(tb.fns, name@) {
                    None => (
                        TyV::Unknown,
                        purity(E_PURE_002, named_text("external function call "@, name@, " is not allowed"@), e.span.start, kind)
                            + infer_each(args@, 0, env, tb, kind),
                    ),
                    Some(info) => (
                        info.return_ty,
                        only_if(
                            args.len() != info.params.len(),
                            at(
                                E_TYPE_001,
                                named_text("function "@, name@, " expects "@) + decimal_text(info.params.len())
                                    + " arguments, got "@ + decimal_text(args.len() as nat),
                                e.span.start,
                            ),
                        ) + infer_args(name@, args@, 0, env, tb, kind, info.params),
                    ),
                }
            },
            _ => (TyV::Unknown, purity(E_PURE_002, "only named pure function calls are allowed"@, e.span.start, kind)),
        },
        ExprKind::Block(b) => check_block(b, env, tb, kind),
        ExprKind::Match(m) => infer_match(m, env, tb, kind),
    }
}

/// The type named by a record expression `name { .. }`, the fields it expects and the type's
/// generic parameters: a type of that name, else the type declaring a variant of that name.
pub open spec fn record_target(name: Seq<char>, tb: Tables) -> Option<(Seq<char>, Fields, Seq<Seq<char>>)> {
    match last_entry(tb.types, name) {
        Some(info) => Some((name, info.fields, info.generics)),
        None => match last_entry(tb.owners, name) {
            Some(owner) => match last_entry(tb.types, owner) {
                Some(info) => Some(
                    (
                        owner,
                        match last_entry(info.variants, name) {
                            Some(payload) => payload,
                            None => seq![],
                        },
                        info.generics,
                    ),
                ),
                None => Some((owner, seq![], seq![])),
            },
            None => None,
        },
    }
}

/// Whether a field declared with type `t` takes one of the type's generic parameters.
pub open spec fn is_generic_param(t: TyV, generics: Seq<Seq<char>>) -> bool {
    match t {
        TyV::Named(n, args) => args.len() == 0 && generics.contains(n),
        _ => false,
    }
}

/// The types and findings of `items[i..]`, left to right.
pub open spec fn infer_items(items: Seq<Expr>, i: int, env: TyEnv, tb: Tables, kind: FnKind) -> (Seq<TyV>, Seq<Finding>)
    decreases items, items.len() - i,
{
    if 0 <= i < items.len() {
        let (t, f) = infer(items[i], env, tb, kind);
        let (ts, fs) = infer_items(items, i + 1, env, tb, kind);
        (seq![t] + ts, f + fs)
    } else {
        (seq![], seq![])
    }
}

/// The findings of `items[i..]`, their types dropped.
pub open spec fn infer_each(items: Seq<Expr>, i: int, env: TyEnv, tb: Tables, kind: FnKind) -> Seq<Finding>
    decreases items, items.len() - i,
{
    if 0 <= i < items.len() {
        infer(items[i], env, tb, kind).1 + infer_each(items, i + 1, env, tb, kind)
    } else {
        seq![]
    }
}

/// A list literal's items from `i` on: the item type (the first known one) and the findings.
pub open spec fn infer_list(items: Seq<Expr>, i: int, env: TyEnv, tb: Tables, kind: FnKind, cur: TyV) -> (TyV, Seq<Finding>)
    decreases items, items.len() - i,
{
    if 0 <= i < items.len() {
        let (t, f) = infer(items[i], env, tb, kind);
        let (next, here) = if cur is Unknown {
            (t, seq![])
        } else {
            (
                cur,
                only_if(
                    !compat(cur, t),
                    at(
                        E_TYPE_001,
                        "list items must have same type, found "@ + type_text(cur) + " and "@ + type_text(t),
                        items[i].span.start,
                    ),
                ),
            )
        };
        let (last, rest) = infer_list(items, i + 1, env, tb, kind, next);
        (last, f + here + rest)
    } else {
        (cur, seq![])
    }
}

/// The findings of the fields `fields[i..]` of a record expression expecting `expected`.
pub open spec fn infer_fields(
    record: Seq<char>,
    fields: Seq<RecordField>,
    i: int,
    env: TyEnv,
    tb: Tables,
    kind: FnKind,
    expected: Fields,
    generics: Seq<Seq<char>>,
) -> Seq<Finding>
    decreases fields, fields.len() - i,
{
    if 0 <= i < fields.len() {
        let f = fields[i];
        let (t, found) = infer(f.value, env, tb, kind);
        let here = match first_entry(expected, f.name@) {
            Some(et) => only_if(
                !is_generic_param(et, generics) && !compat(t, et),
                at(
                    E_TYPE_001,
                    named_text("field "@, f.name@, " type mismatch: expected "@) + type_text(et) + ", got "@
                        + type_text(t),
                    f.span.start,
                ),
            ),
            None => seq![
                at(E_TYPE_002, named_text("unknown field "@, f.name@, " for "@) + named_text(""@, record, ""@), f.span.start),
            ],
        };
        found + here + infer_fields(record, fields, i + 1, env, tb, kind, expected, generics)
    } else {
        seq![]
    }
}

/// The findings of the arguments `args[i..]` of a call of a function taking `params`.
pub open spec fn infer_args(
    callee: Seq<char>,
    args: Seq<Expr>,
    i: int,
    env: TyEnv,
    tb: Tables,
    kind: FnKind,
    params: Seq<TyV>,
) -> Seq<Finding>
    decreases args, args.len() - i,
{
    if 0 <= i < args.len() {
        let (t, found) = infer(args[i], env, tb, kind);
        found + only_if(
            i < params.len() && !compat(t, params[i]),
            at(
                E_TYPE_001,
                "argument "@ + decimal_text((i + 1) as nat) + named_text(" of "@, callee, " expects "@) + type_text(
                    params[i],
                ) + ", got "@ + type_text(t),
                args[i].span.start,
            ),
        ) + infer_args(callee, args, i + 1, env, tb, kind, params)
    } else {
        seq![]
    }
}

/// A block: its statements in order, each `let` binding its name, then its tail.
pub open spec fn check_block(b: BlockExpr, env: TyEnv, tb: Tables, kind: FnKind) -> (TyV, Seq<Finding>)
    decreases b, 0int,
{
    let (env2, fs) = check_stmts(b.statements@, 0, env, tb, kind);
    match b.tail {
        Some(t) => {
            let (ty, tf) = infer(*t, env2, tb, kind);
            (ty, fs + tf)
        },
        None => (TyV::Unknown, fs),
    }
}

pub open spec fn check_stmts(stmts: Seq<Stmt>, i: int, env: TyEnv, tb: Tables, kind: FnKind) -> (TyEnv, Seq<Finding>)
    decreases stmts, stmts.len() - i,
{
    if 0 <= i < stmts.len() {
        match stmts[i] {
            Stmt::Let(l) => {
                let (t, f) = infer(l.value, env, tb, kind);
                let (env2, rest) = check_stmts(stmts, i + 1, env.push((l.name@, t)), tb, kind);
                (env2, f + rest)
            },
            Stmt::Return(r) => {
                let f = infer(r.value, env, tb, kind).1;
                let (env2, rest) = check_stmts(stmts, i + 1, env, tb, kind);
                (env2, seq![at(E_FN_003, "`return` statement is not supported in MVP"@, r.span.start)] + f + rest)
            },
        }
    } else {
        (env, seq![])
    }
}

/// The state threaded through the arms of a match: the variants covered so far, whether a
/// wildcard arm was seen, and the type of the first arm.
pub struct ArmState {
    pub covered: Set<Seq<char>>,
    pub wildcard: bool,
    pub arm_ty: Option<TyV>,
}

/// The variant names of the type `t`, as declared, when it is an enum, event or query type;
/// else none.
pub open spec fn variant_list(t: TyV, tb: Tables) -> Seq<Seq<char>> {
    match t {
        TyV::Named(n, _) => match last_entry(tb.types, n) {
            Some(info) => if info.kind == DeclKind::Enum || info.kind == DeclKind::Event
                || info.kind == DeclKind::Query {
                info.variants.map_values(|v: (Seq<char>, Fields)| v.0)
            } else {
                seq![]
            },
            None => seq![],
        },
        _ => seq![],
    }
}

pub open spec fn all_variants(t: TyV, tb: Tables) -> Set<Seq<char>> {
    variant_list(t, tb).to_set()
}

/// The names among `all[i..]` not in `covered`, each once, in the order of their first
/// occurrence in `all`.
pub open spec fn missing_from(all: Seq<Seq<char>>, covered: Set<Seq<char>>, i: int) -> Seq<Seq<char>>
    decreases all.len() - i,
{
    if 0 <= i < all.len() {
        if !covered.contains(all[i]) && !all.take(i).contains(all[i]) {
            seq![all[i]] + missing_from(all, covered, i + 1)
        } else {
            missing_from(all, covered, i + 1)
        }
    } else {
        seq![]
    }
}

/// The names `names[i..]` separated by `, `.
pub open spec fn join_text(names: Seq<Seq<char>>, i: int) -> Seq<char>
    decreases names.len() - i,
{
    if 0 <= i < names.len() {
        (if i > 0 {
            ", "@
        } else {
            seq![]
        }) + names[i] + join_text(names, i + 1)
    } else {
        seq![]
    }
}

pub open spec fn infer_match(m: MatchExpr, env: TyEnv, tb: Tables, kind: FnKind) -> (TyV, Seq<Finding>)
    decreases m, 0int,
{
    let (st, sf) = infer(*m.subject, env, tb, kind);
    let (end, af) = infer_arms(
        m.arms@,
        0,
        st,
        env,
        tb,
        kind,
        ArmState { covered: Set::empty(), wildcard: false, arm_ty: None },
    );
    let all = all_variants(st, tb);
    let missing = all.difference(end.covered);
    (
        match end.arm_ty {
            Some(t) => t,
            None => TyV::Unknown,
        },
        sf + af + only_if(
            !all.is_empty() && !end.wildcard && !missing.is_empty(),
            at(
                E_MATCH_001,
                "non-exhaustive match, missing variants: "@ + join_text(
                    missing_from(variant_list(st, tb), end.covered, 0),
                    0,
                ),
                m.span.start,
            ),
        ),
    )
}

/// What is reported at an arm before its pattern is checked: a guard, and an arm after a
/// wildcard arm.
pub open spec fn arm_head(s: ArmState, arm: MatchArm) -> Seq<Finding> {
    only_if(arm.guard is Some, at(E_MATCH_003, "match guards are not supported in MVP"@, arm.span.start)) + only_if(
        s.wildcard,
        at(E_MATCH_002, "unreachable match arm"@, arm.span.start),
    )
}

/// What an arm adds to the coverage: the variant its pattern names (an arm naming a covered
/// variant is unreachable), or a wildcard.
pub open spec fn cover(s: ArmState, variant: Option<Seq<char>>, arm: MatchArm) -> (ArmState, Seq<Finding>) {
    match variant {
        Some(name) => if s.covered.contains(name) {
            (s, seq![at(E_MATCH_002, named_text("unreachable match arm for variant "@, name, ""@), arm.span.start)])
        } else {
            (ArmState { covered: s.covered.insert(name), ..s }, seq![])
        },
        None => if arm.pattern.kind is Wildcard {
            (ArmState { wildcard: true, ..s }, seq![])
        } else {
            (s, seq![])
        },
    }
}

/// The first arm's type becomes the match's type; a later arm's type must be compatible with it.
pub open spec fn arm_type(s: ArmState, bt: TyV, arm: MatchArm) -> (ArmState, Seq<Finding>) {
    match s.arm_ty {
        Some(prev) => (
            s,
            only_if(
                !compat(prev, bt),
                at(
                    E_TYPE_001,
                    "match arm type mismatch: expected "@ + type_text(prev) + ", got "@ + type_text(bt),
                    arm.body.span.start,
                ),
            ),
        ),
        None => (ArmState { arm_ty: Some(bt), ..s }, seq![]),
    }
}

pub open spec fn infer_arms(
    arms: Seq<MatchArm>,
    i: int,
    subject: TyV,
    env: TyEnv,
    tb: Tables,
    kind: FnKind,
    s: ArmState,
) -> (ArmState, Seq<Finding>)
    decreases arms, arms.len() - i,
{
    if 0 <= i < arms.len() {
        let (s1, f) = infer_arm(arms[i], subject, env, tb, kind, s);
        let (s2, rest) = infer_arms(arms, i + 1, subject, env, tb, kind, s1);
        (s2, f + rest)
    } else {
        (s, seq![])
    }
}

// ---------------------------------------------------------------------------
// Exhaustiveness of `match`
// ---------------------------------------------------------------------------

/// Whether some arm among `arms[i..]` has the pattern `_`.
pub open spec fn wildcard_arm(arms: Seq<MatchArm>, i: int) -> bool {
    exists|j: int| i <= j < arms.len() && (#[trigger] arms[j]).pattern.kind is Wildcard
}

/// Whether a pattern is a variant pattern named `v`.
pub open spec fn names_variant(p: Pattern, v: Seq<char>) -> bool {
    match p.kind {
        PatternKind::Variant { name, .. } => name@ == v,
        _ => false,
    }
}

/// Whether some arm among `arms[i..]` has a variant pattern named `v`.
pub open spec fn variant_arm(arms: Seq<MatchArm>, i: int, v: Seq<char>) -> bool {
    exists|j: int| i <= j < arms.len() && names_variant((#[trigger] arms[j]).pattern, v)
}

proof fn lemma_last_variant(es: Seq<(Seq<char>, Fields)>, k: Seq<char>, j: int)
    requires
        0 <= j < es.len(),
        es[j].0 == k,
    ensures
        last_entry(es, k) is Some,
    decreases es.len(),
{
    if es.last().0 != k {
        assert(j < es.len() - 1);
        assert(es.drop_last()[j] == es[j]);
        lemma_last_variant(es.drop_last(), k, j);
    }
}

/// The variant a pattern covers is the one it names; a variant pattern naming a variant of the
/// subject's type covers it.
proof fn lemma_pattern_variant(p: Pattern, subject: TyV, env: TyEnv, tb: Tables)
    ensures
        check_pattern(p, subject, env, tb).0 matches Some(n) ==> names_variant(p, n),
        forall|v: Seq<char>|
            names_variant(p, v) && all_variants(subject, tb).contains(v) ==> #[trigger] check_pattern(p, subject, env, tb).0
                == Some(v),
{
    match p.kind {
        PatternKind::Variant { name, fields } => {
            if all_variants(subject, tb).contains(name@) {
                match subject {
                    TyV::Named(n, _) => match last_entry(tb.types, n) {
                        Some(info) => {
                            let ks = info.variants.map_values(|v: (Seq<char>, Fields)| v.0);
                            assert(ks.contains(name@));
                            let j = choose|j: int| 0 <= j < ks.len() && ks[j] == name@;
                            lemma_last_variant(info.variants, name@, j);
                        },
                        None => {},
                    },
                    _ => {},
                }
            }
        },
        _ => {},
    }
}

proof fn lemma_arms_cover(
    arms: Seq<MatchArm>,
    i: int,
    subject: TyV,
    env: TyEnv,
    tb: Tables,
    kind: FnKind,
    s: ArmState,
)
    requires
        0 <= i <= arms.len(),
    ensures
        infer_arms(arms, i, subject, env, tb, kind, s).0.wildcard == (s.wildcard || wildcard_arm(arms, i)),
        forall|v: Seq<char>|
            all_variants(subject, tb).contains(v) ==> (#[trigger] infer_arms(arms, i, subject, env, tb, kind, s).0.covered.contains(
                v,
            ) == (s.covered.contains(v) || variant_arm(arms, i, v))),
    decreases arms.len() - i,
{
    if i < arms.len() {
        let arm = arms[i];
        let (variant, _, _) = check_pattern(arm.pattern, subject, env, tb);
        let (s1, _) = cover(s, variant, arm);
        let (s2, _) = infer_arm(arm, subject, env, tb, kind, s);
        assert(s2.covered == s1.covered && s2.wildcard == s1.wildcard);
        lemma_pattern_variant(arm.pattern, subject, env, tb);
        lemma_arms_cover(arms, i + 1, subject, env, tb, kind, s2);
        assert(s1.wildcard == (s.wildcard || arm.pattern.kind is Wildcard));
        if wildcard_arm(arms, i) {
            let j = choose|j: int| i <= j < arms.len() && (#[trigger] arms[j]).pattern.kind is Wildcard;
            if j > i {
                assert(wildcard_arm(arms, i + 1));
            }
        }
        if wildcard_arm(arms, i + 1) {
            let j = choose|j: int| i + 1 <= j < arms.len() && (#[trigger] arms[j]).pattern.kind is Wildcard;
            assert(wildcard_arm(arms, i));
        }
        assert forall|v: Seq<char>| all_variants(subject, tb).contains(v) implies (#[trigger] infer_arms(
            arms,
            i,
            subject,
            env,
            tb,
            kind,
            s,
        ).0.covered.contains(v) == (s.covered.contains(v) || variant_arm(arms, i, v))) by {
            let here = names_variant(arm.pattern, v);
            assert(s1.covered.contains(v) == (s.covered.contains(v) || here));
            if variant_arm(arms, i, v) {
                let j = choose|j: int| i <= j < arms.len() && names_variant((#[trigger] arms[j]).pattern, v);
                if j > i {
                    assert(variant_arm(arms, i + 1, v));
                }
            }
            if variant_arm(arms, i + 1, v) {
                let j = choose|j: int| i + 1 <= j < arms.len() && names_variant((#[trigger] arms[j]).pattern, v);
                assert(variant_arm(arms, i, v));
            }
            if here {
                assert(variant_arm(arms, i, v));
            }
        }
    }
}

/// Exhaustiveness of `match`: `infer_match` reports a match as non-exhaustive (`E-MATCH-001`, at
/// the match) exactly when its subject's type has variants (an enum, event or query type), no
/// arm is `_`, and some variant has no arm naming it.
pub proof fn lemma_match_exhaustiveness(m: MatchExpr, env: TyEnv, tb: Tables, kind: FnKind)
    ensures
        ({
            let st = infer(*m.subject, env, tb, kind).0;
            let vs = all_variants(st, tb);
            let end = infer_arms(m.arms@, 0, st, env, tb, kind, ArmState { covered: Set::empty(), wildcard: false, arm_ty: None }).0;
            (!vs.is_empty() && !end.wildcard && !vs.difference(end.covered).is_empty()) <==> (!vs.is_empty()
                && !wildcard_arm(m.arms@, 0) && exists|v: Seq<char>| vs.contains(v) && !variant_arm(m.arms@, 0, v))
        }),
{
    let st = infer(*m.subject, env, tb, kind).0;
    let vs = all_variants(st, tb);
    let s0 = ArmState { covered: Set::empty(), wildcard: false, arm_ty: None };
    let end = infer_arms(m.arms@, 0, st, env, tb, kind, s0).0;
    lemma_arms_cover(m.arms@, 0, st, env, tb, kind, s0);
    let d = vs.difference(end.covered);
    if !d.is_empty() {
        assert(exists|x: Seq<char>| d.contains(x)) by {
            if !(exists|x: Seq<char>| d.contains(x)) {
                assert(d =~= Set::<Seq<char>>::empty());
            }
        }
        let v = choose|x: Seq<char>| d.contains(x);
        assert(vs.contains(v) && !variant_arm(m.arms@, 0, v));
    }
    if exists|v: Seq<char>| vs.contains(v) && !variant_arm(m.arms@, 0, v) {
        let v = choose|v: Seq<char>| vs.contains(v) && !variant_arm(m.arms@, 0, v);
        assert(!end.covered.contains(v));
        assert(d.contains(v));
    }
}


proof fn lemma_arms_type(arms: Seq<MatchArm>, i: int, subject: TyV, env: TyEnv, tb: Tables, kind: FnKind, s: ArmState)
    requires
        0 <= i <= arms.len(),
    ensures
        infer_arms(arms, i, subject, env, tb, kind, s).0.arm_ty == if s.arm_ty is Some {
            s.arm_ty
        } else if i < arms.len() {
            Some(infer(arms[i].body, check_pattern(arms[i].pattern, subject, env, tb).1, tb, kind).0)
        } else {
            None
        },
    decreases arms.len() - i,
{
    if i < arms.len() {
        let arm = arms[i];
        let (s2, _) = infer_arm(arm, subject, env, tb, kind, s);
        lemma_arms_type(arms, i + 1, subject, env, tb, kind, s2);
    }
}

/// Whether a match misses variants: its subject's type has variants (an enum, event or query
/// type), no arm is `_`, and some variant has no arm naming it.
pub open spec fn misses_variants(m: MatchExpr, env: TyEnv, tb: Tables, kind: FnKind) -> bool {
    let vs = all_variants(infer(*m.subject, env, tb, kind).0, tb);
    &&& !vs.is_empty()
    &&& !wildcard_arm(m.arms@, 0)
    &&& exists|v: Seq<char>| vs.contains(v) && !variant_arm(m.arms@, 0, v)
}

/// The type of a match's first arm's body, under the first pattern's bindings; `Unknown` for a
/// match without arms.
pub open spec fn first_arm_type(m: MatchExpr, env: TyEnv, tb: Tables, kind: FnKind) -> TyV {
    let st = infer(*m.subject, env, tb, kind).0;
    if m.arms.len() == 0 {
        TyV::Unknown
    } else {
        let arm = m.arms@[0];
        infer(arm.body, check_pattern(arm.pattern, st, env, tb).1, tb, kind).0
    }
}

/// What checking a match gives: the first arm's body type, and the findings of its subject and
/// of its arms in order, followed by exactly one `E-MATCH-001` finding, at the start of the
/// match, when the match misses variants, and by none otherwise.
pub proof fn lemma_match_findings(m: MatchExpr, env: TyEnv, tb: Tables, kind: FnKind)
    ensures
        infer_match(m, env, tb, kind).0 == first_arm_type(m, env, tb, kind),
        ({
            let st = infer(*m.subject, env, tb, kind).0;
            let pre = infer(*m.subject, env, tb, kind).1 + infer_arms(
                m.arms@,
                0,
                st,
                env,
                tb,
                kind,
                ArmState { covered: Set::empty(), wildcard: false, arm_ty: None },
            ).1;
            let f = infer_match(m, env, tb, kind).1;
            &&& misses_variants(m, env, tb, kind) ==> f.len() == pre.len() + 1 && f.subrange(0, pre.len() as int) == pre
                && f.last().code == E_MATCH_001 && f.last().line == m.span.start.line && f.last().column
                == m.span.start.column
            &&& !misses_variants(m, env, tb, kind) ==> f == pre
        }),
{
    let st = infer(*m.subject, env, tb, kind).0;
    let s0 = ArmState { covered: Set::empty(), wildcard: false, arm_ty: None };
    lemma_match_exhaustiveness(m, env, tb, kind);
    lemma_arms_type(m.arms@, 0, st, env, tb, kind, s0);
    let pre = infer(*m.subject, env, tb, kind).1 + infer_arms(m.arms@, 0, st, env, tb, kind, s0).1;
    let f = infer_match(m, env, tb, kind).1;
    if misses_variants(m, env, tb, kind) {
        assert(f.subrange(0, pre.len() as int) =~= pre);
    } else {
        assert(f =~= pre);
    }
}

/// One arm: its pattern checked against the subject's type, its body under the pattern's
/// bindings.
pub open spec fn infer_arm(arm: MatchArm, subject: TyV, env: TyEnv, tb: Tables, kind: FnKind, s: ArmState) -> (ArmState, Seq<Finding>)
    decreases arm, 0int,
{
    let head = arm_head(s, arm);
    let (variant, arm_env, pf) = check_pattern(arm.pattern, subject, env, tb);
    let (s1, cf) = cover(s, variant, arm);
    let (bt, bf) = infer(arm.body, arm_env, tb, kind);
    let (s2, tf) = arm_type(s1, bt, arm);
    (s2, head + pf + cf + bf + tf)
}

/// Checking a pattern against the subject's type: the variant it names, if any, the bindings
/// it adds, and its findings.
pub open spec fn check_pattern(p: Pattern, subject: TyV, env: TyEnv, tb: Tables) -> (Option<Seq<char>>, TyEnv, Seq<Finding>)
    decreases p, 0int,
{
    match p.kind {
        PatternKind::Wildcard => (None, env, seq![]),
        PatternKind::Int(_) => match subject {
            TyV::Int | TyV::Unknown => (None, env, seq![]),
            _ => (None, env, seq![at(E_TYPE_001, "integer pattern requires Int subject"@, p.span.start)]),
        },
        PatternKind::Variant { name, fields } => match subject {
            TyV::Named(ty_name, _) => match last_entry(tb.types, ty_name) {
                None => (None, env, seq![at(E_TYPE_002, named_text("unresolved type "@, ty_name, ""@), p.span.start)]),
                Some(info) => match last_entry(info.variants, name@) {
                    None => (
                        None,
                        env,
                        seq![
                            at(
                                E_TYPE_002,
                                named_text("unknown variant "@, name@, " for type "@) + named_text(""@, ty_name, ""@),
                                p.span.start,
                            ),
                        ],
                    ),
                    Some(payload) => {
                        let (env2, f) = bind_fields(fields@, 0, payload, env, tb);
                        (Some(name@), env2, f)
                    },
                },
            },
            _ => (None, env, seq![at(E_TYPE_001, "variant pattern requires enum/event/query subject"@, p.span.start)]),
        },
    }
}

/// Binding the fields `fields[i..]` of a variant pattern whose payload is `payload`.
pub open spec fn bind_fields(fields: Seq<PatternField>, i: int, payload: Fields, env: TyEnv, tb: Tables) -> (TyEnv, Seq<Finding>)
    decreases fields, fields.len() - i,
{
    if 0 <= i < fields.len() {
        let f = fields[i];
        match first_entry(payload, f.name@) {
            None => {
                let (env2, rest) = bind_fields(fields, i + 1, payload, env, tb);
                (env2, seq![at(E_TYPE_002, named_text("unknown payload field "@, f.name@, ""@), f.span.start)] + rest)
            },
            Some(ft) => match f.pattern {
                Some(nested) => {
                    let (_, env1, nf) = check_pattern(*nested, ft, env, tb);
                    let (env2, rest) = bind_fields(fields, i + 1, payload, env1, tb);
                    (env2, nf + rest)
                },
                None => bind_fields(fields, i + 1, payload, env.push((f.name@, ft)), tb),
            },
        }
    } else {
        (env, seq![])
    }
}

// ---------------------------------------------------------------------------
// Checking functions and programs
// ---------------------------------------------------------------------------

/// The findings on the signature of an `update` or `query` function.
pub open spec fn signature_findings(fd: FnDecl, tb: Tables) -> Seq<Finding> {
    let ret = ty_of(fd.return_type);
    let ret_at = fd.return_type.span.start;
    match fd.kind {
        FnKind::User => seq![],
        FnKind::Update => if fd.params.len() != 2 {
            seq![at(E_TYPE_004, "`update` must take exactly 2 parameters"@, fd.span.start)]
        } else {
            let state_ty = ty_of(fd.params@[0].type_expr);
            let event_ty = ty_of(fd.params@[1].type_expr);
            only_if(
                !is_kind_type(event_ty, tb, DeclKind::Event),
                at(E_TYPE_004, "`update` second parameter must be an `event` type"@, fd.params@[1].span.start),
            ) + match ret {
                TyV::Tuple(items) => if items.len() == 2 {
                    only_if(
                        !compat(items[0], state_ty),
                        at(E_TYPE_004, "`update` first return tuple item must equal state type"@, ret_at),
                    ) + only_if(
                        !is_list_action(items[1]),
                        at(E_TYPE_004, "`update` second return tuple item must be List<Action>"@, ret_at),
                    )
                } else {
                    seq![at(E_TYPE_004, "`update` return type must be (State, List<Action>)"@, ret_at)]
                },
                _ => seq![at(E_TYPE_004, "`update` return type must be (State, List<Action>)"@, ret_at)],
            }
        },
        FnKind::Query => if fd.params.len() != 2 {
            seq![at(E_TYPE_004, "`query` must take exactly 2 parameters"@, fd.span.start)]
        } else {
            let q_ty = ty_of(fd.params@[1].type_expr);
            only_if(
                !is_kind_type(q_ty, tb, DeclKind::Query),
                at(E_TYPE_004, "`query` second parameter must be a `query` type"@, fd.params@[1].span.start),
            ) + only_if(!is_result(ret), at(E_TYPE_004, "`query` return type must be Result<R, E>"@, ret_at))
        },
    }
}

/// Whether a function's signature meets the rules for its kind: an `update` takes two
/// parameters, the second of an `event` type, and returns a pair of a type compatible with the
/// first parameter's and `List<Action>`; a `query` takes two parameters, the second of a `query`
/// type, and returns a `Result`; a plain function has no such rule.
pub open spec fn signature_ok(fd: FnDecl, tb: Tables) -> bool {
    match fd.kind {
        FnKind::User => true,
        FnKind::Update => fd.params.len() == 2 && is_kind_type(ty_of(fd.params@[1].type_expr), tb, DeclKind::Event)
            && match ty_of(fd.return_type) {
            TyV::Tuple(items) => items.len() == 2 && compat(items[0], ty_of(fd.params@[0].type_expr)) && is_list_action(
                items[1],
            ),
            _ => false,
        },
        FnKind::Query => fd.params.len() == 2 && is_kind_type(ty_of(fd.params@[1].type_expr), tb, DeclKind::Query)
            && is_result(ty_of(fd.return_type)),
    }
}

/// A function's signature is reported exactly when it breaks the rules for its kind, and only
/// with `E-TYPE-004` findings.
pub proof fn lemma_signature_findings(fd: FnDecl, tb: Tables)
    ensures
        signature_findings(fd, tb).len() > 0 <==> !signature_ok(fd, tb),
        forall|i: int|
            0 <= i < signature_findings(fd, tb).len() ==> (#[trigger] signature_findings(fd, tb)[i]).code == E_TYPE_004,
{
}

/// The bindings of a function's parameters.
pub open spec fn param_env(fd: FnDecl) -> TyEnv {
    fd.params@.map_values(|p: crate::syntax::ast::Param| (p.name@, ty_of(p.type_expr)))
}

pub open spec fn check_fn(fd: FnDecl, tb: Tables) -> Seq<Finding> {
    let (body_ty, bf) = check_block(fd.body, param_env(fd), tb, fd.kind);
    let declared = ty_of(fd.return_type);
    signature_findings(fd, tb) + bf + only_if(
        !compat(body_ty, declared),
        at(
            E_TYPE_001,
            named_text("function "@, fd.name@, " returns "@) + type_text(body_ty) + " but declared "@ + type_text(
                declared,
            ),
            fd.return_type.span.start,
        ),
    )
}

/// The findings for the functions among `ds[i..]`.
pub open spec fn check_decls(ds: Seq<TopDecl>, i: int, tb: Tables) -> Seq<Finding>
    decreases ds.len() - i,
{
    if 0 <= i < ds.len() {
        match ds[i] {
            TopDecl::Function(fd) => check_fn(fd, tb) + check_decls(ds, i + 1, tb),
            TopDecl::Type(_) => check_decls(ds, i + 1, tb),
        }
    } else {
        seq![]
    }
}

/// The findings of analyzing a program, in the order they are reported.
pub open spec fn analysis(ds: Seq<TopDecl>) -> Seq<Finding> {
    check_decls(ds, 0, tables(ds))
}

} // verus!
