use vstd::prelude::*;
use crate::ir::types::SourceLoc;
use crate::ir::view::{ArmV, ExprKindV, ExprV, FunctionV, ParamV, PatFieldV, PatKindV, PatV};
use crate::sema::model::{
    at, compat, first_entry, ident_ty, is_generic_param, last_entry, param_env, record_target, ty_of,
    only_if, DeclKind, Fields, Finding, Tables, TyEnv, TyV,
};
use crate::syntax::ast::{
    BlockExpr, Expr, ExprKind, FnDecl, MatchArm, MatchExpr, Param, Pattern, PatternField, PatternKind,
    RecordField, Stmt, TopDecl,
};
use crate::syntax::span::{Position, Span};
use crate::sema::model::lemma_ident_ty_push;
use crate::syntax::ast::op_name;
use crate::sema::model::type_text;
use crate::text::{decimal_text, named_text};

verus! {

pub const E_IR_001: &'static str = "E-IR-001";
pub const E_IR_002: &'static str = "E-IR-002";
pub const E_IR_003: &'static str = "E-IR-003";
pub const E_IR_004: &'static str = "E-IR-004";

/// The IR location of a source span: where it starts.
pub open spec fn loc_of(s: Span) -> SourceLoc {
    SourceLoc { line: s.start.line, column: s.start.column }
}

/// The lowering of `e` under `env`: its IR (none when lowering stops) and the findings, in the
/// order reported.
pub open spec fn lower_expr(e: Expr, env: TyEnv, tb: Tables) -> (Option<ExprV>, Seq<Finding>)
    decreases e, 0int,
{
    let span = loc_of(e.span);
    match e.kind {
        ExprKind::Ident(name) => match ident_ty(env, name@) {
            Some(t) => (Some(ExprV { kind: ExprKindV::LocalRef(name@), ty: t, span }), seq![]),
            None => (
                Some(ExprV { kind: ExprKindV::LocalRef(name@), ty: TyV::Unknown, span }),
                seq![at(E_IR_002, named_text("unresolved symbol "@, name@, " during lowering"@), e.span.start)],
            ),
        },
        ExprKind::Int(v) => (Some(ExprV { kind: ExprKindV::Int(v), ty: TyV::Int, span }), seq![]),
        ExprKind::Bool(b) => (Some(ExprV { kind: ExprKindV::Bool(b), ty: TyV::Bool, span }), seq![]),
        ExprKind::Tuple(items) => match lower_items(items@, 0, env, tb) {
            (Some(vs), f) => (
                Some(ExprV { kind: ExprKindV::Tuple(vs), ty: TyV::Tuple(types_of(vs)), span }),
                f,
            ),
            (None, f) => (None, f),
        },
        ExprKind::List(items) => match lower_items(items@, 0, env, tb) {
            (Some(vs), f) => (
                Some(
                    ExprV {
                        kind: ExprKindV::List(vs),
                        ty: TyV::Named("List"@, seq![if vs.len() > 0 { vs[0].ty } else { TyV::Unknown }]),
                        span,
                    },
                ),
                f,
            ),
            (None, f) => (None, f),
        },
        ExprKind::Record { name, fields } => match record_target(name@, tb) {
            None => (
                None,
                seq![at(E_IR_002, named_text("unresolved type or variant "@, name@, " during lowering"@), e.span.start)],
            ),
            Some((ty_name, expected, generics)) => match lower_fields(fields@, 0, env, tb, expected, generics) {
                (Some(fs), f) => (
                    Some(
                        ExprV {
                            kind: ExprKindV::Record(name@, fs),
                            ty: TyV::Named(ty_name, Seq::new(generics.len(), |k: int| TyV::Unknown)),
                            span,
                        },
                    ),
                    f,
                ),
                (None, f) => (None, f),
            },
        },
        ExprKind::Binary { lhs, op, rhs } => match lower_expr(*lhs, env, tb) {
            (None, lf) => (None, lf),
            (Some(l), lf) => match lower_expr(*rhs, env, tb) {
                (None, rf) => (None, lf + rf),
                (Some(r), rf) => (
                    Some(ExprV { kind: ExprKindV::Binary(Box::new(l), op, Box::new(r)), ty: TyV::Int, span }),
                    lf + rf + only_if(
                        !compat(l.ty, TyV::Int) || !compat(r.ty, TyV::Int),
                        at(E_IR_003, named_text("binary operator "@, op_name(op), " requires Int operands"@), e.span.start),
                    ),
                ),
            },
        },
        ExprKind::Call { callee, args } => match callee.kind {
            ExprKind::Ident(name) => match lower_items(args@, 0, env, tb) {
                (None, f) => (None, f),
                (Some(vs), f) => match last_entry(tb.fns, name@) {
                    None => (
                        Some(ExprV { kind: ExprKindV::Call(name@, vs), ty: TyV::Unknown, span }),
                        f + seq![at(E_IR_002, named_text("unknown function "@, name@, " during lowering"@), e.span.start)],
                    ),
                    Some(sig) => (
                        Some(ExprV { kind: ExprKindV::Call(name@, vs), ty: sig.return_ty, span }),
                        f + only_if(
                            vs.len() != sig.params.len(),
                            at(
                                E_IR_003,
                                named_text("call "@, name@, " expects "@) + decimal_text(sig.params.len())
                                    + " arguments, got "@ + decimal_text(vs.len()),
                                e.span.start,
                            ),
                        ) + arg_findings(
                            name@,
                            vs,
                            0,
                            sig.params,
                            e.span.start,
                        ),
                    ),
                },
            },
            _ => (None, seq![at(E_IR_001, "only named function calls are lowerable in MVP"@, e.span.start)]),
        },
        ExprKind::Block(b) => lower_block(b, env, tb),
        ExprKind::Match(m) => lower_match(m, env, tb),
    }
}

/// The types of lowered expressions.
pub open spec fn types_of(vs: Seq<ExprV>) -> Seq<TyV> {
    vs.map_values(|v: ExprV| v.ty)
}

/// Lowering `items[i..]` left to right; it stops at the first item that does not lower.
pub open spec fn lower_items(items: Seq<Expr>, i: int, env: TyEnv, tb: Tables) -> (Option<Seq<ExprV>>, Seq<Finding>)
    decreases items, items.len() - i,
{
    if 0 <= i < items.len() {
        match lower_expr(items[i], env, tb) {
            (None, f) => (None, f),
            (Some(v), f) => match lower_items(items, i + 1, env, tb) {
                (None, g) => (None, f + g),
                (Some(vs), g) => (Some(seq![v] + vs), f + g),
            },
        }
    } else {
        (Some(seq![]), seq![])
    }
}

/// The findings on the arguments `vs[i..]` of a call of a function taking `params`.
pub open spec fn arg_findings(callee: Seq<char>, vs: Seq<ExprV>, i: int, params: Seq<TyV>, p: Position) -> Seq<Finding>
    decreases vs.len() - i,
{
    if 0 <= i < vs.len() {
        only_if(
            i < params.len() && !compat(vs[i].ty, params[i]),
            at(
                E_IR_003,
                named_text("call "@, callee, " argument "@) + decimal_text((i + 1) as nat) + " expected "@ + type_text(
                    params[i],
                ) + ", got "@ + type_text(vs[i].ty),
                p,
            ),
        ) + arg_findings(callee, vs, i + 1, params, p)
    } else {
        seq![]
    }
}

/// Lowering the fields `fields[i..]` of a record expression expecting `expected`.
pub open spec fn lower_fields(
    fields: Seq<RecordField>,
    i: int,
    env: TyEnv,
    tb: Tables,
    expected: Fields,
    generics: Seq<Seq<char>>,
) -> (Option<Seq<(Seq<char>, ExprV)>>, Seq<Finding>)
    decreases fields, fields.len() - i,
{
    if 0 <= i < fields.len() {
        let f = fields[i];
        match lower_expr(f.value, env, tb) {
            (None, g) => (None, g),
            (Some(v), g) => {
                let here = match first_entry(expected, f.name@) {
                    Some(et) => only_if(
                        !is_generic_param(et, generics) && !compat(v.ty, et),
                        at(
                            E_IR_003,
                            named_text("field "@, f.name@, " type mismatch: expected "@) + type_text(et) + ", got "@
                                + type_text(v.ty),
                            f.span.start,
                        ),
                    ),
                    None => seq![],
                };
                match lower_fields(fields, i + 1, env, tb, expected, generics) {
                    (None, h) => (None, g + here + h),
                    (Some(vs), h) => (Some(seq![(f.name@, v)] + vs), g + here + h),
                }
            },
        }
    } else {
        (Some(seq![]), seq![])
    }
}

/// A `let` binding lowered: its name, its value and where it stands.
pub type LetV = (Seq<char>, ExprV, SourceLoc);

/// The body `body` under the bindings `lets`, the first binding outermost.
pub open spec fn wrap_lets(lets: Seq<LetV>, body: ExprV) -> ExprV
    decreases lets.len(),
{
    if lets.len() == 0 {
        body
    } else {
        let (name, value, span) = lets.last();
        wrap_lets(
            lets.drop_last(),
            ExprV { kind: ExprKindV::Let(name, Box::new(value), Box::new(body)), ty: body.ty, span },
        )
    }
}

/// A block: its `let` statements and then its tail, as nested bindings.
pub open spec fn lower_block(b: BlockExpr, env: TyEnv, tb: Tables) -> (Option<ExprV>, Seq<Finding>)
    decreases b, 0int,
{
    match lower_stmts(b.statements@, 0, env, tb) {
        (None, f) => (None, f),
        (Some((env2, lets)), f) => match b.tail {
            Some(t) => match lower_expr(*t, env2, tb) {
                (None, g) => (None, f + g),
                (Some(body), g) => (Some(wrap_lets(lets, body)), f + g),
            },
            None => (None, f + seq![at(E_IR_001, "block expression requires a tail expression"@, b.span.start)]),
        },
    }
}

pub open spec fn lower_stmts(stmts: Seq<Stmt>, i: int, env: TyEnv, tb: Tables) -> (Option<(TyEnv, Seq<LetV>)>, Seq<Finding>)
    decreases stmts, stmts.len() - i,
{
    if 0 <= i < stmts.len() {
        match stmts[i] {
            Stmt::Let(l) => match lower_expr(l.value, env, tb) {
                (None, f) => (None, f),
                (Some(v), f) => match lower_stmts(stmts, i + 1, env.push((l.name@, v.ty)), tb) {
                    (None, g) => (None, f + g),
                    (Some((env2, lets)), g) => (Some((env2, seq![(l.name@, v, loc_of(l.span))] + lets)), f + g),
                },
            },
            Stmt::Return(r) => (None, seq![at(E_IR_001, "`return` statement is not lowerable in MVP"@, r.span.start)]),
        }
    } else {
        (Some((env, seq![])), seq![])
    }
}

/// A match: its subject, then its arms in order.
pub open spec fn lower_match(m: MatchExpr, env: TyEnv, tb: Tables) -> (Option<ExprV>, Seq<Finding>)
    decreases m, 0int,
{
    match lower_expr(*m.subject, env, tb) {
        (None, f) => (None, f),
        (Some(subject), f) => match lower_arms(m.arms@, 0, subject.ty, env, tb, None) {
            (None, g) => (None, f + g),
            (Some((arms, arm_ty)), g) => (
                Some(
                    ExprV {
                        kind: ExprKindV::Match(Box::new(subject), arms),
                        ty: match arm_ty {
                            Some(t) => t,
                            None => TyV::Unknown,
                        },
                        span: loc_of(m.span),
                    },
                ),
                f + g,
            ),
        },
    }
}

/// Lowering the arms `arms[i..]`, `arm_ty` being the type of the first arm, once known.
pub open spec fn lower_arms(
    arms: Seq<MatchArm>,
    i: int,
    subject: TyV,
    env: TyEnv,
    tb: Tables,
    arm_ty: Option<TyV>,
) -> (Option<(Seq<ArmV>, Option<TyV>)>, Seq<Finding>)
    decreases arms, arms.len() - i,
{
    if 0 <= i < arms.len() {
        match lower_arm(arms[i], subject, env, tb, arm_ty) {
            (None, f) => (None, f),
            (Some((a, t2)), f) => match lower_arms(arms, i + 1, subject, env, tb, t2) {
                (None, g) => (None, f + g),
                (Some((rest, t3)), g) => (Some((seq![a] + rest, t3)), f + g),
            },
        }
    } else {
        (Some((seq![], arm_ty)), seq![])
    }
}

/// One arm: a guard stops lowering; otherwise its pattern, then its body under the pattern's
/// bindings.
pub open spec fn lower_arm(arm: MatchArm, subject: TyV, env: TyEnv, tb: Tables, arm_ty: Option<TyV>) -> (Option<(ArmV, Option<TyV>)>, Seq<Finding>)
    decreases arm, 0int,
{
    if arm.guard is Some {
        (None, seq![at(E_IR_001, "match guards are not lowerable in MVP"@, arm.span.start)])
    } else {
        match lower_pattern(arm.pattern, subject, env, tb) {
            (None, f) => (None, f),
            (Some((pat, env2)), f) => match lower_expr(arm.body, env2, tb) {
                (None, g) => (None, f + g),
                (Some(body), g) => {
                    let (t2, h) = match arm_ty {
                        Some(prev) => (
                            arm_ty,
                            only_if(
                                !compat(prev, body.ty),
                                at(
                                    E_IR_003,
                                    "match arm type mismatch: expected "@ + type_text(prev) + ", got "@ + type_text(body.ty),
                                    arm.body.span.start,
                                ),
                            ),
                        ),
                        None => (Some(body.ty), seq![]),
                    };
                    (Some((ArmV { pattern: pat, body, span: loc_of(arm.span) }, t2)), f + g + h)
                },
            },
        }
    }
}

/// Lowering a pattern matched against a value of type `expected`: the IR pattern and the
/// bindings it adds.
pub open spec fn lower_pattern(p: Pattern, expected: TyV, env: TyEnv, tb: Tables) -> (Option<(PatV, TyEnv)>, Seq<Finding>)
    decreases p, 0int,
{
    match p.kind {
        PatternKind::Wildcard => (Some((PatV { kind: PatKindV::Wildcard, ty: expected, span: loc_of(p.span) }, env)), seq![]),
        PatternKind::Int(v) => (Some((PatV { kind: PatKindV::Int(v), ty: expected, span: loc_of(p.span) }, env)), seq![]),
        PatternKind::Variant { name, fields } => match expected {
            TyV::Named(ty_name, _) => match last_entry(tb.types, ty_name) {
                None => (None, seq![at(E_IR_002, named_text("unknown type "@, ty_name, " during lowering"@), p.span.start)]),
                Some(info) => if !(info.kind == DeclKind::Enum || info.kind == DeclKind::Event || info.kind
                    == DeclKind::Query) {
                    (None, seq![at(E_IR_003, named_text("type "@, ty_name, " does not support variant patterns"@), p.span.start)])
                } else {
                    match last_entry(info.variants, name@) {
                        None => (
                            None,
                            seq![
                                at(
                                    E_IR_002,
                                    named_text("unknown variant "@, name@, " for type "@) + named_text(""@, ty_name, ""@),
                                    p.span.start,
                                ),
                            ],
                        ),
                        Some(payload) => match lower_pfields(fields@, 0, payload, env, tb) {
                            (None, f) => (None, f),
                            (Some((pfs, env2)), f) => (
                                Some(
                                    (
                                        PatV {
                                            kind: PatKindV::Variant(name@, pfs),
                                            ty: expected,
                                            span: loc_of(p.span),
                                        },
                                        env2,
                                    ),
                                ),
                                f,
                            ),
                        },
                    }
                },
            },
            _ => (None, seq![at(E_IR_003, "variant pattern requires enum/event/query subject"@, p.span.start)]),
        },
    }
}

pub open spec fn lower_pfields(fields: Seq<PatternField>, i: int, payload: Fields, env: TyEnv, tb: Tables) -> (Option<(Seq<PatFieldV>, TyEnv)>, Seq<Finding>)
    decreases fields, fields.len() - i,
{
    if 0 <= i < fields.len() {
        let f = fields[i];
        match first_entry(payload, f.name@) {
            None => (None, seq![at(E_IR_002, named_text("unknown payload field "@, f.name@, ""@), f.span.start)]),
            Some(ft) => {
                let (pr, g) = match f.pattern {
                    Some(nested) => lower_pattern(*nested, ft, env, tb),
                    None => (
                        Some(
                            (
                                PatV { kind: PatKindV::Binding(f.name@), ty: ft, span: loc_of(f.span) },
                                env.push((f.name@, ft)),
                            ),
                        ),
                        seq![],
                    ),
                };
                match pr {
                    None => (None, g),
                    Some((pat, env1)) => match lower_pfields(fields, i + 1, payload, env1, tb) {
                        (None, h) => (None, g + h),
                        (Some((rest, env2)), h) => (
                            Some(
                                (seq![PatFieldV { name: f.name@, pattern: pat, span: loc_of(f.span) }] + rest, env2),
                            ),
                            g + h,
                        ),
                    },
                }
            },
        }
    } else {
        (Some((seq![], env)), seq![])
    }
}

pub open spec fn lower_param(p: Param) -> ParamV {
    ParamV { name: p.name@, ty: ty_of(p.type_expr), span: loc_of(p.span) }
}

/// A function: its body lowered under its parameters, and checked against its return type.
pub open spec fn lower_function(fd: FnDecl, tb: Tables) -> (Option<FunctionV>, Seq<Finding>) {
    let ret = ty_of(fd.return_type);
    match lower_block(fd.body, param_env(fd), tb) {
        (None, f) => (None, f),
        (Some(body), f) => if !compat(body.ty, ret) {
            (
                None,
                f + seq![
                    at(
                        E_IR_004,
                        named_text("function "@, fd.name@, " body has "@) + type_text(body.ty) + ", expected "@ + type_text(ret),
                        fd.return_type.span.start,
                    ),
                ],
            )
        } else {
            (
                Some(
                    FunctionV {
                        kind: fd.kind,
                        name: fd.name@,
                        params: fd.params@.map_values(|p: Param| lower_param(p)),
                        return_type: ret,
                        body,
                        span: loc_of(fd.span),
                    },
                ),
                f,
            )
        },
    }
}

/// The functions among `ds[i..]` that lower, and all findings.
pub open spec fn lower_decls(ds: Seq<TopDecl>, i: int, tb: Tables) -> (Seq<FunctionV>, Seq<Finding>)
    decreases ds.len() - i,
{
    if 0 <= i < ds.len() {
        let (fs, f) = lower_decls(ds, i + 1, tb);
        match ds[i] {
            TopDecl::Function(fd) => match lower_function(fd, tb) {
                (Some(fv), g) => (seq![fv] + fs, g + f),
                (None, g) => (fs, g + f),
            },
            TopDecl::Type(_) => (fs, f),
        }
    } else {
        (seq![], seq![])
    }
}

// ---------------------------------------------------------------------------
// Lowering fails only with a finding
// ---------------------------------------------------------------------------

/// An expression that does not lower is reported.
pub proof fn lemma_expr_reported(e: Expr, env: TyEnv, tb: Tables)
    ensures
        lower_expr(e, env, tb).0 is None ==> lower_expr(e, env, tb).1.len() > 0,
    decreases e, 0int,
{
    match e.kind {
        ExprKind::Tuple(items) => lemma_items_reported(items@, 0, env, tb),
        ExprKind::List(items) => lemma_items_reported(items@, 0, env, tb),
        ExprKind::Record { name, fields } => match record_target(name@, tb) {
            Some((_, expected, generics)) => lemma_fields_reported(fields@, 0, env, tb, expected, generics),
            None => {},
        },
        ExprKind::Binary { lhs, op: _, rhs } => {
            lemma_expr_reported(*lhs, env, tb);
            lemma_expr_reported(*rhs, env, tb);
        },
        ExprKind::Call { callee, args } => lemma_items_reported(args@, 0, env, tb),
        ExprKind::Block(b) => lemma_block_reported(b, env, tb),
        ExprKind::Match(m) => lemma_match_reported(m, env, tb),
        _ => {},
    }
}

pub proof fn lemma_items_reported(items: Seq<Expr>, i: int, env: TyEnv, tb: Tables)
    ensures
        lower_items(items, i, env, tb).0 is None ==> lower_items(items, i, env, tb).1.len() > 0,
    decreases items, items.len() - i,
{
    if 0 <= i < items.len() {
        lemma_expr_reported(items[i], env, tb);
        lemma_items_reported(items, i + 1, env, tb);
    }
}

pub proof fn lemma_fields_reported(
    fields: Seq<RecordField>,
    i: int,
    env: TyEnv,
    tb: Tables,
    expected: Fields,
    generics: Seq<Seq<char>>,
)
    ensures
        lower_fields(fields, i, env, tb, expected, generics).0 is None ==> lower_fields(fields, i, env, tb, expected, generics).1.len()
            > 0,
    decreases fields, fields.len() - i,
{
    if 0 <= i < fields.len() {
        lemma_expr_reported(fields[i].value, env, tb);
        lemma_fields_reported(fields, i + 1, env, tb, expected, generics);
    }
}

pub proof fn lemma_block_reported(b: BlockExpr, env: TyEnv, tb: Tables)
    ensures
        lower_block(b, env, tb).0 is None ==> lower_block(b, env, tb).1.len() > 0,
    decreases b, 0int,
{
    lemma_stmts_reported(b.statements@, 0, env, tb);
    match lower_stmts(b.statements@, 0, env, tb) {
        (Some((env2, _)), _) => match b.tail {
            Some(t) => lemma_expr_reported(*t, env2, tb),
            None => {},
        },
        _ => {},
    }
}

pub proof fn lemma_stmts_reported(stmts: Seq<Stmt>, i: int, env: TyEnv, tb: Tables)
    ensures
        lower_stmts(stmts, i, env, tb).0 is None ==> lower_stmts(stmts, i, env, tb).1.len() > 0,
    decreases stmts, stmts.len() - i,
{
    if 0 <= i < stmts.len() {
        match stmts[i] {
            Stmt::Let(l) => {
                lemma_expr_reported(l.value, env, tb);
                match lower_expr(l.value, env, tb) {
                    (Some(v), _) => lemma_stmts_reported(stmts, i + 1, env.push((l.name@, v.ty)), tb),
                    _ => {},
                }
            },
            Stmt::Return(_) => {},
        }
    }
}

pub proof fn lemma_match_reported(m: MatchExpr, env: TyEnv, tb: Tables)
    ensures
        lower_match(m, env, tb).0 is None ==> lower_match(m, env, tb).1.len() > 0,
    decreases m, 0int,
{
    lemma_expr_reported(*m.subject, env, tb);
    match lower_expr(*m.subject, env, tb) {
        (Some(subject), _) => lemma_arms_reported(m.arms@, 0, subject.ty, env, tb, None),
        _ => {},
    }
}

pub proof fn lemma_arms_reported(
    arms: Seq<MatchArm>,
    i: int,
    subject: TyV,
    env: TyEnv,
    tb: Tables,
    arm_ty: Option<TyV>,
)
    ensures
        lower_arms(arms, i, subject, env, tb, arm_ty).0 is None ==> lower_arms(arms, i, subject, env, tb, arm_ty).1.len()
            > 0,
    decreases arms, arms.len() - i,
{
    if 0 <= i < arms.len() {
        lemma_arm_reported(arms[i], subject, env, tb, arm_ty);
        match lower_arm(arms[i], subject, env, tb, arm_ty) {
            (Some((_, t2)), _) => lemma_arms_reported(arms, i + 1, subject, env, tb, t2),
            _ => {},
        }
    }
}

pub proof fn lemma_arm_reported(arm: MatchArm, subject: TyV, env: TyEnv, tb: Tables, arm_ty: Option<TyV>)
    ensures
        lower_arm(arm, subject, env, tb, arm_ty).0 is None ==> lower_arm(arm, subject, env, tb, arm_ty).1.len() > 0,
    decreases arm, 0int,
{
    if arm.guard is None {
        lemma_pattern_reported(arm.pattern, subject, env, tb);
        match lower_pattern(arm.pattern, subject, env, tb) {
            (Some((_, env2)), _) => lemma_expr_reported(arm.body, env2, tb),
            _ => {},
        }
    }
}

pub proof fn lemma_pattern_reported(p: Pattern, expected: TyV, env: TyEnv, tb: Tables)
    ensures
        lower_pattern(p, expected, env, tb).0 is None ==> lower_pattern(p, expected, env, tb).1.len() > 0,
    decreases p, 0int,
{
    match p.kind {
        PatternKind::Variant { name, fields } => match expected {
            TyV::Named(ty_name, _) => match last_entry(tb.types, ty_name) {
                Some(info) => match last_entry(info.variants, name@) {
                    Some(payload) => lemma_pfields_reported(fields@, 0, payload, env, tb),
                    None => {},
                },
                None => {},
            },
            _ => {},
        },
        _ => {},
    }
}

pub proof fn lemma_pfields_reported(fields: Seq<PatternField>, i: int, payload: Fields, env: TyEnv, tb: Tables)
    ensures
        lower_pfields(fields, i, payload, env, tb).0 is None ==> lower_pfields(fields, i, payload, env, tb).1.len() > 0,
    decreases fields, fields.len() - i,
{
    if 0 <= i < fields.len() {
        let f = fields[i];
        match first_entry(payload, f.name@) {
            Some(ft) => {
                match f.pattern {
                    Some(nested) => {
                        lemma_pattern_reported(*nested, ft, env, tb);
                        match lower_pattern(*nested, ft, env, tb) {
                            (Some((_, env1)), _) => lemma_pfields_reported(fields, i + 1, payload, env1, tb),
                            _ => {},
                        }
                    },
                    None => lemma_pfields_reported(fields, i + 1, payload, env.push((f.name@, ft)), tb),
                }
            },
            None => {},
        }
    }
}

/// A function that does not lower is reported.
pub proof fn lemma_function_reported(fd: FnDecl, tb: Tables)
    ensures
        lower_function(fd, tb).0 is None ==> lower_function(fd, tb).1.len() > 0,
{
    lemma_block_reported(fd.body, param_env(fd), tb);
}

/// The function declarations among `ds[i..]`, in order.
pub open spec fn fn_decls(ds: Seq<TopDecl>, i: int) -> Seq<FnDecl>
    decreases ds.len() - i,
{
    if 0 <= i < ds.len() {
        match ds[i] {
            TopDecl::Function(fd) => seq![fd] + fn_decls(ds, i + 1),
            TopDecl::Type(_) => fn_decls(ds, i + 1),
        }
    } else {
        seq![]
    }
}

/// Lowering without findings drops, duplicates and reorders no function: it gives one lowered
/// function per declared function, in order, with its kind, its name and its parameters'
/// names.
pub proof fn lemma_lower_decls_keeps_functions(ds: Seq<TopDecl>, i: int, tb: Tables)
    requires
        lower_decls(ds, i, tb).1.len() == 0,
    ensures
        lower_decls(ds, i, tb).0.len() == fn_decls(ds, i).len(),
        forall|k: int|
            0 <= k < fn_decls(ds, i).len() ==> {
                let fv = #[trigger] lower_decls(ds, i, tb).0[k];
                let fd = fn_decls(ds, i)[k];
                &&& fv.name == fd.name@
                &&& fv.kind == fd.kind
                &&& fv.params.len() == fd.params@.len()
                &&& forall|j: int| 0 <= j < fv.params.len() ==> (#[trigger] fv.params[j]).name == fd.params@[j].name@
            },
    decreases ds.len() - i,
{
    if 0 <= i < ds.len() {
        let (fs, f) = lower_decls(ds, i + 1, tb);
        match ds[i] {
            TopDecl::Function(fd) => {
                lemma_function_reported(fd, tb);
                let (fo, g) = lower_function(fd, tb);
                assert(lower_decls(ds, i, tb).1 == g + f);
                assert(g.len() == 0 && f.len() == 0);
                lemma_lower_decls_keeps_functions(ds, i + 1, tb);
                let fv = fo.unwrap();
                assert(lower_decls(ds, i, tb).0 == seq![fv] + fs);
                assert(fn_decls(ds, i) == seq![fd] + fn_decls(ds, i + 1));
                assert forall|k: int| 0 <= k < fn_decls(ds, i).len() implies {
                    let fv2 = #[trigger] lower_decls(ds, i, tb).0[k];
                    let fd2 = fn_decls(ds, i)[k];
                    &&& fv2.name == fd2.name@
                    &&& fv2.kind == fd2.kind
                    &&& fv2.params.len() == fd2.params@.len()
                    &&& forall|j: int| 0 <= j < fv2.params.len() ==> (#[trigger] fv2.params[j]).name == fd2.params@[j].name@
                } by {
                    if k > 0 {
                        assert(lower_decls(ds, i, tb).0[k] == fs[k - 1]);
                        assert(fn_decls(ds, i)[k] == fn_decls(ds, i + 1)[k - 1]);
                    }
                }
            },
            TopDecl::Type(_) => {
                lemma_lower_decls_keeps_functions(ds, i + 1, tb);
            },
        }
    }
}

// ---------------------------------------------------------------------------
// Operands and names
// ---------------------------------------------------------------------------

/// Lowering a binary expression keeps its operands in place: the lowering of the left operand
/// on the left, the lowering of the right operand on the right, under the same operator.
pub proof fn lemma_lower_binary(e: Expr, env: TyEnv, tb: Tables)
    ensures
        e.kind matches ExprKind::Binary { lhs, op, rhs } ==> (lower_expr(e, env, tb).0 matches Some(x) ==> x.kind
            == ExprKindV::Binary(
            Box::new(lower_expr(*lhs, env, tb).0.unwrap()),
            op,
            Box::new(lower_expr(*rhs, env, tb).0.unwrap()),
        )),
{
}

/// A name lowers to the type of its most recent binding: under bindings extended with `n` of
/// type `t`, an identifier `n` lowers to an expression of type `t`.
pub proof fn lemma_lower_ident(e: Expr, env: TyEnv, tb: Tables, n: Seq<char>, t: TyV)
    requires
        e.kind matches ExprKind::Ident(name) && name@ == n,
    ensures
        lower_expr(e, env.push((n, t)), tb).0 matches Some(x) && x.ty == t,
{
    lemma_ident_ty_push(env, n, t, n);
}

} // verus!
