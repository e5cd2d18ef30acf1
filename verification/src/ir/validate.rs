use vstd::prelude::*;
use crate::ir::types::{
    compatible, finding, findings, Diagnostic, Finding, IrExpr, IrExprKind, IrFunction, IrMatchArm,
    IrParam, IrPattern, IrPatternField, IrPatternKind, IrProgram, IrRecordField, IrType, SourceLoc,
};
use crate::text::{concat_str, decimal, decimal_text, named, named_text, owned};
use crate::ir::view::{ir_ty, ir_tys, lemma_ir_tys0};
use crate::sema::model::{type_text, TyV};

verus! {

pub const E_IR_VAL_001: &'static str = "E-IR-VAL-001";
pub const E_IR_VAL_002: &'static str = "E-IR-VAL-002";
pub const E_IR_VAL_003: &'static str = "E-IR-VAL-003";
pub const E_IR_VAL_004: &'static str = "E-IR-VAL-004";
pub const E_IR_VAL_005: &'static str = "E-IR-VAL-005";
pub const E_IR_VAL_006: &'static str = "E-IR-VAL-006";
pub const E_IR_VAL_007: &'static str = "E-IR-VAL-007";
pub const E_IR_VAL_008: &'static str = "E-IR-VAL-008";
pub const E_IR_VAL_009: &'static str = "E-IR-VAL-009";
pub const E_IR_VAL_010: &'static str = "E-IR-VAL-010";
pub const E_IR_VAL_011: &'static str = "E-IR-VAL-011";
pub const E_IR_VAL_012: &'static str = "E-IR-VAL-012";
pub const E_IR_VAL_013: &'static str = "E-IR-VAL-013";

// ---------------------------------------------------------------------------
// What validation finds
// ---------------------------------------------------------------------------

/// Local bindings in scope: later bindings shadow earlier ones.
pub type Env = Seq<(Seq<char>, IrType)>;

/// The type bound to `name`: the one bound last.
pub open spec fn lookup(env: Env, name: Seq<char>) -> Option<IrType>
    decreases env.len(),
{
    if env.len() == 0 {
        None
    } else if env.last().0 == name {
        Some(env.last().1)
    } else {
        lookup(env.drop_last(), name)
    }
}

/// The function that a call names: the last one declared with that name.
pub open spec fn find_fn(fs: Seq<IrFunction>, name: Seq<char>) -> Option<IrFunction>
    decreases fs.len(),
{
    if fs.len() == 0 {
        None
    } else if fs.last().name@ == name {
        Some(fs.last())
    } else {
        find_fn(fs.drop_last(), name)
    }
}

/// `t` is compatible with the tuple of the types of `items`.
pub open spec fn compatible_with_tuple(t: IrType, items: Seq<IrExpr>) -> bool {
    match t {
        IrType::Unknown => true,
        IrType::Tuple(ts) => ts.len() == items.len() && forall|k: int|
            0 <= k < ts.len() ==> compatible(#[trigger] ts@[k], items[k].ty),
        _ => false,
    }
}

/// `t` is compatible with `List<T>`, `T` being the type of the first item (`Unknown` if none).
pub open spec fn compatible_with_list(t: IrType, items: Seq<IrExpr>) -> bool {
    match t {
        IrType::Unknown => true,
        IrType::Named { name, args } => name@ == "List"@ && args.len() == 1 && (items.len() == 0
            || compatible(args@[0], items[0].ty)),
        _ => false,
    }
}

/// How an IR type is written in messages.
pub open spec fn ty_text(t: IrType) -> Seq<char> {
    type_text(ir_ty(t))
}

/// `what`, then the expected and the found type.
pub open spec fn mismatch_text(what: Seq<char>, expected: IrType, got: IrType) -> Seq<char> {
    what + ": expected "@ + ty_text(expected) + ", got "@ + ty_text(got)
}

/// The type a tuple of `items` has.
pub open spec fn tuple_ty(items: Seq<IrExpr>) -> TyV {
    TyV::Tuple(items.map_values(|x: IrExpr| ir_ty(x.ty)))
}

/// The type a list of `items` has: a list of the first item's type.
pub open spec fn list_ty(items: Seq<IrExpr>) -> TyV {
    TyV::Named(
        "List"@,
        seq![
            if items.len() > 0 {
                ir_ty(items[0].ty)
            } else {
                TyV::Unknown
            },
        ],
    )
}

pub open spec fn when(cond: bool, f: Finding) -> Seq<Finding> {
    if cond {
        seq![f]
    } else {
        seq![]
    }
}

/// Findings for the arguments of a call whose types do not fit the parameters.
pub open spec fn arg_mismatches(
    callee: Seq<char>,
    args: Seq<IrExpr>,
    params: Seq<IrParam>,
    i: int,
    loc: SourceLoc,
) -> Seq<Finding>
    decreases args.len() - i,
{
    if 0 <= i < args.len() {
        (if i < params.len() && !compatible(args[i].ty, params[i].ty) {
            seq![
                finding(
                    E_IR_VAL_009,
                    named_text("call "@, callee, " arg "@) + decimal_text((i + 1) as nat) + " type mismatch: expected "@
                        + ty_text(params[i].ty) + ", got "@ + ty_text(args[i].ty),
                    loc,
                ),
            ]
        } else {
            seq![]
        }) + arg_mismatches(callee, args, params, i + 1, loc)
    } else {
        seq![]
    }
}

/// Findings for a call of `callee` with `args`, the call expression being `e`.
pub open spec fn call_findings(e: IrExpr, callee: Seq<char>, args: Seq<IrExpr>, fs: Seq<IrFunction>) -> Seq<Finding> {
    match find_fn(fs, callee) {
        None => seq![finding(E_IR_VAL_006, named_text("unknown callee "@, callee, ""@), e.span)],
        Some(f) => when(
            !compatible(e.ty, f.return_type),
            finding(
                E_IR_VAL_007,
                named_text("call "@, callee, " return type mismatch: expr "@) + ty_text(e.ty) + ", signature "@ + ty_text(
                    f.return_type,
                ),
                e.span,
            ),
        ) + when(
            args.len() != f.params.len(),
            finding(
                E_IR_VAL_008,
                named_text("call "@, callee, ""@) + " arity mismatch: expected "@ + decimal_text(f.params.len() as nat) + ", got "@
                    + decimal_text(args.len()),
                e.span,
            ),
        ) + arg_mismatches(callee, args, f.params@, 0, e.span),
    }
}

/// The findings of checking expression `e` under bindings `env`, calls resolved in `fs`.
pub open spec fn check_expr(e: IrExpr, env: Env, fs: Seq<IrFunction>) -> Seq<Finding>
    decreases e, 0int,
{
    match e.kind {
        IrExprKind::LocalRef { name } => match lookup(env, name@) {
            None => seq![finding(E_IR_VAL_002, named_text("unknown local reference "@, name@, ""@), e.span)],
            Some(t) => when(
                !compatible(e.ty, t),
                finding(
                    E_IR_VAL_003,
                    named_text("local "@, name@, " type mismatch: expr "@) + ty_text(e.ty) + ", env "@ + ty_text(t),
                    e.span,
                ),
            ),
        },
        IrExprKind::Int(_) => when(
            !compatible(e.ty, IrType::Int),
            finding(E_IR_VAL_004, "int literal must have Int type"@, e.span),
        ),
        IrExprKind::Bool(_) => when(
            !compatible(e.ty, IrType::Bool),
            finding(E_IR_VAL_004, "bool literal must have Bool type"@, e.span),
        ),
        IrExprKind::Tuple(items) => check_exprs(items@, 0, env, fs) + when(
            !compatible_with_tuple(e.ty, items@),
            finding(
                E_IR_VAL_004,
                "tuple expression type mismatch: expr "@ + ty_text(e.ty) + ", inferred "@ + type_text(tuple_ty(items@)),
                e.span,
            ),
        ),
        IrExprKind::List(items) => check_exprs(items@, 0, env, fs) + when(
            !compatible_with_list(e.ty, items@),
            finding(
                E_IR_VAL_004,
                "list expression type mismatch: expr "@ + ty_text(e.ty) + ", inferred "@ + type_text(list_ty(items@)),
                e.span,
            ),
        ),
        IrExprKind::Record { name: _, fields } => check_fields(fields@, 0, env, fs),
        IrExprKind::Binary { lhs, op: _, rhs } => check_expr(*lhs, env, fs) + check_expr(*rhs, env, fs)
            + when(
            !(compatible(lhs.ty, IrType::Int) && compatible(rhs.ty, IrType::Int) && compatible(
                e.ty,
                IrType::Int,
            )),
            finding(E_IR_VAL_005, "binary expression must use Int operands and return Int"@, e.span),
        ),
        IrExprKind::Call { callee, args } => check_exprs(args@, 0, env, fs) + call_findings(
            e,
            callee@,
            args@,
            fs,
        ),
        IrExprKind::Let { name, value, body } => check_expr(*value, env, fs) + check_expr(
            *body,
            env.push((name@, value.ty)),
            fs,
        ) + when(!compatible(body.ty, e.ty), finding(E_IR_VAL_010, "let expression type must equal body type"@, e.span)),
        IrExprKind::Match { subject, arms } => check_expr(*subject, env, fs) + when(
            arms.len() == 0,
            finding(E_IR_VAL_011, "match expression requires at least one arm"@, e.span),
        ) + check_arms(arms@, 0, subject.ty, e.ty, env, fs),
    }
}

pub open spec fn check_exprs(items: Seq<IrExpr>, i: int, env: Env, fs: Seq<IrFunction>) -> Seq<Finding>
    decreases items, items.len() - i,
{
    if 0 <= i < items.len() {
        check_expr(items[i], env, fs) + check_exprs(items, i + 1, env, fs)
    } else {
        seq![]
    }
}

pub open spec fn check_fields(fields: Seq<IrRecordField>, i: int, env: Env, fs: Seq<IrFunction>) -> Seq<Finding>
    decreases fields, fields.len() - i,
{
    if 0 <= i < fields.len() {
        check_expr(fields[i].value, env, fs) + check_fields(fields, i + 1, env, fs)
    } else {
        seq![]
    }
}

pub open spec fn check_arms(
    arms: Seq<IrMatchArm>,
    i: int,
    subject_ty: IrType,
    match_ty: IrType,
    env: Env,
    fs: Seq<IrFunction>,
) -> Seq<Finding>
    decreases arms, arms.len() - i,
{
    if 0 <= i < arms.len() {
        let arm = arms[i];
        let (arm_env, pattern_findings) = check_pattern(arm.pattern, subject_ty, env);
        pattern_findings + check_expr(arm.body, arm_env, fs) + when(
            !compatible(arm.body.ty, match_ty),
            finding(E_IR_VAL_012, mismatch_text("match arm body type mismatch"@, match_ty, arm.body.ty), arm.span),
        ) + check_arms(arms, i + 1, subject_ty, match_ty, env, fs)
    } else {
        seq![]
    }
}

/// Checking a pattern against the type it is matched with: the bindings it adds, and findings.
pub open spec fn check_pattern(p: IrPattern, expected: IrType, env: Env) -> (Env, Seq<Finding>)
    decreases p, 0int,
{
    let mismatch = when(
        !compatible(p.ty, expected),
        finding(E_IR_VAL_013, mismatch_text("pattern type mismatch"@, expected, p.ty), p.span),
    );
    match p.kind {
        IrPatternKind::Wildcard => (env, mismatch),
        IrPatternKind::Int { value: _ } => (
            env,
            mismatch + when(
                !compatible(p.ty, IrType::Int),
                finding(E_IR_VAL_013, mismatch_text("pattern type mismatch"@, IrType::Int, p.ty), p.span),
            ),
        ),
        IrPatternKind::Binding { name } => (env.push((name@, p.ty)), mismatch),
        IrPatternKind::Variant { name: _, fields } => {
            let (env2, found) = check_pattern_fields(fields@, 0, env);
            (env2, mismatch + found)
        },
    }
}

pub open spec fn check_pattern_fields(fields: Seq<IrPatternField>, i: int, env: Env) -> (Env, Seq<Finding>)
    decreases fields, fields.len() - i,
{
    if 0 <= i < fields.len() {
        let f = fields[i];
        let (env1, found1) = check_pattern(f.pattern, f.pattern.ty, env);
        let (env2, found2) = check_pattern_fields(fields, i + 1, env1);
        (env2, found1 + found2)
    } else {
        (env, seq![])
    }
}

/// The bindings of a function's parameters.
pub open spec fn param_env(params: Seq<IrParam>) -> Env {
    params.map_values(|p: IrParam| (p.name@, p.ty))
}

/// The findings for the functions `fs[i..]` of program `all`.
pub open spec fn check_functions(fs: Seq<IrFunction>, i: int, all: Seq<IrFunction>) -> Seq<Finding>
    decreases fs.len() - i,
{
    if 0 <= i < fs.len() {
        let f = fs[i];
        when(
            !compatible(f.body.ty, f.return_type),
            finding(
                E_IR_VAL_001,
                named_text("function "@, f.name@, " return type mismatch: body "@) + ty_text(f.body.ty) + ", declared "@
                    + ty_text(f.return_type),
                f.span,
            ),
        ) + check_expr(
            f.body,
            param_env(f.params@),
            all,
        ) + check_functions(fs, i + 1, all)
    } else {
        seq![]
    }
}

/// The findings of checking a whole IR program.
pub open spec fn check_program(p: IrProgram) -> Seq<Finding> {
    check_functions(p.functions@, 0, p.functions@)
}

// ---------------------------------------------------------------------------
// Executable checker
// ---------------------------------------------------------------------------

pub open spec fn env_view(env: Seq<(&String, &IrType)>) -> Env {
    env.map_values(|b: (&String, &IrType)| (b.0@, *b.1))
}

proof fn lemma_env_push(env: Seq<(&String, &IrType)>, b: (&String, &IrType))
    ensures
        env_view(env.push(b)) == env_view(env).push((b.0@, *b.1)),
{
    assert(env_view(env.push(b)) =~= env_view(env).push((b.0@, *b.1)));
}

proof fn lemma_assoc(a: Seq<Finding>, b: Seq<Finding>, c: Seq<Finding>)
    ensures
        (a + b) + c == a + (b + c),
{
    assert((a + b) + c =~= a + (b + c));
}

fn report(diags: &mut Vec<Diagnostic>, code: &'static str, message: String, loc: SourceLoc)
    ensures
        findings(final(diags)@) == findings(old(diags)@) + seq![finding(code, message@, loc)],
{
    let ghost before = diags@;
    let ghost m = message@;
    diags.push(Diagnostic { code, message, line: loc.line, column: loc.column });
    proof {
        assert(findings(diags@) =~= findings(before) + seq![finding(code, m, loc)]);
    }
}

fn lookup_env<'a>(env: &Vec<(&'a String, &'a IrType)>, name: &String) -> (r: Option<&'a IrType>)
    ensures
        r matches Some(t) ==> lookup(env_view(env@), name@) == Some(*t),
        r is None ==> lookup(env_view(env@), name@) is None,
{
    let mut i = env.len();
    assert(env@.take(i as int) =~= env@);
    while i > 0
        invariant
            i <= env.len(),
            lookup(env_view(env@), name@) == lookup(env_view(env@.take(i as int)), name@),
        decreases i,
    {
        let ghost prefix = env@.take(i as int);
        proof {
            assert(env_view(prefix).drop_last() =~= env_view(env@.take(i - 1)));
        }
        let (n, t) = env[i - 1];
        if *n == *name {
            return Some(t);
        }
        i = i - 1;
    }
    None
}

pub(crate) fn find_function<'a>(fs: &'a Vec<IrFunction>, name: &String) -> (r: Option<&'a IrFunction>)
    ensures
        r matches Some(f) ==> find_fn(fs@, name@) == Some(*f),
        r is None ==> find_fn(fs@, name@) is None,
{
    let mut i = fs.len();
    assert(fs@.take(i as int) =~= fs@);
    while i > 0
        invariant
            i <= fs.len(),
            find_fn(fs@, name@) == find_fn(fs@.take(i as int), name@),
        decreases i,
    {
        proof {
            assert(fs@.take(i as int).drop_last() =~= fs@.take(i - 1));
        }
        if fs[i - 1].name == *name {
            return Some(&fs[i - 1]);
        }
        i = i - 1;
    }
    None
}

fn tuple_fits(t: &IrType, items: &Vec<IrExpr>) -> (r: bool)
    ensures
        r == compatible_with_tuple(*t, items@),
{
    match t {
        IrType::Unknown => true,
        IrType::Tuple(ts) => {
            if ts.len() != items.len() {
                return false;
            }
            let mut k: usize = 0;
            while k < ts.len()
                invariant
                    k <= ts.len(),
                    ts.len() == items.len(),
                    *t == IrType::Tuple(*ts),
                    forall|m: int| 0 <= m < k ==> compatible(#[trigger] ts@[m], items@[m].ty),
                decreases ts.len() - k,
            {
                if !ts[k].is_compatible(&items[k].ty) {
                    assert(!compatible(ts@[k as int], items@[k as int].ty));
                    return false;
                }
                k += 1;
            }
            true
        },
        _ => false,
    }
}

fn list_fits(t: &IrType, items: &Vec<IrExpr>) -> (r: bool)
    ensures
        r == compatible_with_list(*t, items@),
{
    match t {
        IrType::Unknown => true,
        IrType::Named { name, args } => {
            *name == owned("List") && args.len() == 1 && (items.len() == 0
                || args[0].is_compatible(&items[0].ty))
        },
        _ => false,
    }
}

/// The type a tuple of `items` has.
fn tuple_type(items: &Vec<IrExpr>) -> (r: IrType)
    ensures
        ir_ty(r) == tuple_ty(items@),
{
    let mut out: Vec<IrType> = Vec::new();
    let mut i: usize = 0;
    while i < items.len()
        invariant
            i <= items.len(),
            out.len() == i,
            forall|k: int| 0 <= k < i ==> #[trigger] ir_ty(out@[k]) == ir_ty(items@[k].ty),
        decreases items.len() - i,
    {
        out.push(items[i].ty.copy());
        i += 1;
    }
    proof {
        lemma_ir_tys0(out@);
        assert(ir_tys(out@, 0) =~= items@.map_values(|x: IrExpr| ir_ty(x.ty)));
    }
    IrType::Tuple(out)
}

/// The type a list of `items` has: a list of the first item's type.
fn list_type(items: &Vec<IrExpr>) -> (r: IrType)
    ensures
        ir_ty(r) == list_ty(items@),
{
    let item = if items.len() > 0 {
        items[0].ty.copy()
    } else {
        IrType::Unknown
    };
    let mut args: Vec<IrType> = Vec::new();
    args.push(item);
    proof {
        lemma_ir_tys0(args@);
        assert(ir_tys(args@, 0) =~= seq![ir_ty(item)]);
    }
    IrType::Named { name: owned("List"), args }
}

fn mismatch_message(what: &str, expected: &IrType, got: &IrType) -> (r: String)
    ensures
        r@ == mismatch_text(what@, *expected, *got),
{
    let a = concat_str(owned(what), ": expected ");
    let b = concat_str(a, expected.render().as_str());
    let c = concat_str(b, ", got ");
    concat_str(c, got.render().as_str())
}

fn validate_expr<'a>(
    expr: &'a IrExpr,
    env: &mut Vec<(&'a String, &'a IrType)>,
    fs: &'a Vec<IrFunction>,
    diags: &mut Vec<Diagnostic>,
)
    ensures
        final(env)@ == old(env)@,
        findings(final(diags)@) == findings(old(diags)@) + check_expr(*expr, env_view(old(env)@), fs@),
    decreases expr, 0int,
{
    let ghost d0 = findings(diags@);
    let ghost e0 = env_view(env@);
    match &expr.kind {
        IrExprKind::LocalRef { name } => {
            match lookup_env(env, name) {
                None => {
                    report(diags, E_IR_VAL_002, named("unknown local reference ", name.as_str(), ""), expr.span);
                },
                Some(expected) => {
                    if !expr.ty.is_compatible(expected) {
                        report(
                            diags,
                            E_IR_VAL_003,
                            concat_str(
                                concat_str(
                                    concat_str(named("local ", name.as_str(), " type mismatch: expr "), expr.ty.render().as_str()),
                                    ", env ",
                                ),
                                expected.render().as_str(),
                            ),
                            expr.span,
                        );
                    } else {
                        assert(findings(diags@) =~= d0 + seq![]);
                    }
                },
            }
        },
        IrExprKind::Int(_) => {
            if !expr.ty.is_compatible(&IrType::Int) {
                report(diags, E_IR_VAL_004, owned("int literal must have Int type"), expr.span);
            } else {
                assert(findings(diags@) =~= d0 + seq![]);
            }
        },
        IrExprKind::Bool(_) => {
            if !expr.ty.is_compatible(&IrType::Bool) {
                report(diags, E_IR_VAL_004, owned("bool literal must have Bool type"), expr.span);
            } else {
                assert(findings(diags@) =~= d0 + seq![]);
            }
        },
        IrExprKind::Tuple(items) => {
            validate_exprs(items, 0, env, fs, diags);
            let ghost d1 = findings(diags@);
            if !tuple_fits(&expr.ty, items) {
                let a = concat_str(owned("tuple expression type mismatch: expr "), expr.ty.render().as_str());
                let b = concat_str(concat_str(a, ", inferred "), tuple_type(items).render().as_str());
                report(diags, E_IR_VAL_004, b, expr.span);
            } else {
                assert(findings(diags@) =~= d1 + seq![]);
            }
            proof {
                lemma_assoc(d0, check_exprs(items@, 0, e0, fs@), when(
                    !compatible_with_tuple(expr.ty, items@),
                    finding(
                        E_IR_VAL_004,
                        "tuple expression type mismatch: expr "@ + ty_text(expr.ty) + ", inferred "@ + type_text(tuple_ty(items@)),
                        expr.span,
                    ),
                ));
            }
        },
        IrExprKind::List(items) => {
            validate_exprs(items, 0, env, fs, diags);
            let ghost d1 = findings(diags@);
            if !list_fits(&expr.ty, items) {
                let a = concat_str(owned("list expression type mismatch: expr "), expr.ty.render().as_str());
                let b = concat_str(concat_str(a, ", inferred "), list_type(items).render().as_str());
                report(diags, E_IR_VAL_004, b, expr.span);
            } else {
                assert(findings(diags@) =~= d1 + seq![]);
            }
            proof {
                lemma_assoc(d0, check_exprs(items@, 0, e0, fs@), when(
                    !compatible_with_list(expr.ty, items@),
                    finding(
                        E_IR_VAL_004,
                        "list expression type mismatch: expr "@ + ty_text(expr.ty) + ", inferred "@ + type_text(list_ty(items@)),
                        expr.span,
                    ),
                ));
            }
        },
        IrExprKind::Record { name: _, fields } => {
            validate_fields(fields, 0, env, fs, diags);
        },
        IrExprKind::Binary { lhs, op: _, rhs } => {
            validate_expr(lhs, env, fs, diags);
            validate_expr(rhs, env, fs, diags);
            let ghost d2 = findings(diags@);
            if !lhs.ty.is_compatible(&IrType::Int) || !rhs.ty.is_compatible(&IrType::Int)
                || !expr.ty.is_compatible(&IrType::Int) {
                report(
                    diags,
                    E_IR_VAL_005,
                    owned("binary expression must use Int operands and return Int"),
                    expr.span,
                );
            } else {
                assert(findings(diags@) =~= d2 + seq![]);
            }
            proof {
                let a = check_expr(**lhs, e0, fs@);
                let b = check_expr(**rhs, e0, fs@);
                let c = when(
                    !(compatible(lhs.ty, IrType::Int) && compatible(rhs.ty, IrType::Int)
                        && compatible(expr.ty, IrType::Int)),
                    finding(E_IR_VAL_005, "binary expression must use Int operands and return Int"@, expr.span),
                );
                assert(findings(diags@) =~= d0 + (a + b + c));
            }
        },
        IrExprKind::Call { callee, args } => {
            validate_exprs(args, 0, env, fs, diags);
            let ghost d1 = findings(diags@);
            validate_call(expr, callee, args, fs, diags);
            proof {
                lemma_assoc(d0, check_exprs(args@, 0, e0, fs@), call_findings(*expr, callee@, args@, fs@));
            }
        },
        IrExprKind::Let { name, value, body } => {
            validate_expr(value, env, fs, diags);
            let ghost d1 = findings(diags@);
            let ghost before = env@;
            proof {
                lemma_env_push(env@, (name, &value.ty));
            }
            env.push((name, &value.ty));
            validate_expr(body, env, fs, diags);
            env.pop();
            proof {
                assert(env@ =~= before);
            }
            let ghost d2 = findings(diags@);
            if !body.ty.is_compatible(&expr.ty) {
                report(diags, E_IR_VAL_010, owned("let expression type must equal body type"), expr.span);
            } else {
                assert(findings(diags@) =~= d2 + seq![]);
            }
            proof {
                let a = check_expr(**value, e0, fs@);
                let b = check_expr(**body, e0.push((name@, value.ty)), fs@);
                let c = when(!compatible(body.ty, expr.ty), finding(E_IR_VAL_010, "let expression type must equal body type"@, expr.span));
                assert(findings(diags@) =~= d0 + (a + b + c));
            }
        },
        IrExprKind::Match { subject, arms } => {
            validate_expr(subject, env, fs, diags);
            let ghost d1 = findings(diags@);
            if arms.len() == 0 {
                report(diags, E_IR_VAL_011, owned("match expression requires at least one arm"), expr.span);
            } else {
                assert(findings(diags@) =~= d1 + seq![]);
            }
            validate_arms(arms, 0, &subject.ty, &expr.ty, env, fs, diags);
            proof {
                let a = check_expr(**subject, e0, fs@);
                let b = when(arms.len() == 0, finding(E_IR_VAL_011, "match expression requires at least one arm"@, expr.span));
                let c = check_arms(arms@, 0, subject.ty, expr.ty, e0, fs@);
                assert(findings(diags@) =~= d0 + (a + b + c));
            }
        },
    }
}

fn validate_call<'a>(
    expr: &'a IrExpr,
    callee: &'a String,
    args: &'a Vec<IrExpr>,
    fs: &'a Vec<IrFunction>,
    diags: &mut Vec<Diagnostic>,
)
    ensures
        findings(final(diags)@) == findings(old(diags)@) + call_findings(*expr, callee@, args@, fs@),
{
    let ghost d0 = findings(diags@);
    let sig = match find_function(fs, callee) {
        None => {
            report(diags, E_IR_VAL_006, named("unknown callee ", callee.as_str(), ""), expr.span);
            return;
        },
        Some(f) => f,
    };
    if !expr.ty.is_compatible(&sig.return_type) {
        let a = concat_str(named("call ", callee.as_str(), " return type mismatch: expr "), expr.ty.render().as_str());
        let b = concat_str(concat_str(a, ", signature "), sig.return_type.render().as_str());
        report(diags, E_IR_VAL_007, b, expr.span);
    } else {
        assert(findings(diags@) =~= d0 + seq![]);
    }
    let ghost d1 = findings(diags@);
    if args.len() != sig.params.len() {
        let a = named("call ", callee.as_str(), "");
        let b = concat_str(a, " arity mismatch: expected ");
        let c = concat_str(b, decimal(sig.params.len()).as_str());
        let d = concat_str(c, ", got ");
        let m = concat_str(d, decimal(args.len()).as_str());
        report(diags, E_IR_VAL_008, m, expr.span);
    } else {
        assert(findings(diags@) =~= d1 + seq![]);
    }
    let ghost d2 = findings(diags@);
    let mut idx: usize = 0;
    while idx < args.len()
        invariant
            idx <= args.len(),
            findings(diags@) + arg_mismatches(callee@, args@, sig.params@, idx as int, expr.span) == d2
                + arg_mismatches(callee@, args@, sig.params@, 0, expr.span),
        decreases args.len() - idx,
    {
        let ghost before = findings(diags@);
        if idx < sig.params.len() && !args[idx].ty.is_compatible(&sig.params[idx].ty) {
            let a = concat_str(named("call ", callee.as_str(), " arg "), decimal(idx + 1).as_str());
            let b = concat_str(concat_str(a, " type mismatch: expected "), sig.params[idx].ty.render().as_str());
            let m = concat_str(concat_str(b, ", got "), args[idx].ty.render().as_str());
            report(diags, E_IR_VAL_009, m, expr.span);
        } else {
            assert(findings(diags@) =~= before + seq![]);
        }
        proof {
            let step = if idx < sig.params.len() && !compatible(args@[idx as int].ty, sig.params@[idx as int].ty) {
                seq![
                    finding(
                        E_IR_VAL_009,
                        named_text("call "@, callee@, " arg "@) + decimal_text((idx + 1) as nat) + " type mismatch: expected "@
                            + ty_text(sig.params@[idx as int].ty) + ", got "@ + ty_text(args@[idx as int].ty),
                        expr.span,
                    ),
                ]
            } else {
                seq![]
            };
            assert(arg_mismatches(callee@, args@, sig.params@, idx as int, expr.span) == step + arg_mismatches(callee@, args@, sig.params@, idx + 1, expr.span));
            lemma_assoc(before, step, arg_mismatches(callee@, args@, sig.params@, idx + 1, expr.span));
        }
        idx += 1;
    }
    proof {
        assert(findings(diags@) =~= findings(diags@) + arg_mismatches(callee@, args@, sig.params@, idx as int, expr.span));
        let a = when(
            !compatible(expr.ty, sig.return_type),
            finding(
                E_IR_VAL_007,
                named_text("call "@, callee@, " return type mismatch: expr "@) + ty_text(expr.ty) + ", signature "@
                    + ty_text(sig.return_type),
                expr.span,
            ),
        );
        let b = when(
            args.len() != sig.params.len(),
            finding(
                E_IR_VAL_008,
                named_text("call "@, callee@, ""@) + " arity mismatch: expected "@ + decimal_text(sig.params.len() as nat)
                    + ", got "@ + decimal_text(args.len() as nat),
                expr.span,
            ),
        );
        let c = arg_mismatches(callee@, args@, sig.params@, 0, expr.span);
        assert(findings(diags@) =~= d0 + (a + b + c));
    }
}

fn validate_exprs<'a>(
    items: &'a Vec<IrExpr>,
    i: usize,
    env: &mut Vec<(&'a String, &'a IrType)>,
    fs: &'a Vec<IrFunction>,
    diags: &mut Vec<Diagnostic>,
)
    requires
        i <= items.len(),
    ensures
        final(env)@ == old(env)@,
        findings(final(diags)@) == findings(old(diags)@) + check_exprs(items@, i as int, env_view(old(env)@), fs@),
    decreases items@, items.len() - i,
{
    if i < items.len() {
        let ghost d0 = findings(diags@);
        let ghost e0 = env_view(env@);
        proof {
            assert(decreases_to!(items@ => items@[i as int]));
        }
        validate_expr(&items[i], env, fs, diags);
        validate_exprs(items, i + 1, env, fs, diags);
        proof {
            lemma_assoc(d0, check_expr(items@[i as int], e0, fs@), check_exprs(items@, i + 1, e0, fs@));
        }
    } else {
        assert(findings(diags@) =~= findings(diags@) + seq![]);
    }
}

fn validate_fields<'a>(
    fields: &'a Vec<IrRecordField>,
    i: usize,
    env: &mut Vec<(&'a String, &'a IrType)>,
    fs: &'a Vec<IrFunction>,
    diags: &mut Vec<Diagnostic>,
)
    requires
        i <= fields.len(),
    ensures
        final(env)@ == old(env)@,
        findings(final(diags)@) == findings(old(diags)@) + check_fields(fields@, i as int, env_view(old(env)@), fs@),
    decreases fields@, fields.len() - i,
{
    if i < fields.len() {
        let ghost d0 = findings(diags@);
        let ghost e0 = env_view(env@);
        proof {
            assert(decreases_to!(fields@ => fields@[i as int].value));
        }
        validate_expr(&fields[i].value, env, fs, diags);
        validate_fields(fields, i + 1, env, fs, diags);
        proof {
            lemma_assoc(d0, check_expr(fields@[i as int].value, e0, fs@), check_fields(fields@, i + 1, e0, fs@));
        }
    } else {
        assert(findings(diags@) =~= findings(diags@) + seq![]);
    }
}

fn validate_arms<'a>(
    arms: &'a Vec<IrMatchArm>,
    i: usize,
    subject_ty: &'a IrType,
    match_ty: &'a IrType,
    env: &mut Vec<(&'a String, &'a IrType)>,
    fs: &'a Vec<IrFunction>,
    diags: &mut Vec<Diagnostic>,
)
    requires
        i <= arms.len(),
    ensures
        final(env)@ == old(env)@,
        findings(final(diags)@) == findings(old(diags)@) + check_arms(
            arms@,
            i as int,
            *subject_ty,
            *match_ty,
            env_view(old(env)@),
            fs@,
        ),
    decreases arms@, arms.len() - i,
{
    if i < arms.len() {
        let ghost d0 = findings(diags@);
        let ghost e0 = env_view(env@);
        let ghost raw0 = env@;
        let arm = &arms[i];
        let mark = env.len();
        validate_pattern(&arm.pattern, subject_ty, env, diags);
        proof {
            assert(decreases_to!(arms@ => arms@[i as int].body));
        }
        validate_expr(&arm.body, env, fs, diags);
        let ghost d2 = findings(diags@);
        if !arm.body.ty.is_compatible(match_ty) {
            report(
                diags,
                E_IR_VAL_012,
                mismatch_message("match arm body type mismatch", match_ty, &arm.body.ty),
                arm.span,
            );
        } else {
            assert(findings(diags@) =~= d2 + seq![]);
        }
        env.truncate(mark);
        proof {
            assert(env@ =~= raw0);
        }
        validate_arms(arms, i + 1, subject_ty, match_ty, env, fs, diags);
        proof {
            let (pe, pf) = check_pattern(arm.pattern, *subject_ty, e0);
            let a = check_expr(arm.body, pe, fs@);
            let b = when(!compatible(arm.body.ty, *match_ty), finding(E_IR_VAL_012, mismatch_text("match arm body type mismatch"@, *match_ty, arm.body.ty), arm.span));
            let c = check_arms(arms@, i + 1, *subject_ty, *match_ty, e0, fs@);
            assert(findings(diags@) =~= d0 + (pf + a + b + c));
        }
    } else {
        assert(findings(diags@) =~= findings(diags@) + seq![]);
    }
}

fn validate_pattern<'a>(
    pattern: &'a IrPattern,
    expected: &IrType,
    env: &mut Vec<(&'a String, &'a IrType)>,
    diags: &mut Vec<Diagnostic>,
)
    ensures
        old(env)@.len() <= final(env)@.len(),
        final(env)@.take(old(env)@.len() as int) == old(env)@,
        env_view(final(env)@) == check_pattern(*pattern, *expected, env_view(old(env)@)).0,
        findings(final(diags)@) == findings(old(diags)@) + check_pattern(
            *pattern,
            *expected,
            env_view(old(env)@),
        ).1,
    decreases pattern, 0int,
{
    let ghost d0 = findings(diags@);
    let ghost raw0 = env@;
    if !pattern.ty.is_compatible(expected) {
        report(diags, E_IR_VAL_013, mismatch_message("pattern type mismatch", expected, &pattern.ty), pattern.span);
    } else {
        assert(findings(diags@) =~= d0 + seq![]);
    }
    match &pattern.kind {
        IrPatternKind::Wildcard => {
            assert(env@.take(raw0.len() as int) =~= raw0);
        },
        IrPatternKind::Int { value: _ } => {
            let ghost d1 = findings(diags@);
            let int_ty = IrType::Int;
            if !pattern.ty.is_compatible(&int_ty) {
                report(diags, E_IR_VAL_013, mismatch_message("pattern type mismatch", &int_ty, &pattern.ty), pattern.span);
            } else {
                assert(findings(diags@) =~= d1 + seq![]);
            }
            assert(env@.take(raw0.len() as int) =~= raw0);
            proof {
                let m = when(!compatible(pattern.ty, *expected), finding(E_IR_VAL_013, mismatch_text("pattern type mismatch"@, *expected, pattern.ty), pattern.span));
                let m2 = when(!compatible(pattern.ty, IrType::Int), finding(E_IR_VAL_013, mismatch_text("pattern type mismatch"@, IrType::Int, pattern.ty), pattern.span));
                assert(findings(diags@) =~= d0 + (m + m2));
            }
        },
        IrPatternKind::Binding { name } => {
            proof {
                lemma_env_push(env@, (name, &pattern.ty));
            }
            env.push((name, &pattern.ty));
            assert(env@.take(raw0.len() as int) =~= raw0);
        },
        IrPatternKind::Variant { name: _, fields } => {
            validate_pattern_fields(fields, 0, env, diags);
            proof {
                let m = when(!compatible(pattern.ty, *expected), finding(E_IR_VAL_013, mismatch_text("pattern type mismatch"@, *expected, pattern.ty), pattern.span));
                let r = check_pattern_fields(fields@, 0, env_view(raw0));
                assert(findings(diags@) =~= d0 + (m + r.1));
            }
        },
    }
}

fn validate_pattern_fields<'a>(
    fields: &'a Vec<IrPatternField>,
    i: usize,
    env: &mut Vec<(&'a String, &'a IrType)>,
    diags: &mut Vec<Diagnostic>,
)
    requires
        i <= fields.len(),
    ensures
        old(env)@.len() <= final(env)@.len(),
        final(env)@.take(old(env)@.len() as int) == old(env)@,
        env_view(final(env)@) == check_pattern_fields(fields@, i as int, env_view(old(env)@)).0,
        findings(final(diags)@) == findings(old(diags)@) + check_pattern_fields(
            fields@,
            i as int,
            env_view(old(env)@),
        ).1,
    decreases fields@, fields.len() - i,
{
    if i < fields.len() {
        let ghost d0 = findings(diags@);
        let ghost raw0 = env@;
        proof {
            assert(decreases_to!(fields@ => fields@[i as int].pattern));
        }
        let f = &fields[i];
        validate_pattern(&f.pattern, &f.pattern.ty, env, diags);
        let ghost raw1 = env@;
        validate_pattern_fields(fields, i + 1, env, diags);
        proof {
            let (e1, f1) = check_pattern(f.pattern, f.pattern.ty, env_view(raw0));
            let (e2, f2) = check_pattern_fields(fields@, i + 1, e1);
            assert(findings(diags@) =~= d0 + (f1 + f2));
            assert(env@.take(raw0.len() as int) =~= raw1.take(raw0.len() as int));
        }
    } else {
        assert(findings(diags@) =~= findings(diags@) + seq![]);
        assert(env@.take(env@.len() as int) =~= env@);
    }
}

/// Checks that an IR program is internally consistent: every local reference is bound, every
/// callee exists, and every expression's type fits its parts and its context.
pub fn validate_program(program: &IrProgram) -> (r: Vec<Diagnostic>)
    ensures
        findings(r@) == check_program(*program),
{
    let mut diagnostics: Vec<Diagnostic> = Vec::new();
    let fs = &program.functions;
    let mut i: usize = 0;
    while i < fs.len()
        invariant
            i <= fs.len(),
            fs == &program.functions,
            findings(diagnostics@) + check_functions(fs@, i as int, fs@) == check_functions(fs@, 0, fs@),
        decreases fs.len() - i,
    {
        let function = &fs[i];
        let ghost d0 = findings(diagnostics@);
        if !function.body.ty.is_compatible(&function.return_type) {
            let b = named("function ", function.name.as_str(), " return type mismatch: body ");
            let c = concat_str(b, function.body.ty.render().as_str());
            let d = concat_str(c, ", declared ");
            let m = concat_str(d, function.return_type.render().as_str());
            report(&mut diagnostics, E_IR_VAL_001, m, function.span);
        } else {
            assert(findings(diagnostics@) =~= d0 + seq![]);
        }
        let mut env: Vec<(&String, &IrType)> = Vec::new();
        let mut k: usize = 0;
        while k < function.params.len()
            invariant
                k <= function.params.len(),
                env_view(env@) == param_env(function.params@.take(k as int)),
            decreases function.params.len() - k,
        {
            let p = &function.params[k];
            proof {
                lemma_env_push(env@, (&p.name, &p.ty));
                assert(param_env(function.params@.take(k + 1)) =~= param_env(function.params@.take(k as int)).push((p.name@, p.ty)));
            }
            env.push((&p.name, &p.ty));
            k += 1;
        }
        proof {
            assert(function.params@.take(k as int) =~= function.params@);
        }
        validate_expr(&function.body, &mut env, fs, &mut diagnostics);
        proof {
            let a = when(
                !compatible(function.body.ty, function.return_type),
                finding(
                    E_IR_VAL_001,
                    named_text("function "@, function.name@, " return type mismatch: body "@) + ty_text(function.body.ty)
                        + ", declared "@ + ty_text(function.return_type),
                    function.span,
                ),
            );
            let b = check_expr(function.body, param_env(function.params@), fs@);
            let c = check_functions(fs@, i + 1, fs@);
            assert(check_functions(fs@, i as int, fs@) == a + b + c);
            assert(findings(diagnostics@) + c =~= d0 + (a + b + c));
        }
        i += 1;
    }
    proof {
        assert(findings(diagnostics@) =~= findings(diagnostics@) + check_functions(fs@, i as int, fs@));
    }
    diagnostics
}

// ---------------------------------------------------------------------------
// The return-type check
// ---------------------------------------------------------------------------

/// Whether a finding has the code `code`.
pub open spec fn has_code(code: &'static str) -> spec_fn(Finding) -> bool {
    |f: Finding| f.code == code
}

/// No finding of `s` is a return-type finding.
pub open spec fn lacks_return_code(s: Seq<Finding>) -> bool {
    forall|k: int| 0 <= k < s.len() ==> (#[trigger] s[k]).code != E_IR_VAL_001
}

/// The return-type findings for the functions `fs[i..]`: one for each function whose body type
/// is not compatible with its declared return type, in order, at the function.
pub open spec fn return_findings(fs: Seq<IrFunction>, i: int) -> Seq<Finding>
    decreases fs.len() - i,
{
    if 0 <= i < fs.len() {
        let f = fs[i];
        when(
            !compatible(f.body.ty, f.return_type),
            finding(
                E_IR_VAL_001,
                named_text("function "@, f.name@, " return type mismatch: body "@) + ty_text(f.body.ty) + ", declared "@
                    + ty_text(f.return_type),
                f.span,
            ),
        ) + return_findings(fs, i + 1)
    } else {
        seq![]
    }
}

/// The other codes differ from the return-type code.
proof fn lemma_codes_differ()
    ensures
        E_IR_VAL_002 != E_IR_VAL_001,
        E_IR_VAL_003 != E_IR_VAL_001,
        E_IR_VAL_004 != E_IR_VAL_001,
        E_IR_VAL_005 != E_IR_VAL_001,
        E_IR_VAL_006 != E_IR_VAL_001,
        E_IR_VAL_007 != E_IR_VAL_001,
        E_IR_VAL_008 != E_IR_VAL_001,
        E_IR_VAL_009 != E_IR_VAL_001,
        E_IR_VAL_010 != E_IR_VAL_001,
        E_IR_VAL_011 != E_IR_VAL_001,
        E_IR_VAL_012 != E_IR_VAL_001,
        E_IR_VAL_013 != E_IR_VAL_001,
{
    reveal_strlit("E-IR-VAL-001");
    reveal_strlit("E-IR-VAL-002");
    reveal_strlit("E-IR-VAL-003");
    reveal_strlit("E-IR-VAL-004");
    reveal_strlit("E-IR-VAL-005");
    reveal_strlit("E-IR-VAL-006");
    reveal_strlit("E-IR-VAL-007");
    reveal_strlit("E-IR-VAL-008");
    reveal_strlit("E-IR-VAL-009");
    reveal_strlit("E-IR-VAL-010");
    reveal_strlit("E-IR-VAL-011");
    reveal_strlit("E-IR-VAL-012");
    reveal_strlit("E-IR-VAL-013");
    assert(E_IR_VAL_002@[11] != E_IR_VAL_001@[11]);
    assert(E_IR_VAL_003@[11] != E_IR_VAL_001@[11]);
    assert(E_IR_VAL_004@[11] != E_IR_VAL_001@[11]);
    assert(E_IR_VAL_005@[11] != E_IR_VAL_001@[11]);
    assert(E_IR_VAL_006@[11] != E_IR_VAL_001@[11]);
    assert(E_IR_VAL_007@[11] != E_IR_VAL_001@[11]);
    assert(E_IR_VAL_008@[11] != E_IR_VAL_001@[11]);
    assert(E_IR_VAL_009@[11] != E_IR_VAL_001@[11]);
    assert(E_IR_VAL_010@[10] != E_IR_VAL_001@[10]);
    assert(E_IR_VAL_011@[10] != E_IR_VAL_001@[10]);
    assert(E_IR_VAL_012@[10] != E_IR_VAL_001@[10]);
    assert(E_IR_VAL_013@[10] != E_IR_VAL_001@[10]);
}

proof fn lemma_lacks_add(a: Seq<Finding>, b: Seq<Finding>)
    requires
        lacks_return_code(a),
        lacks_return_code(b),
    ensures
        lacks_return_code(a + b),
{
    assert forall|k: int| 0 <= k < (a + b).len() implies (#[trigger] (a + b)[k]).code != E_IR_VAL_001 by {
        if k < a.len() {
            assert((a + b)[k] == a[k]);
        } else {
            assert((a + b)[k] == b[k - a.len()]);
        }
    }
}

proof fn lemma_arg_mismatches_lack(callee: Seq<char>, args: Seq<IrExpr>, params: Seq<IrParam>, i: int, loc: SourceLoc)
    ensures
        lacks_return_code(arg_mismatches(callee, args, params, i, loc)),
    decreases args.len() - i,
{
    lemma_codes_differ();
    if 0 <= i < args.len() {
        lemma_arg_mismatches_lack(callee, args, params, i + 1, loc);
        let h = if i < params.len() && !compatible(args[i].ty, params[i].ty) {
            seq![
                finding(
                    E_IR_VAL_009,
                    named_text("call "@, callee, " arg "@) + decimal_text((i + 1) as nat) + " type mismatch: expected "@
                        + ty_text(params[i].ty) + ", got "@ + ty_text(args[i].ty),
                    loc,
                ),
            ]
        } else {
            seq![]
        };
        lemma_lacks_add(h, arg_mismatches(callee, args, params, i + 1, loc));
    }
}

proof fn lemma_pattern_lacks(p: IrPattern, expected: IrType, env: Env)
    ensures
        lacks_return_code(check_pattern(p, expected, env).1),
    decreases p, 0int,
{
    lemma_codes_differ();
    let mismatch = when(
        !compatible(p.ty, expected),
        finding(E_IR_VAL_013, mismatch_text("pattern type mismatch"@, expected, p.ty), p.span),
    );
    match p.kind {
        IrPatternKind::Int { value: _ } => {
            let m2 = when(
                !compatible(p.ty, IrType::Int),
                finding(E_IR_VAL_013, mismatch_text("pattern type mismatch"@, IrType::Int, p.ty), p.span),
            );
            lemma_lacks_add(mismatch, m2);
        },
        IrPatternKind::Variant { name: _, fields } => {
            lemma_pattern_fields_lack(fields@, 0, env);
            lemma_lacks_add(mismatch, check_pattern_fields(fields@, 0, env).1);
        },
        _ => {},
    }
}

proof fn lemma_pattern_fields_lack(fields: Seq<IrPatternField>, i: int, env: Env)
    ensures
        lacks_return_code(check_pattern_fields(fields, i, env).1),
    decreases fields, fields.len() - i,
{
    if 0 <= i < fields.len() {
        let f = fields[i];
        lemma_pattern_lacks(f.pattern, f.pattern.ty, env);
        let (env1, found1) = check_pattern(f.pattern, f.pattern.ty, env);
        lemma_pattern_fields_lack(fields, i + 1, env1);
        lemma_lacks_add(found1, check_pattern_fields(fields, i + 1, env1).1);
    }
}

/// Checking an expression never reports the return-type code.
proof fn lemma_expr_lacks(e: IrExpr, env: Env, fs: Seq<IrFunction>)
    ensures
        lacks_return_code(check_expr(e, env, fs)),
    decreases e, 0int,
{
    lemma_codes_differ();
    match e.kind {
        IrExprKind::Tuple(items) => {
            lemma_exprs_lack(items@, 0, env, fs);
            lemma_lacks_add(check_exprs(items@, 0, env, fs), when(
                !compatible_with_tuple(e.ty, items@),
                finding(
                    E_IR_VAL_004,
                    "tuple expression type mismatch: expr "@ + ty_text(e.ty) + ", inferred "@ + type_text(tuple_ty(items@)),
                    e.span,
                ),
            ));
        },
        IrExprKind::List(items) => {
            lemma_exprs_lack(items@, 0, env, fs);
            lemma_lacks_add(check_exprs(items@, 0, env, fs), when(
                !compatible_with_list(e.ty, items@),
                finding(
                    E_IR_VAL_004,
                    "list expression type mismatch: expr "@ + ty_text(e.ty) + ", inferred "@ + type_text(list_ty(items@)),
                    e.span,
                ),
            ));
        },
        IrExprKind::Record { name: _, fields } => lemma_fields_lack(fields@, 0, env, fs),
        IrExprKind::Binary { lhs, op: _, rhs } => {
            lemma_expr_lacks(*lhs, env, fs);
            lemma_expr_lacks(*rhs, env, fs);
            lemma_lacks_add(check_expr(*lhs, env, fs), check_expr(*rhs, env, fs));
            lemma_lacks_add(check_expr(*lhs, env, fs) + check_expr(*rhs, env, fs), when(
                !(compatible(lhs.ty, IrType::Int) && compatible(rhs.ty, IrType::Int) && compatible(e.ty, IrType::Int)),
                finding(E_IR_VAL_005, "binary expression must use Int operands and return Int"@, e.span),
            ));
        },
        IrExprKind::Call { callee, args } => {
            lemma_exprs_lack(args@, 0, env, fs);
            match find_fn(fs, callee@) {
                Some(f) => {
                    let a = when(
                        !compatible(e.ty, f.return_type),
                        finding(
                            E_IR_VAL_007,
                            named_text("call "@, callee@, " return type mismatch: expr "@) + ty_text(e.ty) + ", signature "@
                                + ty_text(f.return_type),
                            e.span,
                        ),
                    );
                    let b = when(
                        args.len() != f.params.len(),
                        finding(
                            E_IR_VAL_008,
                            named_text("call "@, callee@, ""@) + " arity mismatch: expected "@ + decimal_text(
                                f.params.len() as nat,
                            ) + ", got "@ + decimal_text(args@.len()),
                            e.span,
                        ),
                    );
                    lemma_arg_mismatches_lack(callee@, args@, f.params@, 0, e.span);
                    lemma_lacks_add(a, b);
                    lemma_lacks_add(a + b, arg_mismatches(callee@, args@, f.params@, 0, e.span));
                },
                None => {},
            }
            lemma_lacks_add(check_exprs(args@, 0, env, fs), call_findings(e, callee@, args@, fs));
        },
        IrExprKind::Let { name, value, body } => {
            lemma_expr_lacks(*value, env, fs);
            lemma_expr_lacks(*body, env.push((name@, value.ty)), fs);
            lemma_lacks_add(check_expr(*value, env, fs), check_expr(*body, env.push((name@, value.ty)), fs));
            lemma_lacks_add(
                check_expr(*value, env, fs) + check_expr(*body, env.push((name@, value.ty)), fs),
                when(!compatible(body.ty, e.ty), finding(E_IR_VAL_010, "let expression type must equal body type"@, e.span)),
            );
        },
        IrExprKind::Match { subject, arms } => {
            lemma_expr_lacks(*subject, env, fs);
            lemma_arms_lack(arms@, 0, subject.ty, e.ty, env, fs);
            let w = when(arms.len() == 0, finding(E_IR_VAL_011, "match expression requires at least one arm"@, e.span));
            lemma_lacks_add(check_expr(*subject, env, fs), w);
            lemma_lacks_add(check_expr(*subject, env, fs) + w, check_arms(arms@, 0, subject.ty, e.ty, env, fs));
        },
        _ => {},
    }
}

proof fn lemma_exprs_lack(items: Seq<IrExpr>, i: int, env: Env, fs: Seq<IrFunction>)
    ensures
        lacks_return_code(check_exprs(items, i, env, fs)),
    decreases items, items.len() - i,
{
    if 0 <= i < items.len() {
        lemma_expr_lacks(items[i], env, fs);
        lemma_exprs_lack(items, i + 1, env, fs);
        lemma_lacks_add(check_expr(items[i], env, fs), check_exprs(items, i + 1, env, fs));
    }
}

proof fn lemma_fields_lack(fields: Seq<IrRecordField>, i: int, env: Env, fs: Seq<IrFunction>)
    ensures
        lacks_return_code(check_fields(fields, i, env, fs)),
    decreases fields, fields.len() - i,
{
    if 0 <= i < fields.len() {
        lemma_expr_lacks(fields[i].value, env, fs);
        lemma_fields_lack(fields, i + 1, env, fs);
        lemma_lacks_add(check_expr(fields[i].value, env, fs), check_fields(fields, i + 1, env, fs));
    }
}

proof fn lemma_arms_lack(arms: Seq<IrMatchArm>, i: int, subject_ty: IrType, match_ty: IrType, env: Env, fs: Seq<IrFunction>)
    ensures
        lacks_return_code(check_arms(arms, i, subject_ty, match_ty, env, fs)),
    decreases arms, arms.len() - i,
{
    lemma_codes_differ();
    if 0 <= i < arms.len() {
        let arm = arms[i];
        let (arm_env, pf) = check_pattern(arm.pattern, subject_ty, env);
        lemma_pattern_lacks(arm.pattern, subject_ty, env);
        lemma_expr_lacks(arm.body, arm_env, fs);
        lemma_arms_lack(arms, i + 1, subject_ty, match_ty, env, fs);
        let w = when(
            !compatible(arm.body.ty, match_ty),
            finding(E_IR_VAL_012, mismatch_text("match arm body type mismatch"@, match_ty, arm.body.ty), arm.span),
        );
        lemma_lacks_add(pf, check_expr(arm.body, arm_env, fs));
        lemma_lacks_add(pf + check_expr(arm.body, arm_env, fs), w);
        lemma_lacks_add(pf + check_expr(arm.body, arm_env, fs) + w, check_arms(arms, i + 1, subject_ty, match_ty, env, fs));
    }
}

proof fn lemma_filter_lacks(s: Seq<Finding>)
    requires
        lacks_return_code(s),
    ensures
        s.filter(has_code(E_IR_VAL_001)) == Seq::<Finding>::empty(),
    decreases s.len(),
{
    reveal(Seq::filter);
    if s.len() > 0 {
        assert(s.last() == s[s.len() - 1]);
        lemma_filter_lacks(s.drop_last());
    }
}

proof fn lemma_filter_when(c: bool, f: Finding)
    requires
        f.code == E_IR_VAL_001,
    ensures
        (when(c, f)).filter(has_code(E_IR_VAL_001)) == (when(c, f)),
{
    reveal_with_fuel(Seq::filter, 2);
    if c {
        assert(seq![f].drop_last() =~= Seq::<Finding>::empty());
        assert(Seq::<Finding>::empty().push(f) =~= seq![f]);
    }
}

proof fn lemma_functions_return_findings(fs: Seq<IrFunction>, i: int, all: Seq<IrFunction>)
    ensures
        check_functions(fs, i, all).filter(has_code(E_IR_VAL_001)) == return_findings(fs, i),
    decreases fs.len() - i,
{
    reveal(Seq::filter);
    if 0 <= i < fs.len() {
        let f = fs[i];
        let fd = finding(
            E_IR_VAL_001,
            named_text("function "@, f.name@, " return type mismatch: body "@) + ty_text(f.body.ty) + ", declared "@
                + ty_text(f.return_type),
            f.span,
        );
        let w = when(!compatible(f.body.ty, f.return_type), fd);
        let c = check_expr(f.body, param_env(f.params@), all);
        let r = check_functions(fs, i + 1, all);
        let pred = has_code(E_IR_VAL_001);
        lemma_functions_return_findings(fs, i + 1, all);
        lemma_expr_lacks(f.body, param_env(f.params@), all);
        lemma_filter_lacks(c);
        lemma_filter_when(!compatible(f.body.ty, f.return_type), fd);
        Seq::filter_distributes_over_add(w + c, r, pred);
        Seq::filter_distributes_over_add(w, c, pred);
        assert(check_functions(fs, i, all) == (w + c) + r);
        assert(w.filter(pred) + Seq::<Finding>::empty() =~= w);
    } else {
        assert(Seq::<Finding>::empty().filter(has_code(E_IR_VAL_001)) =~= Seq::<Finding>::empty());
    }
}

/// The return-type findings of IR validation: exactly one `E-IR-VAL-001` finding for each
/// function whose body type is not compatible with its declared return type, in the order of
/// the functions, at the function; no other check reports that code.
pub proof fn lemma_return_type_findings(p: IrProgram)
    ensures
        check_program(p).filter(has_code(E_IR_VAL_001)) == return_findings(p.functions@, 0),
{
    lemma_functions_return_findings(p.functions@, 0, p.functions@);
}

} // verus!
