use vstd::prelude::*;
use crate::ir::types::{IrExpr, IrExprKind, IrFunction, IrMatchArm, IrPattern, IrPatternField, IrPatternKind, IrProgram, IrRecordField};
use crate::ir::validate::{find_fn, find_function};
use crate::syntax::ast::{BinaryOp, FnKind};
use crate::text::{concat_str, decimal, decimal_text, owned};
use crate::vm::value::{
    copy_value, entries, entries_get, entries_insert, estimate, estimate_value_bytes, lemma_entries0,
    lemma_vals0, map_get, map_insert, sat_add, val, vals, Entries, Val, VmValue,
};

verus! {

/// Resource limits of one call.
#[derive(Debug, Clone, Copy, PartialEq, Eq, Structural)]
pub struct VmLimits {
    pub max_steps: u64,
    pub max_memory_bytes: usize,
    pub max_recursion_depth: u32,
}

pub open spec fn default_limits() -> VmLimits {
    VmLimits { max_steps: 100_000, max_memory_bytes: 67_108_864, max_recursion_depth: 256 }
}

impl Default for VmLimits {
    fn default() -> (r: Self)
        ensures
            r == default_limits(),
    {
        VmLimits { max_steps: 100_000, max_memory_bytes: 67_108_864, max_recursion_depth: 256 }
    }
}

#[derive(Debug, Clone, Copy, PartialEq, Eq, Structural)]
pub enum VmErrorCode {
    StepLimitExceeded,
    MemoryLimitExceeded,
    RecursionLimitExceeded,
    InvalidInput,
    Trap,
    Panic,
}

/// A structured execution error.
#[derive(Debug, Clone, PartialEq, Eq)]
pub struct VmError {
    pub code: VmErrorCode,
    pub message: String,
}

impl VmError {
    pub fn new(code: VmErrorCode, message: &str) -> (e: Self)
        ensures
            e.code == code,
            e.message@ == message@,
    {
        VmError { code, message: owned(message) }
    }
}

// ---------------------------------------------------------------------------
// Semantics
// ---------------------------------------------------------------------------

/// The evaluator's budget: steps left, current call depth, bytes charged so far.
pub struct EvalState {
    pub steps: u64,
    pub depth: u32,
    pub memory: usize,
}

pub open spec fn initial_state(lim: VmLimits) -> EvalState {
    EvalState { steps: lim.max_steps, depth: 0, memory: 0 }
}

/// The value bound last to `name`.
pub open spec fn env_get(env: Entries, name: Seq<char>) -> Option<Val>
    decreases env.len(),
{
    if env.len() == 0 {
        None
    } else if env.last().0 == name {
        Some(env.last().1)
    } else {
        env_get(env.drop_last(), name)
    }
}

/// A lookup finds a name's most recent binding: after binding `n` to `v`, `n` stands for `v`,
/// and every other name stands for what it stood for before.
pub proof fn lemma_env_get_push(env: Entries, n: Seq<char>, v: Val, m: Seq<char>)
    ensures
        env_get(env.push((n, v)), n) == Some(v),
        m != n ==> env_get(env.push((n, v)), m) == env_get(env, m),
{
    assert(env.push((n, v)).drop_last() =~= env);
}

/// What stops an evaluation: the kind of error and its message.
pub type Fault = (VmErrorCode, Seq<char>);

/// A fault of a branch that evaluation never takes: each step spends budget.
pub open spec fn stalled() -> Fault {
    (VmErrorCode::Trap, seq![])
}

/// Integer arithmetic; overflow and division by zero trap.
pub open spec fn binop(op: BinaryOp, l: Val, r: Val) -> Result<Val, Fault> {
    match (l, r) {
        (Val::Int(a), Val::Int(b)) => {
            let res = match op {
                BinaryOp::Add => a.checked_add(b),
                BinaryOp::Sub => a.checked_sub(b),
                BinaryOp::Mul => a.checked_mul(b),
                BinaryOp::Div => if b == 0 {
                    None
                } else {
                    a.checked_div(b)
                },
            };
            if op == BinaryOp::Div && b == 0 {
                Err((VmErrorCode::Trap, "division by zero"@))
            } else {
                match res {
                    Some(x) => Ok(Val::Int(x)),
                    None => Err((VmErrorCode::Trap, "integer arithmetic overflow"@)),
                }
            }
        },
        _ => Err((VmErrorCode::InvalidInput, "binary operations require Int operands"@)),
    }
}

/// The quotient of `a` by `b` rounded toward zero.
pub open spec fn trunc_div(a: int, b: int) -> int {
    let q = (if a < 0 { -a } else { a }) / (if b < 0 { -b } else { b });
    if (a < 0) != (b < 0) {
        -q
    } else {
        q
    }
}

/// Arithmetic on two integers gives the exact sum, difference, product, or quotient rounded
/// toward zero, when it fits `i64`; a division by zero traps, and so does a result that does
/// not fit; any other operands are invalid input.
pub proof fn lemma_binop(op: BinaryOp, l: Val, r: Val)
    ensures
        binop(op, l, r) == match (l, r) {
            (Val::Int(a), Val::Int(b)) => {
                let exact: int = match op {
                    BinaryOp::Add => a + b,
                    BinaryOp::Sub => a - b,
                    BinaryOp::Mul => a * b,
                    BinaryOp::Div => trunc_div(a as int, b as int),
                };
                if op == BinaryOp::Div && b == 0 {
                    Err((VmErrorCode::Trap, "division by zero"@))
                } else if i64::MIN <= exact <= i64::MAX {
                    Ok(Val::Int(exact as i64))
                } else {
                    Err((VmErrorCode::Trap, "integer arithmetic overflow"@))
                }
            },
            _ => Err((VmErrorCode::InvalidInput, "binary operations require Int operands"@)),
        },
{
}

/// Charges the bytes of `v` to the call's memory budget.
pub open spec fn charge(lim: VmLimits, st: EvalState, v: Val) -> Result<EvalState, Fault> {
    let m = sat_add(st.memory, estimate(v));
    if m > lim.max_memory_bytes {
        Err((VmErrorCode::MemoryLimitExceeded, "memory budget exceeded"@))
    } else {
        Ok(EvalState { memory: m, ..st })
    }
}

pub open spec fn after_step(st: EvalState) -> EvalState {
    EvalState { steps: (st.steps - 1) as u64, ..st }
}

/// Evaluates `e` under bindings `env` with budget `st`: its value and the budget left, or the
/// code of the error that stops it. Every evaluation takes one step and charges its value's
/// bytes.
pub open spec fn eval_expr(fs: Seq<IrFunction>, lim: VmLimits, e: IrExpr, env: Entries, st: EvalState) -> Result<(Val, EvalState), Fault>
    decreases st.steps, 0int,
{
    if st.steps == 0 {
        Err((VmErrorCode::StepLimitExceeded, "step limit exceeded"@))
    } else {
        let st1 = after_step(st);
        let r: Result<(Val, EvalState), Fault> = match e.kind {
            IrExprKind::LocalRef { name } => match env_get(env, name@) {
                Some(v) => Ok((v, st1)),
                None => Err((VmErrorCode::Trap, "unknown local reference `"@ + name@ + "`"@)),
            },
            IrExprKind::Int(v) => Ok((Val::Int(v), st1)),
            IrExprKind::Bool(b) => Ok((Val::Bool(b), st1)),
            IrExprKind::Tuple(items) => match eval_list(fs, lim, items@, 0, env, st1, seq![]) {
                Ok((vs, s2)) => Ok((Val::Tuple(vs), s2)),
                Err(c) => Err(c),
            },
            IrExprKind::List(items) => match eval_list(fs, lim, items@, 0, env, st1, seq![]) {
                Ok((vs, s2)) => Ok((Val::List(vs), s2)),
                Err(c) => Err(c),
            },
            IrExprKind::Record { name, fields } => match eval_fields(fs, lim, fields@, 0, env, st1, seq![]) {
                Ok((m, s2)) => Ok((Val::Enum(name@, m), s2)),
                Err(c) => Err(c),
            },
            IrExprKind::Binary { lhs, op, rhs } => match eval_expr(fs, lim, *lhs, env, st1) {
                Err(c) => Err(c),
                Ok((l, s2)) => if s2.steps < st.steps {
                    match eval_expr(fs, lim, *rhs, env, s2) {
                        Err(c) => Err(c),
                        Ok((r, s3)) => match binop(op, l, r) {
                            Ok(v) => Ok((v, s3)),
                            Err(c) => Err(c),
                        },
                    }
                } else {
                    Err(stalled())
                },
            },
            IrExprKind::Call { callee, args } => match eval_list(fs, lim, args@, 0, env, st1, seq![]) {
                Err(c) => Err(c),
                Ok((vs, s2)) => if s2.steps < st.steps {
                    call_fn(fs, lim, callee@, vs, s2)
                } else {
                    Err(stalled())
                },
            },
            IrExprKind::Let { name, value, body } => match eval_expr(fs, lim, *value, env, st1) {
                Err(c) => Err(c),
                Ok((v, s2)) => if s2.steps < st.steps {
                    eval_expr(fs, lim, *body, env.push((name@, v)), s2)
                } else {
                    Err(stalled())
                },
            },
            IrExprKind::Match { subject, arms } => match eval_expr(fs, lim, *subject, env, st1) {
                Err(c) => Err(c),
                Ok((sv, s2)) => if s2.steps < st.steps {
                    eval_arms(fs, lim, arms@, 0, sv, env, s2)
                } else {
                    Err(stalled())
                },
            },
        };
        match r {
            Err(c) => Err(c),
            Ok((v, s)) => match charge(lim, s, v) {
                Ok(s3) => Ok((v, s3)),
                Err(c) => Err(c),
            },
        }
    }
}

/// Evaluating a local reference gives the value of the name's most recent binding: under
/// bindings extended with `n` bound to `v`, a reference to `n` that evaluates gives `v`.
pub proof fn lemma_eval_local_ref(
    fs: Seq<IrFunction>,
    lim: VmLimits,
    e: IrExpr,
    env: Entries,
    n: Seq<char>,
    v: Val,
    st: EvalState,
)
    requires
        e.kind matches IrExprKind::LocalRef { name } && name@ == n,
    ensures
        eval_expr(fs, lim, e, env.push((n, v)), st) matches Ok((x, _)) ==> x == v,
{
    lemma_env_get_push(env, n, v, n);
}

/// Evaluates `items[i..]` left to right, appending their values to `acc`.
pub open spec fn eval_list(
    fs: Seq<IrFunction>,
    lim: VmLimits,
    items: Seq<IrExpr>,
    i: int,
    env: Entries,
    st: EvalState,
    acc: Seq<Val>,
) -> Result<(Seq<Val>, EvalState), Fault>
    decreases st.steps, 1int, items.len() - i,
{
    if 0 <= i < items.len() {
        match eval_expr(fs, lim, items[i], env, st) {
            Err(c) => Err(c),
            Ok((v, s2)) => if s2.steps < st.steps {
                eval_list(fs, lim, items, i + 1, env, s2, acc.push(v))
            } else {
                Err(stalled())
            },
        }
    } else {
        Ok((acc, st))
    }
}

/// Evaluates the fields `fields[i..]` left to right, setting each in the sorted entries `acc`.
pub open spec fn eval_fields(
    fs: Seq<IrFunction>,
    lim: VmLimits,
    fields: Seq<IrRecordField>,
    i: int,
    env: Entries,
    st: EvalState,
    acc: Entries,
) -> Result<(Entries, EvalState), Fault>
    decreases st.steps, 1int, fields.len() - i,
{
    if 0 <= i < fields.len() {
        match eval_expr(fs, lim, fields[i].value, env, st) {
            Err(c) => Err(c),
            Ok((v, s2)) => if s2.steps < st.steps {
                eval_fields(fs, lim, fields, i + 1, env, s2, map_insert(acc, fields[i].name@, v))
            } else {
                Err(stalled())
            },
        }
    } else {
        Ok((acc, st))
    }
}

/// Tries the arms `arms[i..]` in order on `subject`; the first whose pattern matches is taken.
pub open spec fn eval_arms(
    fs: Seq<IrFunction>,
    lim: VmLimits,
    arms: Seq<IrMatchArm>,
    i: int,
    subject: Val,
    env: Entries,
    st: EvalState,
) -> Result<(Val, EvalState), Fault>
    decreases st.steps, 1int, arms.len() - i,
{
    if 0 <= i < arms.len() {
        match pattern_matches(arms[i].pattern, subject, env, st) {
            Err(c) => Err(c),
            Ok((matched, env2, s2)) => if s2.steps < st.steps {
                if matched {
                    eval_expr(fs, lim, arms[i].body, env2, s2)
                } else {
                    eval_arms(fs, lim, arms, i + 1, subject, env, s2)
                }
            } else {
                Err(stalled())
            },
        }
    } else {
        Err((VmErrorCode::Trap, "non-exhaustive match reached at runtime"@))
    }
}

/// The bindings of a call: each parameter name bound to its argument.
pub open spec fn bind_params(fs_params: Seq<crate::ir::types::IrParam>, args: Seq<Val>) -> Entries {
    Seq::new(args.len(), |k: int| (fs_params[k].name@, args[k]))
}

/// Calls the function named `name` with `args`.
pub open spec fn call_fn(fs: Seq<IrFunction>, lim: VmLimits, name: Seq<char>, args: Seq<Val>, st: EvalState) -> Result<(Val, EvalState), Fault>
    decreases st.steps, 2int, 0int,
{
    if st.steps == 0 {
        Err((VmErrorCode::StepLimitExceeded, "step limit exceeded"@))
    } else {
        let st1 = after_step(st);
        if st1.depth >= lim.max_recursion_depth {
            Err((VmErrorCode::RecursionLimitExceeded, "max recursion depth exceeded while calling `"@ + name + "`"@))
        } else {
            match find_fn(fs, name) {
                None => Err((VmErrorCode::Trap, "unknown function `"@ + name + "`"@)),
                Some(f) => if args.len() != f.params.len() {
                    Err(
                        (
                            VmErrorCode::Trap,
                            "arity mismatch for `"@ + name + "`: expected "@ + decimal_text(f.params.len() as nat)
                                + ", got "@ + decimal_text(args.len()),
                        ),
                    )
                } else {
                    let inner = EvalState { depth: (st1.depth + 1) as u32, ..st1 };
                    match eval_expr(fs, lim, f.body, bind_params(f.params@, args), inner) {
                        Ok((v, s2)) => Ok((v, EvalState { depth: (s2.depth - 1) as u32, ..s2 })),
                        Err(c) => Err(c),
                    }
                },
            }
        }
    }
}

/// Matching `subject` against pattern `p`: whether it matches, the bindings it adds, the budget
/// left. Every pattern takes one step.
pub open spec fn pattern_matches(p: IrPattern, subject: Val, env: Entries, st: EvalState) -> Result<(bool, Entries, EvalState), Fault>
    decreases p, 0int,
{
    if st.steps == 0 {
        Err((VmErrorCode::StepLimitExceeded, "step limit exceeded"@))
    } else {
        let st1 = after_step(st);
        match p.kind {
            IrPatternKind::Wildcard => Ok((true, env, st1)),
            IrPatternKind::Int { value } => match subject {
                Val::Int(n) => Ok((n == value, env, st1)),
                _ => Err((VmErrorCode::InvalidInput, "integer pattern expects Int VM value"@)),
            },
            IrPatternKind::Binding { name } => Ok((true, env.push((name@, subject)), st1)),
            IrPatternKind::Variant { name, fields } => match subject {
                Val::Enum(tag, payload) => if tag != name@ {
                    Ok((false, env, st1))
                } else {
                    pattern_fields(fields@, 0, payload, env, st1)
                },
                _ => Err((VmErrorCode::InvalidInput, "variant pattern expects enum-like VM value"@)),
            },
        }
    }
}

pub open spec fn pattern_fields(fields: Seq<IrPatternField>, i: int, payload: Entries, env: Entries, st: EvalState) -> Result<(bool, Entries, EvalState), Fault>
    decreases fields, fields.len() - i,
{
    if 0 <= i < fields.len() {
        match map_get(payload, fields[i].name@) {
            None => Err((VmErrorCode::InvalidInput, "missing enum payload field `"@ + fields[i].name@ + "`"@)),
            Some(v) => match pattern_matches(fields[i].pattern, v, env, st) {
                Err(c) => Err(c),
                Ok((m, env2, s2)) => if !m {
                    Ok((false, env2, s2))
                } else {
                    pattern_fields(fields, i + 1, payload, env2, s2)
                },
            },
        }
    } else {
        Ok((true, env, st))
    }
}


/// Runs function `name` on `args` with a fresh budget.
pub open spec fn run_entry(fs: Seq<IrFunction>, lim: VmLimits, name: Seq<char>, args: Seq<Val>) -> Result<Val, Fault> {
    match call_fn(fs, lim, name, args, initial_state(lim)) {
        Ok((v, _)) => Ok(v),
        Err(c) => Err(c),
    }
}

/// What an update returns, given what its function returned: the pair of the next state and
/// the list of actions.
pub open spec fn update_outcome(r: Result<Val, Fault>) -> Result<(Val, Seq<Val>), Fault> {
    match r {
        Err(c) => Err(c),
        Ok(Val::Tuple(items)) => if items.len() != 2 {
            Err((VmErrorCode::Trap, "update must return exactly 2 tuple items"@))
        } else {
            match items[1] {
                Val::List(actions) => Ok((items[0], actions)),
                _ => Err((VmErrorCode::Trap, "update second tuple item must be List<Action>"@)),
            }
        },
        Ok(_) => Err((VmErrorCode::Trap, "update must return a tuple (state, actions)"@)),
    }
}

// ---------------------------------------------------------------------------
// Programs
// ---------------------------------------------------------------------------

/// Whether `fs[i]` has the name of an earlier function.
pub open spec fn name_taken(fs: Seq<IrFunction>, i: int) -> bool {
    exists|j: int| 0 <= j < i && (#[trigger] fs[j]).name@ == fs[i].name@
}

/// Scanning `fs[i..]` for the entry points, with the update and query functions found so far;
/// the message of the first problem found otherwise.
pub open spec fn scan_entries(fs: Seq<IrFunction>, i: int, u: Option<int>, q: Option<int>) -> Result<
    (Option<int>, Option<int>),
    Seq<char>,
>
    decreases fs.len() - i,
{
    if i < 0 || i >= fs.len() {
        Ok((u, q))
    } else if name_taken(fs, i) {
        Err("duplicate function `"@ + fs[i].name@ + "` in IR program"@)
    } else {
        match fs[i].kind {
            FnKind::Update => if u is Some {
                Err("IR program must contain exactly one update function"@)
            } else {
                scan_entries(fs, i + 1, Some(i), q)
            },
            FnKind::Query => if q is Some {
                Err("IR program must contain exactly one query function"@)
            } else {
                scan_entries(fs, i + 1, u, Some(i))
            },
            FnKind::User => scan_entries(fs, i + 1, u, q),
        }
    }
}

/// The indices of the update and query functions of a program whose function names are distinct
/// and which has exactly one update and one query function; `None` for any other program.
pub open spec fn entry_points(fs: Seq<IrFunction>) -> Option<(int, int)> {
    match scan_entries(fs, 0, None, None) {
        Ok((Some(u), Some(q))) => Some((u, q)),
        _ => None,
    }
}

/// No two functions share a name.
pub open spec fn distinct_names(fs: Seq<IrFunction>) -> bool {
    forall|a: int, b: int| 0 <= a < b < fs.len() ==> (#[trigger] fs[a]).name@ != (#[trigger] fs[b]).name@
}

/// At most one function has kind `k`.
pub open spec fn at_most_one(fs: Seq<IrFunction>, k: FnKind) -> bool {
    forall|a: int, b: int| 0 <= a < b < fs.len() && (#[trigger] fs[a]).kind == k ==> (#[trigger] fs[b]).kind != k
}

/// Whether `r` is the index of the function of kind `k` among `fs[..i]`, if there is one.
pub open spec fn found_kind(fs: Seq<IrFunction>, i: int, k: FnKind, r: Option<int>) -> bool {
    match r {
        Some(x) => 0 <= x < i && fs[x].kind == k && forall|j: int| 0 <= j < i && j != x ==> (#[trigger] fs[j]).kind != k,
        None => forall|j: int| 0 <= j < i ==> (#[trigger] fs[j]).kind != k,
    }
}

proof fn lemma_scan_entries(fs: Seq<IrFunction>, i: int, u: Option<int>, q: Option<int>)
    requires
        0 <= i <= fs.len(),
        forall|a: int, b: int| 0 <= a < b < i ==> (#[trigger] fs[a]).name@ != (#[trigger] fs[b]).name@,
        found_kind(fs, i, FnKind::Update, u),
        found_kind(fs, i, FnKind::Query, q),
    ensures
        scan_entries(fs, i, u, q) is Ok <==> distinct_names(fs) && at_most_one(fs, FnKind::Update) && at_most_one(
            fs,
            FnKind::Query,
        ),
        scan_entries(fs, i, u, q) matches Ok((u2, q2)) ==> found_kind(fs, fs.len() as int, FnKind::Update, u2)
            && found_kind(fs, fs.len() as int, FnKind::Query, q2),
    decreases fs.len() - i,
{
    if i < fs.len() {
        if name_taken(fs, i) {
            let j = choose|j: int| 0 <= j < i && (#[trigger] fs[j]).name@ == fs[i].name@;
            assert(!distinct_names(fs)) by {
                assert(fs[j].name@ == fs[i].name@);
            }
        } else {
            assert forall|a: int, b: int| 0 <= a < b < i + 1 implies (#[trigger] fs[a]).name@ != (#[trigger] fs[b]).name@ by {
                if b == i {
                    assert(!(fs[a].name@ == fs[i].name@));
                }
            }
            match fs[i].kind {
                FnKind::Update => {
                    if u is Some {
                        let x = u.unwrap();
                        assert(!at_most_one(fs, FnKind::Update)) by {
                            assert(fs[x].kind == FnKind::Update && fs[i].kind == FnKind::Update);
                        }
                    } else {
                        lemma_scan_entries(fs, i + 1, Some(i), q);
                    }
                },
                FnKind::Query => {
                    if q is Some {
                        let x = q.unwrap();
                        assert(!at_most_one(fs, FnKind::Query)) by {
                            assert(fs[x].kind == FnKind::Query && fs[i].kind == FnKind::Query);
                        }
                    } else {
                        lemma_scan_entries(fs, i + 1, u, Some(i));
                    }
                },
                FnKind::User => {
                    lemma_scan_entries(fs, i + 1, u, q);
                },
            }
        }
    } else {
        assert(at_most_one(fs, FnKind::Update)) by {
            assert forall|a: int, b: int| 0 <= a < b < fs.len() && (#[trigger] fs[a]).kind == FnKind::Update implies (
            #[trigger] fs[b]).kind != FnKind::Update by {
                if u is Some {
                    let x = u.unwrap();
                    assert(a == x);
                }
            }
        }
        assert(at_most_one(fs, FnKind::Query)) by {
            assert forall|a: int, b: int| 0 <= a < b < fs.len() && (#[trigger] fs[a]).kind == FnKind::Query implies (
            #[trigger] fs[b]).kind != FnKind::Query by {
                if q is Some {
                    let x = q.unwrap();
                    assert(a == x);
                }
            }
        }
    }
}

/// A program has entry points exactly when no two of its functions share a name and it has
/// exactly one update and exactly one query function; the entry points are those two.
pub proof fn lemma_entry_points(fs: Seq<IrFunction>)
    ensures
        entry_points(fs) is Some <==> distinct_names(fs) && (exists|u: int| found_kind(fs, fs.len() as int, FnKind::Update, Some(u)))
            && (exists|q: int| found_kind(fs, fs.len() as int, FnKind::Query, Some(q))),
        entry_points(fs) matches Some((u, q)) ==> found_kind(fs, fs.len() as int, FnKind::Update, Some(u))
            && found_kind(fs, fs.len() as int, FnKind::Query, Some(q)),
{
    lemma_scan_entries(fs, 0, None, None);
    let n = fs.len() as int;
    if distinct_names(fs) && (exists|u: int| found_kind(fs, n, FnKind::Update, Some(u))) && (exists|q: int|
        found_kind(fs, n, FnKind::Query, Some(q))) {
        let u = choose|u: int| found_kind(fs, n, FnKind::Update, Some(u));
        let q = choose|q: int| found_kind(fs, n, FnKind::Query, Some(q));
        assert(at_most_one(fs, FnKind::Update)) by {
            assert forall|a: int, b: int| 0 <= a < b < fs.len() && (#[trigger] fs[a]).kind == FnKind::Update implies (
            #[trigger] fs[b]).kind != FnKind::Update by {
                if a != u {
                    assert(fs[a].kind != FnKind::Update);
                }
            }
        }
        assert(at_most_one(fs, FnKind::Query)) by {
            assert forall|a: int, b: int| 0 <= a < b < fs.len() && (#[trigger] fs[a]).kind == FnKind::Query implies (
            #[trigger] fs[b]).kind != FnKind::Query by {
                if a != q {
                    assert(fs[a].kind != FnKind::Query);
                }
            }
        }
        match scan_entries(fs, 0, None, None) {
            Ok((u2, q2)) => {
                if u2 is None {
                    assert(fs[u].kind == FnKind::Update);
                }
                if q2 is None {
                    assert(fs[q].kind == FnKind::Query);
                }
            },
            Err(_) => {},
        }
    }
}

/// Why a program has no entry points: the first problem found, in the order of its functions.
pub open spec fn entry_error(fs: Seq<IrFunction>) -> Seq<char> {
    match scan_entries(fs, 0, None, None) {
        Err(m) => m,
        Ok((None, _)) => "IR program is missing update function"@,
        Ok((Some(_), None)) => "IR program is missing query function"@,
        Ok(_) => seq![],
    }
}

/// A program as a behavior: how it answers an update and a query.
pub trait VmProgram {
    /// What holds of an update's result.
    spec fn update_ensures(&self, state: VmValue, event: VmValue, limits: VmLimits, r: Result<(VmValue, Vec<VmValue>), VmError>) -> bool;

    /// What holds of a query's result.
    spec fn query_ensures(&self, state: VmValue, query: VmValue, limits: VmLimits, r: Result<VmValue, VmError>) -> bool;

    fn update(&self, state: &VmValue, event: &VmValue, limits: &VmLimits) -> (r: Result<(VmValue, Vec<VmValue>), VmError>)
        ensures
            self.update_ensures(*state, *event, *limits, r),
    ;

    fn query(&self, state: &VmValue, query: &VmValue, limits: &VmLimits) -> (r: Result<VmValue, VmError>)
        ensures
            self.query_ensures(*state, *query, *limits, r),
    ;
}

/// A program given by two host functions.
pub struct NativeProgram<U, Q> where
    U: Fn(&VmValue, &VmValue, &VmLimits) -> Result<(VmValue, Vec<VmValue>), VmError>,
    Q: Fn(&VmValue, &VmValue, &VmLimits) -> Result<VmValue, VmError>,
 {
    update_fn: U,
    query_fn: Q,
}

impl<U, Q> NativeProgram<U, Q> where
    U: Fn(&VmValue, &VmValue, &VmLimits) -> Result<(VmValue, Vec<VmValue>), VmError>,
    Q: Fn(&VmValue, &VmValue, &VmLimits) -> Result<VmValue, VmError>,
 {
    #[verifier::type_invariant]
    spec fn callable(&self) -> bool {
        &&& forall|s: &VmValue, e: &VmValue, l: &VmLimits| #[trigger] self.update_fn.requires((s, e, l))
        &&& forall|s: &VmValue, e: &VmValue, l: &VmLimits| #[trigger] self.query_fn.requires((s, e, l))
    }

    pub closed spec fn update_fn(&self) -> U {
        self.update_fn
    }

    pub closed spec fn query_fn(&self) -> Q {
        self.query_fn
    }

    pub fn new(update_fn: U, query_fn: Q) -> (p: Self)
        requires
            forall|s: &VmValue, e: &VmValue, l: &VmLimits| #[trigger] update_fn.requires((s, e, l)),
            forall|s: &VmValue, e: &VmValue, l: &VmLimits| #[trigger] query_fn.requires((s, e, l)),
        ensures
            p.update_fn() == update_fn,
            p.query_fn() == query_fn,
    {
        NativeProgram { update_fn, query_fn }
    }
}

impl<U, Q> VmProgram for NativeProgram<U, Q> where
    U: Fn(&VmValue, &VmValue, &VmLimits) -> Result<(VmValue, Vec<VmValue>), VmError>,
    Q: Fn(&VmValue, &VmValue, &VmLimits) -> Result<VmValue, VmError>,
 {
    open spec fn update_ensures(&self, state: VmValue, event: VmValue, limits: VmLimits, r: Result<(VmValue, Vec<VmValue>), VmError>) -> bool {
        self.update_fn().ensures((&state, &event, &limits), r)
    }

    open spec fn query_ensures(&self, state: VmValue, query: VmValue, limits: VmLimits, r: Result<VmValue, VmError>) -> bool {
        self.query_fn().ensures((&state, &query, &limits), r)
    }

    fn update(&self, state: &VmValue, event: &VmValue, limits: &VmLimits) -> (r: Result<(VmValue, Vec<VmValue>), VmError>) {
        proof {
            use_type_invariant(self);
        }
        (self.update_fn)(state, event, limits)
    }

    fn query(&self, state: &VmValue, query: &VmValue, limits: &VmLimits) -> (r: Result<VmValue, VmError>) {
        proof {
            use_type_invariant(self);
        }
        (self.query_fn)(state, query, limits)
    }
}


// ---------------------------------------------------------------------------
// Executable evaluator
// ---------------------------------------------------------------------------

proof fn lemma_vals_push(v: Seq<VmValue>, x: VmValue)
    ensures
        vals(v.push(x), 0) == vals(v, 0).push(val(x)),
{
    lemma_vals0(v.push(x));
    lemma_vals0(v);
    assert(vals(v.push(x), 0) =~= vals(v, 0).push(val(x)));
}

proof fn lemma_entries_push(v: Seq<(String, VmValue)>, x: (String, VmValue))
    ensures
        entries(v.push(x), 0) == entries(v, 0).push((x.0@, val(x.1))),
{
    lemma_entries0(v.push(x));
    lemma_entries0(v);
    assert(entries(v.push(x), 0) =~= entries(v, 0).push((x.0@, val(x.1))));
}

/// The value bound last to `name` in `env`.
fn env_lookup<'b>(env: &'b Vec<(String, VmValue)>, name: &String) -> (r: Option<&'b VmValue>)
    ensures
        r matches Some(v) ==> env_get(entries(env@, 0), name@) == Some(val(*v)),
        r is None ==> env_get(entries(env@, 0), name@) is None,
        r matches Some(v) ==> exists|k: int|
            0 <= k < env.len() && env@[k].0@ == name@ && val(env@[k].1) == val(*v) && forall|j: int|
                k < j < env.len() ==> (#[trigger] env@[j]).0@ != name@,
        r is None ==> forall|k: int| 0 <= k < env.len() ==> (#[trigger] env@[k]).0@ != name@,
{
    let ghost e = entries(env@, 0);
    proof {
        lemma_entries0(env@);
    }
    let mut i = env.len();
    assert(e.take(i as int) =~= e);
    while i > 0
        invariant
            i <= env.len(),
            e == entries(env@, 0),
            e.len() == env.len(),
            forall|k: int| 0 <= k < env.len() ==> #[trigger] e[k] == (env@[k].0@, val(env@[k].1)),
            env_get(e, name@) == env_get(e.take(i as int), name@),
            forall|j: int| i <= j < env.len() ==> (#[trigger] env@[j]).0@ != name@,
        decreases i,
    {
        proof {
            assert(e.take(i as int).drop_last() =~= e.take(i - 1));
        }
        if env[i - 1].0 == *name {
            assert(env@[i - 1].0@ == name@);
            return Some(&env[i - 1].1);
        }
        i = i - 1;
    }
    None
}

fn vm_err(code: VmErrorCode, message: String) -> (e: VmError)
    ensures
        e.code == code,
        e.message == message,
{
    VmError { code, message }
}

/// Integer arithmetic on two values.
fn eval_binary(op: BinaryOp, lhs: &VmValue, rhs: &VmValue) -> (r: Result<VmValue, VmError>)
    ensures
        match (r, binop(op, val(*lhs), val(*rhs))) {
            (Ok(v), Ok(sv)) => val(v) == sv,
            (Err(e), Err(c)) => e.code == c.0 && e.message@ == c.1,
            _ => false,
        },
{
    let (a, b) = match (lhs, rhs) {
        (VmValue::Int(a), VmValue::Int(b)) => (*a, *b),
        _ => {
            return Err(vm_err(VmErrorCode::InvalidInput, owned("binary operations require Int operands")));
        },
    };
    let value = match op {
        BinaryOp::Add => a.checked_add(b),
        BinaryOp::Sub => a.checked_sub(b),
        BinaryOp::Mul => a.checked_mul(b),
        BinaryOp::Div => {
            if b == 0 {
                return Err(vm_err(VmErrorCode::Trap, owned("division by zero")));
            }
            a.checked_div(b)
        },
    };
    match value {
        Some(x) => Ok(VmValue::Int(x)),
        None => Err(vm_err(VmErrorCode::Trap, owned("integer arithmetic overflow"))),
    }
}

struct Evaluator<'a> {
    functions: &'a Vec<IrFunction>,
    limits: VmLimits,
    remaining_steps: u64,
    current_depth: u32,
    memory_bytes: usize,
}

impl<'a> Evaluator<'a> {
    spec fn state(&self) -> EvalState {
        EvalState { steps: self.remaining_steps, depth: self.current_depth, memory: self.memory_bytes }
    }

    spec fn same_program(&self, other: &Self) -> bool {
        &&& self.functions == other.functions
        &&& self.limits == other.limits
    }

    fn new(functions: &'a Vec<IrFunction>, limits: &VmLimits) -> (ev: Self)
        ensures
            ev.functions == functions,
            ev.limits == *limits,
            ev.state() == initial_state(*limits),
    {
        Evaluator { functions, limits: *limits, remaining_steps: limits.max_steps, current_depth: 0, memory_bytes: 0 }
    }

    fn consume_step(&mut self) -> (r: Result<(), VmError>)
        ensures
            final(self).same_program(old(self)),
            r is Ok <==> old(self).remaining_steps > 0,
            r is Ok ==> final(self).state() == after_step(old(self).state()),
            r matches Err(e) ==> e.code == VmErrorCode::StepLimitExceeded && e.message@ == "step limit exceeded"@,
            r is Ok || final(self).state() == old(self).state(),
    {
        if self.remaining_steps == 0 {
            return Err(vm_err(VmErrorCode::StepLimitExceeded, owned("step limit exceeded")));
        }
        self.remaining_steps = self.remaining_steps - 1;
        Ok(())
    }

    fn charge_memory(&mut self, value: &VmValue) -> (r: Result<(), VmError>)
        ensures
            final(self).same_program(old(self)),
            match (r, charge(old(self).limits, old(self).state(), val(*value))) {
                (Ok(()), Ok(st)) => final(self).state() == st,
                (Err(e), Err(c)) => e.code == c.0 && e.message@ == c.1,
                _ => false,
            },
            final(self).state() == (EvalState {
                memory: sat_add(old(self).memory_bytes, estimate(val(*value))),
                ..old(self).state()
            }),
    {
        let bytes = estimate_value_bytes(value);
        self.memory_bytes = self.memory_bytes.saturating_add(bytes);
        if self.memory_bytes > self.limits.max_memory_bytes {
            return Err(vm_err(VmErrorCode::MemoryLimitExceeded, owned("memory budget exceeded")));
        }
        Ok(())
    }

    fn eval_expr(&mut self, expr: &IrExpr, env: &mut Vec<(String, VmValue)>) -> (r: Result<VmValue, VmError>)
        ensures
            final(self).same_program(old(self)),
            match (r, eval_expr(old(self).functions@, old(self).limits, *expr, entries(old(env)@, 0), old(self).state())) {
                (Ok(v), Ok((sv, st))) => val(v) == sv && final(self).state() == st,
                (Err(e), Err(c)) => e.code == c.0 && e.message@ == c.1,
                _ => false,
            },
            final(env)@ == old(env)@,
            r is Ok ==> final(self).remaining_steps < old(self).remaining_steps,
            final(self).current_depth == old(self).current_depth,
        decreases old(self).remaining_steps, 0int,
    {
        self.consume_step()?;
        let value = match &expr.kind {
            IrExprKind::LocalRef { name } => {
                match env_lookup(env, name) {
                    Some(v) => copy_value(v),
                    None => {
                        let m = concat_str(concat_str(owned("unknown local reference `"), name.as_str()), "`");
                        return Err(vm_err(VmErrorCode::Trap, m));
                    },
                }
            },
            IrExprKind::Int(v) => VmValue::Int(*v),
            IrExprKind::Bool(b) => VmValue::Bool(*b),
            IrExprKind::Tuple(items) => {
                let mut out: Vec<VmValue> = Vec::new();
                self.eval_list(items, 0, env, &mut out)?;
                VmValue::Tuple(out)
            },
            IrExprKind::List(items) => {
                let mut out: Vec<VmValue> = Vec::new();
                self.eval_list(items, 0, env, &mut out)?;
                VmValue::List(out)
            },
            IrExprKind::Record { name, fields } => {
                let mut out: Vec<(String, VmValue)> = Vec::new();
                self.eval_fields(fields, 0, env, &mut out)?;
                VmValue::Enum { tag: name.clone(), fields: out }
            },
            IrExprKind::Binary { lhs, op, rhs } => {
                let l = self.eval_expr(lhs, env)?;
                let r = self.eval_expr(rhs, env)?;
                eval_binary(*op, &l, &r)?
            },
            IrExprKind::Call { callee, args } => {
                let mut out: Vec<VmValue> = Vec::new();
                self.eval_list(args, 0, env, &mut out)?;
                self.call_function(callee, out)?
            },
            IrExprKind::Let { name, value, body } => {
                let v = self.eval_expr(value, env)?;
                let ghost before = env@;
                env.push((name.clone(), v));
                proof {
                    lemma_entries_push(before, env@.last());
                    assert(env@ =~= before.push(env@.last()));
                }
                let result = self.eval_expr(body, env);
                env.pop();
                proof {
                    assert(env@ =~= before);
                }
                result?
            },
            IrExprKind::Match { subject, arms } => {
                let subject_value = self.eval_expr(subject, env)?;
                self.eval_arms(arms, 0, &subject_value, env)?
            },
        };
        self.charge_memory(&value)?;
        Ok(value)
    }

    fn eval_list(
        &mut self,
        items: &Vec<IrExpr>,
        i: usize,
        env: &mut Vec<(String, VmValue)>,
        acc: &mut Vec<VmValue>,
    ) -> (r: Result<(), VmError>)
        requires
            i <= items.len(),
        ensures
            final(self).same_program(old(self)),
            match (r, eval_list(old(self).functions@, old(self).limits, items@, i as int, entries(old(env)@, 0), old(self).state(), vals(old(acc)@, 0))) {
                (Ok(()), Ok((vs, st))) => vals(final(acc)@, 0) == vs && final(self).state() == st,
                (Err(e), Err(c)) => e.code == c.0 && e.message@ == c.1,
                _ => false,
            },
            final(env)@ == old(env)@,
            r is Ok ==> final(self).remaining_steps <= old(self).remaining_steps,
            final(self).current_depth == old(self).current_depth,
        decreases old(self).remaining_steps, 1int, items.len() - i,
    {
        if i >= items.len() {
            return Ok(());
        }
        let v = self.eval_expr(&items[i], env)?;
        proof {
            lemma_vals_push(acc@, v);
        }
        acc.push(v);
        self.eval_list(items, i + 1, env, acc)
    }

    fn eval_fields(
        &mut self,
        fields: &Vec<IrRecordField>,
        i: usize,
        env: &mut Vec<(String, VmValue)>,
        acc: &mut Vec<(String, VmValue)>,
    ) -> (r: Result<(), VmError>)
        requires
            i <= fields.len(),
        ensures
            final(self).same_program(old(self)),
            match (r, eval_fields(old(self).functions@, old(self).limits, fields@, i as int, entries(old(env)@, 0), old(self).state(), entries(old(acc)@, 0))) {
                (Ok(()), Ok((m, st))) => entries(final(acc)@, 0) == m && final(self).state() == st,
                (Err(e), Err(c)) => e.code == c.0 && e.message@ == c.1,
                _ => false,
            },
            final(env)@ == old(env)@,
            r is Ok ==> final(self).remaining_steps <= old(self).remaining_steps,
            final(self).current_depth == old(self).current_depth,
        decreases old(self).remaining_steps, 1int, fields.len() - i,
    {
        if i >= fields.len() {
            return Ok(());
        }
        let v = self.eval_expr(&fields[i].value, env)?;
        entries_insert(acc, fields[i].name.clone(), v);
        self.eval_fields(fields, i + 1, env, acc)
    }

    fn eval_arms(
        &mut self,
        arms: &Vec<IrMatchArm>,
        i: usize,
        subject: &VmValue,
        env: &mut Vec<(String, VmValue)>,
    ) -> (r: Result<VmValue, VmError>)
        requires
            i <= arms.len(),
        ensures
            final(self).same_program(old(self)),
            match (r, eval_arms(old(self).functions@, old(self).limits, arms@, i as int, val(*subject), entries(old(env)@, 0), old(self).state())) {
                (Ok(v), Ok((sv, st))) => val(v) == sv && final(self).state() == st,
                (Err(e), Err(c)) => e.code == c.0 && e.message@ == c.1,
                _ => false,
            },
            final(env)@ == old(env)@,
            r is Ok ==> final(self).remaining_steps < old(self).remaining_steps,
            final(self).current_depth == old(self).current_depth,
        decreases old(self).remaining_steps, 1int, arms.len() - i,
    {
        if i >= arms.len() {
            return Err(vm_err(VmErrorCode::Trap, owned("non-exhaustive match reached at runtime")));
        }
        let arm = &arms[i];
        let ghost before = env@;
        let mark = env.len();
        let matched = match self.pattern_matches(&arm.pattern, subject, env) {
            Ok(m) => m,
            Err(e) => {
                env.truncate(mark);
                proof {
                    assert(env@ =~= before);
                }
                return Err(e);
            },
        };
        if matched {
            let result = self.eval_expr(&arm.body, env);
            env.truncate(mark);
            proof {
                assert(env@ =~= before);
            }
            result
        } else {
            env.truncate(mark);
            proof {
                assert(env@ =~= before);
            }
            self.eval_arms(arms, i + 1, subject, env)
        }
    }

    fn call_function(&mut self, name: &String, args: Vec<VmValue>) -> (r: Result<VmValue, VmError>)
        ensures
            final(self).same_program(old(self)),
            match (r, call_fn(old(self).functions@, old(self).limits, name@, vals(args@, 0), old(self).state())) {
                (Ok(v), Ok((sv, st))) => val(v) == sv && final(self).state() == st,
                (Err(e), Err(c)) => e.code == c.0 && e.message@ == c.1,
                _ => false,
            },
            r is Ok ==> final(self).remaining_steps < old(self).remaining_steps,
            final(self).current_depth == old(self).current_depth,
        decreases old(self).remaining_steps, 2int, 0int,
    {
        self.consume_step()?;
        if self.current_depth >= self.limits.max_recursion_depth {
            let m = concat_str(concat_str(owned("max recursion depth exceeded while calling `"), name.as_str()), "`");
            return Err(vm_err(VmErrorCode::RecursionLimitExceeded, m));
        }
        let function = match find_function(self.functions, name) {
            Some(f) => f,
            None => {
                let m = concat_str(concat_str(owned("unknown function `"), name.as_str()), "`");
                return Err(vm_err(VmErrorCode::Trap, m));
            },
        };
        proof {
            lemma_vals0(args@);
        }
        if args.len() != function.params.len() {
            let a = concat_str(concat_str(owned("arity mismatch for `"), name.as_str()), "`: expected ");
            let b = concat_str(concat_str(a, decimal(function.params.len()).as_str()), ", got ");
            let m = concat_str(b, decimal(args.len()).as_str());
            return Err(vm_err(VmErrorCode::Trap, m));
        }
        let mut env: Vec<(String, VmValue)> = Vec::new();
        let mut k: usize = 0;
        while k < args.len()
            invariant
                k <= args.len(),
                args.len() == function.params.len(),
                env.len() == k,
                forall|j: int|
                    0 <= j < k ==> (#[trigger] env@[j]).0@ == function.params@[j].name@ && val(env@[j].1)
                        == val(args@[j]),
            decreases args.len() - k,
        {
            env.push((function.params[k].name.clone(), copy_value(&args[k])));
            k += 1;
        }
        proof {
            lemma_entries0(env@);
            assert(entries(env@, 0) =~= bind_params(function.params@, vals(args@, 0)));
        }
        self.current_depth = self.current_depth + 1;
        let result = self.eval_expr(&function.body, &mut env);
        self.current_depth = self.current_depth - 1;
        result
    }

    fn pattern_matches(&mut self, pattern: &IrPattern, subject: &VmValue, env: &mut Vec<(String, VmValue)>) -> (r: Result<bool, VmError>)
        ensures
            final(self).same_program(old(self)),
            match (r, pattern_matches(*pattern, val(*subject), entries(old(env)@, 0), old(self).state())) {
                (Ok(m), Ok((sm, senv, st))) => m == sm && entries(final(env)@, 0) == senv && final(self).state() == st,
                (Err(e), Err(c)) => e.code == c.0 && e.message@ == c.1,
                _ => false,
            },
            old(env)@.len() <= final(env)@.len(),
            final(env)@.take(old(env)@.len() as int) == old(env)@,
            r is Ok ==> final(self).remaining_steps < old(self).remaining_steps,
            final(self).current_depth == old(self).current_depth,
        decreases pattern, 0int,
    {
        self.consume_step()?;
        match &pattern.kind {
            IrPatternKind::Wildcard => {
                assert(env@.take(env@.len() as int) =~= env@);
                Ok(true)
            },
            IrPatternKind::Int { value } => {
                assert(env@.take(env@.len() as int) =~= env@);
                match subject {
                    VmValue::Int(n) => Ok(*n == *value),
                    _ => Err(vm_err(VmErrorCode::InvalidInput, owned("integer pattern expects Int VM value"))),
                }
            },
            IrPatternKind::Binding { name } => {
                let ghost before = env@;
                let copy = copy_value(subject);
                env.push((name.clone(), copy));
                proof {
                    lemma_entries_push(before, env@.last());
                    assert(env@ =~= before.push(env@.last()));
                }
                assert(env@.take(before.len() as int) =~= before);
                Ok(true)
            },
            IrPatternKind::Variant { name, fields } => {
                let payload = match subject {
                    VmValue::Enum { tag, fields: payload } => {
                        if *tag != *name {
                            assert(env@.take(env@.len() as int) =~= env@);
                            return Ok(false);
                        }
                        payload
                    },
                    _ => {
                        return Err(vm_err(VmErrorCode::InvalidInput, owned("variant pattern expects enum-like VM value")));
                    },
                };
                self.pattern_fields(fields, 0, payload, env)
            },
        }
    }

    fn pattern_fields(
        &mut self,
        fields: &Vec<IrPatternField>,
        i: usize,
        payload: &Vec<(String, VmValue)>,
        env: &mut Vec<(String, VmValue)>,
    ) -> (r: Result<bool, VmError>)
        requires
            i <= fields.len(),
        ensures
            final(self).same_program(old(self)),
            match (r, pattern_fields(fields@, i as int, entries(payload@, 0), entries(old(env)@, 0), old(self).state())) {
                (Ok(m), Ok((sm, senv, st))) => m == sm && entries(final(env)@, 0) == senv && final(self).state() == st,
                (Err(e), Err(c)) => e.code == c.0 && e.message@ == c.1,
                _ => false,
            },
            old(env)@.len() <= final(env)@.len(),
            final(env)@.take(old(env)@.len() as int) == old(env)@,
            r is Ok ==> final(self).remaining_steps <= old(self).remaining_steps,
            final(self).current_depth == old(self).current_depth,
        decreases fields@, fields.len() - i,
    {
        if i >= fields.len() {
            assert(env@.take(env@.len() as int) =~= env@);
            return Ok(true);
        }
        let field = &fields[i];
        let value = match entries_get(payload, &field.name) {
            Some(v) => v,
            None => {
                let m = concat_str(concat_str(owned("missing enum payload field `"), field.name.as_str()), "`");
                return Err(vm_err(VmErrorCode::InvalidInput, m));
            },
        };
        let ghost env0 = env@;
        proof {
            assert(decreases_to!(fields@ => fields@[i as int].pattern));
        }
        let m = self.pattern_matches(&field.pattern, value, env)?;
        let ghost env1 = env@;
        if !m {
            return Ok(false);
        }
        let r = self.pattern_fields(fields, i + 1, payload, env);
        proof {
            if r is Ok {
                assert(env@.take(env0.len() as int) =~= env1.take(env0.len() as int));
            }
        }
        r
    }
}


// ---------------------------------------------------------------------------
// Programs given as IR
// ---------------------------------------------------------------------------

/// What an update of the program `fs` answers on `state` and `event`.
pub open spec fn ir_update(fs: Seq<IrFunction>, lim: VmLimits, state: Val, event: Val) -> Result<(Val, Seq<Val>), Fault> {
    match entry_points(fs) {
        Some((u, _)) => update_outcome(run_entry(fs, lim, fs[u].name@, seq![state, event])),
        None => Err((VmErrorCode::InvalidInput, seq![])),
    }
}

/// What a query of the program `fs` answers on `state` and `query`.
pub open spec fn ir_query(fs: Seq<IrFunction>, lim: VmLimits, state: Val, query: Val) -> Result<Val, Fault> {
    match entry_points(fs) {
        Some((_, q)) => run_entry(fs, lim, fs[q].name@, seq![state, query]),
        None => Err((VmErrorCode::InvalidInput, seq![])),
    }
}

/// Whether a function before `fs[i]` has its name.
fn name_used_before(fs: &Vec<IrFunction>, i: usize) -> (r: bool)
    requires
        i < fs.len(),
    ensures
        r == name_taken(fs@, i as int),
{
    let mut j: usize = 0;
    while j < i
        invariant
            j <= i < fs.len(),
            forall|k: int| 0 <= k < j ==> fs@[k].name@ != fs@[i as int].name@,
        decreases i - j,
    {
        if fs[j].name == fs[i].name {
            return true;
        }
        j += 1;
    }
    false
}

/// The entry points that a scan finds lie inside the program.
proof fn lemma_scan_in_range(fs: Seq<IrFunction>, i: int, u: Option<int>, q: Option<int>)
    requires
        0 <= i,
        u matches Some(x) ==> 0 <= x < fs.len(),
        q matches Some(x) ==> 0 <= x < fs.len(),
    ensures
        scan_entries(fs, i, u, q) matches Ok((u2, q2)) ==> (u2 matches Some(x) ==> 0 <= x < fs.len()) && (
        q2 matches Some(x) ==> 0 <= x < fs.len()),
    decreases fs.len() - i,
{
    if i < fs.len() && !name_taken(fs, i) {
        match fs[i].kind {
            FnKind::Update => lemma_scan_in_range(fs, i + 1, Some(i), q),
            FnKind::Query => lemma_scan_in_range(fs, i + 1, u, Some(i)),
            FnKind::User => lemma_scan_in_range(fs, i + 1, u, q),
        }
    }
}

/// The entry points of a program lie inside it.
proof fn lemma_entry_points_in_range(fs: Seq<IrFunction>)
    ensures
        entry_points(fs) matches Some((u, q)) ==> 0 <= u < fs.len() && 0 <= q < fs.len(),
{
    lemma_scan_in_range(fs, 0, None, None);
}

/// A program executed by evaluating its typed IR directly.
pub struct IrVmProgram {
    functions: Vec<IrFunction>,
    update_index: usize,
    query_index: usize,
}

impl IrVmProgram {
    #[verifier::type_invariant]
    spec fn entries_found(&self) -> bool {
        entry_points(self.functions@) == Some((self.update_index as int, self.query_index as int))
    }

    /// The program's functions, in source order.
    pub closed spec fn functions(&self) -> Seq<IrFunction> {
        self.functions@
    }

    /// Builds a program from IR. It is refused (`InvalidInput`, naming the first problem) when two
    /// functions share a name, or when there is not exactly one update and one query function.
    pub fn from_ir(program: IrProgram) -> (r: Result<Self, VmError>)
        ensures
            r is Ok <==> entry_points(program.functions@) is Some,
            r matches Ok(p) ==> p.functions() == program.functions@,
            r matches Err(e) ==> e.code == VmErrorCode::InvalidInput && e.message@ == entry_error(program.functions@),
    {
        let functions = program.functions;
        let mut update_index: Option<usize> = None;
        let mut query_index: Option<usize> = None;
        let mut i: usize = 0;
        while i < functions.len()
            invariant
                i <= functions.len(),
                functions@ == program.functions@,
                scan_entries(functions@, 0, None, None) == scan_entries(
                    functions@,
                    i as int,
                    match update_index { Some(u) => Some(u as int), None => None },
                    match query_index { Some(q) => Some(q as int), None => None },
                ),
                update_index matches Some(u) ==> u < i,
                query_index matches Some(q) ==> q < i,
            decreases functions.len() - i,
        {
            let ghost uo = match update_index { Some(u) => Some(u as int), None => None };
            let ghost qo = match query_index { Some(q) => Some(q as int), None => None };
            if name_used_before(&functions, i) {
                assert(scan_entries(functions@, i as int, uo, qo) is Err);
                assert(entry_points(functions@) is None);
                let m = concat_str(
                    concat_str(owned("duplicate function `"), functions[i].name.as_str()),
                    "` in IR program",
                );
                return Err(vm_err(VmErrorCode::InvalidInput, m));
            }
            match functions[i].kind {
                FnKind::Update => {
                    if update_index.is_some() {
                        assert(scan_entries(functions@, i as int, uo, qo) is Err);
                assert(entry_points(functions@) is None);
                        return Err(
                            vm_err(VmErrorCode::InvalidInput, owned("IR program must contain exactly one update function")),
                        );
                    }
                    update_index = Some(i);
                },
                FnKind::Query => {
                    if query_index.is_some() {
                        assert(scan_entries(functions@, i as int, uo, qo) is Err);
                        assert(entry_points(functions@) is None);
                        return Err(
                            vm_err(VmErrorCode::InvalidInput, owned("IR program must contain exactly one query function")),
                        );
                    }
                    query_index = Some(i);
                },
                FnKind::User => {},
            }
            i += 1;
        }
        let update_index = match update_index {
            Some(u) => u,
            None => {
                return Err(vm_err(VmErrorCode::InvalidInput, owned("IR program is missing update function")));
            },
        };
        let query_index = match query_index {
            Some(q) => q,
            None => {
                return Err(vm_err(VmErrorCode::InvalidInput, owned("IR program is missing query function")));
            },
        };
        Ok(IrVmProgram { functions, update_index, query_index })
    }

    /// Calls `entry_name` on `args` with a fresh budget of `limits`.
    fn execute_entry(&self, entry_name: &String, args: Vec<VmValue>, limits: &VmLimits) -> (r: Result<VmValue, VmError>)
        ensures
            match (r, run_entry(self.functions@, *limits, entry_name@, vals(args@, 0))) {
                (Ok(v), Ok(sv)) => val(v) == sv,
                (Err(e), Err(c)) => e.code == c.0 && e.message@ == c.1,
                _ => false,
            },
    {
        let mut evaluator = Evaluator::new(&self.functions, limits);
        evaluator.call_function(entry_name, args)
    }
}

impl VmProgram for IrVmProgram {
    open spec fn update_ensures(&self, state: VmValue, event: VmValue, limits: VmLimits, r: Result<(VmValue, Vec<VmValue>), VmError>) -> bool {
        match (r, ir_update(self.functions(), limits, val(state), val(event))) {
            (Ok((s, acts)), Ok((ss, sacts))) => val(s) == ss && vals(acts@, 0) == sacts,
            (Err(e), Err(c)) => e.code == c.0 && e.message@ == c.1,
            _ => false,
        }
    }

    open spec fn query_ensures(&self, state: VmValue, query: VmValue, limits: VmLimits, r: Result<VmValue, VmError>) -> bool {
        match (r, ir_query(self.functions(), limits, val(state), val(query))) {
            (Ok(v), Ok(sv)) => val(v) == sv,
            (Err(e), Err(c)) => e.code == c.0 && e.message@ == c.1,
            _ => false,
        }
    }

    fn update(&self, state: &VmValue, event: &VmValue, limits: &VmLimits) -> (r: Result<(VmValue, Vec<VmValue>), VmError>) {
        proof {
            use_type_invariant(self);
            lemma_entry_points_in_range(self.functions@);
        }
        let args = vec![copy_value(state), copy_value(event)];
        proof {
            lemma_vals0(args@);
            assert(vals(args@, 0) =~= seq![val(*state), val(*event)]);
        }
        let result = self.execute_entry(&self.functions[self.update_index].name, args, limits)?;
        let mut items = match result {
            VmValue::Tuple(items) => items,
            _ => {
                return Err(vm_err(VmErrorCode::Trap, owned("update must return a tuple (state, actions)")));
            },
        };
        proof {
            lemma_vals0(items@);
        }
        if items.len() != 2 {
            return Err(vm_err(VmErrorCode::Trap, owned("update must return exactly 2 tuple items")));
        }
        let actions_value = match items.pop() {
            Some(a) => a,
            None => {
                return Err(vm_err(VmErrorCode::Trap, owned("update must return exactly 2 tuple items")));
            },
        };
        let next_state = match items.pop() {
            Some(s) => s,
            None => {
                return Err(vm_err(VmErrorCode::Trap, owned("update must return exactly 2 tuple items")));
            },
        };
        match actions_value {
            VmValue::List(actions) => Ok((next_state, actions)),
            _ => Err(vm_err(VmErrorCode::Trap, owned("update second tuple item must be List<Action>"))),
        }
    }

    fn query(&self, state: &VmValue, query: &VmValue, limits: &VmLimits) -> (r: Result<VmValue, VmError>) {
        proof {
            use_type_invariant(self);
            lemma_entry_points_in_range(self.functions@);
        }
        let args = vec![copy_value(state), copy_value(query)];
        proof {
            lemma_vals0(args@);
            assert(vals(args@, 0) =~= seq![val(*state), val(*query)]);
        }
        self.execute_entry(&self.functions[self.query_index].name, args, limits)
    }
}

// ---------------------------------------------------------------------------
// Laws
// ---------------------------------------------------------------------------

/// An update is deterministic: on the same program and limits, a state and an event with the
/// same contents give the same next state and actions, or fail with the same error.
pub proof fn lemma_update_deterministic(
    p: IrVmProgram,
    limits: VmLimits,
    s1: VmValue,
    e1: VmValue,
    r1: Result<(VmValue, Vec<VmValue>), VmError>,
    s2: VmValue,
    e2: VmValue,
    r2: Result<(VmValue, Vec<VmValue>), VmError>,
)
    requires
        val(s1) == val(s2),
        val(e1) == val(e2),
        p.update_ensures(s1, e1, limits, r1),
        p.update_ensures(s2, e2, limits, r2),
    ensures
        match (r1, r2) {
            (Ok((n1, a1)), Ok((n2, a2))) => val(n1) == val(n2) && vals(a1@, 0) == vals(a2@, 0),
            (Err(x), Err(y)) => x.code == y.code && x.message@ == y.message@,
            _ => false,
        },
{
}

/// A query is deterministic: the same state and query contents give the same answer, or the
/// same error.
pub proof fn lemma_query_deterministic(
    p: IrVmProgram,
    limits: VmLimits,
    s1: VmValue,
    q1: VmValue,
    r1: Result<VmValue, VmError>,
    s2: VmValue,
    q2: VmValue,
    r2: Result<VmValue, VmError>,
)
    requires
        val(s1) == val(s2),
        val(q1) == val(q2),
        p.query_ensures(s1, q1, limits, r1),
        p.query_ensures(s2, q2, limits, r2),
    ensures
        match (r1, r2) {
            (Ok(v1), Ok(v2)) => val(v1) == val(v2),
            (Err(x), Err(y)) => x.code == y.code && x.message@ == y.message@,
            _ => false,
        },
{
}

/// With no steps to spend, every update and every query of a program stops with
/// `StepLimitExceeded`.
pub proof fn lemma_no_steps(fs: Seq<IrFunction>, limits: VmLimits, state: Val, input: Val)
    requires
        entry_points(fs) is Some,
        limits.max_steps == 0,
    ensures
        ir_update(fs, limits, state, input) == Err::<(Val, Seq<Val>), Fault>((VmErrorCode::StepLimitExceeded, "step limit exceeded"@)),
        ir_query(fs, limits, state, input) == Err::<Val, Fault>((VmErrorCode::StepLimitExceeded, "step limit exceeded"@)),
{
}

/// With a call depth of zero allowed, every update and every query that has a step to spend
/// stops with `RecursionLimitExceeded`.
pub proof fn lemma_no_depth(fs: Seq<IrFunction>, limits: VmLimits, state: Val, input: Val)
    requires
        entry_points(fs) is Some,
        limits.max_steps > 0,
        limits.max_recursion_depth == 0,
    ensures
        ir_update(fs, limits, state, input) == Err::<(Val, Seq<Val>), Fault>(
            (VmErrorCode::RecursionLimitExceeded, "max recursion depth exceeded while calling `"@ + fs[entry_points(fs).unwrap().0].name@ + "`"@),
        ),
        ir_query(fs, limits, state, input) == Err::<Val, Fault>(
            (VmErrorCode::RecursionLimitExceeded, "max recursion depth exceeded while calling `"@ + fs[entry_points(fs).unwrap().1].name@ + "`"@),
        ),
{
}

/// Name of this layer.
pub fn crate_name() -> (r: &'static str)
    ensures
        r@ == "cino-vm"@,
{
    "cino-vm"
}

} // verus!
