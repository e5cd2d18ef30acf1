use vstd::prelude::*;
use crate::sema::checker::{
    compatible, copy_fields, fields_v, first_ty, info_v, lookup_variant, tyv, Checker, Ty,
};
use crate::sema::infer::contains_name;
use crate::sema::model::{
    all_variants, join_text, missing_from, variant_list, arm_head, arm_type, at, bind_fields, cover, infer_arm, check_block, check_pattern, check_stmts, infer, infer_arms,
    infer_match, ArmState, DeclKind, Finding, TyV, E_FN_003, E_MATCH_001, E_MATCH_002, E_MATCH_003,
    E_TYPE_001, E_TYPE_002,
};
use crate::syntax::ast::{BlockExpr, FnKind, MatchArm, MatchExpr, Pattern, PatternField, PatternKind, Stmt};
use crate::text::{concat_str, named, named_text, owned};

verus! {

/// The set of names held by `v`.
pub open spec fn names_set(v: Seq<String>) -> Set<Seq<char>> {
    v.map_values(|s: String| s@).to_set()
}

pub(crate) open spec fn opt_ty(o: Option<Ty>) -> Option<TyV> {
    match o {
        Some(t) => Some(tyv(t)),
        None => None,
    }
}

pub open spec fn opt_name(o: Option<String>) -> Option<Seq<char>> {
    match o {
        Some(s) => Some(s@),
        None => None,
    }
}

proof fn lemma_names_push(v: Seq<String>, x: String)
    ensures
        names_set(v.push(x)) == names_set(v).insert(x@),
{
    let a = v.push(x).map_values(|s: String| s@);
    let b = v.map_values(|s: String| s@);
    assert(a =~= b.push(x@));
    assert forall|n: Seq<char>| a.contains(n) <==> (b.contains(n) || n == x@) by {
        if a.contains(n) {
            let k = choose|k: int| 0 <= k < a.len() && a[k] == n;
            if k < b.len() {
                assert(b[k] == n);
            }
        }
        if b.contains(n) {
            let k = choose|k: int| 0 <= k < b.len() && b[k] == n;
            assert(a[k] == n);
        }
        if n == x@ {
            assert(a[b.len() as int] == n);
        }
    }
    assert(names_set(v.push(x)) =~= names_set(v).insert(x@));
}

proof fn lemma_fields_push(v: Seq<(String, Ty)>, x: (String, Ty))
    ensures
        fields_v(v.push(x)) == fields_v(v).push((x.0@, tyv(x.1))),
{
    assert(fields_v(v.push(x)) =~= fields_v(v).push((x.0@, tyv(x.1))));
}

proof fn lemma_assoc(a: Seq<Finding>, b: Seq<Finding>, c: Seq<Finding>)
    ensures
        (a + b) + c == a + (b + c),
{
    assert((a + b) + c =~= a + (b + c));
}

/// Whether `all[i]` occurs among `all[..i]`.
fn seen_before(all: &Vec<String>, i: usize) -> (r: bool)
    requires
        i < all.len(),
    ensures
        r == all@.map_values(|s: String| s@).take(i as int).contains(all@[i as int]@),
{
    let ghost a = all@.map_values(|s: String| s@);
    let mut k: usize = 0;
    while k < i
        invariant
            k <= i < all.len(),
            a == all@.map_values(|s: String| s@),
            forall|j: int| 0 <= j < k ==> a[j] != all@[i as int]@,
        decreases i - k,
    {
        if all[k] == all[i] {
            assert(a.take(i as int)[k as int] == all@[i as int]@);
            return true;
        }
        k += 1;
    }
    proof {
        if a.take(i as int).contains(all@[i as int]@) {
            let j = choose|j: int| 0 <= j < i && a.take(i as int)[j] == all@[i as int]@;
            assert(a[j] == a.take(i as int)[j]);
        }
    }
    false
}

/// The names of `all` missing from `covered`, each once, in order.
fn missing_names(all: &Vec<String>, covered: &Vec<String>) -> (r: Vec<String>)
    ensures
        r@.map_values(|s: String| s@) == missing_from(all@.map_values(|s: String| s@), names_set(covered@), 0),
        r.len() > 0 <==> !names_set(all@).difference(names_set(covered@)).is_empty(),
{
    let ghost a = all@.map_values(|s: String| s@);
    let ghost c = covered@.map_values(|s: String| s@);
    let ghost cs = names_set(covered@);
    let mut out: Vec<String> = Vec::new();
    let mut i: usize = 0;
    proof {
        assert(out@.map_values(|s: String| s@) + missing_from(a, cs, 0) =~= missing_from(a, cs, 0));
    }
    while i < all.len()
        invariant
            i <= all.len(),
            a == all@.map_values(|s: String| s@),
            c == covered@.map_values(|s: String| s@),
            cs == names_set(covered@),
            out.len() > 0 <==> exists|k: int| 0 <= k < i && !c.contains(#[trigger] a[k]),
            out@.map_values(|s: String| s@) + missing_from(a, cs, i as int) == missing_from(a, cs, 0),
        decreases all.len() - i,
    {
        let ghost before = out@.map_values(|s: String| s@);
        assert(cs.contains(a[i as int]) <==> c.contains(a[i as int]));
        if !contains_name(covered, &all[i]) {
            assert(!c.contains(a[i as int]));
            if !seen_before(all, i) {
                out.push(all[i].clone());
                assert(out@.map_values(|s: String| s@) =~= before.push(a[i as int]));
                assert(out@.map_values(|s: String| s@) + missing_from(a, cs, i + 1) =~= before + missing_from(
                    a,
                    cs,
                    i as int,
                ));
            } else {
                let ghost j = choose|j: int| 0 <= j < i && a.take(i as int)[j] == a[i as int];
                assert(a[j] == a.take(i as int)[j]);
                assert(!c.contains(a[j]));
            }
        }
        i += 1;
    }
    let ghost d = names_set(all@).difference(names_set(covered@));
    proof {
        assert(out@.map_values(|s: String| s@) + missing_from(a, cs, i as int) =~= out@.map_values(|s: String| s@));
        if out.len() > 0 {
            let k = choose|k: int| 0 <= k < all.len() && !c.contains(#[trigger] a[k]);
            assert(d.contains(a[k]));
            assert(!(d =~= Set::<Seq<char>>::empty()));
        } else {
            assert forall|n: Seq<char>| !d.contains(n) by {
                if d.contains(n) {
                    let k = choose|k: int| 0 <= k < a.len() && a[k] == n;
                    assert(!c.contains(a[k]));
                }
            }
            assert(d =~= Set::<Seq<char>>::empty());
        }
    }
    out
}

/// `names` joined by `, `.
fn join_names(names: &Vec<String>) -> (r: String)
    ensures
        r@ == join_text(names@.map_values(|s: String| s@), 0),
{
    let ghost ns = names@.map_values(|s: String| s@);
    let mut out = String::new();
    let mut i: usize = 0;
    proof {
        assert(out@ + join_text(ns, 0) =~= join_text(ns, 0));
    }
    while i < names.len()
        invariant
            i <= names.len(),
            ns == names@.map_values(|s: String| s@),
            out@ + join_text(ns, i as int) == join_text(ns, 0),
        decreases names.len() - i,
    {
        let ghost before = out@;
        if i > 0 {
            out = concat_str(out, ", ");
        }
        out = concat_str(out, names[i].as_str());
        proof {
            let sep: Seq<char> = if i > 0 { ", "@ } else { seq![] };
            assert(out@ == before + sep + ns[i as int]);
            assert(out@ + join_text(ns, i + 1) =~= before + join_text(ns, i as int));
        }
        i += 1;
    }
    proof {
        assert(out@ =~= out@ + join_text(ns, i as int));
    }
    out
}

impl Checker {
    /// A block: its statements in order, then its tail; bindings stay local to it.
    pub(crate) fn check_block(&mut self, block: &BlockExpr, env: &Vec<(String, Ty)>, fn_kind: FnKind) -> (r: Ty)
        ensures
            final(self).same_tables(old(self)),
            tyv(r) == check_block(*block, fields_v(env@), old(self).tables(), fn_kind).0,
            final(self).found() == old(self).found() + check_block(*block, fields_v(env@), old(self).tables(), fn_kind).1,
        decreases block, 0int,
    {
        let ghost tb = self.tables();
        let ghost d0 = self.found();
        let mut scoped = copy_fields(env);
        self.check_stmts(&block.statements, 0, &mut scoped, fn_kind);
        let ghost d1 = self.found();
        match &block.tail {
            Some(tail) => {
                let t = self.infer_expr(tail, &scoped, fn_kind);
                proof {
                    lemma_assoc(
                        d0,
                        d1.subrange(d0.len() as int, d1.len() as int),
                        infer(**tail, fields_v(scoped@), tb, fn_kind).1,
                    );
                    assert(d1 =~= d0 + d1.subrange(d0.len() as int, d1.len() as int));
                }
                t
            },
            None => Ty::Unknown,
        }
    }

    fn check_stmts(&mut self, stmts: &Vec<Stmt>, i: usize, scoped: &mut Vec<(String, Ty)>, fn_kind: FnKind)
        requires
            i <= stmts.len(),
        ensures
            final(self).same_tables(old(self)),
            fields_v(final(scoped)@) == check_stmts(stmts@, i as int, fields_v(old(scoped)@), old(self).tables(), fn_kind).0,
            final(self).found() == old(self).found() + check_stmts(stmts@, i as int, fields_v(old(scoped)@), old(self).tables(), fn_kind).1,
        decreases stmts@, stmts.len() - i,
    {
        let ghost tb = self.tables();
        let ghost d0 = self.found();
        let ghost e0 = fields_v(scoped@);
        if i >= stmts.len() {
            assert(self.found() =~= d0 + seq![]);
            return;
        }
        proof {
            assert(decreases_to!(stmts@ => stmts@[i as int]));
        }
        match &stmts[i] {
            Stmt::Let(let_stmt) => {
                proof {
                    assert(decreases_to!(stmts@ => let_stmt.value));
                }
                let t = self.infer_expr(&let_stmt.value, scoped, fn_kind);
                let ghost d1 = self.found();
                let ghost before = scoped@;
                scoped.push((let_stmt.name.clone(), t));
                proof {
                    lemma_fields_push(before, scoped@.last());
                    assert(scoped@ =~= before.push(scoped@.last()));
                }
                self.check_stmts(stmts, i + 1, scoped, fn_kind);
                proof {
                    lemma_assoc(
                        d0,
                        infer(let_stmt.value, e0, tb, fn_kind).1,
                        check_stmts(stmts@, i + 1, e0.push((let_stmt.name@, tyv(t))), tb, fn_kind).1,
                    );
                }
            },
            Stmt::Return(ret) => {
                proof {
                    assert(decreases_to!(stmts@ => ret.value));
                }
                self.emit(
                    E_FN_003,
                    owned("`return` statement is not supported in MVP"),
                    ret.span.start.line,
                    ret.span.start.column,
                );
                let _ = self.infer_expr(&ret.value, scoped, fn_kind);
                self.check_stmts(stmts, i + 1, scoped, fn_kind);
                proof {
                    let f = infer(ret.value, e0, tb, fn_kind).1;
                    let rest = check_stmts(stmts@, i + 1, e0, tb, fn_kind).1;
                    assert(self.found() =~= d0 + (seq![at(E_FN_003, "`return` statement is not supported in MVP"@, ret.span.start)] + f + rest));
                }
            },
        }
    }

    /// The variant names of the type `t` when it is an enum, event or query type.
    fn variant_names(&self, t: &Ty) -> (r: Vec<String>)
        ensures
            r@.map_values(|s: String| s@) == variant_list(tyv(*t), self.tables()),
            names_set(r@) == all_variants(tyv(*t), self.tables()),
    {
        let mut out: Vec<String> = Vec::new();
        match t {
            Ty::Named { name, .. } => match self.lookup_type(name) {
                Some(info) => {
                    if info.kind == DeclKind::Enum || info.kind == DeclKind::Event || info.kind == DeclKind::Query {
                        let mut i: usize = 0;
                        while i < info.variants.len()
                            invariant
                                i <= info.variants.len(),
                                out.len() == i,
                                forall|k: int| 0 <= k < i ==> (#[trigger] out@[k])@ == info.variants@[k].0@,
                            decreases info.variants.len() - i,
                        {
                            out.push(info.variants[i].0.clone());
                            i += 1;
                        }
                        assert(out@.map_values(|s: String| s@) =~= info_v(*info).variants.map_values(
                            |v: (Seq<char>, Seq<(Seq<char>, TyV)>)| v.0,
                        ));
                    } else {
                        assert(names_set(out@) =~= Set::<Seq<char>>::empty());
                    }
                },
                None => {
                    assert(names_set(out@) =~= Set::<Seq<char>>::empty());
                },
            },
            _ => {
                assert(names_set(out@) =~= Set::<Seq<char>>::empty());
            },
        }
        out
    }

    /// A match expression: its arms checked in order, exhaustiveness checked at the end.
    pub(crate) fn infer_match(&mut self, m: &MatchExpr, env: &Vec<(String, Ty)>, fn_kind: FnKind) -> (r: Ty)
        ensures
            final(self).same_tables(old(self)),
            tyv(r) == infer_match(*m, fields_v(env@), old(self).tables(), fn_kind).0,
            final(self).found() == old(self).found() + infer_match(*m, fields_v(env@), old(self).tables(), fn_kind).1,
        decreases m, 0int,
    {
        let ghost tb = self.tables();
        let ghost d0 = self.found();
        let ghost e = fields_v(env@);
        let subject_ty = self.infer_expr(&m.subject, env, fn_kind);
        let ghost d1 = self.found();
        let all = self.variant_names(&subject_ty);
        let mut covered: Vec<String> = Vec::new();
        let mut wildcard_seen = false;
        let mut arm_ty: Option<Ty> = None;
        proof {
            assert(names_set(covered@) =~= Set::<Seq<char>>::empty());
        }
        self.infer_arms(&m.arms, 0, &subject_ty, env, fn_kind, &mut covered, &mut wildcard_seen, &mut arm_ty);
        let ghost d2 = self.found();
        let ghost all_set = all_variants(tyv(subject_ty), tb);
        if all.len() > 0 && !wildcard_seen {
            let missing = missing_names(&all, &covered);
            if missing.len() > 0 {
                proof {
                    let a = all@.map_values(|s: String| s@);
                    assert(a[0] == all@[0]@);
                    assert(a.contains(all@[0]@));
                    assert(all_set.contains(all@[0]@));
                }
                let names = join_names(&missing);
                self.emit(
                    E_MATCH_001,
                    concat_str(owned("non-exhaustive match, missing variants: "), names.as_str()),
                    m.span.start.line,
                    m.span.start.column,
                );
            } else {
                assert(self.found() =~= d2 + seq![]);
            }
        } else {
            proof {
                if all.len() == 0 {
                    assert(all_set =~= Set::<Seq<char>>::empty()) by {
                        let a = all@.map_values(|s: String| s@);
                        assert forall|n: Seq<char>| !all_set.contains(n) by {
                            if all_set.contains(n) {
                                let k = choose|k: int| 0 <= k < a.len() && #[trigger] a[k] == n;
                            }
                        }
                    }
                }
            }
            assert(self.found() =~= d2 + seq![]);
        }
        proof {
            let sf = infer(*m.subject, e, tb, fn_kind).1;
            let af = d2.subrange(d1.len() as int, d2.len() as int);
            assert(d1 =~= d0 + sf);
            assert(d2 =~= d1 + af);
            let tail = self.found().subrange(d2.len() as int, self.found().len() as int);
            assert(self.found() =~= d2 + tail);
            assert(self.found() =~= d0 + (sf + af + tail));
        }
        match arm_ty {
            Some(t) => t,
            None => Ty::Unknown,
        }
    }

    /// The arms `arms[i..]` of a match on a subject of type `subject`.
    fn infer_arms(
        &mut self,
        arms: &Vec<MatchArm>,
        i: usize,
        subject: &Ty,
        env: &Vec<(String, Ty)>,
        fn_kind: FnKind,
        covered: &mut Vec<String>,
        wildcard: &mut bool,
        arm_ty: &mut Option<Ty>,
    )
        requires
            i <= arms.len(),
        ensures
            final(self).same_tables(old(self)),
            ({
                let s0 = ArmState {
                    covered: names_set(old(covered)@),
                    wildcard: *old(wildcard),
                    arm_ty: opt_ty(*old(arm_ty)),
                };
                let (s, fs) = infer_arms(arms@, i as int, tyv(*subject), fields_v(env@), old(self).tables(), fn_kind, s0);
                &&& names_set(final(covered)@) == s.covered
                &&& *final(wildcard) == s.wildcard
                &&& opt_ty(*final(arm_ty)) == s.arm_ty
                &&& final(self).found() == old(self).found() + fs
            }),
        decreases arms@, arms.len() - i,
    {
        let ghost d0 = self.found();
        if i >= arms.len() {
            assert(self.found() =~= d0 + seq![]);
            return;
        }
        proof {
            assert(decreases_to!(arms@ => arms@[i as int]));
        }
        self.infer_arm(&arms[i], subject, env, fn_kind, covered, wildcard, arm_ty);
        let ghost d1 = self.found();
        self.infer_arms(arms, i + 1, subject, env, fn_kind, covered, wildcard, arm_ty);
        proof {
            let f = d1.subrange(d0.len() as int, d1.len() as int);
            let rest = self.found().subrange(d1.len() as int, self.found().len() as int);
            assert(d1 =~= d0 + f);
            assert(self.found() =~= d1 + rest);
            assert(self.found() =~= d0 + (f + rest));
        }
    }

    #[verifier::rlimit(80)]
    fn infer_arm(
        &mut self,
        arm: &MatchArm,
        subject: &Ty,
        env: &Vec<(String, Ty)>,
        fn_kind: FnKind,
        covered: &mut Vec<String>,
        wildcard: &mut bool,
        arm_ty: &mut Option<Ty>,
    )
        ensures
            final(self).same_tables(old(self)),
            ({
                let s0 = ArmState {
                    covered: names_set(old(covered)@),
                    wildcard: *old(wildcard),
                    arm_ty: opt_ty(*old(arm_ty)),
                };
                let (s, fs) = infer_arm(*arm, tyv(*subject), fields_v(env@), old(self).tables(), fn_kind, s0);
                &&& names_set(final(covered)@) == s.covered
                &&& *final(wildcard) == s.wildcard
                &&& opt_ty(*final(arm_ty)) == s.arm_ty
                &&& final(self).found() == old(self).found() + fs
            }),
        decreases arm, 0int,
    {
        let ghost d0 = self.found();
        self.arm_head(arm, *wildcard);
        let ghost d1 = self.found();
        let mut arm_env = copy_fields(env);
        let arm_variant = self.check_pattern(&arm.pattern, subject, &mut arm_env);
        let ghost d2 = self.found();
        self.cover_arm(arm, arm_variant, covered, wildcard, arm_ty);
        let ghost d3 = self.found();
        let current = self.infer_expr(&arm.body, &arm_env, fn_kind);
        let ghost d4 = self.found();
        self.arm_type_step(arm, current, arm_ty, covered, *wildcard);
        proof {
            let head = d1.subrange(d0.len() as int, d1.len() as int);
            let pf = d2.subrange(d1.len() as int, d2.len() as int);
            let cf = d3.subrange(d2.len() as int, d3.len() as int);
            let bf = d4.subrange(d3.len() as int, d4.len() as int);
            let tf = self.found().subrange(d4.len() as int, self.found().len() as int);
            assert(d1 =~= d0 + head);
            assert(d2 =~= d1 + pf);
            assert(d3 =~= d2 + cf);
            assert(d4 =~= d3 + bf);
            assert(self.found() =~= d4 + tf);
            assert(self.found() =~= d0 + (head + pf + cf + bf + tf));
        }
    }

    fn arm_head(&mut self, arm: &MatchArm, wildcard: bool)
        ensures
            final(self).same_tables(old(self)),
            final(self).found() == old(self).found() + arm_head(
                ArmState { covered: Set::empty(), wildcard, arm_ty: None },
                *arm,
            ),
    {
        let ghost d0 = self.found();
        if arm.guard.is_some() {
            self.emit(E_MATCH_003, owned("match guards are not supported in MVP"), arm.span.start.line, arm.span.start.column);
        }
        let ghost d1 = self.found();
        if wildcard {
            self.emit(E_MATCH_002, owned("unreachable match arm"), arm.span.start.line, arm.span.start.column);
        }
        assert(self.found() =~= d0 + (d1.subrange(d0.len() as int, d1.len() as int) + self.found().subrange(
            d1.len() as int,
            self.found().len() as int,
        )));
    }

    fn cover_arm(&mut self, arm: &MatchArm, variant: Option<String>, covered: &mut Vec<String>, wildcard: &mut bool, arm_ty: &Option<Ty>)
        ensures
            final(self).same_tables(old(self)),
            ({
                let s0 = ArmState { covered: names_set(old(covered)@), wildcard: *old(wildcard), arm_ty: opt_ty(*arm_ty) };
                let (s1, cf) = cover(s0, opt_name(variant), *arm);
                &&& names_set(final(covered)@) == s1.covered
                &&& *final(wildcard) == s1.wildcard
                &&& opt_ty(*arm_ty) == s1.arm_ty
                &&& final(self).found() == old(self).found() + cf
            }),
    {
        let ghost d0 = self.found();
        match variant {
            Some(name) => {
                if contains_name(covered, &name) {
                    self.emit(
                        E_MATCH_002,
                        named("unreachable match arm for variant ", name.as_str(), ""),
                        arm.span.start.line,
                        arm.span.start.column,
                    );
                } else {
                    let ghost before = covered@;
                    covered.push(name);
                    proof {
                        lemma_names_push(before, covered@.last());
                        assert(covered@ =~= before.push(covered@.last()));
                    }
                    assert(self.found() =~= d0 + seq![]);
                }
            },
            None => {
                if matches!(arm.pattern.kind, PatternKind::Wildcard) {
                    *wildcard = true;
                }
                assert(self.found() =~= d0 + seq![]);
            },
        }
    }

    fn arm_type_step(&mut self, arm: &MatchArm, current: Ty, arm_ty: &mut Option<Ty>, covered: &Vec<String>, wildcard: bool)
        ensures
            final(self).same_tables(old(self)),
            ({
                let s0 = ArmState { covered: names_set(covered@), wildcard, arm_ty: opt_ty(*old(arm_ty)) };
                let (s1, tf) = arm_type(s0, tyv(current), *arm);
                &&& opt_ty(*final(arm_ty)) == s1.arm_ty
                &&& s1.covered == names_set(covered@)
                &&& s1.wildcard == wildcard
                &&& final(self).found() == old(self).found() + tf
            }),
    {
        let ghost d0 = self.found();
        let set_ty = match &*arm_ty {
            Some(prev) => {
                if !compatible(prev, &current) {
                    let a = concat_str(owned("match arm type mismatch: expected "), prev.render().as_str());
                    self.emit(
                        E_TYPE_001,
                        concat_str(concat_str(a, ", got "), current.render().as_str()),
                        arm.body.span.start.line,
                        arm.body.span.start.column,
                    );
                } else {
                    assert(self.found() =~= d0 + seq![]);
                }
                false
            },
            None => {
                assert(self.found() =~= d0 + seq![]);
                true
            },
        };
        if set_ty {
            *arm_ty = Some(current);
        }
    }

    /// Checks a pattern against the subject's type, adding its bindings to `env`; the variant it
    /// names, if it names a known one.
    pub(crate) fn check_pattern(&mut self, pattern: &Pattern, subject: &Ty, env: &mut Vec<(String, Ty)>) -> (r: Option<String>)
        ensures
            final(self).same_tables(old(self)),
            opt_name(r) == check_pattern(*pattern, tyv(*subject), fields_v(old(env)@), old(self).tables()).0,
            fields_v(final(env)@) == check_pattern(*pattern, tyv(*subject), fields_v(old(env)@), old(self).tables()).1,
            final(self).found() == old(self).found() + check_pattern(*pattern, tyv(*subject), fields_v(old(env)@), old(self).tables()).2,
        decreases pattern, 0int,
    {
        let ghost d0 = self.found();
        match &pattern.kind {
            PatternKind::Wildcard => {
                assert(self.found() =~= d0 + seq![]);
                None
            },
            PatternKind::Int(_) => {
                match subject {
                    Ty::Int | Ty::Unknown => {
                        assert(self.found() =~= d0 + seq![]);
                    },
                    _ => {
                        self.emit(
                            E_TYPE_001,
                            owned("integer pattern requires Int subject"),
                            pattern.span.start.line,
                            pattern.span.start.column,
                        );
                    },
                }
                None
            },
            PatternKind::Variant { name, fields } => {
                let ty_name = match subject {
                    Ty::Named { name: n, .. } => n,
                    _ => {
                        self.emit(
                            E_TYPE_001,
                            owned("variant pattern requires enum/event/query subject"),
                            pattern.span.start.line,
                            pattern.span.start.column,
                        );
                        return None;
                    },
                };
                let found: Option<Option<Vec<(String, Ty)>>> = match self.lookup_type(ty_name) {
                    None => None,
                    Some(info) => Some(
                        match lookup_variant(info, name) {
                            Some(p) => Some(copy_fields(p)),
                            None => None,
                        },
                    ),
                };
                match found {
                    None => {
                        self.emit(
                            E_TYPE_002,
                            named("unresolved type ", ty_name.as_str(), ""),
                            pattern.span.start.line,
                            pattern.span.start.column,
                        );
                        None
                    },
                    Some(None) => {
                        self.emit(
                            E_TYPE_002,
                            concat_str(named("unknown variant ", name.as_str(), " for type "), named("", ty_name.as_str(), "").as_str()),
                            pattern.span.start.line,
                            pattern.span.start.column,
                        );
                        None
                    },
                    Some(Some(payload)) => {
                        self.bind_pattern_fields(fields, 0, &payload, env);
                        Some(name.clone())
                    },
                }
            },
        }
    }

    /// Binds the fields `fields[i..]` of a variant pattern whose payload is `payload`.
    fn bind_pattern_fields(
        &mut self,
        fields: &Vec<PatternField>,
        i: usize,
        payload: &Vec<(String, Ty)>,
        env: &mut Vec<(String, Ty)>,
    )
        requires
            i <= fields.len(),
        ensures
            final(self).same_tables(old(self)),
            fields_v(final(env)@) == bind_fields(fields@, i as int, fields_v(payload@), fields_v(old(env)@), old(self).tables()).0,
            final(self).found() == old(self).found() + bind_fields(fields@, i as int, fields_v(payload@), fields_v(old(env)@), old(self).tables()).1,
        decreases fields@, fields.len() - i,
    {
        let ghost tb = self.tables();
        let ghost d0 = self.found();
        let ghost e0 = fields_v(env@);
        if i >= fields.len() {
            assert(self.found() =~= d0 + seq![]);
            return;
        }
        let f = &fields[i];
        proof {
            assert(decreases_to!(fields@ => f.pattern));
        }
        match first_ty(payload, &f.name) {
            None => {
                self.emit(E_TYPE_002, named("unknown payload field ", f.name.as_str(), ""), f.span.start.line, f.span.start.column);
                self.bind_pattern_fields(fields, i + 1, payload, env);
                proof {
                    assert(self.found() =~= d0 + (seq![at(E_TYPE_002, named_text("unknown payload field "@, f.name@, ""@), f.span.start)] + bind_fields(
                        fields@,
                        i + 1,
                        fields_v(payload@),
                        e0,
                        tb,
                    ).1));
                }
            },
            Some(ft) => match &f.pattern {
                Some(nested) => {
                    let _ = self.check_pattern(nested, ft, env);
                    let ghost e1 = fields_v(env@);
                    self.bind_pattern_fields(fields, i + 1, payload, env);
                    proof {
                        let nf = check_pattern(**nested, tyv(*ft), e0, tb).2;
                        lemma_assoc(d0, nf, bind_fields(fields@, i + 1, fields_v(payload@), e1, tb).1);
                    }
                },
                None => {
                    let ghost before = env@;
                    env.push((f.name.clone(), ft.copy()));
                    proof {
                        lemma_fields_push(before, env@.last());
                        assert(env@ =~= before.push(env@.last()));
                    }
                    self.bind_pattern_fields(fields, i + 1, payload, env);
                },
            },
        }
    }
}

} // verus!
