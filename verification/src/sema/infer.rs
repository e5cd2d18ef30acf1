use vstd::prelude::*;
use crate::sema::checker::{
    compatible, copy_tys, fields_v, first_ty, lookup_ty, lemma_tyvs0, tyv, tyvs, Checker, Ty,
};
use crate::sema::model::{
    at, compat, forbidden_call, infer, infer_args, infer_each, infer_fields, infer_items,
    infer_list, is_generic_param, last_entry, record_target, Finding, TyV, E_FN_002, E_PURE_001,
    E_PURE_002, E_TYPE_001, E_TYPE_002,
};
use crate::syntax::ast::{op_name, Expr, ExprKind, FnKind, RecordField};
use crate::text::{concat_str, decimal, named, named_text, owned};

verus! {

proof fn lemma_assoc(a: Seq<Finding>, b: Seq<Finding>, c: Seq<Finding>)
    ensures
        (a + b) + c == a + (b + c),
{
    assert((a + b) + c =~= a + (b + c));
}

/// Whether `names` holds `n`.
pub(crate) fn contains_name(names: &Vec<String>, n: &String) -> (r: bool)
    ensures
        r == names@.map_values(|s: String| s@).contains(n@),
{
    let ghost v = names@.map_values(|s: String| s@);
    let mut i: usize = 0;
    while i < names.len()
        invariant
            i <= names.len(),
            v == names@.map_values(|s: String| s@),
            forall|k: int| 0 <= k < i ==> names@[k]@ != n@,
        decreases names.len() - i,
    {
        if names[i] == *n {
            assert(v[i as int] == n@);
            return true;
        }
        i += 1;
    }
    assert forall|k: int| 0 <= k < v.len() implies v[k] != n@ by {
        assert(v[k] == names@[k]@);
    }
    false
}

impl Checker {
    fn resolve_builtin(&self, name: &String) -> (r: Option<Ty>)
        ensures
            match r {
                Some(t) => (name@ == "true"@ || name@ == "false"@) && tyv(t) == TyV::Bool,
                None => !(name@ == "true"@ || name@ == "false"@),
            },
    {
        if *name == owned("true") || *name == owned("false") {
            Some(Ty::Bool)
        } else {
            None
        }
    }

    fn is_forbidden_side_effect(&self, name: &String) -> (r: bool)
        ensures
            r == forbidden_call(name@),
    {
        *name == owned("now") || *name == owned("rand") || *name == owned("random") || *name == owned("clock")
            || *name == owned("io") || *name == owned("http_get")
    }

    /// Reports a purity violation; inside a plain function it is also reported as `E-FN-002`.
    fn emit_purity_violation(&mut self, code: &'static str, message: String, line: usize, column: usize, fn_kind: FnKind)
        ensures
            final(self).same_tables(old(self)),
            final(self).found() == old(self).found() + seq![Finding { code, message: message@, line, column }] + (if fn_kind
                == FnKind::User {
                seq![Finding { code: E_FN_002, message: message@, line, column }]
            } else {
                seq![]
            }),
    {
        let ghost m = message@;
        let copy = message.clone();
        self.emit(code, copy, line, column);
        if fn_kind == FnKind::User {
            self.emit(E_FN_002, message, line, column);
        } else {
            assert(self.found() =~= old(self).found() + seq![Finding { code, message: m, line, column }] + seq![]);
        }
    }

    /// Infers the type of `expr` under the bindings `env`, reporting what it finds.
    pub(crate) fn infer_expr(&mut self, expr: &Expr, env: &Vec<(String, Ty)>, fn_kind: FnKind) -> (r: Ty)
        ensures
            final(self).same_tables(old(self)),
            tyv(r) == infer(*expr, fields_v(env@), old(self).tables(), fn_kind).0,
            final(self).found() == old(self).found() + infer(*expr, fields_v(env@), old(self).tables(), fn_kind).1,
        decreases expr, 1int,
    {
        let ghost tb = self.tables();
        let ghost d0 = self.found();
        let ghost e = fields_v(env@);
        match &expr.kind {
            ExprKind::Ident(name) => {
                match lookup_ty(env, name) {
                    Some(t) => {
                        assert(self.found() =~= d0 + seq![]);
                        t.copy()
                    },
                    None => match self.resolve_builtin(name) {
                        Some(t) => {
                            assert(self.found() =~= d0 + seq![]);
                            t
                        },
                        None => {
                            self.emit(
                                E_TYPE_002,
                                named("unresolved symbol ", name.as_str(), ""),
                                expr.span.start.line,
                                expr.span.start.column,
                            );
                            Ty::Unknown
                        },
                    },
                }
            },
            ExprKind::Int(_) => {
                assert(self.found() =~= d0 + seq![]);
                Ty::Int
            },
            ExprKind::Bool(_) => {
                assert(self.found() =~= d0 + seq![]);
                Ty::Bool
            },
            ExprKind::Tuple(items) => {
                let ts = self.infer_items(items, 0, env, fn_kind);
                proof {
                    lemma_tyvs0(ts@);
                    assert(tyvs(ts@, 0) =~= infer_items(items@, 0, e, tb, fn_kind).0);
                }
                Ty::Tuple(ts)
            },
            ExprKind::List(items) => {
                let item_ty = self.infer_list_items(items, 0, env, fn_kind, Ty::Unknown);
                let mut args: Vec<Ty> = Vec::new();
                args.push(item_ty);
                proof {
                    lemma_tyvs0(args@);
                    assert(tyvs(args@, 0) =~= seq![tyv(args@[0])]);
                }
                Ty::Named { name: owned("List"), args }
            },
            ExprKind::Record { name, fields } => self.infer_record(expr, name, fields, env, fn_kind),
            ExprKind::Binary { lhs, op, rhs } => {
                let lt = self.infer_expr(lhs, env, fn_kind);
                let rt = self.infer_expr(rhs, env, fn_kind);
                let ghost d2 = self.found();
                let int_ty = Ty::Int;
                if !compatible(&lt, &int_ty) || !compatible(&rt, &int_ty) {
                    self.emit(
                        E_TYPE_001,
                        named("binary operator ", op.name(), " requires Int operands"),
                        expr.span.start.line,
                        expr.span.start.column,
                    );
                } else {
                    assert(self.found() =~= d2 + seq![]);
                }
                proof {
                    let lf = infer(**lhs, e, tb, fn_kind).1;
                    let rf = infer(**rhs, e, tb, fn_kind).1;
                    assert(self.found() =~= d0 + (lf + rf + (if !compat(tyv(lt), TyV::Int) || !compat(
                        tyv(rt),
                        TyV::Int,
                    ) {
                        seq![at(E_TYPE_001, named_text("binary operator "@, op_name(*op), " requires Int operands"@), expr.span.start)]
                    } else {
                        seq![]
                    })));
                }
                Ty::Int
            },
            ExprKind::Call { callee, args } => self.infer_call(expr, callee, args, env, fn_kind),
            ExprKind::Block(block) => self.check_block(block, env, fn_kind),
            ExprKind::Match(m) => self.infer_match(m, env, fn_kind),
        }
    }

    /// A record expression `name { fields }`.
    fn infer_record(&mut self, expr: &Expr, name: &String, fields: &Vec<RecordField>, env: &Vec<(String, Ty)>, fn_kind: FnKind) -> (r: Ty)
        requires
            expr.kind matches ExprKind::Record { name: n, fields: fs } && n == name && fs == fields,
        ensures
            final(self).same_tables(old(self)),
            tyv(r) == infer(*expr, fields_v(env@), old(self).tables(), fn_kind).0,
            final(self).found() == old(self).found() + infer(*expr, fields_v(env@), old(self).tables(), fn_kind).1,
        decreases expr, 0int,
    {
        let (ty_name, expected, generics) = match self.record_target(name) {
            Some(t) => t,
            None => {
                self.emit(
                    E_TYPE_002,
                    named("unresolved type or variant ", name.as_str(), ""),
                    expr.span.start.line,
                    expr.span.start.column,
                );
                return Ty::Unknown;
            },
        };
        self.infer_fields(name, fields, 0, env, fn_kind, &expected, &generics);
        let mut args: Vec<Ty> = Vec::new();
        let mut k: usize = 0;
        while k < generics.len()
            invariant
                k <= generics.len(),
                args.len() == k,
                forall|j: int| 0 <= j < k ==> #[trigger] tyv(args@[j]) == TyV::Unknown,
            decreases generics.len() - k,
        {
            args.push(Ty::Unknown);
            k += 1;
        }
        proof {
            lemma_tyvs0(args@);
            assert(tyvs(args@, 0) =~= Seq::new(
                generics@.map_values(|g: String| g@).len(),
                |j: int| TyV::Unknown,
            ));
        }
        Ty::Named { name: ty_name, args }
        }

    /// A call expression `callee(args)`.
    fn infer_call(&mut self, expr: &Expr, callee: &Expr, args: &Vec<Expr>, env: &Vec<(String, Ty)>, fn_kind: FnKind) -> (r: Ty)
        requires
            expr.kind matches ExprKind::Call { callee: c, args: a } && *c == *callee && a == args,
        ensures
            final(self).same_tables(old(self)),
            tyv(r) == infer(*expr, fields_v(env@), old(self).tables(), fn_kind).0,
            final(self).found() == old(self).found() + infer(*expr, fields_v(env@), old(self).tables(), fn_kind).1,
        decreases expr, 0int,
    {
        let ghost tb = self.tables();
        let ghost d0 = self.found();
        let ghost e = fields_v(env@);
        match &callee.kind {
            ExprKind::Ident(name) => {
                if self.is_forbidden_side_effect(name) {
                    self.emit_purity_violation(
                        E_PURE_001,
                        named("forbidden side-effect function ", name.as_str(), ""),
                        expr.span.start.line,
                        expr.span.start.column,
                        fn_kind,
                    );
                    let ghost d1 = self.found();
                    self.infer_each(args, 0, env, fn_kind);
                    proof {
                        lemma_assoc(d0, d1.subrange(d0.len() as int, d1.len() as int), infer_each(args@, 0, e, tb, fn_kind));
                        assert(d1 =~= d0 + d1.subrange(d0.len() as int, d1.len() as int));
                    }
                    return Ty::Unknown;
                }
                let (params, ret) = match self.lookup_fn(name) {
                    Some(info) => (copy_tys(&info.params), info.return_ty.copy()),
                    None => {
                        self.emit_purity_violation(
                            E_PURE_002,
                            named("external function call ", name.as_str(), " is not allowed"),
                            expr.span.start.line,
                            expr.span.start.column,
                            fn_kind,
                        );
                        let ghost d1 = self.found();
                        self.infer_each(args, 0, env, fn_kind);
                        proof {
                            lemma_assoc(d0, d1.subrange(d0.len() as int, d1.len() as int), infer_each(args@, 0, e, tb, fn_kind));
                            assert(d1 =~= d0 + d1.subrange(d0.len() as int, d1.len() as int));
                        }
                        return Ty::Unknown;
                    },
                };
                proof {
                    lemma_tyvs0(params@);
                }
                if args.len() != params.len() {
                    self.emit(
                        E_TYPE_001,
                        concat_str(
                            concat_str(
                                concat_str(named("function ", name.as_str(), " expects "), decimal(params.len()).as_str()),
                                " arguments, got ",
                            ),
                            decimal(args.len()).as_str(),
                        ),
                        expr.span.start.line,
                        expr.span.start.column,
                    );
                } else {
                    assert(self.found() =~= d0 + seq![]);
                }
                let ghost d1 = self.found();
                self.infer_args(name, args, 0, env, fn_kind, &params);
                proof {
                    let info = last_entry(tb.fns, name@).unwrap();
                    assert(info.params =~= tyvs(params@, 0));
                    lemma_assoc(d0, d1.subrange(d0.len() as int, d1.len() as int), infer_args(name@, args@, 0, e, tb, fn_kind, info.params));
                    assert(d1 =~= d0 + d1.subrange(d0.len() as int, d1.len() as int));
                }
                ret
            },
            _ => {
                self.emit_purity_violation(
                    E_PURE_002,
                    owned("only named pure function calls are allowed"),
                    expr.span.start.line,
                    expr.span.start.column,
                    fn_kind,
                );
                Ty::Unknown
            },
        }
        }

    /// The types of `items[i..]`, left to right.
    fn infer_items(&mut self, items: &Vec<Expr>, i: usize, env: &Vec<(String, Ty)>, fn_kind: FnKind) -> (r: Vec<Ty>)
        requires
            i <= items.len(),
        ensures
            final(self).same_tables(old(self)),
            r.len() == infer_items(items@, i as int, fields_v(env@), old(self).tables(), fn_kind).0.len(),
            forall|k: int| 0 <= k < r.len() ==> #[trigger] tyv(r@[k]) == infer_items(items@, i as int, fields_v(env@), old(self).tables(), fn_kind).0[k],
            final(self).found() == old(self).found() + infer_items(items@, i as int, fields_v(env@), old(self).tables(), fn_kind).1,
        decreases items@, items.len() - i,
    {
        let ghost tb = self.tables();
        let ghost d0 = self.found();
        let ghost e = fields_v(env@);
        if i >= items.len() {
            assert(self.found() =~= d0 + seq![]);
            return Vec::new();
        }
        proof {
            assert(decreases_to!(items@ => items@[i as int]));
        }
        let first = self.infer_expr(&items[i], env, fn_kind);
        let mut rest = self.infer_items(items, i + 1, env, fn_kind);
        let mut out: Vec<Ty> = Vec::new();
        out.push(first);
        out.append(&mut rest);
        proof {
            lemma_assoc(d0, infer(items@[i as int], e, tb, fn_kind).1, infer_items(items@, i + 1, e, tb, fn_kind).1);
        }
        out
    }

    /// The findings of `items[i..]`; their types are not needed.
    fn infer_each(&mut self, items: &Vec<Expr>, i: usize, env: &Vec<(String, Ty)>, fn_kind: FnKind)
        requires
            i <= items.len(),
        ensures
            final(self).same_tables(old(self)),
            final(self).found() == old(self).found() + infer_each(items@, i as int, fields_v(env@), old(self).tables(), fn_kind),
        decreases items@, items.len() - i,
    {
        let ghost tb = self.tables();
        let ghost d0 = self.found();
        let ghost e = fields_v(env@);
        if i >= items.len() {
            assert(self.found() =~= d0 + seq![]);
            return;
        }
        proof {
            assert(decreases_to!(items@ => items@[i as int]));
        }
        let _ = self.infer_expr(&items[i], env, fn_kind);
        self.infer_each(items, i + 1, env, fn_kind);
        proof {
            lemma_assoc(d0, infer(items@[i as int], e, tb, fn_kind).1, infer_each(items@, i + 1, e, tb, fn_kind));
        }
    }

    /// The item type of a list literal's items from `i` on, `cur` being the type found so far.
    fn infer_list_items(&mut self, items: &Vec<Expr>, i: usize, env: &Vec<(String, Ty)>, fn_kind: FnKind, cur: Ty) -> (r: Ty)
        requires
            i <= items.len(),
        ensures
            final(self).same_tables(old(self)),
            tyv(r) == infer_list(items@, i as int, fields_v(env@), old(self).tables(), fn_kind, tyv(cur)).0,
            final(self).found() == old(self).found() + infer_list(items@, i as int, fields_v(env@), old(self).tables(), fn_kind, tyv(cur)).1,
        decreases items@, items.len() - i,
    {
        let ghost tb = self.tables();
        let ghost d0 = self.found();
        let ghost e = fields_v(env@);
        if i >= items.len() {
            assert(self.found() =~= d0 + seq![]);
            return cur;
        }
        proof {
            assert(decreases_to!(items@ => items@[i as int]));
        }
        let item = &items[i];
        let t = self.infer_expr(item, env, fn_kind);
        let ghost d1 = self.found();
        let next = if matches!(cur, Ty::Unknown) {
            assert(self.found() =~= d1 + seq![]);
            t
        } else {
            if !compatible(&cur, &t) {
                self.emit(
                    E_TYPE_001,
                    concat_str(
                        concat_str(
                            concat_str(owned("list items must have same type, found "), cur.render().as_str()),
                            " and ",
                        ),
                        t.render().as_str(),
                    ),
                    item.span.start.line,
                    item.span.start.column,
                );
            } else {
                assert(self.found() =~= d1 + seq![]);
            }
            cur
        };
        let ghost d2 = self.found();
        let r = self.infer_list_items(items, i + 1, env, fn_kind, next);
        proof {
            let f = infer(items@[i as int], e, tb, fn_kind).1;
            let here = d2.subrange(d1.len() as int, d2.len() as int);
            assert(d2 =~= d1 + here);
            let rest = infer_list(items@, i + 1, e, tb, fn_kind, tyv(next)).1;
            assert(self.found() =~= d0 + (f + here + rest));
        }
        r
    }

    /// The type a record expression names, the fields it expects, and the type's generic
    /// parameters.
    fn record_target(&self, name: &String) -> (r: Option<(String, Vec<(String, Ty)>, Vec<String>)>)
        ensures
            match (r, record_target(name@, self.tables())) {
                (Some((n, fs, gs)), Some((sn, sfs, sgs))) => n@ == sn && fields_v(fs@) == sfs && gs@.map_values(
                    |g: String| g@,
                ) == sgs,
                (None, None) => true,
                _ => false,
            },
    {
        match self.lookup_type(name) {
            Some(info) => {
                let gs = crate::sema::checker::copy_strings(&info.generics);
                Some((name.clone(), crate::sema::checker::copy_fields(&info.fields), gs))
            },
            None => match self.lookup_owner(name) {
                Some(owner) => match self.lookup_type(owner) {
                    Some(info) => {
                        let expected = match crate::sema::checker::lookup_variant(info, name) {
                            Some(payload) => crate::sema::checker::copy_fields(payload),
                            None => {
                                let v: Vec<(String, Ty)> = Vec::new();
                                assert(fields_v(v@) =~= seq![]);
                                v
                            },
                        };
                        let gs = crate::sema::checker::copy_strings(&info.generics);
                        Some((owner.clone(), expected, gs))
                    },
                    None => {
                        let v: Vec<(String, Ty)> = Vec::new();
                        let g: Vec<String> = Vec::new();
                        assert(fields_v(v@) =~= seq![]);
                        assert(g@.map_values(|s: String| s@) =~= seq![]);
                        Some((owner.clone(), v, g))
                    },
                },
                None => None,
            },
        }
    }

    /// The fields `fields[i..]` of a record expression expecting `expected`.
    fn infer_fields(
        &mut self,
        record: &String,
        fields: &Vec<RecordField>,
        i: usize,
        env: &Vec<(String, Ty)>,
        fn_kind: FnKind,
        expected: &Vec<(String, Ty)>,
        generics: &Vec<String>,
    )
        requires
            i <= fields.len(),
        ensures
            final(self).same_tables(old(self)),
            final(self).found() == old(self).found() + infer_fields(record@, fields@,
                i as int,
                fields_v(env@),
                old(self).tables(),
                fn_kind,
                fields_v(expected@),
                generics@.map_values(|g: String| g@),
            ),
        decreases fields@, fields.len() - i,
    {
        let ghost tb = self.tables();
        let ghost d0 = self.found();
        let ghost e = fields_v(env@);
        let ghost gs = generics@.map_values(|g: String| g@);
        if i >= fields.len() {
            assert(self.found() =~= d0 + seq![]);
            return;
        }
        proof {
            assert(decreases_to!(fields@ => fields@[i as int].value));
        }
        let f = &fields[i];
        let t = self.infer_expr(&f.value, env, fn_kind);
        let ghost d1 = self.found();
        match first_ty(expected, &f.name) {
            Some(et) => {
                let generic = match et {
                    Ty::Named { name: n, args } => args.len() == 0 && contains_name(generics, n),
                    _ => false,
                };
                assert(generic == is_generic_param(tyv(*et), gs));
                if !generic && !compatible(&t, et) {
                    self.emit(
                        E_TYPE_001,
                        concat_str(
                            concat_str(
                                concat_str(named("field ", f.name.as_str(), " type mismatch: expected "), et.render().as_str()),
                                ", got ",
                            ),
                            t.render().as_str(),
                        ),
                        f.span.start.line,
                        f.span.start.column,
                    );
                } else {
                    assert(self.found() =~= d1 + seq![]);
                }
            },
            None => {
                let m = concat_str(named("unknown field ", f.name.as_str(), " for "), named("", record.as_str(), "").as_str());
                self.emit(E_TYPE_002, m, f.span.start.line, f.span.start.column);
            },
        }
        let ghost d2 = self.found();
        self.infer_fields(record, fields, i + 1, env, fn_kind, expected, generics);
        proof {
            let found = infer(f.value, e, tb, fn_kind).1;
            let here = d2.subrange(d1.len() as int, d2.len() as int);
            assert(d2 =~= d1 + here);
            let rest = infer_fields(record@, fields@, i + 1, e, tb, fn_kind, fields_v(expected@), gs);
            assert(self.found() =~= d0 + (found + here + rest));
        }
    }

    /// The arguments `args[i..]` of a call of a function taking `params`.
    fn infer_args(&mut self, callee: &String, args: &Vec<Expr>, i: usize, env: &Vec<(String, Ty)>, fn_kind: FnKind, params: &Vec<Ty>)
        requires
            i <= args.len(),
        ensures
            final(self).same_tables(old(self)),
            final(self).found() == old(self).found() + infer_args(callee@, args@, i as int,
                fields_v(env@),
                old(self).tables(),
                fn_kind,
                tyvs(params@, 0),
            ),
        decreases args@, args.len() - i,
    {
        let ghost tb = self.tables();
        let ghost d0 = self.found();
        let ghost e = fields_v(env@);
        proof {
            lemma_tyvs0(params@);
        }
        if i >= args.len() {
            assert(self.found() =~= d0 + seq![]);
            return;
        }
        proof {
            assert(decreases_to!(args@ => args@[i as int]));
        }
        let arg = &args[i];
        let t = self.infer_expr(arg, env, fn_kind);
        let ghost d1 = self.found();
        if i < params.len() && !compatible(&t, &params[i]) {
            let a = concat_str(owned("argument "), decimal(i + 1).as_str());
            let b = concat_str(concat_str(a, named(" of ", callee.as_str(), " expects ").as_str()), params[i].render().as_str());
            let m = concat_str(concat_str(b, ", got "), t.render().as_str());
            self.emit(E_TYPE_001, m, arg.span.start.line, arg.span.start.column);
        } else {
            assert(self.found() =~= d1 + seq![]);
        }
        let ghost d2 = self.found();
        self.infer_args(callee, args, i + 1, env, fn_kind, params);
        proof {
            let found = infer(args@[i as int], e, tb, fn_kind).1;
            let here = d2.subrange(d1.len() as int, d2.len() as int);
            assert(d2 =~= d1 + here);
            let rest = infer_args(callee@, args@, i + 1, e, tb, fn_kind, tyvs(params@, 0));
            assert(self.found() =~= d0 + (found + here + rest));
        }
    }
}

} // verus!
