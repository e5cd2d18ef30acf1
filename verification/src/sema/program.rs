use vstd::prelude::*;
use crate::sema::checker::{
    compatible, fields_v, findings, lemma_tyvs0, ty_from_ast, tyv, Analysis, Checker, Ty,
};
use crate::sema::model::{
    analysis, check_block, check_decls, check_fn, is_kind_type, is_list_action, is_result,
    param_env, signature_findings, tables, ty_of, DeclKind, E_TYPE_001, E_TYPE_004,
};
use crate::syntax::ast::{FnDecl, FnKind, Program, TopDecl};
use crate::text::{concat_str, named, owned};

verus! {

impl Checker {
    fn is_kind(&self, ty: &Ty, kind: DeclKind) -> (r: bool)
        ensures
            r == is_kind_type(tyv(*ty), self.tables(), kind),
    {
        match ty {
            Ty::Named { name, .. } => match self.lookup_type(name) {
                Some(info) => info.kind == kind,
                None => false,
            },
            _ => false,
        }
    }

    fn is_event_type(&self, ty: &Ty) -> (r: bool)
        ensures
            r == is_kind_type(tyv(*ty), self.tables(), DeclKind::Event),
    {
        self.is_kind(ty, DeclKind::Event)
    }

    fn is_query_type(&self, ty: &Ty) -> (r: bool)
        ensures
            r == is_kind_type(tyv(*ty), self.tables(), DeclKind::Query),
    {
        self.is_kind(ty, DeclKind::Query)
    }

    fn is_list_action(&self, ty: &Ty) -> (r: bool)
        ensures
            r == is_list_action(tyv(*ty)),
    {
        match ty {
            Ty::Named { name, args } => {
                proof {
                    lemma_tyvs0(args@);
                }
                *name == owned("List") && args.len() == 1 && match &args[0] {
                    Ty::Named { name: inner, .. } => *inner == owned("Action"),
                    _ => false,
                }
            },
            _ => false,
        }
    }

    fn is_result(&self, ty: &Ty) -> (r: bool)
        ensures
            r == is_result(tyv(*ty)),
    {
        match ty {
            Ty::Named { name, args } => {
                proof {
                    lemma_tyvs0(args@);
                }
                *name == owned("Result") && args.len() == 2
            },
            _ => false,
        }
    }

    /// The signature rules of `update` and `query` functions.
    fn check_fn_signature(&mut self, fd: &FnDecl)
        ensures
            final(self).same_tables(old(self)),
            final(self).found() == old(self).found() + signature_findings(*fd, old(self).tables()),
    {
        let ghost d0 = self.found();
        let ret_line = fd.return_type.span.start.line;
        let ret_column = fd.return_type.span.start.column;
        match fd.kind {
            FnKind::User => {
                assert(self.found() =~= d0 + seq![]);
            },
            FnKind::Update => {
                if fd.params.len() != 2 {
                    self.emit(
                        E_TYPE_004,
                        owned("`update` must take exactly 2 parameters"),
                        fd.span.start.line,
                        fd.span.start.column,
                    );
                    return;
                }
                let state_ty = ty_from_ast(&fd.params[0].type_expr);
                let event_ty = ty_from_ast(&fd.params[1].type_expr);
                if !self.is_event_type(&event_ty) {
                    self.emit(
                        E_TYPE_004,
                        owned("`update` second parameter must be an `event` type"),
                        fd.params[1].span.start.line,
                        fd.params[1].span.start.column,
                    );
                }
                let ghost d1 = self.found();
                let ret = ty_from_ast(&fd.return_type);
                match &ret {
                    Ty::Tuple(items) => {
                        proof {
                            lemma_tyvs0(items@);
                        }
                        if items.len() == 2 {
                            if !compatible(&items[0], &state_ty) {
                                self.emit(
                                    E_TYPE_004,
                                    owned("`update` first return tuple item must equal state type"),
                                    ret_line,
                                    ret_column,
                                );
                            }
                            let ghost d2 = self.found();
                            if !self.is_list_action(&items[1]) {
                                self.emit(
                                    E_TYPE_004,
                                    owned("`update` second return tuple item must be List<Action>"),
                                    ret_line,
                                    ret_column,
                                );
                            }
                            proof {
                                assert(self.found() =~= d1 + (d2.subrange(d1.len() as int, d2.len() as int) + self.found().subrange(
                                    d2.len() as int,
                                    self.found().len() as int,
                                )));
                            }
                        } else {
                            self.emit(
                                E_TYPE_004,
                                owned("`update` return type must be (State, List<Action>)"),
                                ret_line,
                                ret_column,
                            );
                        }
                    },
                    _ => {
                        self.emit(
                            E_TYPE_004,
                            owned("`update` return type must be (State, List<Action>)"),
                            ret_line,
                            ret_column,
                        );
                    },
                }
                proof {
                    assert(self.found() =~= d0 + (d1.subrange(d0.len() as int, d1.len() as int) + self.found().subrange(
                        d1.len() as int,
                        self.found().len() as int,
                    )));
                }
            },
            FnKind::Query => {
                if fd.params.len() != 2 {
                    self.emit(
                        E_TYPE_004,
                        owned("`query` must take exactly 2 parameters"),
                        fd.span.start.line,
                        fd.span.start.column,
                    );
                    return;
                }
                let q_ty = ty_from_ast(&fd.params[1].type_expr);
                if !self.is_query_type(&q_ty) {
                    self.emit(
                        E_TYPE_004,
                        owned("`query` second parameter must be a `query` type"),
                        fd.params[1].span.start.line,
                        fd.params[1].span.start.column,
                    );
                }
                let ghost d1 = self.found();
                let ret = ty_from_ast(&fd.return_type);
                if !self.is_result(&ret) {
                    self.emit(E_TYPE_004, owned("`query` return type must be Result<R, E>"), ret_line, ret_column);
                }
                proof {
                    assert(self.found() =~= d0 + (d1.subrange(d0.len() as int, d1.len() as int) + self.found().subrange(
                        d1.len() as int,
                        self.found().len() as int,
                    )));
                }
            },
        }
    }

    /// A function: its signature, its body under its parameters, its body's type against the
    /// declared return type.
    fn check_fn(&mut self, fd: &FnDecl)
        ensures
            final(self).same_tables(old(self)),
            final(self).found() == old(self).found() + check_fn(*fd, old(self).tables()),
    {
        let ghost d0 = self.found();
        self.check_fn_signature(fd);
        let ghost d1 = self.found();
        let mut env: Vec<(String, Ty)> = Vec::new();
        let mut k: usize = 0;
        while k < fd.params.len()
            invariant
                k <= fd.params.len(),
                env.len() == k,
                forall|j: int|
                    0 <= j < k ==> (#[trigger] env@[j]).0@ == fd.params@[j].name@ && tyv(env@[j].1) == ty_of(
                        fd.params@[j].type_expr,
                    ),
            decreases fd.params.len() - k,
        {
            env.push((fd.params[k].name.clone(), ty_from_ast(&fd.params[k].type_expr)));
            k += 1;
        }
        assert(fields_v(env@) =~= param_env(*fd));
        let body_ty = self.check_block(&fd.body, &env, fd.kind);
        let ghost d2 = self.found();
        let declared = ty_from_ast(&fd.return_type);
        if !compatible(&body_ty, &declared) {
            let a = named("function ", fd.name.as_str(), " returns ");
            let b = concat_str(concat_str(a, body_ty.render().as_str()), " but declared ");
            self.emit(
                E_TYPE_001,
                concat_str(b, declared.render().as_str()),
                fd.return_type.span.start.line,
                fd.return_type.span.start.column,
            );
        }
        proof {
            let sf = d1.subrange(d0.len() as int, d1.len() as int);
            let bf = d2.subrange(d1.len() as int, d2.len() as int);
            let tf = self.found().subrange(d2.len() as int, self.found().len() as int);
            assert(d1 =~= d0 + sf);
            assert(d2 =~= d1 + bf);
            assert(self.found() =~= d2 + tf);
            assert(self.found() =~= d0 + (sf + bf + tf));
        }
    }

    /// The functions among `decls[i..]`.
    fn check_decls(&mut self, decls: &Vec<TopDecl>, i: usize)
        requires
            i <= decls.len(),
        ensures
            final(self).same_tables(old(self)),
            final(self).found() == old(self).found() + check_decls(decls@, i as int, old(self).tables()),
        decreases decls.len() - i,
    {
        let ghost tb = self.tables();
        let ghost d0 = self.found();
        if i >= decls.len() {
            assert(self.found() =~= d0 + seq![]);
            return;
        }
        match &decls[i] {
            TopDecl::Function(fd) => {
                self.check_fn(fd);
                self.check_decls(decls, i + 1);
                proof {
                    assert(self.found() =~= d0 + (check_fn(*fd, tb) + check_decls(decls@, i + 1, tb)));
                }
            },
            TopDecl::Type(_) => {
                self.check_decls(decls, i + 1);
            },
        }
    }

    fn check_program(&mut self, program: &Program)
        ensures
            final(self).same_tables(old(self)),
            final(self).found() == old(self).found() + check_decls(program.decls@, 0, old(self).tables()),
    {
        self.check_decls(&program.decls, 0);
    }
}

/// Runs the static checks on a program: its declarations are collected first, then each
/// function is checked in order.
pub fn analyze(program: &Program) -> (r: Analysis)
    ensures
        findings(r.diagnostics@) == analysis(program.decls@),
{
    let mut checker = Checker::new();
    checker.collect_decls(program);
    checker.check_program(program);
    assert(checker.found() =~= analysis(program.decls@));
    Analysis { diagnostics: checker.diagnostics }
}

} // verus!
