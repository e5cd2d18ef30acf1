use vstd::prelude::*;
use crate::ir::types::{
    findings, Diagnostic, IrExpr, IrExprKind, IrFunction, IrMatchArm, IrParam, IrPattern, IrPatternField,
    IrPatternKind, IrProgram, IrRecordField, IrType, LoweringResult, SourceLoc,
};
use crate::ir::validate::{check_program, validate_program};
use crate::sema::model::analysis;
use crate::sema::program::analyze;
use crate::ir::view::{
    arm_v, arms_v, expr_v, exprs_v, function_v, ir_ty, ir_tys, lemma_arms0, lemma_exprs0, lemma_ir_tys0,
    lemma_pfields0, lemma_rfields0, param_v, pat_v, pfield_v, pfields_v, rfields_v, ExprV,
};
use crate::ir::lowering::{
    arg_findings, loc_of, lower_arm, lower_arms, lower_block, lower_decls, lower_expr, lower_fields,
    lower_function, lower_items, lower_match, lower_param, lower_pattern, lower_pfields, lower_stmts,
    types_of, wrap_lets, LetV, E_IR_001, E_IR_002, E_IR_003, E_IR_004, fn_decls, lemma_lower_decls_keeps_functions,
};
use crate::sema::infer::contains_name;
use crate::sema::checker::{
    copy_strings, find_first, find_last, lemma_first_entry, lemma_first_entry_none, lemma_last_entry,
    lemma_last_entry_none,
};
use crate::sema::model::{
    compat, compat_from, field_types, is_generic_param, param_env, record_target, first_entry, fn_entries, fn_info, last_entry, owner_entries,
    tables, ty_list, ty_of, type_entries, type_info, variant_owners, variant_types, DeclKind, Fields,
    Finding, FnInfoV, Tables, TyV, TypeInfoV,
};
use crate::syntax::ast::{
    BlockExpr, Expr, ExprKind, FieldDecl, FnDecl, FnKind, MatchArm, MatchExpr, Param, Pattern, PatternField,
    PatternKind, Program, RecordField, Stmt, TopDecl, TypeDeclKind, TypeExpr, TypeExprKind, VariantDecl};
use crate::syntax::span::Span;
use crate::text::{concat_str, decimal, named, owned};

verus! {

// ---------------------------------------------------------------------------
// Types
// ---------------------------------------------------------------------------

proof fn lemma_ty_list(ts: Seq<TypeExpr>, i: int)
    requires
        0 <= i <= ts.len(),
    ensures
        ty_list(ts, i) == Seq::new((ts.len() - i) as nat, |k: int| ty_of(ts[i + k])),
    decreases ts.len() - i,
{
    if i < ts.len() {
        lemma_ty_list(ts, i + 1);
    }
    assert(ty_list(ts, i) =~= Seq::new((ts.len() - i) as nat, |k: int| ty_of(ts[i + k])));
}

/// The IR type a type expression denotes.
fn ty_from_ast(t: &TypeExpr) -> (r: IrType)
    ensures
        ir_ty(r) == ty_of(*t),
    decreases t, 0int,
{
    match &t.kind {
        TypeExprKind::Tuple { items } => {
            let out = ty_from_ast_list(items, 0);
            proof {
                lemma_ir_tys0(out@);
                lemma_ty_list(items@, 0);
                assert(ir_tys(out@, 0) =~= ty_list(items@, 0));
            }
            IrType::Tuple(out)
        },
        TypeExprKind::Named { name, generics } => {
            if generics.len() == 0 {
                if *name == owned("Int") {
                    IrType::Int
                } else if *name == owned("Bool") {
                    IrType::Bool
                } else if *name == owned("Decimal") {
                    IrType::Decimal
                } else if *name == owned("String") {
                    IrType::String
                } else {
                    let args: Vec<IrType> = Vec::new();
                    assert(ir_tys(args@, 0) =~= seq![]);
                    IrType::Named { name: name.clone(), args }
                }
            } else {
                let out = ty_from_ast_list(generics, 0);
                proof {
                    lemma_ir_tys0(out@);
                    lemma_ty_list(generics@, 0);
                    assert(ir_tys(out@, 0) =~= ty_list(generics@, 0));
                }
                IrType::Named { name: name.clone(), args: out }
            }
        },
    }
}

fn ty_from_ast_list(ts: &Vec<TypeExpr>, i: usize) -> (r: Vec<IrType>)
    requires
        i <= ts.len(),
    ensures
        r.len() == ts.len() - i,
        forall|k: int| 0 <= k < r.len() ==> #[trigger] ir_ty(r@[k]) == ty_of(ts@[i + k]),
    decreases ts@, ts.len() - i,
{
    if i >= ts.len() {
        return Vec::new();
    }
    proof {
        assert(decreases_to!(ts@ => ts@[i as int]));
    }
    let first = ty_from_ast(&ts[i]);
    let mut rest = ty_from_ast_list(ts, i + 1);
    let mut out: Vec<IrType> = Vec::new();
    out.push(first);
    out.append(&mut rest);
    out
}

/// Whether `a` and `b` are compatible types.
fn ty_compatible(a: &IrType, b: &IrType) -> (r: bool)
    ensures
        r == compat(ir_ty(*a), ir_ty(*b)),
    decreases a, 0int,
{
    if matches!(a, IrType::Unknown) || matches!(b, IrType::Unknown) {
        return true;
    }
    match (a, b) {
        (IrType::Int, IrType::Int) => true,
        (IrType::Bool, IrType::Bool) => true,
        (IrType::Decimal, IrType::Decimal) => true,
        (IrType::String, IrType::String) => true,
        (IrType::Named { name: na, args: aa }, IrType::Named { name: nb, args: ab }) => {
            proof {
                lemma_ir_tys0(aa@);
                lemma_ir_tys0(ab@);
            }
            *na == *nb && aa.len() == ab.len() && ty_compatible_from(aa, ab, 0)
        },
        (IrType::Tuple(la), IrType::Tuple(lb)) => {
            proof {
                lemma_ir_tys0(la@);
                lemma_ir_tys0(lb@);
            }
            la.len() == lb.len() && ty_compatible_from(la, lb, 0)
        },
        _ => false,
    }
}

fn ty_compatible_from(xs: &Vec<IrType>, ys: &Vec<IrType>, i: usize) -> (r: bool)
    requires
        i <= xs.len(),
    ensures
        r == compat_from(ir_tys(xs@, 0), ir_tys(ys@, 0), i as int),
    decreases xs@, xs.len() - i,
{
    proof {
        lemma_ir_tys0(xs@);
        lemma_ir_tys0(ys@);
    }
    if i < xs.len() && i < ys.len() {
        proof {
            assert(decreases_to!(xs@ => xs@[i as int]));
        }
        if !ty_compatible(&xs[i], &ys[i]) {
            return false;
        }
        ty_compatible_from(xs, ys, i + 1)
    } else {
        true
    }
}

// ---------------------------------------------------------------------------
// Tables
// ---------------------------------------------------------------------------

struct TypeInfo {
    kind: DeclKind,
    generics: Vec<String>,
    fields: Vec<(String, IrType)>,
    variants: Vec<(String, Vec<(String, IrType)>)>,
}

struct FnSig {
    params: Vec<IrType>,
    return_type: IrType,
}

/// Named IR types, by content; also the view of local bindings.
pub(crate) open spec fn ir_fields_v(s: Seq<(String, IrType)>) -> Fields {
    s.map_values(|p: (String, IrType)| (p.0@, ir_ty(p.1)))
}

spec fn info_v(i: TypeInfo) -> TypeInfoV {
    TypeInfoV {
        kind: i.kind,
        generics: i.generics@.map_values(|g: String| g@),
        fields: ir_fields_v(i.fields@),
        variants: i.variants@.map_values(|v: (String, Vec<(String, IrType)>)| (v.0@, ir_fields_v(v.1@))),
    }
}

spec fn sig_v(f: FnSig, kind: FnKind) -> FnInfoV {
    FnInfoV { kind, params: ir_tys(f.params@, 0), return_ty: ir_ty(f.return_type) }
}

spec fn types_v(t: Seq<(String, TypeInfo)>) -> Seq<(Seq<char>, TypeInfoV)> {
    t.map_values(|e: (String, TypeInfo)| (e.0@, info_v(e.1)))
}

spec fn fns_v(t: Seq<(String, FnKind, FnSig)>) -> Seq<(Seq<char>, FnInfoV)> {
    t.map_values(|e: (String, FnKind, FnSig)| (e.0@, sig_v(e.2, e.1)))
}

spec fn owners_v(t: Seq<(String, String)>) -> Seq<(Seq<char>, Seq<char>)> {
    t.map_values(|e: (String, String)| (e.0@, e.1@))
}

/// Deep copies of named IR types.
fn copy_ir_fields(v: &Vec<(String, IrType)>) -> (r: Vec<(String, IrType)>)
    ensures
        ir_fields_v(r@) == ir_fields_v(v@),
{
    let mut out: Vec<(String, IrType)> = Vec::new();
    let mut i: usize = 0;
    while i < v.len()
        invariant
            i <= v.len(),
            out.len() == i,
            forall|k: int| 0 <= k < i ==> (#[trigger] out@[k]).0@ == v@[k].0@ && ir_ty(out@[k].1) == ir_ty(v@[k].1),
        decreases v.len() - i,
    {
        out.push((v[i].0.clone(), v[i].1.copy()));
        i += 1;
    }
    assert(ir_fields_v(out@) =~= ir_fields_v(v@));
    out
}

/// Deep copies of IR types.
fn copy_ir_tys(v: &Vec<IrType>) -> (r: Vec<IrType>)
    ensures
        ir_tys(r@, 0) == ir_tys(v@, 0),
{
    let mut out: Vec<IrType> = Vec::new();
    let mut i: usize = 0;
    while i < v.len()
        invariant
            i <= v.len(),
            out.len() == i,
            forall|k: int| 0 <= k < i ==> #[trigger] ir_ty(out@[k]) == ir_ty(v@[k]),
        decreases v.len() - i,
    {
        out.push(v[i].copy());
        i += 1;
    }
    proof {
        lemma_ir_tys0(out@);
        lemma_ir_tys0(v@);
        assert(ir_tys(out@, 0) =~= ir_tys(v@, 0));
    }
    out
}

/// The type bound last to `name`.
fn lookup_ir_ty<'a>(es: &'a Vec<(String, IrType)>, name: &String) -> (r: Option<&'a IrType>)
    ensures
        match r {
            Some(t) => last_entry(ir_fields_v(es@), name@) == Some(ir_ty(*t)),
            None => last_entry(ir_fields_v(es@), name@) is None,
        },
{
    let ghost v = ir_fields_v(es@);
    match find_last(es, name) {
        Some(i) => {
            proof {
                assert forall|j: int| i < j < v.len() implies (#[trigger] v[j]).0 != name@ by {
                    assert(v[j].0 == es@[j].0@);
                }
                lemma_last_entry(v, name@, i as int);
            }
            Some(&es[i].1)
        },
        None => {
            proof {
                assert forall|j: int| 0 <= j < v.len() implies (#[trigger] v[j]).0 != name@ by {
                    assert(v[j].0 == es@[j].0@);
                }
                lemma_last_entry_none(v, name@);
            }
            None
        },
    }
}

/// The type of the first field named `name`.
fn first_ir_ty<'a>(es: &'a Vec<(String, IrType)>, name: &String) -> (r: Option<&'a IrType>)
    ensures
        match r {
            Some(t) => first_entry(ir_fields_v(es@), name@) == Some(ir_ty(*t)),
            None => first_entry(ir_fields_v(es@), name@) is None,
        },
{
    let ghost v = ir_fields_v(es@);
    match find_first(es, name) {
        Some(i) => {
            proof {
                assert forall|j: int| 0 <= j < i implies (#[trigger] v[j]).0 != name@ by {
                    assert(v[j].0 == es@[j].0@);
                }
                lemma_first_entry(v, name@, i as int);
            }
            Some(&es[i].1)
        },
        None => {
            proof {
                assert forall|j: int| 0 <= j < v.len() implies (#[trigger] v[j]).0 != name@ by {
                    assert(v[j].0 == es@[j].0@);
                }
                lemma_first_entry_none(v, name@);
            }
            None
        },
    }
}

/// The payload of the variant `name` of a type.
fn lookup_variant<'a>(info: &'a TypeInfo, name: &String) -> (r: Option<&'a Vec<(String, IrType)>>)
    ensures
        match r {
            Some(p) => last_entry(info_v(*info).variants, name@) == Some(ir_fields_v(p@)),
            None => last_entry(info_v(*info).variants, name@) is None,
        },
{
    let ghost v = info_v(*info).variants;
    match find_last(&info.variants, name) {
        Some(i) => {
            proof {
                assert forall|j: int| i < j < v.len() implies (#[trigger] v[j]).0 != name@ by {
                    assert(v[j].0 == info.variants@[j].0@);
                }
                lemma_last_entry(v, name@, i as int);
            }
            Some(&info.variants[i].1)
        },
        None => {
            proof {
                assert forall|j: int| 0 <= j < v.len() implies (#[trigger] v[j]).0 != name@ by {
                    assert(v[j].0 == info.variants@[j].0@);
                }
                lemma_last_entry_none(v, name@);
            }
            None
        },
    }
}

/// The lowering pass: the declaration tables and the diagnostics reported so far.
struct Lowerer {
    diagnostics: Vec<Diagnostic>,
    fn_table: Vec<(String, FnKind, FnSig)>,
    type_table: Vec<(String, TypeInfo)>,
    variant_to_type: Vec<(String, String)>,
}

impl Lowerer {
    spec fn found(&self) -> Seq<Finding> {
        findings(self.diagnostics@)
    }

    spec fn tables(&self) -> Tables {
        Tables { types: types_v(self.type_table@), fns: fns_v(self.fn_table@), owners: owners_v(self.variant_to_type@) }
    }

    spec fn same_tables(&self, o: &Lowerer) -> bool {
        &&& self.fn_table == o.fn_table
        &&& self.type_table == o.type_table
        &&& self.variant_to_type == o.variant_to_type
    }

    fn new() -> (l: Self)
        ensures
            l.found() == Seq::<Finding>::empty(),
            l.fn_table@.len() == 0,
            l.type_table@.len() == 0,
            l.variant_to_type@.len() == 0,
    {
        let l = Lowerer { diagnostics: Vec::new(), fn_table: Vec::new(), type_table: Vec::new(), variant_to_type: Vec::new() };
        assert(l.found() =~= Seq::<Finding>::empty());
        l
    }

    fn emit(&mut self, code: &'static str, message: String, span: Span)
        ensures
            final(self).same_tables(old(self)),
            final(self).found() == old(self).found().push(
                Finding { code, message: message@, line: span.start.line, column: span.start.column },
            ),
    {
        let ghost before = self.diagnostics@;
        let ghost m = message@;
        self.diagnostics.push(Diagnostic { code, message, line: span.start.line, column: span.start.column });
        proof {
            assert(findings(self.diagnostics@) =~= findings(before).push(
                Finding { code, message: m, line: span.start.line, column: span.start.column },
            ));
        }
    }

    fn lookup_type(&self, name: &String) -> (r: Option<&TypeInfo>)
        ensures
            match r {
                Some(i) => last_entry(self.tables().types, name@) == Some(info_v(*i)),
                None => last_entry(self.tables().types, name@) is None,
            },
    {
        let ghost v = self.tables().types;
        match find_last(&self.type_table, name) {
            Some(i) => {
                proof {
                    assert forall|j: int| i < j < v.len() implies (#[trigger] v[j]).0 != name@ by {
                        assert(v[j].0 == self.type_table@[j].0@);
                    }
                    lemma_last_entry(v, name@, i as int);
                }
                Some(&self.type_table[i].1)
            },
            None => {
                proof {
                    assert forall|j: int| 0 <= j < v.len() implies (#[trigger] v[j]).0 != name@ by {
                        assert(v[j].0 == self.type_table@[j].0@);
                    }
                    lemma_last_entry_none(v, name@);
                }
                None
            },
        }
    }

    fn lookup_fn(&self, name: &String) -> (r: Option<(FnKind, &FnSig)>)
        ensures
            match r {
                Some((k, s)) => last_entry(self.tables().fns, name@) == Some(sig_v(*s, k)),
                None => last_entry(self.tables().fns, name@) is None,
            },
    {
        let ghost v = self.tables().fns;
        let mut i = self.fn_table.len();
        while i > 0
            invariant
                i <= self.fn_table.len(),
                v == self.tables().fns,
                forall|j: int| i <= j < self.fn_table.len() ==> (#[trigger] self.fn_table@[j]).0@ != name@,
            decreases i,
        {
            if self.fn_table[i - 1].0 == *name {
                proof {
                    assert forall|j: int| i - 1 < j < v.len() implies (#[trigger] v[j]).0 != name@ by {
                        assert(v[j].0 == self.fn_table@[j].0@);
                    }
                    lemma_last_entry(v, name@, i - 1);
                }
                return Some((self.fn_table[i - 1].1, &self.fn_table[i - 1].2));
            }
            i = i - 1;
        }
        proof {
            assert forall|j: int| 0 <= j < v.len() implies (#[trigger] v[j]).0 != name@ by {
                assert(v[j].0 == self.fn_table@[j].0@);
            }
            lemma_last_entry_none(v, name@);
        }
        None
    }

    fn lookup_owner(&self, name: &String) -> (r: Option<&String>)
        ensures
            match r {
                Some(o) => last_entry(self.tables().owners, name@) == Some(o@),
                None => last_entry(self.tables().owners, name@) is None,
            },
    {
        let ghost v = self.tables().owners;
        match find_last(&self.variant_to_type, name) {
            Some(i) => {
                proof {
                    assert forall|j: int| i < j < v.len() implies (#[trigger] v[j]).0 != name@ by {
                        assert(v[j].0 == self.variant_to_type@[j].0@);
                    }
                    lemma_last_entry(v, name@, i as int);
                }
                Some(&self.variant_to_type[i].1)
            },
            None => {
                proof {
                    assert forall|j: int| 0 <= j < v.len() implies (#[trigger] v[j]).0 != name@ by {
                        assert(v[j].0 == self.variant_to_type@[j].0@);
                    }
                    lemma_last_entry_none(v, name@);
                }
                None
            },
        }
    }

    fn collect_fields(&self, fields: &Vec<FieldDecl>) -> (r: Vec<(String, IrType)>)
        ensures
            ir_fields_v(r@) == field_types(fields@),
    {
        let mut out: Vec<(String, IrType)> = Vec::new();
        let mut i: usize = 0;
        while i < fields.len()
            invariant
                i <= fields.len(),
                out.len() == i,
                forall|k: int|
                    0 <= k < i ==> (#[trigger] out@[k]).0@ == fields@[k].name@ && ir_ty(out@[k].1) == ty_of(
                        fields@[k].type_expr,
                    ),
            decreases fields.len() - i,
        {
            let f = &fields[i];
            out.push((f.name.clone(), ty_from_ast(&f.type_expr)));
            i += 1;
        }
        assert(ir_fields_v(out@) =~= field_types(fields@));
        out
    }

    fn collect_variants(&mut self, variants: &Vec<VariantDecl>, owner_name: &String) -> (r: Vec<(String, Vec<(String, IrType)>)>)
        ensures
            r@.map_values(|v: (String, Vec<(String, IrType)>)| (v.0@, ir_fields_v(v.1@))) == variant_types(variants@),
            owners_v(final(self).variant_to_type@) == owners_v(old(self).variant_to_type@) + variants@.map_values(
                |x: VariantDecl| (x.name@, owner_name@),
            ),
            final(self).diagnostics == old(self).diagnostics,
            final(self).fn_table == old(self).fn_table,
            final(self).type_table == old(self).type_table,
    {
        let ghost vt0 = self.variant_to_type@;
        let n0 = self.variant_to_type.len();
        let mut out: Vec<(String, Vec<(String, IrType)>)> = Vec::new();
        let mut i: usize = 0;
        while i < variants.len()
            invariant
                i <= variants.len(),
                n0 == vt0.len(),
                out.len() == i,
                forall|k: int|
                    0 <= k < i ==> (#[trigger] out@[k]).0@ == variants@[k].name@ && ir_fields_v(out@[k].1@)
                        == field_types(variants@[k].payload@),
                self.variant_to_type@.len() == n0 + i,
                forall|k: int| 0 <= k < n0 ==> #[trigger] self.variant_to_type@[k] == vt0[k],
                forall|k: int|
                    0 <= k < i ==> (#[trigger] self.variant_to_type@[n0 + k]).0@ == variants@[k].name@
                        && self.variant_to_type@[n0 + k].1@ == owner_name@,
                self.diagnostics == old(self).diagnostics,
                self.fn_table == old(self).fn_table,
                self.type_table == old(self).type_table,
            decreases variants.len() - i,
        {
            let v = &variants[i];
            let payload = self.collect_fields(&v.payload);
            self.variant_to_type.push((v.name.clone(), owner_name.clone()));
            out.push((v.name.clone(), payload));
            proof {
                assert(self.variant_to_type@[n0 + i as int].0@ == variants@[i as int].name@);
            }
            i += 1;
        }
        assert(out@.map_values(|v: (String, Vec<(String, IrType)>)| (v.0@, ir_fields_v(v.1@))) =~= variant_types(
            variants@,
        ));
        assert(owners_v(self.variant_to_type@) =~= owners_v(vt0) + variants@.map_values(
            |x: VariantDecl| (x.name@, owner_name@),
        )) by {
            assert forall|k: int| 0 <= k < self.variant_to_type@.len() implies #[trigger] owners_v(
                self.variant_to_type@,
            )[k] == (owners_v(vt0) + variants@.map_values(|x: VariantDecl| (x.name@, owner_name@)))[k] by {
                if k >= n0 {
                    assert(self.variant_to_type@[n0 + (k - n0)] == self.variant_to_type@[k]);
                }
            }
        }
        out
    }

    /// Records every declaration of the program in the tables, in order.
    fn collect_decls(&mut self, program: &Program)
        requires
            old(self).fn_table@.len() == 0,
            old(self).type_table@.len() == 0,
            old(self).variant_to_type@.len() == 0,
        ensures
            final(self).tables() == tables(program.decls@),
            final(self).diagnostics == old(self).diagnostics,
    {
        let decls = &program.decls;
        let mut i: usize = 0;
        assert(decls@.take(0) =~= Seq::<TopDecl>::empty());
        assert(types_v(self.type_table@) =~= type_entries(decls@.take(0)));
        assert(fns_v(self.fn_table@) =~= fn_entries(decls@.take(0)));
        assert(owners_v(self.variant_to_type@) =~= owner_entries(decls@.take(0)));
        while i < decls.len()
            invariant
                i <= decls.len(),
                types_v(self.type_table@) == type_entries(decls@.take(i as int)),
                fns_v(self.fn_table@) == fn_entries(decls@.take(i as int)),
                owners_v(self.variant_to_type@) == owner_entries(decls@.take(i as int)),
                self.diagnostics == old(self).diagnostics,
            decreases decls.len() - i,
        {
            let ghost prefix = decls@.take(i + 1);
            proof {
                assert(prefix.drop_last() =~= decls@.take(i as int));
                assert(prefix.last() == decls@[i as int]);
            }
            match &decls[i] {
                TopDecl::Function(fd) => {
                    let ghost fns0 = fns_v(self.fn_table@);
                    let mut params: Vec<IrType> = Vec::new();
                    let mut k: usize = 0;
                    while k < fd.params.len()
                        invariant
                            k <= fd.params.len(),
                            params.len() == k,
                            forall|j: int| 0 <= j < k ==> #[trigger] ir_ty(params@[j]) == ty_of(fd.params@[j].type_expr),
                        decreases fd.params.len() - k,
                    {
                        params.push(ty_from_ast(&fd.params[k].type_expr));
                        k += 1;
                    }
                    let return_type = ty_from_ast(&fd.return_type);
                    let sig = FnSig { params, return_type };
                    proof {
                        lemma_ir_tys0(sig.params@);
                        assert(sig_v(sig, fd.kind).params =~= fn_info(*fd).params);
                    }
                    self.fn_table.push((fd.name.clone(), fd.kind, sig));
                    proof {
                        assert(fns_v(self.fn_table@) =~= fns0 + seq![(fd.name@, fn_info(*fd))]);
                    }
                },
                TopDecl::Type(td) => {
                    let ghost owners0 = owners_v(self.variant_to_type@);
                    let ghost types0 = types_v(self.type_table@);
                    let generics = copy_strings(&td.generics);
                    let (kind, fields, variants) = match &td.kind {
                        TypeDeclKind::State(r) => (DeclKind::State, self.collect_fields(&r.fields), Vec::new()),
                        TypeDeclKind::Record(r) => (DeclKind::Record, self.collect_fields(&r.fields), Vec::new()),
                        TypeDeclKind::Event(v) => (DeclKind::Event, Vec::new(), self.collect_variants(&v.variants, &td.name)),
                        TypeDeclKind::Query(v) => (DeclKind::Query, Vec::new(), self.collect_variants(&v.variants, &td.name)),
                        TypeDeclKind::Enum(v) => (DeclKind::Enum, Vec::new(), self.collect_variants(&v.variants, &td.name)),
                    };
                    let info = TypeInfo { kind, generics, fields, variants };
                    proof {
                        assert(info_v(info).generics =~= type_info(*td).generics);
                        assert(info_v(info).fields =~= type_info(*td).fields);
                        assert(info_v(info).variants =~= type_info(*td).variants);
                        assert(owners_v(self.variant_to_type@) =~= owners0 + variant_owners(*td));
                    }
                    self.type_table.push((td.name.clone(), info));
                    proof {
                        assert(types_v(self.type_table@) =~= types0 + seq![(td.name@, type_info(*td))]);
                    }
                },
            }
            proof {
                assert(types_v(self.type_table@) =~= type_entries(prefix));
                assert(fns_v(self.fn_table@) =~= fn_entries(prefix));
                assert(owners_v(self.variant_to_type@) =~= owner_entries(prefix));
            }
            i += 1;
        }
        assert(decls@.take(decls.len() as int) =~= decls@);
    }
}


// ---------------------------------------------------------------------------
// Lowering
// ---------------------------------------------------------------------------

spec fn opt_expr(r: Option<IrExpr>) -> Option<ExprV> {
    match r {
        Some(e) => Some(expr_v(e)),
        None => None,
    }
}

spec fn opt_ir_ty(t: Option<IrType>) -> Option<TyV> {
    match t {
        Some(x) => Some(ir_ty(x)),
        None => None,
    }
}

spec fn lets_v(s: Seq<(String, IrExpr, SourceLoc)>) -> Seq<LetV> {
    s.map_values(|l: (String, IrExpr, SourceLoc)| (l.0@, expr_v(l.1), l.2))
}

proof fn lemma_assoc(a: Seq<Finding>, b: Seq<Finding>, c: Seq<Finding>)
    ensures
        (a + b) + c == a + (b + c),
{
    assert((a + b) + c =~= a + (b + c));
}

proof fn lemma_env_push(v: Seq<(String, IrType)>, x: (String, IrType))
    ensures
        ir_fields_v(v.push(x)) == ir_fields_v(v).push((x.0@, ir_ty(x.1))),
{
    assert(ir_fields_v(v.push(x)) =~= ir_fields_v(v).push((x.0@, ir_ty(x.1))));
}

/// The location where a span starts.
fn loc(span: Span) -> (r: SourceLoc)
    ensures
        r == loc_of(span),
{
    SourceLoc { line: span.start.line, column: span.start.column }
}

/// `n` unknown types.
fn unknowns(n: usize) -> (r: Vec<IrType>)
    ensures
        ir_tys(r@, 0) == Seq::new(n as nat, |k: int| TyV::Unknown),
{
    let mut args: Vec<IrType> = Vec::new();
    let mut k: usize = 0;
    while k < n
        invariant
            k <= n,
            args.len() == k,
            forall|j: int| 0 <= j < k ==> #[trigger] ir_ty(args@[j]) == TyV::Unknown,
        decreases n - k,
    {
        args.push(IrType::Unknown);
        k += 1;
    }
    proof {
        lemma_ir_tys0(args@);
        assert(ir_tys(args@, 0) =~= Seq::new(n as nat, |k: int| TyV::Unknown));
    }
    args
}

impl Lowerer {
    fn resolve_builtin(&self, name: &String) -> (r: Option<IrType>)
        ensures
            match r {
                Some(t) => (name@ == "true"@ || name@ == "false"@) && ir_ty(t) == TyV::Bool,
                None => !(name@ == "true"@ || name@ == "false"@),
            },
    {
        if *name == owned("true") || *name == owned("false") {
            Some(IrType::Bool)
        } else {
            None
        }
    }

    /// The type a record expression names, the fields it expects, and the type's generic
    /// parameters.
    fn record_target(&self, name: &String) -> (r: Option<(String, Vec<(String, IrType)>, Vec<String>)>)
        ensures
            match (r, record_target(name@, self.tables())) {
                (Some((n, fs, gs)), Some((sn, sfs, sgs))) => n@ == sn && ir_fields_v(fs@) == sfs && gs@.map_values(
                    |g: String| g@,
                ) == sgs,
                (None, None) => true,
                _ => false,
            },
    {
        match self.lookup_type(name) {
            Some(info) => {
                let gs = copy_strings(&info.generics);
                Some((name.clone(), copy_ir_fields(&info.fields), gs))
            },
            None => match self.lookup_owner(name) {
                Some(owner) => match self.lookup_type(owner) {
                    Some(info) => {
                        let expected = match lookup_variant(info, name) {
                            Some(payload) => copy_ir_fields(payload),
                            None => {
                                let v: Vec<(String, IrType)> = Vec::new();
                                assert(ir_fields_v(v@) =~= seq![]);
                                v
                            },
                        };
                        let gs = copy_strings(&info.generics);
                        Some((owner.clone(), expected, gs))
                    },
                    None => {
                        let v: Vec<(String, IrType)> = Vec::new();
                        let g: Vec<String> = Vec::new();
                        assert(ir_fields_v(v@) =~= seq![]);
                        assert(g@.map_values(|s: String| s@) =~= seq![]);
                        Some((owner.clone(), v, g))
                    },
                },
                None => None,
            },
        }
    }

    /// Lowers `expr` under the bindings `env`; `None` when lowering stops, with a diagnostic.
    fn lower_expr(&mut self, expr: &Expr, env: &Vec<(String, IrType)>) -> (r: Option<IrExpr>)
        ensures
            final(self).same_tables(old(self)),
            opt_expr(r) == lower_expr(*expr, ir_fields_v(env@), old(self).tables()).0,
            final(self).found() == old(self).found() + lower_expr(*expr, ir_fields_v(env@), old(self).tables()).1,
        decreases expr, 1int,
    {
        let ghost tb = self.tables();
        let ghost d0 = self.found();
        let ghost e = ir_fields_v(env@);
        let span = loc(expr.span);
        match &expr.kind {
            ExprKind::Ident(name) => {
                let ty = match lookup_ir_ty(env, name) {
                    Some(t) => t.copy(),
                    None => match self.resolve_builtin(name) {
                        Some(t) => t,
                        None => {
                            self.emit(E_IR_002, named("unresolved symbol ", name.as_str(), " during lowering"), expr.span);
                            IrType::Unknown
                        },
                    },
                };
                assert(self.found() =~= d0 + lower_expr(*expr, e, tb).1);
                Some(IrExpr { kind: IrExprKind::LocalRef { name: name.clone() }, ty, span })
            },
            ExprKind::Int(v) => {
                assert(self.found() =~= d0 + seq![]);
                Some(IrExpr { kind: IrExprKind::Int(*v), ty: IrType::Int, span })
            },
            ExprKind::Bool(b) => {
                assert(self.found() =~= d0 + seq![]);
                Some(IrExpr { kind: IrExprKind::Bool(*b), ty: IrType::Bool, span })
            },
            ExprKind::Tuple(items) => {
                let lowered = match self.lower_items(items, 0, env) {
                    Some(v) => v,
                    None => {
                        return None;
                    },
                };
                let mut tys: Vec<IrType> = Vec::new();
                let mut k: usize = 0;
                while k < lowered.len()
                    invariant
                        k <= lowered.len(),
                        tys.len() == k,
                        forall|j: int| 0 <= j < k ==> #[trigger] ir_ty(tys@[j]) == ir_ty(lowered@[j].ty),
                    decreases lowered.len() - k,
                {
                    tys.push(lowered[k].ty.copy());
                    k += 1;
                }
                proof {
                    lemma_ir_tys0(tys@);
                    lemma_exprs0(lowered@);
                    assert(ir_tys(tys@, 0) =~= types_of(exprs_v(lowered@, 0)));
                }
                Some(IrExpr { kind: IrExprKind::Tuple(lowered), ty: IrType::Tuple(tys), span })
            },
            ExprKind::List(items) => {
                let lowered = match self.lower_items(items, 0, env) {
                    Some(v) => v,
                    None => {
                        return None;
                    },
                };
                proof {
                    lemma_exprs0(lowered@);
                }
                let item_ty = if lowered.len() > 0 {
                    lowered[0].ty.copy()
                } else {
                    IrType::Unknown
                };
                let mut args: Vec<IrType> = Vec::new();
                args.push(item_ty);
                proof {
                    lemma_ir_tys0(args@);
                    assert(ir_tys(args@, 0) =~= seq![ir_ty(item_ty)]);
                }
                Some(IrExpr { kind: IrExprKind::List(lowered), ty: IrType::Named { name: owned("List"), args }, span })
            },
            ExprKind::Record { name, fields } => self.lower_record(expr, name, fields, env),
            ExprKind::Binary { lhs, op, rhs } => {
                let l = match self.lower_expr(lhs, env) {
                    Some(x) => x,
                    None => {
                        return None;
                    },
                };
                let r = match self.lower_expr(rhs, env) {
                    Some(x) => x,
                    None => {
                        return None;
                    },
                };
                let ghost d2 = self.found();
                let int_ty = IrType::Int;
                if !ty_compatible(&l.ty, &int_ty) || !ty_compatible(&r.ty, &int_ty) {
                    self.emit(E_IR_003, named("binary operator ", op.name(), " requires Int operands"), expr.span);
                } else {
                    assert(self.found() =~= d2 + seq![]);
                }
                proof {
                    let lf = lower_expr(**lhs, e, tb).1;
                    let rf = lower_expr(**rhs, e, tb).1;
                    let tail = self.found().subrange(d2.len() as int, self.found().len() as int);
                    assert(self.found() =~= d2 + tail);
                    assert(self.found() =~= d0 + (lf + rf + tail));
                }
                Some(IrExpr { kind: IrExprKind::Binary { lhs: Box::new(l), op: *op, rhs: Box::new(r) }, ty: IrType::Int, span })
            },
            ExprKind::Call { callee, args } => self.lower_call(expr, callee, args, env),
            ExprKind::Block(block) => self.lower_block(block, env),
            ExprKind::Match(m) => self.lower_match(m, env),
        }
    }

    fn lower_record(&mut self, expr: &Expr, name: &String, fields: &Vec<RecordField>, env: &Vec<(String, IrType)>) -> (r: Option<IrExpr>)
        requires
            expr.kind matches ExprKind::Record { name: n, fields: fs } && n == name && fs == fields,
        ensures
            final(self).same_tables(old(self)),
            opt_expr(r) == lower_expr(*expr, ir_fields_v(env@), old(self).tables()).0,
            final(self).found() == old(self).found() + lower_expr(*expr, ir_fields_v(env@), old(self).tables()).1,
        decreases expr, 0int,
    {
        let (ty_name, expected, generics) = match self.record_target(name) {
            Some(t) => t,
            None => {
                self.emit(E_IR_002, named("unresolved type or variant ", name.as_str(), " during lowering"), expr.span);
                return None;
            },
        };
        let lowered = match self.lower_fields(fields, 0, env, &expected, &generics) {
            Some(v) => v,
            None => {
                return None;
            },
        };
        let args = unknowns(generics.len());
        Some(
            IrExpr {
                kind: IrExprKind::Record { name: name.clone(), fields: lowered },
                ty: IrType::Named { name: ty_name, args },
                span: loc(expr.span),
            },
        )
    }

    fn lower_call(&mut self, expr: &Expr, callee: &Expr, args: &Vec<Expr>, env: &Vec<(String, IrType)>) -> (r: Option<IrExpr>)
        requires
            expr.kind matches ExprKind::Call { callee: c, args: a } && *c == *callee && a == args,
        ensures
            final(self).same_tables(old(self)),
            opt_expr(r) == lower_expr(*expr, ir_fields_v(env@), old(self).tables()).0,
            final(self).found() == old(self).found() + lower_expr(*expr, ir_fields_v(env@), old(self).tables()).1,
        decreases expr, 0int,
    {
        let ghost d0 = self.found();
        let name = match &callee.kind {
            ExprKind::Ident(n) => n,
            _ => {
                self.emit(E_IR_001, owned("only named function calls are lowerable in MVP"), expr.span);
                return None;
            },
        };
        let lowered = match self.lower_items(args, 0, env) {
            Some(v) => v,
            None => {
                return None;
            },
        };
        let ghost d1 = self.found();
        proof {
            lemma_exprs0(lowered@);
        }
        let sig = match self.lookup_fn(name) {
            Some((_, s)) => Some((copy_ir_tys(&s.params), s.return_type.copy())),
            None => None,
        };
        match sig {
            None => {
                self.emit(E_IR_002, named("unknown function ", name.as_str(), " during lowering"), expr.span);
                Some(IrExpr { kind: IrExprKind::Call { callee: name.clone(), args: lowered }, ty: IrType::Unknown, span: loc(expr.span) })
            },
            Some((params, ret)) => {
                proof {
                    lemma_ir_tys0(params@);
                }
                if lowered.len() != params.len() {
                    let a = concat_str(named("call ", name.as_str(), " expects "), decimal(params.len()).as_str());
                    let m = concat_str(concat_str(a, " arguments, got "), decimal(lowered.len()).as_str());
                    self.emit(E_IR_003, m, expr.span);
                } else {
                    assert(self.found() =~= d1 + seq![]);
                }
                let ghost d2 = self.found();
                self.check_call_args(name, &lowered, 0, &params, expr.span);
                proof {
                    let here = d2.subrange(d1.len() as int, d2.len() as int);
                    let rest = self.found().subrange(d2.len() as int, self.found().len() as int);
                    assert(d2 =~= d1 + here);
                    assert(self.found() =~= d2 + rest);
                    assert(self.found() =~= d0 + (d1.subrange(d0.len() as int, d1.len() as int) + here + rest));
                }
                Some(IrExpr { kind: IrExprKind::Call { callee: name.clone(), args: lowered }, ty: ret, span: loc(expr.span) })
            },
        }
    }

    /// The checks of a call's lowered arguments `args[i..]` against the callee's parameters.
    fn check_call_args(&mut self, callee: &String, args: &Vec<IrExpr>, i: usize, params: &Vec<IrType>, span: Span)
        requires
            i <= args.len(),
        ensures
            final(self).same_tables(old(self)),
            final(self).found() == old(self).found() + arg_findings(callee@, exprs_v(args@, 0), i as int, ir_tys(params@, 0), span.start),
        decreases args.len() - i,
    {
        let ghost d0 = self.found();
        proof {
            lemma_exprs0(args@);
            lemma_ir_tys0(params@);
        }
        if i >= args.len() {
            assert(self.found() =~= d0 + seq![]);
            return;
        }
        if i < params.len() && !ty_compatible(&args[i].ty, &params[i]) {
            let a = concat_str(concat_str(named("call ", callee.as_str(), " argument "), decimal(i + 1).as_str()), " expected ");
            let b = concat_str(concat_str(a, params[i].render().as_str()), ", got ");
            self.emit(E_IR_003, concat_str(b, args[i].ty.render().as_str()), span);
        } else {
            assert(self.found() =~= d0 + seq![]);
        }
        let ghost d1 = self.found();
        self.check_call_args(callee, args, i + 1, params, span);
        proof {
            let here = d1.subrange(d0.len() as int, d1.len() as int);
            assert(d1 =~= d0 + here);
            lemma_assoc(d0, here, arg_findings(callee@, exprs_v(args@, 0), i + 1, ir_tys(params@, 0), span.start));
        }
    }

    /// Lowers `items[i..]` left to right, stopping at the first that does not lower.
    fn lower_items(&mut self, items: &Vec<Expr>, i: usize, env: &Vec<(String, IrType)>) -> (r: Option<Vec<IrExpr>>)
        requires
            i <= items.len(),
        ensures
            final(self).same_tables(old(self)),
            match (r, lower_items(items@, i as int, ir_fields_v(env@), old(self).tables()).0) {
                (Some(v), Some(sv)) => exprs_v(v@, 0) == sv,
                (None, None) => true,
                _ => false,
            },
            final(self).found() == old(self).found() + lower_items(items@, i as int, ir_fields_v(env@), old(self).tables()).1,
        decreases items@, items.len() - i,
    {
        let ghost tb = self.tables();
        let ghost d0 = self.found();
        let ghost e = ir_fields_v(env@);
        if i >= items.len() {
            assert(self.found() =~= d0 + seq![]);
            let v: Vec<IrExpr> = Vec::new();
            assert(exprs_v(v@, 0) =~= seq![]);
            return Some(v);
        }
        proof {
            assert(decreases_to!(items@ => items@[i as int]));
        }
        let first = match self.lower_expr(&items[i], env) {
            Some(x) => x,
            None => {
                return None;
            },
        };
        let rest = self.lower_items(items, i + 1, env);
        proof {
            lemma_assoc(d0, lower_expr(items@[i as int], e, tb).1, lower_items(items@, i + 1, e, tb).1);
        }
        match rest {
            Some(mut rest) => {
                let mut out: Vec<IrExpr> = Vec::new();
                out.push(first);
                let ghost rv = rest@;
                out.append(&mut rest);
                proof {
                    lemma_exprs0(out@);
                    lemma_exprs0(rv);
                    assert(exprs_v(out@, 0) =~= seq![expr_v(first)] + exprs_v(rv, 0));
                }
                Some(out)
            },
            None => None,
        }
    }

    /// Lowers the fields `fields[i..]` of a record expression expecting `expected`.
    fn lower_fields(
        &mut self,
        fields: &Vec<RecordField>,
        i: usize,
        env: &Vec<(String, IrType)>,
        expected: &Vec<(String, IrType)>,
        generics: &Vec<String>,
    ) -> (r: Option<Vec<IrRecordField>>)
        requires
            i <= fields.len(),
        ensures
            final(self).same_tables(old(self)),
            match (r, lower_fields(fields@, i as int, ir_fields_v(env@), old(self).tables(), ir_fields_v(expected@), generics@.map_values(|g: String| g@)).0) {
                (Some(v), Some(sv)) => rfields_v(v@, 0) == sv,
                (None, None) => true,
                _ => false,
            },
            final(self).found() == old(self).found() + lower_fields(fields@, i as int, ir_fields_v(env@), old(self).tables(), ir_fields_v(expected@), generics@.map_values(|g: String| g@)).1,
        decreases fields@, fields.len() - i,
    {
        let ghost tb = self.tables();
        let ghost d0 = self.found();
        let ghost e = ir_fields_v(env@);
        let ghost gs = generics@.map_values(|g: String| g@);
        if i >= fields.len() {
            assert(self.found() =~= d0 + seq![]);
            let v: Vec<IrRecordField> = Vec::new();
            assert(rfields_v(v@, 0) =~= seq![]);
            return Some(v);
        }
        proof {
            assert(decreases_to!(fields@ => fields@[i as int].value));
        }
        let f = &fields[i];
        let value = match self.lower_expr(&f.value, env) {
            Some(x) => x,
            None => {
                return None;
            },
        };
        let ghost d1 = self.found();
        match first_ir_ty(expected, &f.name) {
            Some(et) => {
                let generic = match et {
                    IrType::Named { name: n, args } => args.len() == 0 && contains_name(generics, n),
                    _ => false,
                };
                assert(generic == is_generic_param(ir_ty(*et), gs));
                if !generic && !ty_compatible(&value.ty, et) {
                    let a = concat_str(named("field ", f.name.as_str(), " type mismatch: expected "), et.render().as_str());
                    self.emit(E_IR_003, concat_str(concat_str(a, ", got "), value.ty.render().as_str()), f.span);
                } else {
                    assert(self.found() =~= d1 + seq![]);
                }
            },
            None => {
                assert(self.found() =~= d1 + seq![]);
            },
        }
        let ghost d2 = self.found();
        let rest = self.lower_fields(fields, i + 1, env, expected, generics);
        proof {
            let g = lower_expr(f.value, e, tb).1;
            let here = d2.subrange(d1.len() as int, d2.len() as int);
            assert(d2 =~= d1 + here);
            let h = lower_fields(fields@, i + 1, e, tb, ir_fields_v(expected@), gs).1;
            assert(self.found() =~= d0 + (g + here + h));
        }
        match rest {
            Some(mut rest) => {
                let mut out: Vec<IrRecordField> = Vec::new();
                out.push(IrRecordField { name: f.name.clone(), value });
                let ghost rv = rest@;
                out.append(&mut rest);
                proof {
                    lemma_rfields0(out@);
                    lemma_rfields0(rv);
                    assert(rfields_v(out@, 0) =~= seq![(f.name@, expr_v(value))] + rfields_v(rv, 0));
                }
                Some(out)
            },
            None => None,
        }
    }
}

impl Lowerer {
    /// Lowers a block: its `let` statements become nested bindings around its tail.
    fn lower_block(&mut self, block: &BlockExpr, env: &Vec<(String, IrType)>) -> (r: Option<IrExpr>)
        ensures
            final(self).same_tables(old(self)),
            opt_expr(r) == lower_block(*block, ir_fields_v(env@), old(self).tables()).0,
            final(self).found() == old(self).found() + lower_block(*block, ir_fields_v(env@), old(self).tables()).1,
        decreases block, 0int,
    {
        let mut scoped = copy_ir_fields(env);
        let mut lets: Vec<(String, IrExpr, SourceLoc)> = Vec::new();
        assert(lets_v(lets@) =~= seq![]);
        if !self.lower_stmts(&block.statements, 0, &mut scoped, &mut lets) {
            return None;
        }
        let body = match &block.tail {
            Some(tail) => match self.lower_expr(tail, &scoped) {
                Some(b) => b,
                None => {
                    return None;
                },
            },
            None => {
                self.emit(E_IR_001, owned("block expression requires a tail expression"), block.span);
                return None;
            },
        };
        let ghost target = wrap_lets(lets_v(lets@), expr_v(body));
        let mut body = body;
        while lets.len() > 0
            invariant
                wrap_lets(lets_v(lets@), expr_v(body)) == target,
            decreases lets.len(),
        {
            let ghost before = lets@;
            match lets.pop() {
                Some((name, value, span)) => {
                    proof {
                        assert(lets_v(lets@) =~= lets_v(before).drop_last());
                    }
                    let ty = body.ty.copy();
                    body = IrExpr { kind: IrExprKind::Let { name, value: Box::new(value), body: Box::new(body) }, ty, span };
                },
                None => {},
            }
        }
        Some(body)
    }

    fn lower_stmts(
        &mut self,
        stmts: &Vec<Stmt>,
        i: usize,
        scoped: &mut Vec<(String, IrType)>,
        lets: &mut Vec<(String, IrExpr, SourceLoc)>,
    ) -> (r: bool)
        requires
            i <= stmts.len(),
        ensures
            final(self).same_tables(old(self)),
            match lower_stmts(stmts@, i as int, ir_fields_v(old(scoped)@), old(self).tables()).0 {
                Some((env2, slets)) => r && ir_fields_v(final(scoped)@) == env2 && lets_v(final(lets)@) == lets_v(old(lets)@) + slets,
                None => !r,
            },
            final(self).found() == old(self).found() + lower_stmts(stmts@, i as int, ir_fields_v(old(scoped)@), old(self).tables()).1,
        decreases stmts@, stmts.len() - i,
    {
        let ghost tb = self.tables();
        let ghost d0 = self.found();
        let ghost e0 = ir_fields_v(scoped@);
        let ghost l0 = lets_v(lets@);
        if i >= stmts.len() {
            assert(self.found() =~= d0 + seq![]);
            assert(lets_v(lets@) =~= l0 + seq![]);
            return true;
        }
        proof {
            assert(decreases_to!(stmts@ => stmts@[i as int]));
        }
        match &stmts[i] {
            Stmt::Let(let_stmt) => {
                proof {
                    assert(decreases_to!(stmts@ => let_stmt.value));
                }
                let value = match self.lower_expr(&let_stmt.value, scoped) {
                    Some(v) => v,
                    None => {
                        return false;
                    },
                };
                let ghost before = scoped@;
                scoped.push((let_stmt.name.clone(), value.ty.copy()));
                proof {
                    lemma_env_push(before, scoped@.last());
                    assert(scoped@ =~= before.push(scoped@.last()));
                }
                let ghost lb = lets@;
                lets.push((let_stmt.name.clone(), value, loc(let_stmt.span)));
                proof {
                    assert(lets_v(lets@) =~= lets_v(lb).push(lets_v(lets@).last()));
                }
                let r = self.lower_stmts(stmts, i + 1, scoped, lets);
                proof {
                    lemma_assoc(
                        d0,
                        lower_expr(let_stmt.value, e0, tb).1,
                        lower_stmts(stmts@, i + 1, e0.push((let_stmt.name@, ir_ty(value.ty))), tb).1,
                    );
                    if r {
                        let rest = lower_stmts(stmts@, i + 1, e0.push((let_stmt.name@, ir_ty(value.ty))), tb).0.unwrap().1;
                        assert(lets_v(lets@) =~= l0 + (seq![(let_stmt.name@, expr_v(value), loc_of(let_stmt.span))] + rest));
                    }
                }
                r
            },
            Stmt::Return(ret) => {
                self.emit(E_IR_001, owned("`return` statement is not lowerable in MVP"), ret.span);
                false
            },
        }
    }

    /// Lowers a match: its subject, then each arm in order.
    fn lower_match(&mut self, m: &MatchExpr, env: &Vec<(String, IrType)>) -> (r: Option<IrExpr>)
        ensures
            final(self).same_tables(old(self)),
            opt_expr(r) == lower_match(*m, ir_fields_v(env@), old(self).tables()).0,
            final(self).found() == old(self).found() + lower_match(*m, ir_fields_v(env@), old(self).tables()).1,
        decreases m, 0int,
    {
        let ghost tb = self.tables();
        let ghost d0 = self.found();
        let ghost e = ir_fields_v(env@);
        let subject = match self.lower_expr(&m.subject, env) {
            Some(s) => s,
            None => {
                return None;
            },
        };
        let ghost d1 = self.found();
        let mut arm_ty: Option<IrType> = None;
        let mut arms: Vec<IrMatchArm> = Vec::new();
        proof {
            lemma_arms0(arms@);
            assert(arms_v(arms@, 0) =~= seq![]);
        }
        let ok = self.lower_arms(&m.arms, 0, &subject.ty, env, &mut arm_ty, &mut arms);
        proof {
            lemma_assoc(d0, lower_expr(*m.subject, e, tb).1, lower_arms(m.arms@, 0, ir_ty(subject.ty), e, tb, None).1);
            assert(d1 =~= d0 + lower_expr(*m.subject, e, tb).1);
        }
        if !ok {
            return None;
        }
        let ty = match arm_ty {
            Some(t) => t,
            None => IrType::Unknown,
        };
        Some(IrExpr { kind: IrExprKind::Match { subject: Box::new(subject), arms }, ty, span: loc(m.span) })
    }

    fn lower_arms(
        &mut self,
        arms: &Vec<MatchArm>,
        i: usize,
        subject: &IrType,
        env: &Vec<(String, IrType)>,
        arm_ty: &mut Option<IrType>,
        out: &mut Vec<IrMatchArm>,
    ) -> (r: bool)
        requires
            i <= arms.len(),
        ensures
            final(self).same_tables(old(self)),
            match lower_arms(arms@, i as int, ir_ty(*subject), ir_fields_v(env@), old(self).tables(), opt_ir_ty(*old(arm_ty))).0 {
                Some((sarms, t3)) => r && arms_v(final(out)@, 0) == arms_v(old(out)@, 0) + sarms && opt_ir_ty(*final(arm_ty)) == t3,
                None => !r,
            },
            final(self).found() == old(self).found() + lower_arms(arms@, i as int, ir_ty(*subject), ir_fields_v(env@), old(self).tables(), opt_ir_ty(*old(arm_ty))).1,
        decreases arms@, arms.len() - i,
    {
        let ghost tb = self.tables();
        let ghost d0 = self.found();
        let ghost e = ir_fields_v(env@);
        let ghost t0 = opt_ir_ty(*arm_ty);
        let ghost o0 = arms_v(out@, 0);
        if i >= arms.len() {
            assert(self.found() =~= d0 + seq![]);
            assert(arms_v(out@, 0) =~= o0 + seq![]);
            return true;
        }
        proof {
            assert(decreases_to!(arms@ => arms@[i as int]));
        }
        let lowered = match self.lower_arm(&arms[i], subject, env, arm_ty) {
            Some(a) => a,
            None => {
                return false;
            },
        };
        let ghost a = arm_v(lowered);
        let ghost t2 = opt_ir_ty(*arm_ty);
        let ghost before = out@;
        out.push(lowered);
        proof {
            lemma_arms0(before);
            lemma_arms0(out@);
            assert(arms_v(out@, 0) =~= arms_v(before, 0).push(a));
        }
        let r = self.lower_arms(arms, i + 1, subject, env, arm_ty, out);
        proof {
            lemma_assoc(
                d0,
                lower_arm(arms@[i as int], ir_ty(*subject), e, tb, t0).1,
                lower_arms(arms@, i + 1, ir_ty(*subject), e, tb, t2).1,
            );
            if r {
                let rest = lower_arms(arms@, i + 1, ir_ty(*subject), e, tb, t2).0.unwrap().0;
                assert(arms_v(out@, 0) =~= o0 + (seq![a] + rest));
            }
        }
        r
    }

    fn lower_arm(&mut self, arm: &MatchArm, subject: &IrType, env: &Vec<(String, IrType)>, arm_ty: &mut Option<IrType>) -> (r: Option<IrMatchArm>)
        ensures
            final(self).same_tables(old(self)),
            match lower_arm(*arm, ir_ty(*subject), ir_fields_v(env@), old(self).tables(), opt_ir_ty(*old(arm_ty))).0 {
                Some((a, t2)) => r matches Some(ra) && arm_v(ra) == a && opt_ir_ty(*final(arm_ty)) == t2,
                None => r is None,
            },
            final(self).found() == old(self).found() + lower_arm(*arm, ir_ty(*subject), ir_fields_v(env@), old(self).tables(), opt_ir_ty(*old(arm_ty))).1,
        decreases arm, 0int,
    {
        let ghost d0 = self.found();
        if arm.guard.is_some() {
            self.emit(E_IR_001, owned("match guards are not lowerable in MVP"), arm.span);
            return None;
        }
        let mut arm_env = copy_ir_fields(env);
        let pattern = match self.lower_pattern(&arm.pattern, subject, &mut arm_env) {
            Some(p) => p,
            None => {
                return None;
            },
        };
        let ghost d1 = self.found();
        let body = match self.lower_expr(&arm.body, &arm_env) {
            Some(b) => b,
            None => {
                return None;
            },
        };
        let ghost d2 = self.found();
        let set_ty = match &*arm_ty {
            Some(prev) => {
                if !ty_compatible(prev, &body.ty) {
                    let a = concat_str(owned("match arm type mismatch: expected "), prev.render().as_str());
                    self.emit(E_IR_003, concat_str(concat_str(a, ", got "), body.ty.render().as_str()), arm.body.span);
                } else {
                    assert(self.found() =~= d2 + seq![]);
                }
                false
            },
            None => {
                assert(self.found() =~= d2 + seq![]);
                true
            },
        };
        if set_ty {
            *arm_ty = Some(body.ty.copy());
        }
        proof {
            let f = d1.subrange(d0.len() as int, d1.len() as int);
            let g = d2.subrange(d1.len() as int, d2.len() as int);
            let h = self.found().subrange(d2.len() as int, self.found().len() as int);
            assert(d1 =~= d0 + f);
            assert(d2 =~= d1 + g);
            assert(self.found() =~= d2 + h);
            assert(self.found() =~= d0 + (f + g + h));
        }
        Some(IrMatchArm { pattern, body, span: loc(arm.span) })
    }

    /// Lowers a pattern matched against a value of type `expected`, adding its bindings to `env`.
    fn lower_pattern(&mut self, pattern: &Pattern, expected: &IrType, env: &mut Vec<(String, IrType)>) -> (r: Option<IrPattern>)
        ensures
            final(self).same_tables(old(self)),
            match lower_pattern(*pattern, ir_ty(*expected), ir_fields_v(old(env)@), old(self).tables()).0 {
                Some((pv, env2)) => r matches Some(p) && pat_v(p) == pv && ir_fields_v(final(env)@) == env2,
                None => r is None,
            },
            final(self).found() == old(self).found() + lower_pattern(*pattern, ir_ty(*expected), ir_fields_v(old(env)@), old(self).tables()).1,
        decreases pattern, 0int,
    {
        let ghost d0 = self.found();
        match &pattern.kind {
            PatternKind::Wildcard => {
                assert(self.found() =~= d0 + seq![]);
                Some(IrPattern { kind: IrPatternKind::Wildcard, ty: expected.copy(), span: loc(pattern.span) })
            },
            PatternKind::Int(v) => {
                assert(self.found() =~= d0 + seq![]);
                Some(IrPattern { kind: IrPatternKind::Int { value: *v }, ty: expected.copy(), span: loc(pattern.span) })
            },
            PatternKind::Variant { name, fields } => {
                let ty_name = match expected {
                    IrType::Named { name: n, .. } => n,
                    _ => {
                        self.emit(E_IR_003, owned("variant pattern requires enum/event/query subject"), pattern.span);
                        return None;
                    },
                };
                let found: Option<(DeclKind, Option<Vec<(String, IrType)>>)> = match self.lookup_type(ty_name) {
                    None => None,
                    Some(info) => Some(
                        (
                            info.kind,
                            match lookup_variant(info, name) {
                                Some(p) => Some(copy_ir_fields(p)),
                                None => None,
                            },
                        ),
                    ),
                };
                match found {
                    None => {
                        self.emit(E_IR_002, named("unknown type ", ty_name.as_str(), " during lowering"), pattern.span);
                        None
                    },
                    Some((kind, variant)) => {
                        if !(kind == DeclKind::Enum || kind == DeclKind::Event || kind == DeclKind::Query) {
                            self.emit(E_IR_003, named("type ", ty_name.as_str(), " does not support variant patterns"), pattern.span);
                            return None;
                        }
                        match variant {
                            None => {
                                let m = concat_str(named("unknown variant ", name.as_str(), " for type "), named("", ty_name.as_str(), "").as_str());
                                self.emit(E_IR_002, m, pattern.span);
                                None
                            },
                            Some(payload) => {
                                let lowered = match self.lower_pattern_fields(fields, 0, &payload, env) {
                                    Some(f) => f,
                                    None => {
                                        return None;
                                    },
                                };
                                Some(
                                    IrPattern {
                                        kind: IrPatternKind::Variant { name: name.clone(), fields: lowered },
                                        ty: expected.copy(),
                                        span: loc(pattern.span),
                                    },
                                )
                            },
                        }
                    },
                }
            },
        }
    }

    fn lower_pattern_fields(
        &mut self,
        fields: &Vec<PatternField>,
        i: usize,
        payload: &Vec<(String, IrType)>,
        env: &mut Vec<(String, IrType)>,
    ) -> (r: Option<Vec<IrPatternField>>)
        requires
            i <= fields.len(),
        ensures
            final(self).same_tables(old(self)),
            match lower_pfields(fields@, i as int, ir_fields_v(payload@), ir_fields_v(old(env)@), old(self).tables()).0 {
                Some((pfs, env2)) => r matches Some(v) && pfields_v(v@, 0) == pfs && ir_fields_v(final(env)@) == env2,
                None => r is None,
            },
            final(self).found() == old(self).found() + lower_pfields(fields@, i as int, ir_fields_v(payload@), ir_fields_v(old(env)@), old(self).tables()).1,
        decreases fields@, fields.len() - i,
    {
        let ghost tb = self.tables();
        let ghost d0 = self.found();
        if i >= fields.len() {
            assert(self.found() =~= d0 + seq![]);
            let v: Vec<IrPatternField> = Vec::new();
            proof {
                lemma_pfields0(v@);
                assert(pfields_v(v@, 0) =~= seq![]);
            }
            return Some(v);
        }
        let f = &fields[i];
        proof {
            assert(decreases_to!(fields@ => f.pattern));
        }
        let ft = match first_ir_ty(payload, &f.name) {
            Some(t) => t,
            None => {
                self.emit(E_IR_002, named("unknown payload field ", f.name.as_str(), ""), f.span);
                return None;
            },
        };
        let pattern = match &f.pattern {
            Some(nested) => match self.lower_pattern(nested, ft, env) {
                Some(p) => p,
                None => {
                    return None;
                },
            },
            None => {
                let ghost before = env@;
                env.push((f.name.clone(), ft.copy()));
                proof {
                    lemma_env_push(before, env@.last());
                    assert(env@ =~= before.push(env@.last()));
                }
                assert(self.found() =~= d0 + seq![]);
                IrPattern { kind: IrPatternKind::Binding { name: f.name.clone() }, ty: ft.copy(), span: loc(f.span) }
            },
        };
        let ghost d1 = self.found();
        let ghost e1 = ir_fields_v(env@);
        let rest = self.lower_pattern_fields(fields, i + 1, payload, env);
        proof {
            lemma_assoc(
                d0,
                d1.subrange(d0.len() as int, d1.len() as int),
                lower_pfields(fields@, i + 1, ir_fields_v(payload@), e1, tb).1,
            );
            assert(d1 =~= d0 + d1.subrange(d0.len() as int, d1.len() as int));
        }
        match rest {
            Some(mut rest) => {
                let mut out: Vec<IrPatternField> = Vec::new();
                out.push(IrPatternField { name: f.name.clone(), pattern, span: loc(f.span) });
                let ghost rv = rest@;
                out.append(&mut rest);
                proof {
                    lemma_pfields0(out@);
                    lemma_pfields0(rv);
                    assert(pfields_v(out@, 0) =~= seq![pfield_v(out@[0])] + pfields_v(rv, 0));
                }
                Some(out)
            },
            None => None,
        }
    }

    /// Lowers a function declaration.
    fn lower_function(&mut self, fd: &FnDecl) -> (r: Option<IrFunction>)
        ensures
            final(self).same_tables(old(self)),
            match (r, lower_function(*fd, old(self).tables()).0) {
                (Some(f), Some(fv)) => function_v(f) == fv,
                (None, None) => true,
                _ => false,
            },
            final(self).found() == old(self).found() + lower_function(*fd, old(self).tables()).1,
    {
        let mut env: Vec<(String, IrType)> = Vec::new();
        let mut params: Vec<IrParam> = Vec::new();
        let mut k: usize = 0;
        while k < fd.params.len()
            invariant
                k <= fd.params.len(),
                env.len() == k,
                params.len() == k,
                forall|j: int|
                    0 <= j < k ==> (#[trigger] env@[j]).0@ == fd.params@[j].name@ && ir_ty(env@[j].1) == ty_of(
                        fd.params@[j].type_expr,
                    ),
                forall|j: int| 0 <= j < k ==> param_v(#[trigger] params@[j]) == lower_param(fd.params@[j]),
            decreases fd.params.len() - k,
        {
            let param = &fd.params[k];
            let ty = ty_from_ast(&param.type_expr);
            env.push((param.name.clone(), ty.copy()));
            params.push(IrParam { name: param.name.clone(), ty, span: loc(param.span) });
            k += 1;
        }
        assert(ir_fields_v(env@) =~= param_env(*fd));
        assert(params@.map_values(|p: IrParam| param_v(p)) =~= fd.params@.map_values(|p: Param| lower_param(p)));
        let return_type = ty_from_ast(&fd.return_type);
        let body = match self.lower_block(&fd.body, &env) {
            Some(b) => b,
            None => {
                return None;
            },
        };
        if !ty_compatible(&body.ty, &return_type) {
            let a = concat_str(named("function ", fd.name.as_str(), " body has "), body.ty.render().as_str());
            self.emit(E_IR_004, concat_str(concat_str(a, ", expected "), return_type.render().as_str()), fd.return_type.span);
            return None;
        }
        Some(
            IrFunction {
                kind: fd.kind,
                name: fd.name.clone(),
                params,
                return_type,
                body,
                span: loc(fd.span),
            },
        )
    }

    /// Lowers the functions among `decls[i..]`, appending those that lower to `out`.
    fn lower_decls(&mut self, decls: &Vec<TopDecl>, i: usize, out: &mut Vec<IrFunction>)
        requires
            i <= decls.len(),
        ensures
            final(self).same_tables(old(self)),
            final(out)@.map_values(|f: IrFunction| function_v(f)) == old(out)@.map_values(|f: IrFunction| function_v(f))
                + lower_decls(decls@, i as int, old(self).tables()).0,
            final(self).found() == old(self).found() + lower_decls(decls@, i as int, old(self).tables()).1,
        decreases decls.len() - i,
    {
        let ghost tb = self.tables();
        let ghost d0 = self.found();
        let ghost o0 = out@.map_values(|f: IrFunction| function_v(f));
        if i >= decls.len() {
            assert(self.found() =~= d0 + seq![]);
            assert(out@.map_values(|f: IrFunction| function_v(f)) =~= o0 + seq![]);
            return;
        }
        match &decls[i] {
            TopDecl::Function(fd) => {
                let lowered = self.lower_function(fd);
                let ghost d1 = self.found();
                match lowered {
                    Some(f) => {
                        let ghost fv = function_v(f);
                        out.push(f);
                        assert(out@.map_values(|f: IrFunction| function_v(f)) =~= o0.push(fv));
                    },
                    None => {},
                }
                self.lower_decls(decls, i + 1, out);
                proof {
                    let g = lower_function(*fd, tb).1;
                    let rest = lower_decls(decls@, i + 1, tb);
                    assert(d1 =~= d0 + g);
                    lemma_assoc(d0, g, rest.1);
                    assert(out@.map_values(|f: IrFunction| function_v(f)) =~= o0 + lower_decls(decls@, i as int, tb).0);
                }
            },
            TopDecl::Type(_) => {
                self.lower_decls(decls, i + 1, out);
            },
        }
    }

    /// The whole pipeline: static checks first, then lowering, then validation of the result.
    fn lower(self, program: &Program) -> (r: LoweringResult)
        requires
            self.found() == Seq::<Finding>::empty(),
            self.fn_table@.len() == 0,
            self.type_table@.len() == 0,
            self.variant_to_type@.len() == 0,
        ensures
            lowered(program.decls@, r),
    {
        let mut lowerer = self;
        let sema = analyze(program);
        if !sema.is_ok() {
            let mut diagnostics: Vec<Diagnostic> = Vec::new();
            let mut k: usize = 0;
            while k < sema.diagnostics.len()
                invariant
                    k <= sema.diagnostics.len(),
                    diagnostics.len() == k,
                    forall|j: int| 0 <= j < k ==> (#[trigger] diagnostics@[j]).finding() == sema.diagnostics@[j].finding(),
                decreases sema.diagnostics.len() - k,
            {
                let d = &sema.diagnostics[k];
                diagnostics.push(Diagnostic { code: d.code, message: d.message.clone(), line: d.line, column: d.column });
                k += 1;
            }
            assert(findings(diagnostics@) =~= crate::sema::checker::findings(sema.diagnostics@));
            return LoweringResult { program: None, diagnostics };
        }
        lowerer.collect_decls(program);
        let mut functions: Vec<IrFunction> = Vec::new();
        assert(functions@.map_values(|f: IrFunction| function_v(f)) =~= seq![]);
        lowerer.lower_decls(&program.decls, 0, &mut functions);
        assert(lowerer.found() =~= lower_decls(program.decls@, 0, tables(program.decls@)).1);
        assert(functions@.map_values(|f: IrFunction| function_v(f)) =~= lower_decls(program.decls@, 0, tables(program.decls@)).0);
        if lowerer.diagnostics.len() > 0 {
            return LoweringResult { program: None, diagnostics: lowerer.diagnostics };
        }
        let ir_program = IrProgram { functions };
        let validation = validate_program(&ir_program);
        if validation.len() == 0 {
            LoweringResult { program: Some(ir_program), diagnostics: Vec::new() }
        } else {
            LoweringResult { program: None, diagnostics: validation }
        }
    }
}

/// What lowering a program gives: the checker's findings when it reports any; else the
/// lowering findings when there are any; else the IR of the functions, unless validating it
/// reports findings.
pub open spec fn lowered(ds: Seq<TopDecl>, r: LoweringResult) -> bool {
    let (fns, lf) = lower_decls(ds, 0, tables(ds));
    if analysis(ds).len() > 0 {
        r.program is None && findings(r.diagnostics@) == analysis(ds)
    } else if lf.len() > 0 {
        r.program is None && findings(r.diagnostics@) == lf
    } else {
        match r.program {
            Some(p) => p.functions@.map_values(|f: IrFunction| function_v(f)) == fns && check_program(p).len() == 0
                && r.diagnostics@.len() == 0,
            None => r.diagnostics@.len() > 0 && exists|p: IrProgram|
                p.functions@.map_values(|f: IrFunction| function_v(f)) == fns && #[trigger] check_program(p)
                    == findings(r.diagnostics@),
        }
    }
}

/// Lowering yields a program exactly when it reports no diagnostic, and a program it yields
/// passes IR validation.
pub proof fn lemma_lowered_iff_clean(ds: Seq<TopDecl>, r: LoweringResult)
    requires
        lowered(ds, r),
    ensures
        r.program is Some <==> r.diagnostics@.len() == 0,
        r.program matches Some(p) ==> check_program(p).len() == 0,
{
    let lf = lower_decls(ds, 0, tables(ds)).1;
    if analysis(ds).len() > 0 {
        assert(findings(r.diagnostics@).len() == r.diagnostics@.len());
    } else if lf.len() > 0 {
        assert(findings(r.diagnostics@).len() == r.diagnostics@.len());
    }
}

/// Lowering drops, duplicates and reorders no function: a program it yields holds one IR
/// function per function declaration, in source order, with that declaration's kind, name and
/// parameter names.
pub proof fn lemma_lowering_keeps_functions(ds: Seq<TopDecl>, r: LoweringResult)
    requires
        lowered(ds, r),
        r.program is Some,
    ensures
        r.program.unwrap().functions@.len() == fn_decls(ds, 0).len(),
        forall|k: int|
            0 <= k < fn_decls(ds, 0).len() ==> {
                let f = #[trigger] r.program.unwrap().functions@[k];
                let fd = fn_decls(ds, 0)[k];
                &&& f.name@ == fd.name@
                &&& f.kind == fd.kind
                &&& f.params@.len() == fd.params@.len()
                &&& forall|j: int| 0 <= j < f.params@.len() ==> (#[trigger] f.params@[j]).name@ == fd.params@[j].name@
            },
{
    let tb = tables(ds);
    let (fns, lf) = lower_decls(ds, 0, tb);
    let p = r.program.unwrap();
    lemma_lower_decls_keeps_functions(ds, 0, tb);
    let m = p.functions@.map_values(|f: IrFunction| function_v(f));
    assert(m == fns);
    assert forall|k: int| 0 <= k < fn_decls(ds, 0).len() implies {
        let f = #[trigger] p.functions@[k];
        let fd = fn_decls(ds, 0)[k];
        &&& f.name@ == fd.name@
        &&& f.kind == fd.kind
        &&& f.params@.len() == fd.params@.len()
        &&& forall|j: int| 0 <= j < f.params@.len() ==> (#[trigger] f.params@[j]).name@ == fd.params@[j].name@
    } by {
        let f = p.functions@[k];
        assert(m[k] == function_v(f));
        assert(fns[k] == function_v(f));
        assert forall|j: int| 0 <= j < f.params@.len() implies (#[trigger] f.params@[j]).name@ == fn_decls(ds, 0)[k].params@[j].name@ by {
            assert(function_v(f).params[j] == param_v(f.params@[j]));
        }
    }
}

/// Lowers a parsed program to typed IR.
pub fn lower_program(program: &Program) -> (r: LoweringResult)
    ensures
        lowered(program.decls@, r),
{
    Lowerer::new().lower(program)
}

} // verus!
