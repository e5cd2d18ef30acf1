use vstd::prelude::*;
use crate::sema::model::{
    first_entry, last_entry, tables, type_text, types_text, compat, compat_from, field_types, fn_entries, fn_info, owner_entries, ty_list, ty_of, type_entries,
    type_info, variant_owners, variant_types, DeclKind, Fields, Finding, FnInfoV, Tables, TyV,
    TypeInfoV,
};
use crate::syntax::ast::{FieldDecl, FnKind, Program, TopDecl, TypeDeclKind, TypeExpr, TypeExprKind, VariantDecl};
use crate::text::{concat_str, owned};

verus! {

// ---------------------------------------------------------------------------
// Types
// ---------------------------------------------------------------------------

pub(crate) enum Ty {
    Int,
    Bool,
    Decimal,
    String,
    Named { name: String, args: Vec<Ty> },
    Tuple(Vec<Ty>),
    Unknown,
}

pub(crate) open spec fn tyv(t: Ty) -> TyV
    decreases t, 0int,
{
    match t {
        Ty::Int => TyV::Int,
        Ty::Bool => TyV::Bool,
        Ty::Decimal => TyV::Decimal,
        Ty::String => TyV::Str,
        Ty::Named { name, args } => TyV::Named(name@, tyvs(args@, 0)),
        Ty::Tuple(items) => TyV::Tuple(tyvs(items@, 0)),
        Ty::Unknown => TyV::Unknown,
    }
}

/// The types `s[i..]`.
pub(crate) open spec fn tyvs(s: Seq<Ty>, i: int) -> Seq<TyV>
    decreases s, s.len() - i,
{
    if 0 <= i < s.len() {
        seq![tyv(s[i])] + tyvs(s, i + 1)
    } else {
        seq![]
    }
}

proof fn lemma_tyvs(s: Seq<Ty>, i: int)
    requires
        0 <= i <= s.len(),
    ensures
        tyvs(s, i) == Seq::new((s.len() - i) as nat, |k: int| tyv(s[i + k])),
    decreases s.len() - i,
{
    if i < s.len() {
        lemma_tyvs(s, i + 1);
    }
    assert(tyvs(s, i) =~= Seq::new((s.len() - i) as nat, |k: int| tyv(s[i + k])));
}

pub(crate) proof fn lemma_tyvs0(s: Seq<Ty>)
    ensures
        tyvs(s, 0).len() == s.len(),
        forall|k: int| 0 <= k < s.len() ==> #[trigger] tyvs(s, 0)[k] == tyv(s[k]),
{
    lemma_tyvs(s, 0);
}

proof fn lemma_ty_list(ts: Seq<TypeExpr>, i: int)
    requires
        0 <= i <= ts.len(),
    ensures
        ty_list(ts, i) == Seq::new((ts.len() - i) as nat, |k: int| ty_of(ts[i + k])),
    decreases ts.len() - i,
{
    if i < ts.len() {
        lemma_ty_list(ts, i + 1);
    }
    assert(ty_list(ts, i) =~= Seq::new((ts.len() - i) as nat, |k: int| ty_of(ts[i + k])));
}

impl Ty {
    /// A deep copy.
    pub(crate) fn copy(&self) -> (r: Ty)
        ensures
            tyv(r) == tyv(*self),
        decreases self,
    {
        match self {
            Ty::Int => Ty::Int,
            Ty::Bool => Ty::Bool,
            Ty::Decimal => Ty::Decimal,
            Ty::String => Ty::String,
            Ty::Unknown => Ty::Unknown,
            Ty::Named { name, args } => {
                let mut out: Vec<Ty> = Vec::new();
                let mut i: usize = 0;
                while i < args.len()
                    invariant
                        i <= args.len(),
                        self matches Ty::Named { args: a, .. } && a == args,
                        out.len() == i,
                        forall|k: int| 0 <= k < i ==> #[trigger] tyv(out@[k]) == tyv(args@[k]),
                    decreases args.len() - i,
                {
                    proof {
                        assert(decreases_to!(self => args@[i as int]));
                    }
                    out.push(args[i].copy());
                    i += 1;
                }
                proof {
                    lemma_tyvs0(out@);
                    lemma_tyvs0(args@);
                    assert(tyvs(out@, 0) =~= tyvs(args@, 0));
                }
                Ty::Named { name: name.clone(), args: out }
            },
            Ty::Tuple(items) => {
                let mut out: Vec<Ty> = Vec::new();
                let mut i: usize = 0;
                while i < items.len()
                    invariant
                        i <= items.len(),
                        self matches Ty::Tuple(a) && a == items,
                        out.len() == i,
                        forall|k: int| 0 <= k < i ==> #[trigger] tyv(out@[k]) == tyv(items@[k]),
                    decreases items.len() - i,
                {
                    proof {
                        assert(decreases_to!(self => items@[i as int]));
                    }
                    out.push(items[i].copy());
                    i += 1;
                }
                proof {
                    lemma_tyvs0(out@);
                    lemma_tyvs0(items@);
                    assert(tyvs(out@, 0) =~= tyvs(items@, 0));
                }
                Ty::Tuple(out)
            },
        }
    }

    /// How this type is written in messages.
    pub(crate) fn render(&self) -> (r: String)
        ensures
            r@ == type_text(tyv(*self)),
        decreases self,
    {
        match self {
            Ty::Int => owned("Int"),
            Ty::Bool => owned("Bool"),
            Ty::Decimal => owned("Decimal"),
            Ty::String => owned("String"),
            Ty::Unknown => owned("Unknown"),
            Ty::Named { name, args } => {
                let a = concat_str(owned("Named { name: \""), name.as_str());
                let b = concat_str(a, "\", args: [");
                let parts = render_all(self, args);
                concat_str(concat_str(b, parts.as_str()), "] }")
            },
            Ty::Tuple(items) => {
                let parts = render_all(self, items);
                concat_str(concat_str(owned("Tuple(["), parts.as_str()), "])")
            },
        }
    }
}

/// The types `items`, as messages write them, separated by `, `.
fn render_all(parent: &Ty, items: &Vec<Ty>) -> (r: String)
    requires
        (parent matches Ty::Named { args: a, .. } && a == items) || (parent matches Ty::Tuple(a) && a == items),
    ensures
        r@ == types_text(tyvs(items@, 0), 0),
    decreases parent, 1int,
{
    let ghost ts = tyvs(items@, 0);
    proof {
        lemma_tyvs0(items@);
    }
    let mut out = String::new();
    let mut i: usize = 0;
    proof {
        assert(out@ + types_text(ts, 0) =~= types_text(ts, 0));
    }
    while i < items.len()
        invariant
            i <= items.len(),
            (parent matches Ty::Named { args: a, .. } && a == items) || (parent matches Ty::Tuple(a) && a == items),
            ts == tyvs(items@, 0),
            ts.len() == items.len(),
            forall|k: int| 0 <= k < items.len() ==> #[trigger] ts[k] == tyv(items@[k]),
            out@ + types_text(ts, i as int) == types_text(ts, 0),
        decreases items.len() - i,
    {
        proof {
            assert(decreases_to!(parent => items@[i as int]));
        }
        let ghost before = out@;
        if i > 0 {
            out = concat_str(out, ", ");
        }
        let part = items[i].render();
        out = concat_str(out, part.as_str());
        proof {
            let sep: Seq<char> = if i > 0 { ", "@ } else { seq![] };
            assert(out@ == before + sep + type_text(ts[i as int]));
            assert(types_text(ts, i as int) == sep + type_text(ts[i as int]) + types_text(ts, i + 1));
            assert(out@ + types_text(ts, i + 1) =~= before + types_text(ts, i as int));
        }
        i += 1;
    }
    proof {
        assert(out@ =~= out@ + types_text(ts, i as int));
    }
    out
}

/// Deep copies of `v`'s types.
pub(crate) fn copy_tys(v: &Vec<Ty>) -> (r: Vec<Ty>)
    ensures
        tyvs(r@, 0) == tyvs(v@, 0),
{
    let mut out: Vec<Ty> = Vec::new();
    let mut i: usize = 0;
    while i < v.len()
        invariant
            i <= v.len(),
            out.len() == i,
            forall|k: int| 0 <= k < i ==> #[trigger] tyv(out@[k]) == tyv(v@[k]),
        decreases v.len() - i,
    {
        out.push(v[i].copy());
        i += 1;
    }
    proof {
        lemma_tyvs0(out@);
        lemma_tyvs0(v@);
        assert(tyvs(out@, 0) =~= tyvs(v@, 0));
    }
    out
}

/// Whether `a` and `b` are compatible types.
pub(crate) fn compatible(a: &Ty, b: &Ty) -> (r: bool)
    ensures
        r == compat(tyv(*a), tyv(*b)),
    decreases a, 0int,
{
    if matches!(a, Ty::Unknown) || matches!(b, Ty::Unknown) {
        return true;
    }
    match (a, b) {
        (Ty::Int, Ty::Int) => true,
        (Ty::Bool, Ty::Bool) => true,
        (Ty::Decimal, Ty::Decimal) => true,
        (Ty::String, Ty::String) => true,
        (Ty::Named { name: na, args: aa }, Ty::Named { name: nb, args: ab }) => {
            proof {
                lemma_tyvs0(aa@);
                lemma_tyvs0(ab@);
            }
            *na == *nb && aa.len() == ab.len() && compatible_from(aa, ab, 0)
        },
        (Ty::Tuple(la), Ty::Tuple(lb)) => {
            proof {
                lemma_tyvs0(la@);
                lemma_tyvs0(lb@);
            }
            la.len() == lb.len() && compatible_from(la, lb, 0)
        },
        _ => false,
    }
}

fn compatible_from(xs: &Vec<Ty>, ys: &Vec<Ty>, i: usize) -> (r: bool)
    requires
        i <= xs.len(),
    ensures
        r == compat_from(tyvs(xs@, 0), tyvs(ys@, 0), i as int),
    decreases xs@, xs.len() - i,
{
    proof {
        lemma_tyvs0(xs@);
        lemma_tyvs0(ys@);
    }
    if i < xs.len() && i < ys.len() {
        proof {
            assert(decreases_to!(xs@ => xs@[i as int]));
        }
        if !compatible(&xs[i], &ys[i]) {
            return false;
        }
        compatible_from(xs, ys, i + 1)
    } else {
        true
    }
}

/// The type a type expression denotes.
pub(crate) fn ty_from_ast(t: &TypeExpr) -> (r: Ty)
    ensures
        tyv(r) == ty_of(*t),
    decreases t, 0int,
{
    match &t.kind {
        TypeExprKind::Tuple { items } => {
            let out = ty_from_ast_list(items, 0);
            proof {
                lemma_tyvs(out@, 0);
                lemma_ty_list(items@, 0);
                assert(tyvs(out@, 0) =~= ty_list(items@, 0));
            }
            Ty::Tuple(out)
        },
        TypeExprKind::Named { name, generics } => {
            if generics.len() == 0 {
                if *name == owned("Int") {
                    Ty::Int
                } else if *name == owned("Bool") {
                    Ty::Bool
                } else if *name == owned("Decimal") {
                    Ty::Decimal
                } else if *name == owned("String") {
                    Ty::String
                } else {
                    let args: Vec<Ty> = Vec::new();
                    assert(tyvs(args@, 0) =~= seq![]);
                    Ty::Named { name: name.clone(), args }
                }
            } else {
                let out = ty_from_ast_list(generics, 0);
                proof {
                    lemma_tyvs(out@, 0);
                    lemma_ty_list(generics@, 0);
                    assert(tyvs(out@, 0) =~= ty_list(generics@, 0));
                }
                Ty::Named { name: name.clone(), args: out }
            }
        },
    }
}

/// The types of `ts[i..]`.
fn ty_from_ast_list(ts: &Vec<TypeExpr>, i: usize) -> (r: Vec<Ty>)
    requires
        i <= ts.len(),
    ensures
        r.len() == ts.len() - i,
        forall|k: int| 0 <= k < r.len() ==> #[trigger] tyv(r@[k]) == ty_of(ts@[i + k]),
    decreases ts@, ts.len() - i,
{
    if i >= ts.len() {
        return Vec::new();
    }
    proof {
        assert(decreases_to!(ts@ => ts@[i as int]));
    }
    let first = ty_from_ast(&ts[i]);
    let rest = ty_from_ast_list(ts, i + 1);
    let mut out: Vec<Ty> = Vec::new();
    out.push(first);
    let mut rest = rest;
    out.append(&mut rest);
    out
}


// ---------------------------------------------------------------------------
// Tables
// ---------------------------------------------------------------------------

pub(crate) struct TypeInfo {
    pub(crate) kind: DeclKind,
    pub(crate) generics: Vec<String>,
    pub(crate) fields: Vec<(String, Ty)>,
    pub(crate) variants: Vec<(String, Vec<(String, Ty)>)>,
}

pub(crate) struct FnInfo {
    pub(crate) kind: FnKind,
    pub(crate) params: Vec<Ty>,
    pub(crate) return_ty: Ty,
}

/// Named types, by content; also the view of local bindings.
pub(crate) open spec fn fields_v(s: Seq<(String, Ty)>) -> Fields {
    s.map_values(|p: (String, Ty)| (p.0@, tyv(p.1)))
}

pub(crate) open spec fn info_v(i: TypeInfo) -> TypeInfoV {
    TypeInfoV {
        kind: i.kind,
        generics: i.generics@.map_values(|g: String| g@),
        fields: fields_v(i.fields@),
        variants: i.variants@.map_values(|v: (String, Vec<(String, Ty)>)| (v.0@, fields_v(v.1@))),
    }
}

pub(crate) open spec fn fninfo_v(f: FnInfo) -> FnInfoV {
    FnInfoV { kind: f.kind, params: tyvs(f.params@, 0), return_ty: tyv(f.return_ty) }
}

pub(crate) open spec fn types_v(t: Seq<(String, TypeInfo)>) -> Seq<(Seq<char>, TypeInfoV)> {
    t.map_values(|e: (String, TypeInfo)| (e.0@, info_v(e.1)))
}

pub(crate) open spec fn fns_v(t: Seq<(String, FnInfo)>) -> Seq<(Seq<char>, FnInfoV)> {
    t.map_values(|e: (String, FnInfo)| (e.0@, fninfo_v(e.1)))
}

pub(crate) open spec fn owners_v(t: Seq<(String, String)>) -> Seq<(Seq<char>, Seq<char>)> {
    t.map_values(|e: (String, String)| (e.0@, e.1@))
}

pub(crate) proof fn lemma_last_entry<V>(es: Seq<(Seq<char>, V)>, k: Seq<char>, i: int)
    requires
        0 <= i < es.len(),
        es[i].0 == k,
        forall|j: int| i < j < es.len() ==> (#[trigger] es[j]).0 != k,
    ensures
        last_entry(es, k) == Some(es[i].1),
    decreases es.len(),
{
    if i < es.len() - 1 {
        lemma_last_entry(es.drop_last(), k, i);
    }
}

pub(crate) proof fn lemma_last_entry_none<V>(es: Seq<(Seq<char>, V)>, k: Seq<char>)
    requires
        forall|j: int| 0 <= j < es.len() ==> (#[trigger] es[j]).0 != k,
    ensures
        last_entry(es, k) is None,
    decreases es.len(),
{
    if es.len() > 0 {
        lemma_last_entry_none(es.drop_last(), k);
    }
}

pub(crate) proof fn lemma_first_entry<V>(es: Seq<(Seq<char>, V)>, k: Seq<char>, i: int)
    requires
        0 <= i < es.len(),
        es[i].0 == k,
        forall|j: int| 0 <= j < i ==> (#[trigger] es[j]).0 != k,
    ensures
        first_entry(es, k) == Some(es[i].1),
    decreases es.len(),
{
    if i > 0 {
        lemma_first_entry(es.drop_first(), k, i - 1);
    }
}

pub(crate) proof fn lemma_first_entry_none<V>(es: Seq<(Seq<char>, V)>, k: Seq<char>)
    requires
        forall|j: int| 0 <= j < es.len() ==> (#[trigger] es[j]).0 != k,
    ensures
        first_entry(es, k) is None,
    decreases es.len(),
{
    if es.len() > 0 {
        lemma_first_entry_none(es.drop_first(), k);
    }
}

/// The index of the last entry keyed `name`.
pub(crate) fn find_last<V>(es: &Vec<(String, V)>, name: &String) -> (r: Option<usize>)
    ensures
        r matches Some(i) ==> i < es.len() && es@[i as int].0@ == name@ && forall|j: int|
            i < j < es.len() ==> (#[trigger] es@[j]).0@ != name@,
        r is None ==> forall|j: int| 0 <= j < es.len() ==> (#[trigger] es@[j]).0@ != name@,
{
    let mut i = es.len();
    while i > 0
        invariant
            i <= es.len(),
            forall|j: int| i <= j < es.len() ==> (#[trigger] es@[j]).0@ != name@,
        decreases i,
    {
        if es[i - 1].0 == *name {
            return Some(i - 1);
        }
        i = i - 1;
    }
    None
}

/// The index of the first entry keyed `name`.
pub(crate) fn find_first<V>(es: &Vec<(String, V)>, name: &String) -> (r: Option<usize>)
    ensures
        r matches Some(i) ==> i < es.len() && es@[i as int].0@ == name@ && forall|j: int|
            0 <= j < i ==> (#[trigger] es@[j]).0@ != name@,
        r is None ==> forall|j: int| 0 <= j < es.len() ==> (#[trigger] es@[j]).0@ != name@,
{
    let mut i: usize = 0;
    while i < es.len()
        invariant
            i <= es.len(),
            forall|j: int| 0 <= j < i ==> (#[trigger] es@[j]).0@ != name@,
        decreases es.len() - i,
    {
        if es[i].0 == *name {
            return Some(i);
        }
        i = i + 1;
    }
    None
}

/// The type bound last to `name`.
pub(crate) fn lookup_ty<'a>(es: &'a Vec<(String, Ty)>, name: &String) -> (r: Option<&'a Ty>)
    ensures
        match r {
            Some(t) => last_entry(fields_v(es@), name@) == Some(tyv(*t)),
            None => last_entry(fields_v(es@), name@) is None,
        },
{
    let ghost v = fields_v(es@);
    match find_last(es, name) {
        Some(i) => {
            proof {
                assert forall|j: int| i < j < v.len() implies (#[trigger] v[j]).0 != name@ by {
                    assert(v[j].0 == es@[j].0@);
                }
                lemma_last_entry(v, name@, i as int);
            }
            Some(&es[i].1)
        },
        None => {
            proof {
                assert forall|j: int| 0 <= j < v.len() implies (#[trigger] v[j]).0 != name@ by {
                    assert(v[j].0 == es@[j].0@);
                }
                lemma_last_entry_none(v, name@);
            }
            None
        },
    }
}

/// The type of the first field named `name`.
pub(crate) fn first_ty<'a>(es: &'a Vec<(String, Ty)>, name: &String) -> (r: Option<&'a Ty>)
    ensures
        match r {
            Some(t) => first_entry(fields_v(es@), name@) == Some(tyv(*t)),
            None => first_entry(fields_v(es@), name@) is None,
        },
{
    let ghost v = fields_v(es@);
    match find_first(es, name) {
        Some(i) => {
            proof {
                assert forall|j: int| 0 <= j < i implies (#[trigger] v[j]).0 != name@ by {
                    assert(v[j].0 == es@[j].0@);
                }
                lemma_first_entry(v, name@, i as int);
            }
            Some(&es[i].1)
        },
        None => {
            proof {
                assert forall|j: int| 0 <= j < v.len() implies (#[trigger] v[j]).0 != name@ by {
                    assert(v[j].0 == es@[j].0@);
                }
                lemma_first_entry_none(v, name@);
            }
            None
        },
    }
}

/// The payload of the variant `name` of a type.
pub(crate) fn lookup_variant<'a>(info: &'a TypeInfo, name: &String) -> (r: Option<&'a Vec<(String, Ty)>>)
    ensures
        match r {
            Some(p) => last_entry(info_v(*info).variants, name@) == Some(fields_v(p@)),
            None => last_entry(info_v(*info).variants, name@) is None,
        },
{
    let ghost v = info_v(*info).variants;
    match find_last(&info.variants, name) {
        Some(i) => {
            proof {
                assert forall|j: int| i < j < v.len() implies (#[trigger] v[j]).0 != name@ by {
                    assert(v[j].0 == info.variants@[j].0@);
                }
                lemma_last_entry(v, name@, i as int);
            }
            Some(&info.variants[i].1)
        },
        None => {
            proof {
                assert forall|j: int| 0 <= j < v.len() implies (#[trigger] v[j]).0 != name@ by {
                    assert(v[j].0 == info.variants@[j].0@);
                }
                lemma_last_entry_none(v, name@);
            }
            None
        },
    }
}


// ---------------------------------------------------------------------------
// Diagnostics and the checker's state
// ---------------------------------------------------------------------------

/// A finding of the static checks: a stable code, a message, and where it points.
#[derive(Debug, Clone, PartialEq, Eq)]
pub struct Diagnostic {
    pub code: &'static str,
    pub message: String,
    pub line: usize,
    pub column: usize,
}

impl Diagnostic {
    pub open spec fn finding(&self) -> Finding {
        Finding { code: self.code, message: self.message@, line: self.line, column: self.column }
    }
}

/// The findings of a list of diagnostics, in order.
pub open spec fn findings(ds: Seq<Diagnostic>) -> Seq<Finding> {
    ds.map_values(|d: Diagnostic| d.finding())
}

/// The result of analyzing a program.
#[derive(Debug, Clone, PartialEq, Eq)]
pub struct Analysis {
    pub diagnostics: Vec<Diagnostic>,
}

impl Analysis {
    /// Whether the program passed every check.
    pub fn is_ok(&self) -> (r: bool)
        ensures
            r == (self.diagnostics@.len() == 0),
    {
        self.diagnostics.len() == 0
    }
}

pub(crate) struct Checker {
    pub(crate) diagnostics: Vec<Diagnostic>,
    pub(crate) fn_table: Vec<(String, FnInfo)>,
    pub(crate) type_table: Vec<(String, TypeInfo)>,
    pub(crate) variant_to_type: Vec<(String, String)>,
}

impl Checker {
    pub(crate) open spec fn found(&self) -> Seq<Finding> {
        findings(self.diagnostics@)
    }

    pub(crate) open spec fn tables(&self) -> Tables {
        Tables {
            types: types_v(self.type_table@),
            fns: fns_v(self.fn_table@),
            owners: owners_v(self.variant_to_type@),
        }
    }

    pub(crate) open spec fn same_tables(&self, o: &Checker) -> bool {
        &&& self.fn_table == o.fn_table
        &&& self.type_table == o.type_table
        &&& self.variant_to_type == o.variant_to_type
    }

    pub(crate) fn new() -> (c: Self)
        ensures
            c.found() == Seq::<Finding>::empty(),
            c.fn_table@.len() == 0,
            c.type_table@.len() == 0,
            c.variant_to_type@.len() == 0,
    {
        let c = Checker {
            diagnostics: Vec::new(),
            fn_table: Vec::new(),
            type_table: Vec::new(),
            variant_to_type: Vec::new(),
        };
        assert(c.found() =~= Seq::<Finding>::empty());
        c
    }

    pub(crate) fn emit(&mut self, code: &'static str, message: String, line: usize, column: usize)
        ensures
            final(self).same_tables(old(self)),
            final(self).found() == old(self).found().push(Finding { code, message: message@, line, column }),
    {
        let ghost before = self.diagnostics@;
        let ghost m = message@;
        self.diagnostics.push(Diagnostic { code, message, line, column });
        proof {
            assert(findings(self.diagnostics@) =~= findings(before).push(Finding { code, message: m, line, column }));
        }
    }

    fn collect_fields(&self, fields: &Vec<FieldDecl>) -> (r: Vec<(String, Ty)>)
        ensures
            fields_v(r@) == field_types(fields@),
    {
        let mut out: Vec<(String, Ty)> = Vec::new();
        let mut i: usize = 0;
        while i < fields.len()
            invariant
                i <= fields.len(),
                out.len() == i,
                forall|k: int|
                    0 <= k < i ==> (#[trigger] out@[k]).0@ == fields@[k].name@ && tyv(out@[k].1) == ty_of(
                        fields@[k].type_expr,
                    ),
            decreases fields.len() - i,
        {
            let f = &fields[i];
            out.push((f.name.clone(), ty_from_ast(&f.type_expr)));
            i += 1;
        }
        assert(fields_v(out@) =~= field_types(fields@));
        out
    }

    fn collect_variants(&mut self, variants: &Vec<VariantDecl>, owner_name: &String) -> (r: Vec<(String, Vec<(String, Ty)>)>)
        ensures
            r@.map_values(|v: (String, Vec<(String, Ty)>)| (v.0@, fields_v(v.1@))) == variant_types(variants@),
            owners_v(final(self).variant_to_type@) == owners_v(old(self).variant_to_type@) + variants@.map_values(
                |x: VariantDecl| (x.name@, owner_name@),
            ),
            final(self).diagnostics == old(self).diagnostics,
            final(self).fn_table == old(self).fn_table,
            final(self).type_table == old(self).type_table,
    {
        let ghost vt0 = self.variant_to_type@;
        let n0 = self.variant_to_type.len();
        let mut out: Vec<(String, Vec<(String, Ty)>)> = Vec::new();
        let mut i: usize = 0;
        while i < variants.len()
            invariant
                i <= variants.len(),
                n0 == vt0.len(),
                out.len() == i,
                forall|k: int|
                    0 <= k < i ==> (#[trigger] out@[k]).0@ == variants@[k].name@ && fields_v(out@[k].1@)
                        == field_types(variants@[k].payload@),
                self.variant_to_type@.len() == n0 + i,
                forall|k: int| 0 <= k < n0 ==> #[trigger] self.variant_to_type@[k] == vt0[k],
                forall|k: int|
                    0 <= k < i ==> (#[trigger] self.variant_to_type@[n0 + k]).0@ == variants@[k].name@
                        && self.variant_to_type@[n0 + k].1@ == owner_name@,
                self.diagnostics == old(self).diagnostics,
                self.fn_table == old(self).fn_table,
                self.type_table == old(self).type_table,
            decreases variants.len() - i,
        {
            let v = &variants[i];
            let payload = self.collect_fields(&v.payload);
            self.variant_to_type.push((v.name.clone(), owner_name.clone()));
            out.push((v.name.clone(), payload));
            proof {
                assert(self.variant_to_type@[n0 + i as int].0@ == variants@[i as int].name@);
            }
            i += 1;
        }
        assert(out@.map_values(|v: (String, Vec<(String, Ty)>)| (v.0@, fields_v(v.1@))) =~= variant_types(variants@));
        assert(owners_v(self.variant_to_type@) =~= owners_v(vt0) + variants@.map_values(
            |x: VariantDecl| (x.name@, owner_name@),
        )) by {
            assert forall|k: int| 0 <= k < self.variant_to_type@.len() implies #[trigger] owners_v(
                self.variant_to_type@,
            )[k] == (owners_v(vt0) + variants@.map_values(|x: VariantDecl| (x.name@, owner_name@)))[k] by {
                if k >= n0 {
                    assert(self.variant_to_type@[n0 + (k - n0)] == self.variant_to_type@[k]);
                }
            }
        }
        out
    }

    /// Records every declaration of the program in the tables, in order.
    pub(crate) fn collect_decls(&mut self, program: &Program)
        requires
            old(self).fn_table@.len() == 0,
            old(self).type_table@.len() == 0,
            old(self).variant_to_type@.len() == 0,
        ensures
            final(self).tables() == tables(program.decls@),
            final(self).diagnostics == old(self).diagnostics,
    {
        let decls = &program.decls;
        let mut i: usize = 0;
        assert(decls@.take(0) =~= Seq::<TopDecl>::empty());
        assert(types_v(self.type_table@) =~= type_entries(decls@.take(0)));
        assert(fns_v(self.fn_table@) =~= fn_entries(decls@.take(0)));
        assert(owners_v(self.variant_to_type@) =~= owner_entries(decls@.take(0)));
        while i < decls.len()
            invariant
                i <= decls.len(),
                types_v(self.type_table@) == type_entries(decls@.take(i as int)),
                fns_v(self.fn_table@) == fn_entries(decls@.take(i as int)),
                owners_v(self.variant_to_type@) == owner_entries(decls@.take(i as int)),
                self.diagnostics == old(self).diagnostics,
            decreases decls.len() - i,
        {
            let ghost prefix = decls@.take(i + 1);
            proof {
                assert(prefix.drop_last() =~= decls@.take(i as int));
                assert(prefix.last() == decls@[i as int]);
            }
            match &decls[i] {
                TopDecl::Type(td) => {
                    let ghost owners0 = owners_v(self.variant_to_type@);
                    let ghost types0 = types_v(self.type_table@);
                    let generics = copy_strings(&td.generics);
                    let (kind, fields, variants) = match &td.kind {
                        TypeDeclKind::State(r) => (DeclKind::State, self.collect_fields(&r.fields), Vec::new()),
                        TypeDeclKind::Record(r) => (DeclKind::Record, self.collect_fields(&r.fields), Vec::new()),
                        TypeDeclKind::Event(v) => (DeclKind::Event, Vec::new(), self.collect_variants(&v.variants, &td.name)),
                        TypeDeclKind::Query(v) => (DeclKind::Query, Vec::new(), self.collect_variants(&v.variants, &td.name)),
                        TypeDeclKind::Enum(v) => (DeclKind::Enum, Vec::new(), self.collect_variants(&v.variants, &td.name)),
                    };
                    let info = TypeInfo { kind, generics, fields, variants };
                    proof {
                        assert(info_v(info).generics =~= type_info(*td).generics);
                        assert(info_v(info).fields =~= type_info(*td).fields);
                        assert(info_v(info).variants =~= type_info(*td).variants);
                        assert(owners_v(self.variant_to_type@) =~= owners0 + variant_owners(*td));
                    }
                    self.type_table.push((td.name.clone(), info));
                    proof {
                        assert(types_v(self.type_table@) =~= types0 + seq![(td.name@, type_info(*td))]);
                    }
                },
                TopDecl::Function(fd) => {
                    let ghost fns0 = fns_v(self.fn_table@);
                    let mut params: Vec<Ty> = Vec::new();
                    let mut k: usize = 0;
                    while k < fd.params.len()
                        invariant
                            k <= fd.params.len(),
                            params.len() == k,
                            forall|j: int| 0 <= j < k ==> #[trigger] tyv(params@[j]) == ty_of(fd.params@[j].type_expr),
                        decreases fd.params.len() - k,
                    {
                        params.push(ty_from_ast(&fd.params[k].type_expr));
                        k += 1;
                    }
                    let return_ty = ty_from_ast(&fd.return_type);
                    let info = FnInfo { kind: fd.kind, params, return_ty };
                    proof {
                        lemma_tyvs0(info.params@);
                        assert(fninfo_v(info).params =~= fn_info(*fd).params);
                    }
                    self.fn_table.push((fd.name.clone(), info));
                    proof {
                        assert(fns_v(self.fn_table@) =~= fns0 + seq![(fd.name@, fn_info(*fd))]);
                    }
                },
            }
            proof {
                assert(types_v(self.type_table@) =~= type_entries(prefix));
                assert(fns_v(self.fn_table@) =~= fn_entries(prefix));
                assert(owners_v(self.variant_to_type@) =~= owner_entries(prefix));
            }
            i += 1;
        }
        assert(decls@.take(decls.len() as int) =~= decls@);
    }
}

/// Copies of the strings of `v`.
pub(crate) fn copy_strings(v: &Vec<String>) -> (r: Vec<String>)
    ensures
        r@.map_values(|s: String| s@) == v@.map_values(|s: String| s@),
{
    let mut out: Vec<String> = Vec::new();
    let mut i: usize = 0;
    while i < v.len()
        invariant
            i <= v.len(),
            out.len() == i,
            forall|k: int| 0 <= k < i ==> (#[trigger] out@[k])@ == v@[k]@,
        decreases v.len() - i,
    {
        out.push(v[i].clone());
        i += 1;
    }
    assert(out@.map_values(|s: String| s@) =~= v@.map_values(|s: String| s@));
    out
}

/// Deep copies of named types.
pub(crate) fn copy_fields(v: &Vec<(String, Ty)>) -> (r: Vec<(String, Ty)>)
    ensures
        fields_v(r@) == fields_v(v@),
{
    let mut out: Vec<(String, Ty)> = Vec::new();
    let mut i: usize = 0;
    while i < v.len()
        invariant
            i <= v.len(),
            out.len() == i,
            forall|k: int| 0 <= k < i ==> (#[trigger] out@[k]).0@ == v@[k].0@ && tyv(out@[k].1) == tyv(v@[k].1),
        decreases v.len() - i,
    {
        out.push((v[i].0.clone(), v[i].1.copy()));
        i += 1;
    }
    assert(fields_v(out@) =~= fields_v(v@));
    out
}

impl Checker {
    pub(crate) fn lookup_type(&self, name: &String) -> (r: Option<&TypeInfo>)
        ensures
            match r {
                Some(i) => last_entry(self.tables().types, name@) == Some(info_v(*i)),
                None => last_entry(self.tables().types, name@) is None,
            },
    {
        let ghost v = self.tables().types;
        match find_last(&self.type_table, name) {
            Some(i) => {
                proof {
                    assert forall|j: int| i < j < v.len() implies (#[trigger] v[j]).0 != name@ by {
                        assert(v[j].0 == self.type_table@[j].0@);
                    }
                    lemma_last_entry(v, name@, i as int);
                }
                Some(&self.type_table[i].1)
            },
            None => {
                proof {
                    assert forall|j: int| 0 <= j < v.len() implies (#[trigger] v[j]).0 != name@ by {
                        assert(v[j].0 == self.type_table@[j].0@);
                    }
                    lemma_last_entry_none(v, name@);
                }
                None
            },
        }
    }

    pub(crate) fn lookup_fn(&self, name: &String) -> (r: Option<&FnInfo>)
        ensures
            match r {
                Some(i) => last_entry(self.tables().fns, name@) == Some(fninfo_v(*i)),
                None => last_entry(self.tables().fns, name@) is None,
            },
    {
        let ghost v = self.tables().fns;
        match find_last(&self.fn_table, name) {
            Some(i) => {
                proof {
                    assert forall|j: int| i < j < v.len() implies (#[trigger] v[j]).0 != name@ by {
                        assert(v[j].0 == self.fn_table@[j].0@);
                    }
                    lemma_last_entry(v, name@, i as int);
                }
                Some(&self.fn_table[i].1)
            },
            None => {
                proof {
                    assert forall|j: int| 0 <= j < v.len() implies (#[trigger] v[j]).0 != name@ by {
                        assert(v[j].0 == self.fn_table@[j].0@);
                    }
                    lemma_last_entry_none(v, name@);
                }
                None
            },
        }
    }

    pub(crate) fn lookup_owner(&self, name: &String) -> (r: Option<&String>)
        ensures
            match r {
                Some(o) => last_entry(self.tables().owners, name@) == Some(o@),
                None => last_entry(self.tables().owners, name@) is None,
            },
    {
        let ghost v = self.tables().owners;
        match find_last(&self.variant_to_type, name) {
            Some(i) => {
                proof {
                    assert forall|j: int| i < j < v.len() implies (#[trigger] v[j]).0 != name@ by {
                        assert(v[j].0 == self.variant_to_type@[j].0@);
                    }
                    lemma_last_entry(v, name@, i as int);
                }
                Some(&self.variant_to_type[i].1)
            },
            None => {
                proof {
                    assert forall|j: int| 0 <= j < v.len() implies (#[trigger] v[j]).0 != name@ by {
                        assert(v[j].0 == self.variant_to_type@[j].0@);
                    }
                    lemma_last_entry_none(v, name@);
                }
                None
            },
        }
    }
}

} // verus!
