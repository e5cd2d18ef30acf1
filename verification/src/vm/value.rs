use vstd::prelude::*;
use vstd::string::StrSliceExecFns;

verus! {

/// A runtime value. Map entries and enum payload fields are kept in ascending key order,
/// one entry per key (the order in which a sorted map iterates).
#[derive(Debug, PartialEq, Eq)]
pub enum VmValue {
    Unit,
    Int(i64),
    Bool(bool),
    String(String),
    List(Vec<VmValue>),
    Tuple(Vec<VmValue>),
    Dict(Vec<(String, VmValue)>),
    Enum { tag: String, fields: Vec<(String, VmValue)> },
}

/// The mathematical content of a runtime value.
pub enum Val {
    Unit,
    Int(i64),
    Bool(bool),
    Str(Seq<char>),
    List(Seq<Val>),
    Tuple(Seq<Val>),
    Dict(Seq<(Seq<char>, Val)>),
    Enum(Seq<char>, Seq<(Seq<char>, Val)>),
}

/// Key/value entries, by content.
pub type Entries = Seq<(Seq<char>, Val)>;

pub open spec fn val(v: VmValue) -> Val
    decreases v, 0int,
{
    match v {
        VmValue::Unit => Val::Unit,
        VmValue::Int(i) => Val::Int(i),
        VmValue::Bool(b) => Val::Bool(b),
        VmValue::String(s) => Val::Str(s@),
        VmValue::List(items) => Val::List(vals(items@, 0)),
        VmValue::Tuple(items) => Val::Tuple(vals(items@, 0)),
        VmValue::Dict(es) => Val::Dict(entries(es@, 0)),
        VmValue::Enum { tag, fields } => Val::Enum(tag@, entries(fields@, 0)),
    }
}

/// The contents of `s[i..]`.
pub open spec fn vals(s: Seq<VmValue>, i: int) -> Seq<Val>
    decreases s, s.len() - i,
{
    if 0 <= i < s.len() {
        seq![val(s[i])] + vals(s, i + 1)
    } else {
        seq![]
    }
}

/// The contents of the entries `s[i..]`.
pub open spec fn entries(s: Seq<(String, VmValue)>, i: int) -> Entries
    decreases s, s.len() - i,
{
    if 0 <= i < s.len() {
        seq![(s[i].0@, val(s[i].1))] + entries(s, i + 1)
    } else {
        seq![]
    }
}

pub proof fn lemma_vals(s: Seq<VmValue>, i: int)
    requires
        0 <= i <= s.len(),
    ensures
        vals(s, i) == Seq::new((s.len() - i) as nat, |k: int| val(s[i + k])),
    decreases s.len() - i,
{
    if i < s.len() {
        lemma_vals(s, i + 1);
        assert(vals(s, i) =~= Seq::new((s.len() - i) as nat, |k: int| val(s[i + k])));
    } else {
        assert(vals(s, i) =~= Seq::new((s.len() - i) as nat, |k: int| val(s[i + k])));
    }
}

pub proof fn lemma_entries(s: Seq<(String, VmValue)>, i: int)
    requires
        0 <= i <= s.len(),
    ensures
        entries(s, i) == Seq::new((s.len() - i) as nat, |k: int| (s[i + k].0@, val(s[i + k].1))),
    decreases s.len() - i,
{
    if i < s.len() {
        lemma_entries(s, i + 1);
        assert(entries(s, i) =~= Seq::new(
            (s.len() - i) as nat,
            |k: int| (s[i + k].0@, val(s[i + k].1)),
        ));
    } else {
        assert(entries(s, i) =~= Seq::new(
            (s.len() - i) as nat,
            |k: int| (s[i + k].0@, val(s[i + k].1)),
        ));
    }
}

/// `vals` taken from index 0, characterized pointwise.
pub proof fn lemma_vals0(s: Seq<VmValue>)
    ensures
        vals(s, 0).len() == s.len(),
        forall|k: int| 0 <= k < s.len() ==> #[trigger] vals(s, 0)[k] == val(s[k]),
{
    lemma_vals(s, 0);
}

pub proof fn lemma_entries0(s: Seq<(String, VmValue)>)
    ensures
        entries(s, 0).len() == s.len(),
        forall|k: int| 0 <= k < s.len() ==> #[trigger] entries(s, 0)[k] == (s[k].0@, val(s[k].1)),
{
    lemma_entries(s, 0);
}

// ---------------------------------------------------------------------------
// Copies
// ---------------------------------------------------------------------------

pub fn copy_values(items: &Vec<VmValue>) -> (r: Vec<VmValue>)
    ensures
        vals(r@, 0) == vals(items@, 0),
    decreases items@, 0int,
{
    let mut out: Vec<VmValue> = Vec::new();
    let mut i: usize = 0;
    while i < items.len()
        invariant
            i <= items.len(),
            out.len() == i,
            forall|k: int| 0 <= k < i ==> val(#[trigger] out@[k]) == val(items@[k]),
        decreases items.len() - i,
    {
        proof {
            assert(decreases_to!(items@ => items@[i as int]));
        }
        out.push(copy_value(&items[i]));
        i += 1;
    }
    proof {
        lemma_vals0(out@);
        lemma_vals0(items@);
        assert(vals(out@, 0) =~= vals(items@, 0));
    }
    out
}

pub fn copy_entries(es: &Vec<(String, VmValue)>) -> (r: Vec<(String, VmValue)>)
    ensures
        entries(r@, 0) == entries(es@, 0),
    decreases es@, 0int,
{
    let mut out: Vec<(String, VmValue)> = Vec::new();
    let mut i: usize = 0;
    while i < es.len()
        invariant
            i <= es.len(),
            out.len() == i,
            forall|k: int|
                0 <= k < i ==> (#[trigger] out@[k]).0@ == es@[k].0@ && val(out@[k].1) == val(
                    es@[k].1,
                ),
        decreases es.len() - i,
    {
        proof {
            assert(decreases_to!(es@ => es@[i as int].1));
        }
        let v = copy_value(&es[i].1);
        out.push((es[i].0.clone(), v));
        i += 1;
    }
    proof {
        lemma_entries0(out@);
        lemma_entries0(es@);
        assert(entries(out@, 0) =~= entries(es@, 0));
    }
    out
}

/// A copy of a value with the same contents.
pub fn copy_value(v: &VmValue) -> (r: VmValue)
    ensures
        val(r) == val(*v),
    decreases v, 1int,
{
    match v {
        VmValue::Unit => VmValue::Unit,
        VmValue::Int(i) => VmValue::Int(*i),
        VmValue::Bool(b) => VmValue::Bool(*b),
        VmValue::String(s) => VmValue::String(s.clone()),
        VmValue::List(items) => VmValue::List(copy_values(items)),
        VmValue::Tuple(items) => VmValue::Tuple(copy_values(items)),
        VmValue::Dict(es) => VmValue::Dict(copy_entries(es)),
        VmValue::Enum { tag, fields } => VmValue::Enum { tag: tag.clone(), fields: copy_entries(fields) },
    }
}

impl Clone for VmValue {
    fn clone(&self) -> (r: Self)
        ensures
            val(r) == val(*self),
    {
        copy_value(self)
    }
}

// ---------------------------------------------------------------------------
// Key order and sorted entries
// ---------------------------------------------------------------------------

/// Lexicographic order of character sequences by code point (the byte order of their UTF-8
/// encodings, which is how strings are ordered).
pub open spec fn chars_lt(a: Seq<char>, b: Seq<char>) -> bool
    decreases a.len(),
{
    if a.len() == 0 {
        b.len() > 0
    } else if b.len() == 0 {
        false
    } else if a[0] != b[0] {
        (a[0] as u32) < (b[0] as u32)
    } else {
        chars_lt(a.drop_first(), b.drop_first())
    }
}

pub fn string_lt(a: &String, b: &String) -> (r: bool)
    ensures
        r == chars_lt(a@, b@),
{
    let sa = a.as_str();
    let sb = b.as_str();
    let la = sa.unicode_len();
    let lb = sb.unicode_len();
    let mut i: usize = 0;
    assert(a@.skip(0) =~= a@);
    assert(b@.skip(0) =~= b@);
    while i < la && i < lb
        invariant
            la == a@.len(),
            lb == b@.len(),
            sa@ == a@,
            sb@ == b@,
            i <= la,
            i <= lb,
            chars_lt(a@, b@) == chars_lt(a@.skip(i as int), b@.skip(i as int)),
        decreases la - i,
    {
        let ca = sa.get_char(i);
        let cb = sb.get_char(i);
        proof {
            assert(a@.skip(i as int)[0] == ca);
            assert(b@.skip(i as int)[0] == cb);
        }
        if ca != cb {
            return (ca as u32) < (cb as u32);
        }
        proof {
            assert(a@.skip(i as int).drop_first() =~= a@.skip(i + 1));
            assert(b@.skip(i as int).drop_first() =~= b@.skip(i + 1));
        }
        i += 1;
    }
    i == la && i < lb
}

/// The entries after setting `k` to `v` in sorted entries `m` (a sorted map's insert).
pub open spec fn map_insert(m: Entries, k: Seq<char>, v: Val) -> Entries
    decreases m.len(),
{
    if m.len() == 0 {
        seq![(k, v)]
    } else if m[0].0 == k {
        seq![(k, v)] + m.drop_first()
    } else if chars_lt(k, m[0].0) {
        seq![(k, v)] + m
    } else {
        seq![m[0]] + map_insert(m.drop_first(), k, v)
    }
}

/// The value of the first entry with key `k`.
pub open spec fn map_get(m: Entries, k: Seq<char>) -> Option<Val>
    decreases m.len(),
{
    if m.len() == 0 {
        None
    } else if m[0].0 == k {
        Some(m[0].1)
    } else {
        map_get(m.drop_first(), k)
    }
}

proof fn lemma_map_insert_split(m: Entries, k: Seq<char>, v: Val, i: int)
    requires
        0 <= i <= m.len(),
        forall|j: int| 0 <= j < i ==> (#[trigger] m[j]).0 != k && !chars_lt(k, m[j].0),
    ensures
        map_insert(m, k, v) == m.take(i) + map_insert(m.skip(i), k, v),
    decreases i,
{
    if i > 0 {
        let t = m.drop_first();
        assert forall|j: int| 0 <= j < i - 1 implies (#[trigger] t[j]).0 != k && !chars_lt(k, t[j].0) by {
            assert(t[j] == m[j + 1]);
        }
        lemma_map_insert_split(t, k, v, i - 1);
        assert(t.take(i - 1) =~= m.take(i).drop_first());
        assert(t.skip(i - 1) =~= m.skip(i));
        assert(m.take(i) =~= seq![m[0]] + m.take(i).drop_first());
        assert(map_insert(m, k, v) =~= m.take(i) + map_insert(m.skip(i), k, v));
    } else {
        assert(m.skip(0) =~= m);
        assert(m.take(0) + map_insert(m, k, v) =~= map_insert(m, k, v));
    }
}

/// Sets `k` to `v` in sorted entries.
pub fn entries_insert(m: &mut Vec<(String, VmValue)>, k: String, v: VmValue)
    ensures
        entries(final(m)@, 0) == map_insert(entries(old(m)@, 0), k@, val(v)),
{
    let ghost m0 = entries(m@, 0);
    proof {
        lemma_entries0(m@);
    }
    let mut i: usize = 0;
    while i < m.len() && !(m[i].0 == k || string_lt(&k, &m[i].0))
        invariant
            i <= m.len(),
            m0 == entries(m@, 0),
            m0.len() == m.len(),
            forall|k2: int| 0 <= k2 < m.len() ==> #[trigger] m0[k2] == (m@[k2].0@, val(m@[k2].1)),
            forall|j: int| 0 <= j < i ==> (#[trigger] m0[j]).0 != k@ && !chars_lt(k@, m0[j].0),
        decreases m.len() - i,
    {
        i += 1;
    }
    proof {
        lemma_map_insert_split(m0, k@, val(v), i as int);
    }
    if i < m.len() && m[i].0 == k {
        proof {
            assert(m0.skip(i as int)[0].0 == k@);
            assert(m0.skip(i as int).drop_first() =~= m0.skip(i + 1));
        }
        m.set(i, (k, v));
        proof {
            lemma_entries0(m@);
            assert(entries(m@, 0) =~= m0.take(i as int) + map_insert(m0.skip(i as int), k@, val(v)));
        }
    } else {
        proof {
            if i < m.len() {
                assert(m0.skip(i as int)[0] == m0[i as int]);
                assert(map_insert(m0.skip(i as int), k@, val(v)) == seq![(k@, val(v))] + m0.skip(i as int));
            } else {
                assert(m0.skip(i as int) =~= Seq::<(Seq<char>, Val)>::empty());
            }
        }
        m.insert(i, (k, v));
        proof {
            lemma_entries0(m@);
            assert(entries(m@, 0) =~= m0.take(i as int) + map_insert(m0.skip(i as int), k@, val(v)));
        }
    }
}

/// The first entry with key `k`.
pub fn entries_get<'a>(m: &'a Vec<(String, VmValue)>, k: &String) -> (r: Option<&'a VmValue>)
    ensures
        r matches Some(v) ==> map_get(entries(m@, 0), k@) == Some(val(*v)),
        r is None ==> map_get(entries(m@, 0), k@) is None,
{
    let ghost m0 = entries(m@, 0);
    proof {
        lemma_entries0(m@);
    }
    let mut i: usize = 0;
    assert(m0.skip(0) =~= m0);
    while i < m.len()
        invariant
            i <= m.len(),
            m0 == entries(m@, 0),
            m0.len() == m.len(),
            forall|k2: int| 0 <= k2 < m.len() ==> #[trigger] m0[k2] == (m@[k2].0@, val(m@[k2].1)),
            map_get(m0, k@) == map_get(m0.skip(i as int), k@),
        decreases m.len() - i,
    {
        proof {
            assert(m0.skip(i as int)[0] == m0[i as int]);
            assert(m0.skip(i as int).drop_first() =~= m0.skip(i + 1));
        }
        if m[i].0 == *k {
            return Some(&m[i].1);
        }
        i += 1;
    }
    None
}

// ---------------------------------------------------------------------------
// Memory estimate
// ---------------------------------------------------------------------------

pub open spec fn sat_add(a: usize, b: usize) -> usize {
    if a + b > usize::MAX {
        usize::MAX
    } else {
        (a + b) as usize
    }
}

/// The number of bytes of the UTF-8 encoding of `s`.
pub open spec fn text_bytes(s: Seq<char>) -> usize {
    vstd::utf8::encode_utf8(s).len() as usize
}

/// The bytes charged for a value: 16 for the value itself, plus its text and its parts.
pub open spec fn estimate(v: Val) -> usize
    decreases v, 0int,
{
    match v {
        Val::Unit => 16,
        Val::Int(_) => 16,
        Val::Bool(_) => 16,
        Val::Str(s) => sat_add(16, text_bytes(s)),
        Val::List(items) => estimate_items(items, 0, 16),
        Val::Tuple(items) => estimate_items(items, 0, 16),
        Val::Dict(es) => estimate_entries(es, 0, 16),
        Val::Enum(tag, fs) => estimate_entries(fs, 0, sat_add(16, text_bytes(tag))),
    }
}

pub open spec fn estimate_items(items: Seq<Val>, i: int, acc: usize) -> usize
    decreases items, items.len() - i,
{
    if 0 <= i < items.len() {
        estimate_items(items, i + 1, sat_add(acc, estimate(items[i])))
    } else {
        acc
    }
}

pub open spec fn estimate_entries(es: Entries, i: int, acc: usize) -> usize
    decreases es, es.len() - i,
{
    if 0 <= i < es.len() {
        estimate_entries(es, i + 1, sat_add(sat_add(acc, text_bytes(es[i].0)), estimate(es[i].1)))
    } else {
        acc
    }
}

fn sat(a: usize, b: usize) -> (r: usize)
    ensures
        r == sat_add(a, b),
{
    a.saturating_add(b)
}

fn string_bytes(s: &String) -> (r: usize)
    ensures
        r == text_bytes(s@),
{
    s.as_str().len()
}

/// The bytes charged for a value.
pub fn estimate_value_bytes(value: &VmValue) -> (r: usize)
    ensures
        r == estimate(val(*value)),
    decreases value, 1int,
{
    match value {
        VmValue::Unit => 16,
        VmValue::Int(_) => 16,
        VmValue::Bool(_) => 16,
        VmValue::String(s) => sat(16, string_bytes(s)),
        VmValue::List(items) => estimate_vec(items),
        VmValue::Tuple(items) => estimate_vec(items),
        VmValue::Dict(es) => estimate_entry_vec(es, 16),
        VmValue::Enum { tag, fields } => estimate_entry_vec(fields, sat(16, string_bytes(tag))),
    }
}

fn estimate_vec(items: &Vec<VmValue>) -> (r: usize)
    ensures
        r == estimate_items(vals(items@, 0), 0, 16),
    decreases items@, 0int,
{
    let ghost vs = vals(items@, 0);
    proof {
        lemma_vals0(items@);
    }
    let mut acc: usize = 16;
    let mut i: usize = 0;
    while i < items.len()
        invariant
            i <= items.len(),
            vs == vals(items@, 0),
            vs.len() == items.len(),
            forall|k: int| 0 <= k < items.len() ==> #[trigger] vs[k] == val(items@[k]),
            estimate_items(vs, 0, 16) == estimate_items(vs, i as int, acc),
        decreases items.len() - i,
    {
        proof {
            assert(decreases_to!(items@ => items@[i as int]));
        }
        let e = estimate_value_bytes(&items[i]);
        acc = sat(acc, e);
        i += 1;
    }
    acc
}

fn estimate_entry_vec(es: &Vec<(String, VmValue)>, start: usize) -> (r: usize)
    ensures
        r == estimate_entries(entries(es@, 0), 0, start),
    decreases es@, 0int,
{
    let ghost m = entries(es@, 0);
    proof {
        lemma_entries0(es@);
    }
    let mut acc: usize = start;
    let mut i: usize = 0;
    while i < es.len()
        invariant
            i <= es.len(),
            m == entries(es@, 0),
            m.len() == es.len(),
            forall|k: int| 0 <= k < es.len() ==> #[trigger] m[k] == (es@[k].0@, val(es@[k].1)),
            estimate_entries(m, 0, start) == estimate_entries(m, i as int, acc),
        decreases es.len() - i,
    {
        proof {
            assert(decreases_to!(es@ => es@[i as int].1));
        }
        let kb = string_bytes(&es[i].0);
        let e = estimate_value_bytes(&es[i].1);
        acc = sat(sat(acc, kb), e);
        i += 1;
    }
    acc
}

} // verus!
