use vstd::prelude::*;
use crate::codec::{
    entries_depth, items_depth, lemma_chars_lt_asym, lemma_entries_depth, lemma_items_depth, lemma_nested_more,
    nested_within, plain_tree, sorted_keys, text_key, val_depth, CborTree,
};
use crate::cbor_order::canon_sorted;
use crate::codec::ordered_maps;
use crate::ffi::{cino_error_code_t, FfiError};
use crate::text::{concat_str, owned};
use crate::vm::value::{
    chars_lt, entries, entries_insert, lemma_entries0, lemma_vals0, map_get, map_insert, val, vals, Entries, Val,
    VmValue,
};

verus! {

// ---------------------------------------------------------------------------
// CBOR values of serde_cbor, as the host interface exchanges them
// ---------------------------------------------------------------------------

#[verifier::external_type_specification]
#[verifier::external_body]
pub struct ExHostValue(serde_cbor::Value);

#[verifier::external_type_specification]
#[verifier::external_body]
pub struct ExHostError(serde_cbor::Error);

/// What a serde_cbor value holds; a map's entries in the order in which the map keeps them.
pub uninterp spec fn host_content(v: serde_cbor::Value) -> CborTree;

/// What `serde_cbor::from_slice` decodes from the bytes `bytes`, if they decode.
pub uninterp spec fn host_decoding(bytes: Seq<u8>) -> Option<CborTree>;

/// The bytes `serde_cbor::to_vec` writes for a value with content `t`, if it writes it.
pub uninterp spec fn host_encoding(t: CborTree) -> Option<Seq<u8>>;

/// The entries of a serde_cbor map made from `es`, in the order in which the map keeps them.
pub uninterp spec fn host_map_order(es: Seq<(CborTree, CborTree)>) -> Seq<(CborTree, CborTree)>;

pub open spec fn host_contents(s: Seq<serde_cbor::Value>) -> Seq<CborTree> {
    s.map_values(|x: serde_cbor::Value| host_content(x))
}

pub open spec fn host_pair_contents(s: Seq<(serde_cbor::Value, serde_cbor::Value)>) -> Seq<(CborTree, CborTree)> {
    s.map_values(|e: (serde_cbor::Value, serde_cbor::Value)| (host_content(e.0), host_content(e.1)))
}

pub open spec fn host_ref_contents<'a>(s: Seq<(&'a serde_cbor::Value, &'a serde_cbor::Value)>) -> Seq<(CborTree, CborTree)> {
    s.map_values(|e: (&'a serde_cbor::Value, &'a serde_cbor::Value)| (host_content(*e.0), host_content(*e.1)))
}

/// No text occurs twice as a key.
pub open spec fn distinct_text_keys(es: Seq<(CborTree, CborTree)>) -> bool {
    forall|i: int, j: int|
        0 <= i < es.len() && 0 <= j < es.len() && i != j && (#[trigger] es[i]).0 is Text ==> es[i].0
            != (#[trigger] es[j]).0
}

/// Every key is a text, and no text occurs twice.
pub open spec fn text_keys(es: Seq<(CborTree, CborTree)>) -> bool {
    &&& forall|i: int| 0 <= i < es.len() ==> (#[trigger] es[i]).0 is Text
    &&& distinct_text_keys(es)
}

/// A map content that holds exactly the entries `es`, each once, keys being distinct texts.
pub open spec fn keeps_exactly(t: CborTree, es: Seq<(CborTree, CborTree)>) -> bool {
    &&& t is Entries
    &&& text_keys(t->Entries_0)
    &&& forall|i: int| 0 <= i < t->Entries_0.len() ==> es.contains(#[trigger] t->Entries_0[i])
    &&& forall|j: int| 0 <= j < es.len() ==> t->Entries_0.contains(#[trigger] es[j])
}

pub open spec fn keys_of(es: Seq<(CborTree, CborTree)>) -> Seq<CborTree> {
    es.map_values(|e: (CborTree, CborTree)| e.0)
}

pub open spec fn values_of(es: Seq<(CborTree, CborTree)>) -> Seq<CborTree> {
    es.map_values(|e: (CborTree, CborTree)| e.1)
}

/// A look at one level of a serde_cbor value; a map's entries in the map's order.
pub enum HostRead<'a> {
    Null,
    Bool(bool),
    Integer(i128),
    Text(&'a String),
    Array(&'a Vec<serde_cbor::Value>),
    Entries(Vec<(&'a serde_cbor::Value, &'a serde_cbor::Value)>),
    Other,
}

/// Tells the variants of `serde_cbor::Value` apart, and lists a map's entries with
/// `BTreeMap::iter`. Claims that each variant's content is the content of its parts, and that a
/// map, whose keys are distinct under serde_cbor's ordering of values, never holds one text
/// twice as a key (that ordering tells two texts apart by their characters).
#[verifier::external_body]
fn host_read<'a>(v: &'a serde_cbor::Value) -> (r: HostRead<'a>)
    ensures
        match r {
            HostRead::Null => host_content(*v) == CborTree::Null,
            HostRead::Bool(b) => host_content(*v) == CborTree::Bool(b),
            HostRead::Integer(n) => host_content(*v) == CborTree::Integer(n as int),
            HostRead::Text(s) => host_content(*v) == CborTree::Text(s@),
            HostRead::Array(a) => host_content(*v) == CborTree::Array(host_contents(a@)),
            HostRead::Entries(m) => host_content(*v) == CborTree::Entries(host_ref_contents(m@))
                && distinct_text_keys(host_ref_contents(m@)),
            HostRead::Other => host_content(*v) == CborTree::Other,
        },
{
    match v {
        serde_cbor::Value::Null => HostRead::Null,
        serde_cbor::Value::Bool(b) => HostRead::Bool(*b),
        serde_cbor::Value::Integer(n) => HostRead::Integer(*n),
        serde_cbor::Value::Text(s) => HostRead::Text(s),
        serde_cbor::Value::Array(a) => HostRead::Array(a),
        serde_cbor::Value::Map(m) => HostRead::Entries(m.iter().collect()),
        _ => HostRead::Other,
    }
}

/// `serde_cbor::Value::Null`.
#[verifier::external_body]
fn host_null() -> (r: serde_cbor::Value)
    ensures
        host_content(r) == CborTree::Null,
{
    serde_cbor::Value::Null
}

/// `serde_cbor::Value::Bool`.
#[verifier::external_body]
fn host_bool(b: bool) -> (r: serde_cbor::Value)
    ensures
        host_content(r) == CborTree::Bool(b),
{
    serde_cbor::Value::Bool(b)
}

/// `serde_cbor::Value::Integer` of an `i64`.
#[verifier::external_body]
fn host_integer(n: i64) -> (r: serde_cbor::Value)
    ensures
        host_content(r) == CborTree::Integer(n as int),
{
    serde_cbor::Value::Integer(n.into())
}

/// `serde_cbor::Value::Text`.
#[verifier::external_body]
fn host_text(s: String) -> (r: serde_cbor::Value)
    ensures
        host_content(r) == CborTree::Text(s@),
{
    serde_cbor::Value::Text(s)
}

/// `serde_cbor::Value::Array`.
#[verifier::external_body]
fn host_array(items: Vec<serde_cbor::Value>) -> (r: serde_cbor::Value)
    ensures
        host_content(r) == CborTree::Array(host_contents(items@)),
{
    serde_cbor::Value::Array(items)
}

/// `serde_cbor::Value::Map` of a `BTreeMap` collected from `es`. Claims that for entries
/// without float, byte string or tag parts what the map keeps, in its order, is a function of
/// their contents; that each key and each value it keeps is one of those given (of entries with
/// equal keys the last is kept); and that when the keys are distinct texts (which serde_cbor's
/// ordering tells apart) the map keeps exactly the given entries, in the order of serde_cbor's
/// `Ord` on texts: the shorter UTF-8 encoding first, then by bytes, which is `canon_lt`.
#[verifier::external_body]
fn host_map(es: Vec<(serde_cbor::Value, serde_cbor::Value)>) -> (r: serde_cbor::Value)
    requires
        forall|i: int|
            0 <= i < es.len() ==> plain_tree(#[trigger] host_pair_contents(es@)[i].0) && plain_tree(
                host_pair_contents(es@)[i].1,
            ),
    ensures
        host_content(r) == CborTree::Entries(host_map_order(host_pair_contents(es@))),
        host_content(r) matches CborTree::Entries(out) && forall|i: int|
            0 <= i < out.len() ==> keys_of(host_pair_contents(es@)).contains(#[trigger] out[i].0) && values_of(
                host_pair_contents(es@),
            ).contains(out[i].1),
        text_keys(host_pair_contents(es@)) ==> keeps_exactly(host_content(r), host_pair_contents(es@)),
        text_keys(host_pair_contents(es@)) ==> canon_sorted(host_content(r)->Entries_0),
{
    serde_cbor::Value::Map(es.into_iter().collect())
}

/// `serde_cbor::from_slice` into a value: the value it decodes, or its error. The claim is that
/// what it decodes is a function of the bytes, and that its arrays and maps nest at most 127
/// deep: the reader starts with a depth budget of 128, takes one for each array and map it
/// enters, and fails when the budget reaches 0.
#[verifier::external_body]
fn host_from_slice(bytes: &[u8]) -> (r: Result<serde_cbor::Value, serde_cbor::Error>)
    ensures
        match r {
            Ok(v) => host_decoding(bytes@) == Some(host_content(v)),
            Err(_) => host_decoding(bytes@) is None,
        },
        r matches Ok(v) ==> nested_within(host_content(v), 127),
{
    serde_cbor::from_slice(bytes)
}

/// `serde_cbor::to_vec` of a value: the bytes written. The claim is that for a value without
/// float, byte string or tag parts and with integers of `i64`, writing succeeds (a vector takes
/// every write, and such integers fit CBOR), that what it writes is a function of its content,
/// and that `serde_cbor::from_slice` reads that content back from those bytes when its arrays
/// and maps are nested at most 127 deep, the depth `from_slice` allows (a map is written in the
/// order it keeps and read back into the same order).
#[verifier::external_body]
fn host_to_vec(v: &serde_cbor::Value) -> (r: Result<Vec<u8>, serde_cbor::Error>)
    requires
        plain_tree(host_content(*v)),
    ensures
        r is Ok,
        match r {
            Ok(b) => host_encoding(host_content(*v)) == Some(b@) && (nested_within(host_content(*v), 127)
                ==> host_decoding(b@) == Some(host_content(*v))),
            Err(_) => host_encoding(host_content(*v)) is None,
        },
{
    serde_cbor::to_vec(v)
}

/// The text of a serde_cbor error, as its `Display` writes it; nothing is claimed of it.
#[verifier::external_body]
fn host_error_text(e: &serde_cbor::Error) -> String {
    e.to_string()
}

// ---------------------------------------------------------------------------
// From CBOR to runtime values
// ---------------------------------------------------------------------------

/// The index of the first entry from `i` on whose key is the text `k`; the length when none.
pub open spec fn key_index(es: Seq<(CborTree, CborTree)>, k: Seq<char>, i: int) -> int
    decreases es.len() - i,
{
    if i < 0 || i >= es.len() {
        es.len() as int
    } else if text_key(es[i].0, k) {
        i
    } else {
        key_index(es, k, i + 1)
    }
}

/// Where the first entry with a given text key stands.
pub proof fn lemma_key_index(es: Seq<(CborTree, CborTree)>, k: Seq<char>, i: int)
    requires
        0 <= i <= es.len(),
    ensures
        i <= key_index(es, k, i) <= es.len(),
        key_index(es, k, i) < es.len() ==> text_key(es[key_index(es, k, i)].0, k),
    decreases es.len() - i,
{
    if i < es.len() && !text_key(es[i].0, k) {
        lemma_key_index(es, k, i + 1);
    }
}

/// The runtime value a CBOR content stands for at the host interface; `None` when it has an
/// invalid format.
pub open spec fn host_from_cbor(t: CborTree) -> Option<Val>
    decreases t, 2int, 0int,
{
    match t {
        CborTree::Null => Some(Val::Unit),
        CborTree::Bool(b) => Some(Val::Bool(b)),
        CborTree::Integer(n) => if i64::MIN <= n <= i64::MAX {
            Some(Val::Int(n as i64))
        } else {
            None
        },
        CborTree::Text(s) => Some(Val::Str(s)),
        CborTree::Array(items) => match host_items_from(items, 0) {
            Some(vs) => Some(Val::List(vs)),
            None => None,
        },
        CborTree::Entries(es) => host_map_value(es),
        CborTree::Other => None,
    }
}

/// The values of `items[i..]`, if each has a valid format.
pub open spec fn host_items_from(items: Seq<CborTree>, i: int) -> Option<Seq<Val>>
    decreases items, 1int, items.len() - i,
{
    if 0 <= i < items.len() {
        match (host_from_cbor(items[i]), host_items_from(items, i + 1)) {
            (Some(v), Some(vs)) => Some(seq![v] + vs),
            _ => None,
        }
    } else {
        Some(seq![])
    }
}

/// The entries `es[i..]`, each with a text key, set in order in `acc`.
pub open spec fn host_entries_from(es: Seq<(CborTree, CborTree)>, i: int, acc: Entries) -> Option<Entries>
    decreases es, 1int, es.len() - i,
{
    if 0 <= i < es.len() {
        match es[i].0 {
            CborTree::Text(k) => match host_from_cbor(es[i].1) {
                Some(v) => host_entries_from(es, i + 1, map_insert(acc, k, v)),
                None => None,
            },
            _ => None,
        }
    } else {
        Some(acc)
    }
}

/// The runtime value of a CBOR map: a map with the single key `$tuple` is a tuple; a map with
/// the key `$tag` is an enum value, which needs a text `$tag` and a `$fields` map; any other
/// map with text keys is a map.
pub open spec fn host_map_value(es: Seq<(CborTree, CborTree)>) -> Option<Val>
    decreases es, 1int, es.len() + 1,
{
    if es.len() == 1 && text_key(es[0].0, "$tuple"@) {
        match es[0].1 {
            CborTree::Array(items) => match host_items_from(items, 0) {
                Some(vs) => Some(Val::Tuple(vs)),
                None => None,
            },
            _ => None,
        }
    } else if key_index(es, "$tag"@, 0) < es.len() {
        let ti = key_index(es, "$tag"@, 0);
        let fi = key_index(es, "$fields"@, 0);
        proof {
            lemma_key_index(es, "$tag"@, 0);
            lemma_key_index(es, "$fields"@, 0);
        }
        if fi < es.len() {
            match es[ti].1 {
                CborTree::Text(tag) => match es[fi].1 {
                    CborTree::Entries(fs) => match host_entries_from(fs, 0, seq![]) {
                        Some(f) => Some(Val::Enum(tag, f)),
                        None => None,
                    },
                    _ => None,
                },
                _ => None,
            }
        } else {
            None
        }
    } else {
        match host_entries_from(es, 0, seq![]) {
            Some(m) => Some(Val::Dict(m)),
            None => None,
        }
    }
}

/// A value read from a content nested within `n` levels nests within `n` levels.
proof fn lemma_host_depth(t: CborTree, n: nat)
    requires
        nested_within(t, n),
        host_from_cbor(t) is Some,
    ensures
        val_depth(host_from_cbor(t).unwrap()) <= n,
    decreases t, 2int, 0int,
{
    match t {
        CborTree::Array(items) => {
            let d = (n - 1) as nat;
            lemma_host_items_depth(items, 0, d);
            let vs = host_items_from(items, 0).unwrap();
            lemma_items_depth_le(vs, 0, d);
        },
        CborTree::Entries(es) => lemma_host_map_depth(es, n),
        _ => {},
    }
}

/// The deepest of values that each nest within `d` levels nests within `d` levels.
proof fn lemma_items_depth_le(vs: Seq<Val>, i: int, d: nat)
    requires
        forall|k: int| 0 <= k < vs.len() ==> val_depth(#[trigger] vs[k]) <= d,
    ensures
        items_depth(vs, i) <= d,
    decreases vs.len() - i,
{
    if 0 <= i < vs.len() {
        lemma_items_depth_le(vs, i + 1, d);
    }
}

proof fn lemma_entries_depth_le(es: Entries, i: int, d: nat)
    requires
        forall|k: int| 0 <= k < es.len() ==> val_depth(#[trigger] es[k].1) <= d,
    ensures
        entries_depth(es, i) <= d,
    decreases es.len() - i,
{
    if 0 <= i < es.len() {
        lemma_entries_depth_le(es, i + 1, d);
    }
}

proof fn lemma_host_items_depth(items: Seq<CborTree>, i: int, d: nat)
    requires
        0 <= i <= items.len(),
        forall|j: int| 0 <= j < items.len() ==> nested_within(#[trigger] items[j], d),
        host_items_from(items, i) is Some,
    ensures
        forall|k: int|
            0 <= k < host_items_from(items, i).unwrap().len() ==> val_depth(
                #[trigger] host_items_from(items, i).unwrap()[k],
            ) <= d,
    decreases items, 1int, items.len() - i,
{
    if i < items.len() {
        lemma_host_depth(items[i], d);
        lemma_host_items_depth(items, i + 1, d);
        let v = host_from_cbor(items[i]).unwrap();
        let rest = host_items_from(items, i + 1).unwrap();
        let vs = host_items_from(items, i).unwrap();
        assert(vs == seq![v] + rest);
        assert forall|k: int| 0 <= k < vs.len() implies val_depth(#[trigger] vs[k]) <= d by {
            if k > 0 {
                assert(vs[k] == rest[k - 1]);
            }
        }
    }
}

proof fn lemma_host_entries_depth(es: Seq<(CborTree, CborTree)>, i: int, acc: Entries, d: nat)
    requires
        0 <= i <= es.len(),
        forall|j: int| 0 <= j < es.len() ==> nested_within(#[trigger] es[j].1, d),
        forall|k: int| 0 <= k < acc.len() ==> val_depth(#[trigger] acc[k].1) <= d,
        host_entries_from(es, i, acc) is Some,
    ensures
        forall|k: int|
            0 <= k < host_entries_from(es, i, acc).unwrap().len() ==> val_depth(
                #[trigger] host_entries_from(es, i, acc).unwrap()[k].1,
            ) <= d,
    decreases es, 1int, es.len() - i,
{
    if i < es.len() {
        let k = es[i].0->Text_0;
        let v = host_from_cbor(es[i].1).unwrap();
        lemma_host_depth(es[i].1, d);
        let m = map_insert(acc, k, v);
        lemma_map_insert_elems(acc, k, v);
        assert forall|x: int| 0 <= x < m.len() implies val_depth(#[trigger] m[x].1) <= d by {
            if m[x] != (k, v) {
                assert(acc.contains(m[x]));
                let y = choose|y: int| 0 <= y < acc.len() && acc[y] == m[x];
                assert(val_depth(acc[y].1) <= d);
            }
        }
        lemma_host_entries_depth(es, i + 1, m, d);
    }
}

proof fn lemma_host_map_depth(es: Seq<(CborTree, CborTree)>, n: nat)
    requires
        nested_within(CborTree::Entries(es), n),
        host_map_value(es) is Some,
    ensures
        val_depth(host_map_value(es).unwrap()) <= n,
    decreases es, 1int, es.len() + 1,
{
    let d = (n - 1) as nat;
    assert(nested_within(CborTree::Entries(es), n));
    assert(n > 0);
    assert forall|j: int| 0 <= j < es.len() implies nested_within(#[trigger] es[j].1, d) by {
        let t = CborTree::Entries(es);
        assert(t->Entries_0[j] == es[j]);
        assert(nested_within(t->Entries_0[j].0, d));
    }
    lemma_key_index(es, "$tag"@, 0);
    lemma_key_index(es, "$fields"@, 0);
    if es.len() == 1 && text_key(es[0].0, "$tuple"@) {
        let items = es[0].1->Array_0;
        assert(nested_within(es[0].1, d));
        let d2 = (d - 1) as nat;
        assert forall|j: int| 0 <= j < items.len() implies nested_within(#[trigger] items[j], d2) by {}
        lemma_host_items_depth(items, 0, d2);
        lemma_items_depth_le(host_items_from(items, 0).unwrap(), 0, d2);
    } else if key_index(es, "$tag"@, 0) < es.len() {
        let fi = key_index(es, "$fields"@, 0);
        let fs = es[fi].1->Entries_0;
        assert(nested_within(es[fi].1, d));
        let d2 = (d - 1) as nat;
        assert forall|j: int| 0 <= j < fs.len() implies nested_within(#[trigger] fs[j].1, d2) by {
            assert(nested_within(fs[j].0, d2) && nested_within(fs[j].1, d2));
        }
        let e0 = Seq::<(Seq<char>, Val)>::empty();
        lemma_host_entries_depth(fs, 0, e0, d2);
        lemma_entries_depth_le(host_entries_from(fs, 0, e0).unwrap(), 0, d2);
    } else {
        let e0 = Seq::<(Seq<char>, Val)>::empty();
        lemma_host_entries_depth(es, 0, e0, d);
        lemma_entries_depth_le(host_entries_from(es, 0, e0).unwrap(), 0, d);
    }
}

/// How the host interface reads a CBOR map: as a tuple exactly when its only key is `$tuple`;
/// otherwise as an enum value exactly when it has a `$tag` key (whose value is the tag's text,
/// beside a `$fields` key); otherwise as a map; never as anything else.
pub proof fn lemma_host_map_cases(es: Seq<(CborTree, CborTree)>)
    ensures
        host_map_value(es) matches Some(x) ==> (x is Tuple || x is Enum || x is Dict),
        host_map_value(es) matches Some(x) ==> (x is Tuple <==> es.len() == 1 && text_key(es[0].0, "$tuple"@)),
        host_map_value(es) matches Some(x) ==> (x is Enum <==> !(es.len() == 1 && text_key(es[0].0, "$tuple"@))
            && key_index(es, "$tag"@, 0) < es.len()),
        host_map_value(es) matches Some(Val::Enum(tag, _)) ==> key_index(es, "$fields"@, 0) < es.len() && es[key_index(
            es,
            "$tag"@,
            0,
        )].1 == CborTree::Text(tag),
{
    lemma_key_index(es, "$tag"@, 0);
    lemma_key_index(es, "$fields"@, 0);
}

/// Why a CBOR content cannot be read as a runtime value at the host interface: the message of
/// the first problem found.
pub open spec fn host_error(t: CborTree) -> Seq<char>
    decreases t, 2int, 0int,
{
    match t {
        CborTree::Integer(_) => "integer does not fit in i64"@,
        CborTree::Array(items) => host_items_error(items, 0),
        CborTree::Entries(es) => host_map_error(es),
        CborTree::Other => "unsupported CBOR type for VmValue"@,
        _ => seq![],
    }
}

/// The message of the first of `items[i..]` that cannot be read.
pub open spec fn host_items_error(items: Seq<CborTree>, i: int) -> Seq<char>
    decreases items, 1int, items.len() - i,
{
    if 0 <= i < items.len() {
        if host_from_cbor(items[i]) is None {
            host_error(items[i])
        } else {
            host_items_error(items, i + 1)
        }
    } else {
        seq![]
    }
}

/// The message of the first problem among the entries `es[i..]`; `key_message` for a key that
/// is not a text.
pub open spec fn host_entries_error(es: Seq<(CborTree, CborTree)>, i: int, key_message: Seq<char>) -> Seq<char>
    decreases es, 1int, es.len() - i,
{
    if 0 <= i < es.len() {
        match es[i].0 {
            CborTree::Text(_) => if host_from_cbor(es[i].1) is None {
                host_error(es[i].1)
            } else {
                host_entries_error(es, i + 1, key_message)
            },
            _ => key_message,
        }
    } else {
        seq![]
    }
}

/// The message of the first problem reading a CBOR map.
pub open spec fn host_map_error(es: Seq<(CborTree, CborTree)>) -> Seq<char>
    decreases es, 1int, es.len() + 1,
{
    if es.len() == 1 && text_key(es[0].0, "$tuple"@) {
        match es[0].1 {
            CborTree::Array(items) => host_items_error(items, 0),
            _ => "`$tuple` must be an array"@,
        }
    } else if key_index(es, "$tag"@, 0) < es.len() {
        let ti = key_index(es, "$tag"@, 0);
        let fi = key_index(es, "$fields"@, 0);
        proof {
            lemma_key_index(es, "$tag"@, 0);
            lemma_key_index(es, "$fields"@, 0);
        }
        if fi < es.len() {
            match es[ti].1 {
                CborTree::Text(_) => match es[fi].1 {
                    CborTree::Entries(fs) => host_entries_error(fs, 0, "enum field key must be text"@),
                    _ => "`$fields` must be a map"@,
                },
                _ => "`$tag` must be text"@,
            }
        } else {
            "enum map is missing `$fields`"@
        }
    } else {
        host_entries_error(es, 0, "map key must be text"@)
    }
}

/// Whether `m` is the message of the error decoding `bytes`: the first problem in what they
/// hold, or, when they hold no CBOR, serde_cbor's report after a fixed prefix.
pub open spec fn decode_failure(bytes: Seq<u8>, m: Seq<char>) -> bool {
    match host_decoding(bytes) {
        Some(t) => m == host_error(t),
        None => "failed to decode CBOR: "@.is_prefix_of(m),
    }
}

/// Whether `m` is the message of an error encoding: serde_cbor's report after a fixed prefix.
pub open spec fn encode_failure(m: Seq<char>) -> bool {
    "failed to encode CBOR: "@.is_prefix_of(m)
}

/// The runtime value the host's bytes stand for, if they decode to one.
pub open spec fn host_decode(bytes: Seq<u8>) -> Option<Val> {
    match host_decoding(bytes) {
        Some(t) => host_from_cbor(t),
        None => None,
    }
}

/// Whether one of the keys of `c[..i]` is the text `q`.
pub open spec fn key_before(c: Seq<(CborTree, CborTree)>, i: int, q: Seq<char>) -> bool {
    exists|j: int| 0 <= j < i && (#[trigger] c[j]).0 == CborTree::Text(q)
}

/// What decoding the entries `c` of a map with distinct keys gives: entries in key order, one
/// for each of `c`, each key taken from `c`, each value one that the host interface writes
/// back as it is.
pub open spec fn decoded_entries(c: Seq<(CborTree, CborTree)>, e: Entries) -> bool {
    &&& sorted_keys(e)
    &&& e.len() == c.len()
    &&& forall|t: int| 0 <= t < e.len() ==> host_well_formed(#[trigger] e[t].1)
    &&& forall|t: int| 0 <= t < e.len() ==> key_before(c, c.len() as int, #[trigger] e[t].0)
}

fn invalid_cbor(message: &str) -> (e: FfiError)
    ensures
        e.code == cino_error_code_t::CINO_ERROR_ABI_INVALID_CBOR,
        e.message@ == message@,
{
    FfiError::new(cino_error_code_t::CINO_ERROR_ABI_INVALID_CBOR, message)
}

/// Whether a CBOR value is the text `key`.
fn is_text_key(v: &serde_cbor::Value, key: &str) -> (r: bool)
    ensures
        r == text_key(host_content(*v), key@),
{
    match host_read(v) {
        HostRead::Text(s) => *s == owned(key),
        _ => false,
    }
}

/// The index of the first entry whose key is the text `key`; the length when there is none.
fn find_text_key(es: &Vec<(&serde_cbor::Value, &serde_cbor::Value)>, key: &str) -> (r: usize)
    ensures
        r == key_index(host_ref_contents(es@), key@, 0),
{
    let ghost c = host_ref_contents(es@);
    let mut i: usize = 0;
    while i < es.len()
        invariant
            i <= es.len(),
            c == host_ref_contents(es@),
            key_index(c, key@, 0) == key_index(c, key@, i as int),
        decreases es.len() - i,
    {
        assert(c[i as int].0 == host_content(*es@[i as int].0));
        if is_text_key(es[i].0, key) {
            return i;
        }
        i += 1;
    }
    i
}

/// The runtime value a CBOR value stands for.
fn vm_value_from_cbor(value: &serde_cbor::Value) -> (r: Result<VmValue, FfiError>)
    ensures
        match (r, host_from_cbor(host_content(*value))) {
            (Ok(v), Some(x)) => val(v) == x,
            (Err(e), None) => e.code == cino_error_code_t::CINO_ERROR_ABI_INVALID_CBOR && e.message@ == host_error(
                host_content(*value),
            ),
            _ => false,
        },
        r matches Ok(v) ==> host_well_formed(val(v)),
    decreases host_content(*value), 2int, 0int,
{
    match host_read(value) {
        HostRead::Null => Ok(VmValue::Unit),
        HostRead::Bool(b) => Ok(VmValue::Bool(b)),
        HostRead::Integer(n) => {
            if n < i64::MIN as i128 || n > i64::MAX as i128 {
                return Err(invalid_cbor("integer does not fit in i64"));
            }
            Ok(VmValue::Int(n as i64))
        },
        HostRead::Text(s) => Ok(VmValue::String(s.clone())),
        HostRead::Array(items) => {
            let out = decode_items(items)?;
            proof {
                lemma_vals0(out@);
            }
            Ok(VmValue::List(out))
        },
        HostRead::Entries(es) => parse_vm_map(&es),
        HostRead::Other => Err(invalid_cbor("unsupported CBOR type for VmValue")),
    }
}

/// The values of a CBOR array's items.
fn decode_items(items: &Vec<serde_cbor::Value>) -> (r: Result<Vec<VmValue>, FfiError>)
    ensures
        match (r, host_items_from(host_contents(items@), 0)) {
            (Ok(vs), Some(xs)) => vals(vs@, 0) == xs,
            (Err(e), None) => e.code == cino_error_code_t::CINO_ERROR_ABI_INVALID_CBOR && e.message@
                == host_items_error(host_contents(items@), 0),
            _ => false,
        },
        r matches Ok(vs) ==> forall|k: int| 0 <= k < vs@.len() ==> host_well_formed(val(#[trigger] vs@[k])),
    decreases host_contents(items@), 1int, 0int,
{
    let ghost c = host_contents(items@);
    let mut out: Vec<VmValue> = Vec::new();
    let mut i: usize = 0;
    proof {
        lemma_vals0(out@);
        assert(vals(out@, 0) + host_items_from(c, 0).unwrap_or(seq![]) =~= host_items_from(c, 0).unwrap_or(
            seq![],
        ));
    }
    while i < items.len()
        invariant
            i <= items.len(),
            c == host_contents(items@),
            host_items_from(c, 0) == match host_items_from(c, i as int) {
                Some(rest) => Some(vals(out@, 0) + rest),
                None => None::<Seq<Val>>,
            },
            host_items_error(c, 0) == host_items_error(c, i as int),
            forall|k: int| 0 <= k < out@.len() ==> host_well_formed(val(#[trigger] out@[k])),
        decreases items.len() - i,
    {
        proof {
            assert(c[i as int] == host_content(items@[i as int]));
            assert(decreases_to!(c => c[i as int]));
        }
        let v = vm_value_from_cbor(&items[i])?;
        let ghost before = out@;
        out.push(v);
        proof {
            lemma_vals0(before);
            lemma_vals0(out@);
            assert(vals(out@, 0) =~= vals(before, 0).push(val(v)));
            match host_items_from(c, i + 1) {
                Some(rest) => {
                    assert(vals(out@, 0) + rest =~= vals(before, 0) + (seq![val(v)] + rest));
                },
                None => {},
            }
        }
        i += 1;
    }
    proof {
        assert(vals(out@, 0) + seq![] =~= vals(out@, 0));
    }
    Ok(out)
}

/// The entries of a CBOR map whose keys are all texts, set in a sorted map; `key_message`
/// reports a key that is not a text.
fn decode_entries(es: &Vec<(&serde_cbor::Value, &serde_cbor::Value)>, key_message: &str) -> (r: Result<
    Vec<(String, VmValue)>,
    FfiError,
>)
    requires
        distinct_text_keys(host_ref_contents(es@)),
    ensures
        r matches Ok(m) ==> decoded_entries(host_ref_contents(es@), entries(m@, 0)),
        match (r, host_entries_from(host_ref_contents(es@), 0, seq![])) {
            (Ok(m), Some(xs)) => entries(m@, 0) == xs,
            (Err(e), None) => e.code == cino_error_code_t::CINO_ERROR_ABI_INVALID_CBOR && e.message@
                == host_entries_error(host_ref_contents(es@), 0, key_message@),
            _ => false,
        },
    decreases host_ref_contents(es@), 1int, 0int,
{
    let ghost c = host_ref_contents(es@);
    let mut acc: Vec<(String, VmValue)> = Vec::new();
    let mut i: usize = 0;
    proof {
        lemma_entries0(acc@);
        assert(entries(acc@, 0) =~= seq![]);
    }
    while i < es.len()
        invariant
            i <= es.len(),
            c == host_ref_contents(es@),
            host_entries_from(c, 0, seq![]) == host_entries_from(c, i as int, entries(acc@, 0)),
            host_entries_error(c, 0, key_message@) == host_entries_error(c, i as int, key_message@),
            distinct_text_keys(c),
            sorted_keys(entries(acc@, 0)),
            entries(acc@, 0).len() == i,
            forall|t: int| 0 <= t < entries(acc@, 0).len() ==> host_well_formed(#[trigger] entries(acc@, 0)[t].1),
            forall|t: int| 0 <= t < entries(acc@, 0).len() ==> key_before(c, i as int, #[trigger] entries(acc@, 0)[t].0),
        decreases es.len() - i,
    {
        proof {
            assert(c[i as int] == (host_content(*es@[i as int].0), host_content(*es@[i as int].1)));
            assert(decreases_to!(c => c[i as int]));
            assert(decreases_to!(c[i as int] => c[i as int].1));
        }
        let key = match host_read(es[i].0) {
            HostRead::Text(k) => k.clone(),
            _ => {
                return Err(invalid_cbor(key_message));
            },
        };
        let v = vm_value_from_cbor(es[i].1)?;
        let ghost e0 = entries(acc@, 0);
        let ghost k = key@;
        proof {
            assert(c[i as int].0 == CborTree::Text(k));
            assert forall|t: int| 0 <= t < e0.len() implies (#[trigger] e0[t]).0 != k by {
                assert(key_before(c, i as int, e0[t].0));
                let j = choose|j: int| 0 <= j < i && (#[trigger] c[j]).0 == CborTree::Text(e0[t].0);
                assert(c[j].0 != c[i as int].0);
            }
            lemma_map_insert_new(e0, k, val(v));
            lemma_map_insert_sorted(e0, k, val(v));
            lemma_map_insert_elems(e0, k, val(v));
        }
        entries_insert(&mut acc, key, v);
        proof {
            let e1 = entries(acc@, 0);
            assert forall|t: int| 0 <= t < e1.len() implies host_well_formed(#[trigger] e1[t].1) && key_before(
                c,
                i + 1,
                e1[t].0,
            ) by {
                if e1[t] == (k, val(v)) {
                    assert(c[i as int].0 == CborTree::Text(e1[t].0));
                } else {
                    assert(e0.contains(e1[t]));
                    let x = choose|x: int| 0 <= x < e0.len() && e0[x] == e1[t];
                    assert(host_well_formed(e0[x].1));
                    assert(key_before(c, i as int, e0[x].0));
                    let j = choose|j: int| 0 <= j < i && (#[trigger] c[j]).0 == CborTree::Text(e0[x].0);
                    assert(c[j].0 == CborTree::Text(e1[t].0));
                }
            }
        }
        i += 1;
    }
    Ok(acc)
}

/// The runtime value a CBOR map stands for: a tuple, an enum value or a map.
fn parse_vm_map(es: &Vec<(&serde_cbor::Value, &serde_cbor::Value)>) -> (r: Result<VmValue, FfiError>)
    requires
        distinct_text_keys(host_ref_contents(es@)),
    ensures
        r matches Ok(v) ==> host_well_formed(val(v)),
        match (r, host_map_value(host_ref_contents(es@))) {
            (Ok(v), Some(x)) => val(v) == x,
            (Err(e), None) => e.code == cino_error_code_t::CINO_ERROR_ABI_INVALID_CBOR && e.message@ == host_map_error(
                host_ref_contents(es@),
            ),
            _ => false,
        },
    decreases host_ref_contents(es@), 1int, 1int,
{
    let ghost c = host_ref_contents(es@);
    if es.len() == 1 && is_text_key(es[0].0, "$tuple") {
        proof {
            assert(c[0] == (host_content(*es@[0].0), host_content(*es@[0].1)));
            assert(decreases_to!(c => c[0]));
            assert(decreases_to!(c[0] => c[0].1));
        }
        return match host_read(es[0].1) {
            HostRead::Array(items) => {
                proof {
                    assert(decreases_to!(c[0].1 => host_contents(items@)));
                }
                let out = decode_items(items)?;
                proof {
                    lemma_vals0(out@);
                }
                Ok(VmValue::Tuple(out))
            },
            _ => Err(invalid_cbor("`$tuple` must be an array")),
        };
    }
    proof {
        if es.len() == 1 {
            assert(c[0].0 == host_content(*es@[0].0));
        }
        lemma_key_index(c, "$tag"@, 0);
        lemma_key_index(c, "$fields"@, 0);
    }
    let ti = find_text_key(es, "$tag");
    if ti < es.len() {
        let fi = find_text_key(es, "$fields");
        if fi == es.len() {
            return Err(invalid_cbor("enum map is missing `$fields`"));
        }
        proof {
            assert(c[ti as int] == (host_content(*es@[ti as int].0), host_content(*es@[ti as int].1)));
            assert(c[fi as int] == (host_content(*es@[fi as int].0), host_content(*es@[fi as int].1)));
            assert(decreases_to!(c => c[fi as int]));
            assert(decreases_to!(c[fi as int] => c[fi as int].1));
        }
        let tag = match host_read(es[ti].1) {
            HostRead::Text(t) => t.clone(),
            _ => {
                return Err(invalid_cbor("`$tag` must be text"));
            },
        };
        let raw = match host_read(es[fi].1) {
            HostRead::Entries(f) => f,
            _ => {
                return Err(invalid_cbor("`$fields` must be a map"));
            },
        };
        proof {
            assert(decreases_to!(c[fi as int].1 => host_ref_contents(raw@)));
        }
        let fields = decode_entries(&raw, "enum field key must be text")?;
        return Ok(VmValue::Enum { tag, fields });
    }
    let map = decode_entries(es, "map key must be text")?;
    proof {
        let e = entries(map@, 0);
        assert forall|t: int| 0 <= t < e.len() implies (#[trigger] e[t]).0 != "$tag"@ by {
            assert(key_before(c, c.len() as int, e[t].0));
            let j = choose|j: int| 0 <= j < c.len() && (#[trigger] c[j]).0 == CborTree::Text(e[t].0);
            if e[t].0 == "$tag"@ {
                lemma_key_index_first(c, "$tag"@, 0, j);
            }
        }
        if e.len() == 1 && e[0].0 == "$tuple"@ {
            assert(key_before(c, c.len() as int, e[0].0));
            let j = choose|j: int| 0 <= j < c.len() && (#[trigger] c[j]).0 == CborTree::Text(e[0].0);
            assert(j == 0);
            assert(c[0].0 == host_content(*es@[0].0));
        }
    }
    Ok(VmValue::Dict(map))
}

/// Decodes a runtime value from the host's CBOR bytes.
pub fn decode_vm_value(bytes: &[u8]) -> (r: Result<VmValue, FfiError>)
    ensures
        match (r, host_decode(bytes@)) {
            (Ok(v), Some(x)) => val(v) == x,
            (Err(e), None) => e.code == cino_error_code_t::CINO_ERROR_ABI_INVALID_CBOR,
            _ => false,
        },
        r matches Err(e) ==> decode_failure(bytes@, e.message@),
        r matches Ok(v) ==> host_well_formed(val(v)),
        r matches Ok(v) ==> val_depth(val(v)) <= 127,
{
    match host_from_slice(bytes) {
        Ok(c) => {
            let r = vm_value_from_cbor(&c);
            proof {
                if r is Ok {
                    lemma_host_depth(host_content(c), 127);
                }
            }
            r
        },
        Err(e) => {
            let text = host_error_text(&e);
            Err(FfiError {
                code: cino_error_code_t::CINO_ERROR_ABI_INVALID_CBOR,
                message: concat_str(owned("failed to decode CBOR: "), text.as_str()),
            })
        },
    }
}

// ---------------------------------------------------------------------------
// From runtime values to CBOR
// ---------------------------------------------------------------------------

/// The CBOR content a runtime value is written as at the host interface; each map in the order
/// serde_cbor keeps it.
pub open spec fn host_to_cbor(v: Val) -> CborTree
    decreases v, 0int,
{
    match v {
        Val::Unit => CborTree::Null,
        Val::Int(n) => CborTree::Integer(n as int),
        Val::Bool(b) => CborTree::Bool(b),
        Val::Str(s) => CborTree::Text(s),
        Val::List(items) => CborTree::Array(host_items_to(items, 0)),
        Val::Tuple(items) => CborTree::Entries(
            host_map_order(seq![(CborTree::Text("$tuple"@), CborTree::Array(host_items_to(items, 0)))]),
        ),
        Val::Dict(es) => CborTree::Entries(host_map_order(host_entries_to(es, 0))),
        Val::Enum(tag, fs) => CborTree::Entries(
            host_map_order(
                seq![
                    (CborTree::Text("$tag"@), CborTree::Text(tag)),
                    (CborTree::Text("$fields"@), CborTree::Entries(host_map_order(host_entries_to(fs, 0)))),
                ],
            ),
        ),
    }
}

pub open spec fn host_items_to(items: Seq<Val>, i: int) -> Seq<CborTree>
    decreases items, items.len() - i,
{
    if 0 <= i < items.len() {
        seq![host_to_cbor(items[i])] + host_items_to(items, i + 1)
    } else {
        seq![]
    }
}

pub open spec fn host_entries_to(es: Entries, i: int) -> Seq<(CborTree, CborTree)>
    decreases es, es.len() - i,
{
    if 0 <= i < es.len() {
        seq![(CborTree::Text(es[i].0), host_to_cbor(es[i].1))] + host_entries_to(es, i + 1)
    } else {
        seq![]
    }
}

/// The bytes the host gets for a runtime value, if serde_cbor writes them.
pub open spec fn host_encode(v: Val) -> Option<Seq<u8>> {
    host_encoding(host_to_cbor(v))
}

proof fn lemma_host_items_to(items: Seq<Val>, i: int)
    requires
        0 <= i <= items.len(),
    ensures
        host_items_to(items, i) == Seq::new((items.len() - i) as nat, |k: int| host_to_cbor(items[i + k])),
    decreases items.len() - i,
{
    if i < items.len() {
        lemma_host_items_to(items, i + 1);
    }
    assert(host_items_to(items, i) =~= Seq::new((items.len() - i) as nat, |k: int| host_to_cbor(items[i + k])));
}

proof fn lemma_host_entries_to(es: Entries, i: int)
    requires
        0 <= i <= es.len(),
    ensures
        host_entries_to(es, i) == Seq::new(
            (es.len() - i) as nat,
            |k: int| (CborTree::Text(es[i + k].0), host_to_cbor(es[i + k].1)),
        ),
    decreases es.len() - i,
{
    if i < es.len() {
        lemma_host_entries_to(es, i + 1);
    }
    assert(host_entries_to(es, i) =~= Seq::new(
        (es.len() - i) as nat,
        |k: int| (CborTree::Text(es[i + k].0), host_to_cbor(es[i + k].1)),
    ));
}

/// A map made of entries nested within `n` levels is nested within one level more.
proof fn lemma_map_nested(es: Seq<(CborTree, CborTree)>, out: Seq<(CborTree, CborTree)>, n: nat)
    requires
        forall|i: int| 0 <= i < es.len() ==> nested_within(#[trigger] es[i].0, n) && nested_within(es[i].1, n),
        forall|i: int|
            0 <= i < out.len() ==> keys_of(es).contains(#[trigger] out[i].0) && values_of(es).contains(out[i].1),
    ensures
        nested_within(CborTree::Entries(out), n + 1),
{
    assert forall|i: int| 0 <= i < out.len() implies nested_within(#[trigger] out[i].0, n) && nested_within(out[i].1, n) by {
        assert(keys_of(es).len() == es.len());
        assert(values_of(es).len() == es.len());
        let a = choose|j: int| 0 <= j < keys_of(es).len() && keys_of(es)[j] == out[i].0;
        let b = choose|j: int| 0 <= j < values_of(es).len() && values_of(es)[j] == out[i].1;
        assert(keys_of(es)[a] == es[a].0);
        assert(values_of(es)[b] == es[b].1);
        assert(nested_within(es[a].0, n));
        assert(nested_within(es[b].0, n));
        assert(nested_within(es[b].1, n));
    }
    assert(((n + 1) - 1) as nat == n);
}

/// A map made of plain entries is plain.
proof fn lemma_map_plain(es: Seq<(CborTree, CborTree)>, out: Seq<(CborTree, CborTree)>)
    requires
        forall|i: int| 0 <= i < es.len() ==> plain_tree(#[trigger] es[i].0) && plain_tree(es[i].1),
        forall|i: int|
            0 <= i < out.len() ==> keys_of(es).contains(#[trigger] out[i].0) && values_of(es).contains(out[i].1),
    ensures
        plain_tree(CborTree::Entries(out)),
{
    assert forall|i: int| 0 <= i < out.len() implies plain_tree(#[trigger] out[i].0) && plain_tree(out[i].1) by {
        assert(keys_of(es).len() == es.len());
        assert(values_of(es).len() == es.len());
        let a = choose|j: int| 0 <= j < keys_of(es).len() && keys_of(es)[j] == out[i].0;
        let b = choose|j: int| 0 <= j < values_of(es).len() && values_of(es)[j] == out[i].1;
        assert(keys_of(es)[a] == es[a].0);
        assert(values_of(es)[b] == es[b].1);
        assert(plain_tree(es[a].0));
        assert(plain_tree(es[b].0));
        assert(plain_tree(es[b].1));
    }
}

/// The serde_cbor map of the given entries.
fn make_map(es: Vec<(serde_cbor::Value, serde_cbor::Value)>) -> (r: serde_cbor::Value)
    requires
        forall|i: int|
            0 <= i < es.len() ==> plain_tree(#[trigger] host_pair_contents(es@)[i].0) && plain_tree(
                host_pair_contents(es@)[i].1,
            ),
    ensures
        host_content(r) == CborTree::Entries(host_map_order(host_pair_contents(es@))),
        plain_tree(host_content(r)),
        text_keys(host_pair_contents(es@)) ==> keeps_exactly(host_content(r), host_pair_contents(es@)),
        text_keys(host_pair_contents(es@)) ==> canon_sorted(host_content(r)->Entries_0),
        forall|n: nat|
            (forall|i: int|
                0 <= i < es.len() ==> nested_within(#[trigger] host_pair_contents(es@)[i].0, n) && nested_within(
                    host_pair_contents(es@)[i].1,
                    n,
                )) ==> #[trigger] nested_within(host_content(r), n + 1),
{
    let ghost c = host_pair_contents(es@);
    assert(forall|i: int| 0 <= i < c.len() ==> plain_tree(#[trigger] c[i].0) && plain_tree(c[i].1));
    let r = host_map(es);
    proof {
        let out = host_map_order(c);
        assert(host_content(r) == CborTree::Entries(out));
        assert(host_content(r)->Entries_0 == out);
        assert(forall|i: int| 0 <= i < out.len() ==> keys_of(c).contains(#[trigger] out[i].0)
            && values_of(c).contains(out[i].1));
        lemma_map_plain(c, out);
        assert forall|n: nat|
            (forall|i: int| 0 <= i < es.len() ==> nested_within(#[trigger] c[i].0, n) && nested_within(c[i].1, n))
                implies #[trigger] nested_within(host_content(r), n + 1) by {
            lemma_map_nested(c, out, n);
        }
    }
    r
}

/// A map that keeps exactly entries with distinct text keys, in canonical key order, whose
/// values have their maps in canonical order, has all its maps in canonical order.
proof fn lemma_map_ordered(c: Seq<(CborTree, CborTree)>, out: Seq<(CborTree, CborTree)>)
    requires
        keeps_exactly(CborTree::Entries(out), c),
        canon_sorted(out),
        forall|i: int| 0 <= i < c.len() ==> ordered_maps(#[trigger] c[i].1),
    ensures
        ordered_maps(CborTree::Entries(out)),
{
    assert forall|i: int| 0 <= i < out.len() implies ordered_maps(#[trigger] out[i].1) by {
        assert(c.contains(out[i]));
        let m = choose|m: int| 0 <= m < c.len() && c[m] == out[i];
        assert(ordered_maps(c[m].1));
    }
    assert forall|i: int| 0 <= i < out.len() implies (#[trigger] out[i]).0 is Text by {
        assert(text_keys(out));
    }
}

/// The CBOR value a runtime value is written as.
fn cbor_from_vm_value(value: &VmValue) -> (r: serde_cbor::Value)
    ensures
        host_content(r) == host_to_cbor(val(*value)),
        plain_tree(host_content(r)),
        host_well_formed(val(*value)) ==> host_from_cbor(host_content(r)) == Some(val(*value)),
        nested_within(host_to_cbor(val(*value)), val_depth(val(*value))),
        host_well_formed(val(*value)) ==> ordered_maps(host_content(r)),
    decreases value,
{
    match value {
        VmValue::Unit => host_null(),
        VmValue::Int(n) => host_integer(*n),
        VmValue::Bool(b) => host_bool(*b),
        VmValue::String(s) => host_text(s.clone()),
        VmValue::List(items) => {
            let out = encode_items(value, items);
            let ghost o = out@;
            let r = host_array(out);
            proof {
                assert forall|i: int| 0 <= i < host_contents(o).len() implies plain_tree(
                    #[trigger] host_contents(o)[i],
                ) by {}
                lemma_items_nested(items@, o);
                if host_well_formed(val(*value)) {
                    lemma_vals0(items@);
                    assert forall|i: int| 0 <= i < items@.len() implies host_well_formed(val(#[trigger] items@[i])) by {
                        assert(vals(items@, 0)[i] == val(items@[i]));
                    }
                    lemma_values_decode(items@, o);
                    assert forall|i: int| 0 <= i < host_contents(o).len() implies ordered_maps(
                        #[trigger] host_contents(o)[i],
                    ) by {
                        assert(host_contents(o)[i] == host_content(o[i]));
                    }
                }
            }
            r
        },
        VmValue::Tuple(items) => {
            let out = encode_items(value, items);
            let ghost o = out@;
            let arr = host_array(out);
            proof {
                assert forall|i: int| 0 <= i < host_contents(o).len() implies plain_tree(
                    #[trigger] host_contents(o)[i],
                ) by {}
                lemma_items_nested(items@, o);
            }
            let mut es: Vec<(serde_cbor::Value, serde_cbor::Value)> = Vec::new();
            es.push((host_text(owned("$tuple")), arr));
            let ghost c = seq![(CborTree::Text("$tuple"@), CborTree::Array(host_items_to(vals(items@, 0), 0)))];
            assert(host_pair_contents(es@) =~= c);
            let r = make_map(es);
            proof {
                let d = items_depth(vals(items@, 0), 0);
                assert(nested_within(host_content(arr), d + 1));
                assert(nested_within(CborTree::Text("$tuple"@), d + 1));
                assert(forall|i: int| 0 <= i < es.len() ==> nested_within(#[trigger] c[i].0, d + 1) && nested_within(c[i].1, d + 1));
                assert(nested_within(host_content(r), d + 2));
                if host_well_formed(val(*value)) {
                    lemma_vals0(items@);
                    assert forall|i: int| 0 <= i < items@.len() implies host_well_formed(val(#[trigger] items@[i])) by {
                        assert(vals(items@, 0)[i] == val(items@[i]));
                    }
                    lemma_values_decode(items@, o);
                    assert(text_keys(c));
                    lemma_tuple_decode(vals(items@, 0), host_content(r)->Entries_0);
                    assert forall|i: int| 0 <= i < host_contents(o).len() implies ordered_maps(
                        #[trigger] host_contents(o)[i],
                    ) by {
                        assert(host_contents(o)[i] == host_content(o[i]));
                    }
                    assert(ordered_maps(host_content(arr)));
                    assert forall|i: int| 0 <= i < c.len() implies ordered_maps(#[trigger] c[i].1) by {}
                    lemma_map_ordered(c, host_content(r)->Entries_0);
                }
            }
            r
        },
        VmValue::Dict(es) => {
            let out = encode_entries(value, es);
            let ghost o = out@;
            let r = make_map(out);
            proof {
                lemma_entries_nested(es@, o);
                let d = entries_depth(entries(es@, 0), 0);
                assert(nested_within(host_content(r), d + 1));
                if host_well_formed(val(*value)) {
                    lemma_entries0(es@);
                    assert forall|i: int| 0 <= i < es@.len() implies host_well_formed(val(#[trigger] es@[i].1)) by {
                        assert(entries(es@, 0)[i].1 == val(es@[i].1));
                    }
                    lemma_entries_to_text_keys(entries(es@, 0));
                    lemma_entry_values_decode(es@, o);
                    lemma_dict_decode(entries(es@, 0), host_content(r)->Entries_0);
                    let c = host_pair_contents(o);
                    assert forall|i: int| 0 <= i < c.len() implies ordered_maps(#[trigger] c[i].1) by {
                        assert(c[i].1 == host_content(o[i].1));
                    }
                    lemma_map_ordered(c, host_content(r)->Entries_0);
                }
            }
            r
        },
        VmValue::Enum { tag, fields } => {
            let out = encode_entries(value, fields);
            let ghost o = out@;
            let fs = make_map(out);
            let ghost fo = host_content(fs);
            proof {
                lemma_entries_nested(fields@, o);
            }
            proof {
                if host_well_formed(val(*value)) {
                    lemma_entries_to_text_keys(entries(fields@, 0));
                    lemma_entries0(fields@);
                    assert forall|i: int| 0 <= i < fields@.len() implies host_well_formed(val(#[trigger] fields@[i].1)) by {
                        assert(entries(fields@, 0)[i].1 == val(fields@[i].1));
                    }
                    let fc = host_pair_contents(o);
                    assert forall|i: int| 0 <= i < fc.len() implies ordered_maps(#[trigger] fc[i].1) by {
                        assert(fc[i].1 == host_content(o[i].1));
                    }
                    lemma_map_ordered(fc, fo->Entries_0);
                }
            }
            let mut es: Vec<(serde_cbor::Value, serde_cbor::Value)> = Vec::new();
            es.push((host_text(owned("$tag")), host_text(tag.clone())));
            es.push((host_text(owned("$fields")), fs));
            let ghost c = seq![
                (CborTree::Text("$tag"@), CborTree::Text(tag@)),
                (CborTree::Text("$fields"@), CborTree::Entries(host_map_order(host_entries_to(entries(fields@, 0), 0)))),
            ];
            assert(host_pair_contents(es@) =~= c);
            proof {
                reveal_strlit("$tag");
                reveal_strlit("$fields");
                assert("$tag"@.len() != "$fields"@.len());
                assert(c[0].0 != c[1].0);
                assert(text_keys(c));
            }
            let r = make_map(es);
            proof {
                let d = entries_depth(entries(fields@, 0), 0);
                assert(nested_within(fo, d + 1));
                assert(forall|i: int| 0 <= i < es.len() ==> nested_within(#[trigger] c[i].0, d + 1) && nested_within(c[i].1, d + 1));
                assert(nested_within(host_content(r), d + 2));
                if host_well_formed(val(*value)) {
                    lemma_entries0(fields@);
                    assert forall|i: int| 0 <= i < fields@.len() implies host_well_formed(val(#[trigger] fields@[i].1)) by {
                        assert(entries(fields@, 0)[i].1 == val(fields@[i].1));
                    }
                    lemma_entry_values_decode(fields@, o);
                    lemma_enum_decode(tag@, entries(fields@, 0), fo->Entries_0, host_content(r)->Entries_0);
                    assert(ordered_maps(fo));
                    assert forall|i: int| 0 <= i < c.len() implies ordered_maps(#[trigger] c[i].1) by {}
                    lemma_map_ordered(c, host_content(r)->Entries_0);
                }
            }
            r
        },
    }
}

/// The items of a written list or tuple nest as deeply as the deepest item says.
proof fn lemma_items_nested(items: Seq<VmValue>, o: Seq<serde_cbor::Value>)
    requires
        o.len() == items.len(),
        forall|i: int| 0 <= i < o.len() ==> #[trigger] host_content(o[i]) == host_to_cbor(val(items[i])),
        forall|i: int| 0 <= i < o.len() ==> nested_within(host_to_cbor(val(#[trigger] items[i])), val_depth(val(items[i]))),
    ensures
        forall|i: int| 0 <= i < o.len() ==> nested_within(#[trigger] host_contents(o)[i], items_depth(vals(items, 0), 0)),
        nested_within(CborTree::Array(host_contents(o)), items_depth(vals(items, 0), 0) + 1),
{
    lemma_vals0(items);
    let d = items_depth(vals(items, 0), 0);
    assert forall|i: int| 0 <= i < o.len() implies nested_within(#[trigger] host_contents(o)[i], d) by {
        assert(host_contents(o)[i] == host_content(o[i]));
        assert(nested_within(host_to_cbor(val(items[i])), val_depth(val(items[i]))));
        lemma_items_depth(vals(items, 0), 0, i);
        lemma_nested_more(host_to_cbor(val(items[i])), val_depth(val(items[i])), d);
    }
    assert(((d + 1) - 1) as nat == d);
}

/// The entries of a written map or enum nest as deeply as the deepest value says.
proof fn lemma_entries_nested(es: Seq<(String, VmValue)>, o: Seq<(serde_cbor::Value, serde_cbor::Value)>)
    requires
        o.len() == es.len(),
        host_pair_contents(o) == host_entries_to(entries(es, 0), 0),
        forall|i: int| 0 <= i < o.len() ==> #[trigger] host_content(o[i].1) == host_to_cbor(val(es[i].1)),
        forall|i: int| 0 <= i < o.len() ==> nested_within(host_to_cbor(val(#[trigger] es[i].1)), val_depth(val(es[i].1))),
    ensures
        forall|i: int|
            0 <= i < o.len() ==> nested_within(#[trigger] host_pair_contents(o)[i].0, entries_depth(entries(es, 0), 0))
                && nested_within(host_pair_contents(o)[i].1, entries_depth(entries(es, 0), 0)),
{
    lemma_entries0(es);
    lemma_host_entries_to(entries(es, 0), 0);
    let d = entries_depth(entries(es, 0), 0);
    let c = host_pair_contents(o);
    assert forall|i: int| 0 <= i < o.len() implies nested_within(#[trigger] c[i].0, d) && nested_within(c[i].1, d) by {
        assert(c[i] == (host_content(o[i].0), host_content(o[i].1)));
        assert(entries(es, 0)[i].1 == val(es[i].1));
        assert(nested_within(host_to_cbor(val(es[i].1)), val_depth(val(es[i].1))));
        lemma_entries_depth(entries(es, 0), 0, i);
        lemma_nested_more(host_to_cbor(val(es[i].1)), val_depth(val(es[i].1)), d);
        assert(c[i].0 == CborTree::Text(entries(es, 0)[i].0));
    }
}

/// The items of a written list or tuple read back as the runtime values they were written from.
proof fn lemma_values_decode(items: Seq<VmValue>, o: Seq<serde_cbor::Value>)
    requires
        o.len() == items.len(),
        forall|i: int|
            0 <= i < o.len() ==> #[trigger] host_content(o[i]) == host_to_cbor(val(items[i])) && (host_well_formed(
                val(items[i]),
            ) ==> host_from_cbor(host_content(o[i])) == Some(val(items[i]))),
        forall|i: int| 0 <= i < items.len() ==> host_well_formed(val(#[trigger] items[i])),
        host_contents(o) == host_items_to(vals(items, 0), 0),
    ensures
        host_items_from(host_contents(o), 0) == Some(vals(items, 0)),
        forall|j: int|
            0 <= j < vals(items, 0).len() ==> host_from_cbor(host_to_cbor(#[trigger] vals(items, 0)[j])) == Some(
                vals(items, 0)[j],
            ),
{
    lemma_vals0(items);
    let xs = vals(items, 0);
    assert forall|j: int| 0 <= j < xs.len() implies host_from_cbor(host_to_cbor(#[trigger] xs[j])) == Some(xs[j]) by {
        assert(xs[j] == val(items[j]));
        assert(host_content(o[j]) == host_to_cbor(val(items[j])));
    }
    lemma_items_decode(xs, 0);
    assert(xs.skip(0) =~= xs);
}

/// The values of written map entries read back as the runtime values they were written from.
proof fn lemma_entry_values_decode(es: Seq<(String, VmValue)>, o: Seq<(serde_cbor::Value, serde_cbor::Value)>)
    requires
        o.len() == es.len(),
        forall|i: int|
            0 <= i < o.len() ==> #[trigger] host_content(o[i].1) == host_to_cbor(val(es[i].1)) && (host_well_formed(
                val(es[i].1),
            ) ==> host_from_cbor(host_content(o[i].1)) == Some(val(es[i].1))),
        forall|i: int| 0 <= i < es.len() ==> host_well_formed(val(#[trigger] es[i].1)),
    ensures
        forall|j: int|
            0 <= j < es.len() ==> host_from_cbor(host_to_cbor(#[trigger] entries(es, 0)[j].1)) == Some(
                entries(es, 0)[j].1,
            ),
{
    lemma_entries0(es);
    assert forall|j: int| 0 <= j < es.len() implies host_from_cbor(host_to_cbor(#[trigger] entries(es, 0)[j].1))
        == Some(entries(es, 0)[j].1) by {
        assert(entries(es, 0)[j].1 == val(es[j].1));
        assert(host_content(o[j].1) == host_to_cbor(val(es[j].1)));
    }
}

fn encode_items(parent: &VmValue, items: &Vec<VmValue>) -> (r: Vec<serde_cbor::Value>)
    requires
        (parent matches VmValue::List(x) && x == items) || (parent matches VmValue::Tuple(x) && x == items),
    ensures
        host_contents(r@) == host_items_to(vals(items@, 0), 0),
        forall|i: int| 0 <= i < r.len() ==> plain_tree(#[trigger] host_content(r@[i])),
        r.len() == items.len(),
        forall|i: int|
            0 <= i < r.len() ==> #[trigger] host_content(r@[i]) == host_to_cbor(val(items@[i])) && (host_well_formed(
                val(items@[i]),
            ) ==> host_from_cbor(host_content(r@[i])) == Some(val(items@[i]))),
        forall|i: int| 0 <= i < r.len() ==> nested_within(host_to_cbor(val(#[trigger] items@[i])), val_depth(val(items@[i]))),
        forall|i: int| 0 <= i < r.len() && host_well_formed(val(items@[i])) ==> ordered_maps(#[trigger] host_content(r@[i])),
    decreases parent, 1int,
{
    let mut out: Vec<serde_cbor::Value> = Vec::new();
    let mut i: usize = 0;
    while i < items.len()
        invariant
            i <= items.len(),
            (parent matches VmValue::List(x) && x == items) || (parent matches VmValue::Tuple(x) && x == items),
            out.len() == i,
            forall|k: int|
                0 <= k < i ==> #[trigger] host_content(out@[k]) == host_to_cbor(val(items@[k])) && plain_tree(
                    host_content(out@[k]),
                ) && (host_well_formed(val(items@[k])) ==> host_from_cbor(host_content(out@[k])) == Some(
                    val(items@[k]),
                )),
            forall|k: int| 0 <= k < i ==> nested_within(host_to_cbor(val(#[trigger] items@[k])), val_depth(val(items@[k]))),
            forall|k: int| 0 <= k < i && host_well_formed(val(items@[k])) ==> ordered_maps(#[trigger] host_content(out@[k])),
        decreases items.len() - i,
    {
        proof {
            assert(decreases_to!(parent => items@[i as int]));
        }
        out.push(cbor_from_vm_value(&items[i]));
        i += 1;
    }
    proof {
        lemma_vals0(items@);
        lemma_host_items_to(vals(items@, 0), 0);
        assert(host_contents(out@) =~= host_items_to(vals(items@, 0), 0));
    }
    out
}

fn encode_entries(parent: &VmValue, es: &Vec<(String, VmValue)>) -> (r: Vec<(serde_cbor::Value, serde_cbor::Value)>)
    requires
        (parent matches VmValue::Dict(x) && x == es) || (parent matches VmValue::Enum { fields: x, .. } && x == es),
    ensures
        host_pair_contents(r@) == host_entries_to(entries(es@, 0), 0),
        forall|i: int|
            0 <= i < r.len() ==> plain_tree(#[trigger] host_pair_contents(r@)[i].0) && plain_tree(
                host_pair_contents(r@)[i].1,
            ),
        r.len() == es.len(),
        forall|i: int|
            0 <= i < r.len() ==> #[trigger] host_content(r@[i].1) == host_to_cbor(val(es@[i].1)) && (host_well_formed(
                val(es@[i].1),
            ) ==> host_from_cbor(host_content(r@[i].1)) == Some(val(es@[i].1))),
        forall|i: int| 0 <= i < r.len() ==> nested_within(host_to_cbor(val(#[trigger] es@[i].1)), val_depth(val(es@[i].1))),
        forall|i: int| 0 <= i < r.len() && host_well_formed(val(es@[i].1)) ==> ordered_maps(#[trigger] host_content(r@[i].1)),
    decreases parent, 1int,
{
    let mut out: Vec<(serde_cbor::Value, serde_cbor::Value)> = Vec::new();
    let mut i: usize = 0;
    while i < es.len()
        invariant
            i <= es.len(),
            (parent matches VmValue::Dict(x) && x == es) || (parent matches VmValue::Enum { fields: x, .. } && x == es),
            out.len() == i,
            forall|k: int|
                0 <= k < i ==> #[trigger] host_content(out@[k].0) == CborTree::Text(es@[k].0@) && host_content(
                    out@[k].1,
                ) == host_to_cbor(val(es@[k].1)) && plain_tree(host_content(out@[k].1)) && (host_well_formed(
                    val(es@[k].1),
                ) ==> host_from_cbor(host_content(out@[k].1)) == Some(val(es@[k].1))),
            forall|k: int| 0 <= k < i ==> nested_within(host_to_cbor(val(#[trigger] es@[k].1)), val_depth(val(es@[k].1))),
            forall|k: int| 0 <= k < i && host_well_formed(val(es@[k].1)) ==> ordered_maps(#[trigger] host_content(out@[k].1)),
        decreases es.len() - i,
    {
        proof {
            assert(decreases_to!(parent => es@[i as int].1));
        }
        let key = host_text(es[i].0.clone());
        let v = cbor_from_vm_value(&es[i].1);
        out.push((key, v));
        i += 1;
    }
    proof {
        lemma_entries0(es@);
        lemma_host_entries_to(entries(es@, 0), 0);
        assert(host_pair_contents(out@) =~= host_entries_to(entries(es@, 0), 0));
        assert forall|i: int| 0 <= i < out.len() implies plain_tree(#[trigger] host_pair_contents(out@)[i].0)
            && plain_tree(host_pair_contents(out@)[i].1) by {
            assert(host_pair_contents(out@)[i] == (host_content(out@[i].0), host_content(out@[i].1)));
        }
        assert forall|i: int| 0 <= i < out.len() implies #[trigger] host_content(out@[i].1) == host_to_cbor(
            val(es@[i].1),
        ) && (host_well_formed(val(es@[i].1)) ==> host_from_cbor(host_content(out@[i].1)) == Some(val(es@[i].1))) by {
            assert(host_content(out@[i].0) == CborTree::Text(es@[i].0@));
        }
    }
    out
}

/// Encodes a runtime value as the host's CBOR bytes; it always succeeds, and each map of a value
/// whose maps keep their keys in order is written in canonical key order. Decoding the bytes of a
/// value whose maps keep their keys in order, once each, without the reserved keys, and which
/// nests at most 127 levels deep, gives the value back.
pub fn encode_vm_value(value: &VmValue) -> (r: Result<Vec<u8>, FfiError>)
    ensures
        match (r, host_encode(val(*value))) {
            (Ok(b), Some(sb)) => b@ == sb,
            (Err(e), None) => e.code == cino_error_code_t::CINO_ERROR_ABI_INTERNAL,
            _ => false,
        },
        r is Ok,
        r matches Err(e) ==> encode_failure(e.message@),
        host_well_formed(val(*value)) && val_depth(val(*value)) <= 127 ==> (r matches Ok(b) ==> host_decode(b@)
            == Some(val(*value))),
        host_well_formed(val(*value)) ==> ordered_maps(host_to_cbor(val(*value))),
{
    let c = cbor_from_vm_value(value);
    proof {
        if val_depth(val(*value)) <= 127 {
            lemma_nested_more(host_content(c), val_depth(val(*value)), 127);
        }
    }
    match host_to_vec(&c) {
        Ok(b) => Ok(b),
        Err(e) => {
            let text = host_error_text(&e);
            Err(FfiError {
                code: cino_error_code_t::CINO_ERROR_ABI_INTERNAL,
                message: concat_str(owned("failed to encode CBOR: "), text.as_str()),
            })
        },
    }
}

// ---------------------------------------------------------------------------
// Round trip
// ---------------------------------------------------------------------------

pub proof fn lemma_lt_trans(a: Seq<char>, b: Seq<char>, c: Seq<char>)
    requires
        chars_lt(a, b),
        chars_lt(b, c),
    ensures
        chars_lt(a, c),
    decreases a.len(),
{
    if a.len() > 0 && b.len() > 0 && c.len() > 0 && a[0] == b[0] && b[0] == c[0] {
        lemma_lt_trans(a.drop_first(), b.drop_first(), c.drop_first());
    }
}

pub proof fn lemma_lt_total(a: Seq<char>, b: Seq<char>)
    ensures
        a != b ==> chars_lt(a, b) || chars_lt(b, a),
    decreases a.len(),
{
    if a.len() > 0 && b.len() > 0 && a[0] != b[0] {
        let x = a[0];
        let y = b[0];
        vstd::utf8::char_u32_cast(x, x as u32);
        vstd::utf8::char_u32_cast(y, y as u32);
        assert((x as u32) != (y as u32));
    }
    if a.len() > 0 && b.len() > 0 && a[0] == b[0] {
        lemma_lt_total(a.drop_first(), b.drop_first());
        if a.drop_first() == b.drop_first() {
            assert(a =~= seq![a[0]] + a.drop_first());
            assert(b =~= seq![b[0]] + b.drop_first());
        }
    } else if a.len() == 0 && b.len() == 0 {
        assert(a =~= b);
    }
}

pub proof fn lemma_map_insert_get(m: Entries, k: Seq<char>, v: Val, q: Seq<char>)
    ensures
        map_get(map_insert(m, k, v), q) == if q == k {
            Some(v)
        } else {
            map_get(m, q)
        },
    decreases m.len(),
{
    if m.len() == 0 {
        assert(seq![(k, v)].drop_first() =~= m);
    } else {
        if m[0].0 == k {
            assert((seq![(k, v)] + m.drop_first()).drop_first() =~= m.drop_first());
        } else if chars_lt(k, m[0].0) {
            assert((seq![(k, v)] + m).drop_first() =~= m);
        } else {
            lemma_map_insert_get(m.drop_first(), k, v, q);
            assert((seq![m[0]] + map_insert(m.drop_first(), k, v)).drop_first() =~= map_insert(m.drop_first(), k, v));
        }
    }
}

proof fn lemma_map_insert_lower(m: Entries, k: Seq<char>, v: Val, lo: Seq<char>)
    requires
        chars_lt(lo, k),
        forall|j: int| 0 <= j < m.len() ==> chars_lt(lo, #[trigger] m[j].0),
    ensures
        forall|i: int| 0 <= i < map_insert(m, k, v).len() ==> chars_lt(lo, #[trigger] map_insert(m, k, v)[i].0),
    decreases m.len(),
{
    if m.len() > 0 {
        if m[0].0 == k {
            let s = seq![(k, v)] + m.drop_first();
            assert forall|i: int| 0 <= i < s.len() implies chars_lt(lo, #[trigger] s[i].0) by {
                if i > 0 {
                    assert(s[i] == m[i]);
                }
            }
        } else if chars_lt(k, m[0].0) {
            let s = seq![(k, v)] + m;
            assert forall|i: int| 0 <= i < s.len() implies chars_lt(lo, #[trigger] s[i].0) by {
                if i > 0 {
                    assert(s[i] == m[i - 1]);
                }
            }
        } else {
            let t = m.drop_first();
            assert forall|j: int| 0 <= j < t.len() implies chars_lt(lo, #[trigger] t[j].0) by {
                assert(t[j] == m[j + 1]);
            }
            lemma_map_insert_lower(t, k, v, lo);
            let s = seq![m[0]] + map_insert(t, k, v);
            assert forall|i: int| 0 <= i < s.len() implies chars_lt(lo, #[trigger] s[i].0) by {
                if i > 0 {
                    assert(s[i] == map_insert(t, k, v)[i - 1]);
                }
            }
        }
    }
}

pub proof fn lemma_map_insert_sorted(m: Entries, k: Seq<char>, v: Val)
    requires
        sorted_keys(m),
    ensures
        sorted_keys(map_insert(m, k, v)),
    decreases m.len(),
{
    if m.len() > 0 {
        let t = m.drop_first();
        assert(sorted_keys(t)) by {
            assert forall|i: int, j: int| 0 <= i < j < t.len() implies chars_lt(#[trigger] t[i].0, #[trigger] t[j].0) by {
                assert(t[i] == m[i + 1] && t[j] == m[j + 1]);
            }
        }
        if m[0].0 == k {
            let s = seq![(k, v)] + t;
            assert forall|i: int, j: int| 0 <= i < j < s.len() implies chars_lt(#[trigger] s[i].0, #[trigger] s[j].0) by {
                assert(s[j] == m[j]);
                if i > 0 {
                    assert(s[i] == m[i]);
                }
            }
        } else if chars_lt(k, m[0].0) {
            let s = seq![(k, v)] + m;
            assert forall|i: int, j: int| 0 <= i < j < s.len() implies chars_lt(#[trigger] s[i].0, #[trigger] s[j].0) by {
                assert(s[j] == m[j - 1]);
                if i > 0 {
                    assert(s[i] == m[i - 1]);
                } else if j - 1 > 0 {
                    lemma_lt_trans(k, m[0].0, m[j - 1].0);
                }
            }
        } else {
            lemma_lt_total(k, m[0].0);
            assert forall|j: int| 0 <= j < t.len() implies chars_lt(m[0].0, #[trigger] t[j].0) by {
                assert(t[j] == m[j + 1]);
            }
            lemma_map_insert_lower(t, k, v, m[0].0);
            lemma_map_insert_sorted(t, k, v);
            let u = map_insert(t, k, v);
            let s = seq![m[0]] + u;
            assert forall|i: int, j: int| 0 <= i < j < s.len() implies chars_lt(#[trigger] s[i].0, #[trigger] s[j].0) by {
                assert(s[j] == u[j - 1]);
                if i > 0 {
                    assert(s[i] == u[i - 1]);
                }
            }
        }
    }
}

/// Each entry after setting `k` to `v` is that entry or one of `m`.
proof fn lemma_map_insert_elems(m: Entries, k: Seq<char>, v: Val)
    ensures
        forall|i: int|
            0 <= i < map_insert(m, k, v).len() ==> #[trigger] map_insert(m, k, v)[i] == (k, v) || m.contains(
                map_insert(m, k, v)[i],
            ),
    decreases m.len(),
{
    if m.len() > 0 {
        let t = m.drop_first();
        if m[0].0 == k {
            let s = seq![(k, v)] + t;
            assert forall|i: int| 0 <= i < s.len() implies #[trigger] s[i] == (k, v) || m.contains(s[i]) by {
                if i > 0 {
                    assert(s[i] == m[i]);
                }
            }
        } else if chars_lt(k, m[0].0) {
            let s = seq![(k, v)] + m;
            assert forall|i: int| 0 <= i < s.len() implies #[trigger] s[i] == (k, v) || m.contains(s[i]) by {
                if i > 0 {
                    assert(s[i] == m[i - 1]);
                }
            }
        } else {
            lemma_map_insert_elems(t, k, v);
            let u = map_insert(t, k, v);
            let s = seq![m[0]] + u;
            assert forall|i: int| 0 <= i < s.len() implies #[trigger] s[i] == (k, v) || m.contains(s[i]) by {
                if i == 0 {
                    assert(m[0] == s[0]);
                } else {
                    assert(s[i] == u[i - 1]);
                    if t.contains(u[i - 1]) {
                        let x = choose|x: int| 0 <= x < t.len() && t[x] == u[i - 1];
                        assert(m[x + 1] == t[x]);
                    }
                }
            }
        }
    }
}

/// Setting a key that `m` does not hold adds an entry.
proof fn lemma_map_insert_new(m: Entries, k: Seq<char>, v: Val)
    requires
        forall|j: int| 0 <= j < m.len() ==> (#[trigger] m[j]).0 != k,
    ensures
        map_insert(m, k, v).len() == m.len() + 1,
    decreases m.len(),
{
    if m.len() > 0 && !chars_lt(k, m[0].0) {
        let t = m.drop_first();
        assert forall|j: int| 0 <= j < t.len() implies (#[trigger] t[j]).0 != k by {
            assert(t[j] == m[j + 1]);
        }
        lemma_map_insert_new(t, k, v);
    }
}

pub proof fn lemma_map_get_at(a: Entries, j: int)
    requires
        sorted_keys(a),
        0 <= j < a.len(),
    ensures
        map_get(a, a[j].0) == Some(a[j].1),
    decreases j,
{
    if j > 0 {
        lemma_chars_lt_asym(a[0].0, a[j].0);
        let t = a.drop_first();
        assert(sorted_keys(t)) by {
            assert forall|x: int, y: int| 0 <= x < y < t.len() implies chars_lt(#[trigger] t[x].0, #[trigger] t[y].0) by {
                assert(t[x] == a[x + 1] && t[y] == a[y + 1]);
            }
        }
        lemma_map_get_at(t, j - 1);
    }
}

pub proof fn lemma_map_get_none(a: Entries, q: Seq<char>)
    requires
        forall|j: int| 0 <= j < a.len() ==> (#[trigger] a[j]).0 != q,
    ensures
        map_get(a, q) is None,
    decreases a.len(),
{
    if a.len() > 0 {
        let t = a.drop_first();
        assert forall|j: int| 0 <= j < t.len() implies (#[trigger] t[j]).0 != q by {
            assert(t[j] == a[j + 1]);
        }
        lemma_map_get_none(t, q);
    }
}

/// Two key-sorted entry lists that agree on every key are equal.
pub proof fn lemma_sorted_eq(a: Entries, b: Entries)
    requires
        sorted_keys(a),
        sorted_keys(b),
        forall|q: Seq<char>| map_get(a, q) == map_get(b, q),
    ensures
        a == b,
    decreases a.len(),
{
    if a.len() == 0 {
        if b.len() > 0 {
            lemma_map_get_at(b, 0);
            assert(map_get(a, b[0].0) is None);
        }
        assert(a =~= b);
    } else if b.len() == 0 {
        lemma_map_get_at(a, 0);
        assert(map_get(b, a[0].0) is None);
    } else {
        let x = a[0].0;
        let y = b[0].0;
        lemma_map_get_at(a, 0);
        lemma_map_get_at(b, 0);
        if x != y {
            if forall|j: int| 0 <= j < b.len() ==> (#[trigger] b[j]).0 != x {
                lemma_map_get_none(b, x);
            }
            let j = choose|j: int| 0 <= j < b.len() && (#[trigger] b[j]).0 == x;
            if forall|i: int| 0 <= i < a.len() ==> (#[trigger] a[i]).0 != y {
                lemma_map_get_none(a, y);
            }
            let i = choose|i: int| 0 <= i < a.len() && (#[trigger] a[i]).0 == y;
            assert(j > 0 && i > 0);
            lemma_chars_lt_asym(x, y);
        }
        let ta = a.drop_first();
        let tb = b.drop_first();
        assert(sorted_keys(ta)) by {
            assert forall|p: int, r: int| 0 <= p < r < ta.len() implies chars_lt(#[trigger] ta[p].0, #[trigger] ta[r].0) by {
                assert(ta[p] == a[p + 1] && ta[r] == a[r + 1]);
            }
        }
        assert(sorted_keys(tb)) by {
            assert forall|p: int, r: int| 0 <= p < r < tb.len() implies chars_lt(#[trigger] tb[p].0, #[trigger] tb[r].0) by {
                assert(tb[p] == b[p + 1] && tb[r] == b[r + 1]);
            }
        }
        assert forall|q: Seq<char>| map_get(ta, q) == map_get(tb, q) by {
            if q == x {
                assert forall|j: int| 0 <= j < ta.len() implies (#[trigger] ta[j]).0 != q by {
                    assert(ta[j] == a[j + 1]);
                    lemma_chars_lt_asym(a[0].0, a[j + 1].0);
                }
                assert forall|j: int| 0 <= j < tb.len() implies (#[trigger] tb[j]).0 != q by {
                    assert(tb[j] == b[j + 1]);
                    lemma_chars_lt_asym(b[0].0, b[j + 1].0);
                }
                lemma_map_get_none(ta, q);
                lemma_map_get_none(tb, q);
            } else {
                assert(map_get(a, q) == map_get(ta, q));
                assert(map_get(b, q) == map_get(tb, q));
            }
        }
        lemma_sorted_eq(ta, tb);
        assert(a =~= seq![a[0]] + ta);
        assert(b =~= seq![b[0]] + tb);
    }
}

pub proof fn lemma_key_index_first(es: Seq<(CborTree, CborTree)>, k: Seq<char>, i: int, n: int)
    requires
        0 <= i <= n < es.len(),
        text_key(es[n].0, k),
    ensures
        key_index(es, k, i) <= n,
    decreases n - i,
{
    if i < n && !text_key(es[i].0, k) {
        lemma_key_index_first(es, k, i + 1, n);
    }
}

/// Setting the entries `out[i..]` in order in `acc`.
proof fn lemma_fold(out: Seq<(CborTree, CborTree)>, i: int, acc: Entries)
    requires
        0 <= i <= out.len(),
        text_keys(out),
        sorted_keys(acc),
        forall|j: int| i <= j < out.len() ==> host_from_cbor(#[trigger] out[j].1) is Some,
    ensures
        host_entries_from(out, i, acc) is Some,
        sorted_keys(host_entries_from(out, i, acc).unwrap()),
        forall|q: Seq<char>|
            #[trigger] map_get(host_entries_from(out, i, acc).unwrap(), q) == if key_index(out, q, i) < out.len() {
                host_from_cbor(out[key_index(out, q, i)].1)
            } else {
                map_get(acc, q)
            },
    decreases out.len() - i,
{
    if i < out.len() {
        let k = out[i].0->Text_0;
        let v = host_from_cbor(out[i].1).unwrap();
        lemma_map_insert_sorted(acc, k, v);
        lemma_fold(out, i + 1, map_insert(acc, k, v));
        assert(host_entries_from(out, i, acc) == host_entries_from(out, i + 1, map_insert(acc, k, v)));
        let r = host_entries_from(out, i, acc).unwrap();
        assert forall|q: Seq<char>|
            #[trigger] map_get(r, q) == if key_index(out, q, i) < out.len() {
                host_from_cbor(out[key_index(out, q, i)].1)
            } else {
                map_get(acc, q)
            } by {
            lemma_map_insert_get(acc, k, v, q);
            lemma_key_index(out, q, i + 1);
            if q == k {
                assert(key_index(out, q, i) == i);
                if key_index(out, q, i + 1) < out.len() {
                    let m = key_index(out, q, i + 1);
                    assert(out[m].0 == out[i].0);
                    assert(out[i].0 != out[m].0);
                }
            } else {
                assert(!text_key(out[i].0, q));
                assert(key_index(out, q, i) == key_index(out, q, i + 1));
            }
        }
    }
}

/// The CBOR entries a runtime map is written as have distinct text keys.
proof fn lemma_entries_to_text_keys(es: Entries)
    requires
        sorted_keys(es),
    ensures
        text_keys(host_entries_to(es, 0)),
{
    let c = host_entries_to(es, 0);
    lemma_host_entries_to(es, 0);
    assert forall|i: int, j: int|
        0 <= i < c.len() && 0 <= j < c.len() && i != j && (#[trigger] c[i]).0 is Text implies c[i].0 != (#[trigger] c[j]).0 by {
        if i < j {
            lemma_chars_lt_asym(es[i].0, es[j].0);
        } else {
            lemma_chars_lt_asym(es[j].0, es[i].0);
        }
    }
}

/// Reading back the entries of a runtime map from any order that keeps exactly them.
proof fn lemma_entries_decode(es: Entries, out: Seq<(CborTree, CborTree)>)
    requires
        sorted_keys(es),
        keeps_exactly(CborTree::Entries(out), host_entries_to(es, 0)),
        forall|j: int| 0 <= j < es.len() ==> host_from_cbor(host_to_cbor(#[trigger] es[j].1)) == Some(es[j].1),
    ensures
        host_entries_from(out, 0, seq![]) == Some(es),
{
    let c = host_entries_to(es, 0);
    lemma_host_entries_to(es, 0);
    assert forall|j: int| 0 <= j < out.len() implies host_from_cbor(#[trigger] out[j].1) is Some by {
        assert(c.contains(out[j]));
        let m = choose|m: int| 0 <= m < c.len() && c[m] == out[j];
        assert(c[m].1 == host_to_cbor(es[m].1));
    }
    let e0 = Seq::<(Seq<char>, Val)>::empty();
    assert(sorted_keys(e0));
    lemma_fold(out, 0, e0);
    let r = host_entries_from(out, 0, e0).unwrap();
    assert forall|q: Seq<char>| map_get(r, q) == map_get(es, q) by {
        lemma_key_index(out, q, 0);
        let ki = key_index(out, q, 0);
        if ki < out.len() {
            assert(c.contains(out[ki]));
            let m = choose|m: int| 0 <= m < c.len() && c[m] == out[ki];
            assert(c[m] == (CborTree::Text(es[m].0), host_to_cbor(es[m].1)));
            lemma_map_get_at(es, m);
        } else {
            assert forall|j: int| 0 <= j < es.len() implies (#[trigger] es[j]).0 != q by {
                if es[j].0 == q {
                    assert(c[j] == (CborTree::Text(es[j].0), host_to_cbor(es[j].1)));
                    assert(out.contains(c[j]));
                    let n = choose|n: int| 0 <= n < out.len() && out[n] == c[j];
                    lemma_key_index_first(out, q, 0, n);
                }
            }
            lemma_map_get_none(es, q);
            lemma_map_get_none(e0, q);
        }
    }
    lemma_sorted_eq(r, es);
}

proof fn lemma_items_decode(items: Seq<Val>, i: int)
    requires
        0 <= i <= items.len(),
        forall|j: int| 0 <= j < items.len() ==> host_from_cbor(host_to_cbor(#[trigger] items[j])) == Some(items[j]),
    ensures
        host_items_from(host_items_to(items, 0), i) == Some(items.skip(i)),
    decreases items.len() - i,
{
    lemma_host_items_to(items, 0);
    if i < items.len() {
        lemma_items_decode(items, i + 1);
        assert(items.skip(i) =~= seq![items[i]] + items.skip(i + 1));
    } else {
        assert(items.skip(i) =~= Seq::<Val>::empty());
    }
}

/// A map that keeps exactly one entry holds just that entry.
proof fn lemma_keeps_one(out: Seq<(CborTree, CborTree)>, e: (CborTree, CborTree))
    requires
        keeps_exactly(CborTree::Entries(out), seq![e]),
    ensures
        out == seq![e],
{
    assert(seq![e].contains(out[0])) by {
        assert(out.contains(seq![e][0]));
    }
    if out.len() > 1 {
        assert(seq![e].contains(out[1]));
        assert(out[0] == e && out[1] == e);
        assert(out[0].0 != out[1].0);
    }
    assert(out =~= seq![e]);
}

/// A runtime value as the host interface writes it can be read back: map keys in order, once
/// each; a map does not use the key `$tag`, nor the single key `$tuple`.
pub open spec fn host_well_formed(v: Val) -> bool
    decreases v,
{
    match v {
        Val::List(items) => forall|i: int| 0 <= i < items.len() ==> host_well_formed(#[trigger] items[i]),
        Val::Tuple(items) => forall|i: int| 0 <= i < items.len() ==> host_well_formed(#[trigger] items[i]),
        Val::Dict(es) => {
            &&& sorted_keys(es)
            &&& forall|i: int| 0 <= i < es.len() ==> (#[trigger] es[i]).0 != "$tag"@
            &&& !(es.len() == 1 && es[0].0 == "$tuple"@)
            &&& forall|i: int| 0 <= i < es.len() ==> host_well_formed(#[trigger] es[i].1)
        },
        Val::Enum(_, fs) => {
            &&& sorted_keys(fs)
            &&& forall|i: int| 0 <= i < fs.len() ==> host_well_formed(#[trigger] fs[i].1)
        },
        _ => true,
    }
}

proof fn lemma_dict_decode(es: Entries, out: Seq<(CborTree, CborTree)>)
    requires
        sorted_keys(es),
        forall|i: int| 0 <= i < es.len() ==> (#[trigger] es[i]).0 != "$tag"@,
        !(es.len() == 1 && es[0].0 == "$tuple"@),
        keeps_exactly(CborTree::Entries(out), host_entries_to(es, 0)),
        forall|j: int| 0 <= j < es.len() ==> host_from_cbor(host_to_cbor(#[trigger] es[j].1)) == Some(es[j].1),
    ensures
        host_map_value(out) == Some(Val::Dict(es)),
{
    let c = host_entries_to(es, 0);
    lemma_host_entries_to(es, 0);
    lemma_entries_decode(es, out);
    if out.len() == 1 {
        assert(c.contains(out[0]));
        let m = choose|m: int| 0 <= m < c.len() && c[m] == out[0];
        assert forall|j: int| 0 <= j < c.len() implies c[j] == out[0] by {
            assert(out.contains(c[j]));
        }
        if es.len() > 1 {
            assert(c[0] == c[1]);
            lemma_chars_lt_asym(es[0].0, es[1].0);
        }
        assert(c[m] == (CborTree::Text(es[m].0), host_to_cbor(es[m].1)));
        assert(!text_key(out[0].0, "$tuple"@));
    }
    lemma_key_index(out, "$tag"@, 0);
    if key_index(out, "$tag"@, 0) < out.len() {
        let ti = key_index(out, "$tag"@, 0);
        assert(c.contains(out[ti]));
        let m = choose|m: int| 0 <= m < c.len() && c[m] == out[ti];
        assert(c[m] == (CborTree::Text(es[m].0), host_to_cbor(es[m].1)));
    }
}

proof fn lemma_tuple_decode(items: Seq<Val>, out: Seq<(CborTree, CborTree)>)
    requires
        keeps_exactly(
            CborTree::Entries(out),
            seq![(CborTree::Text("$tuple"@), CborTree::Array(host_items_to(items, 0)))],
        ),
        forall|j: int| 0 <= j < items.len() ==> host_from_cbor(host_to_cbor(#[trigger] items[j])) == Some(items[j]),
    ensures
        host_map_value(out) == Some(Val::Tuple(items)),
{
    lemma_keeps_one(out, (CborTree::Text("$tuple"@), CborTree::Array(host_items_to(items, 0))));
    lemma_items_decode(items, 0);
    assert(items.skip(0) =~= items);
}

proof fn lemma_enum_decode(tag: Seq<char>, fs: Entries, fo: Seq<(CborTree, CborTree)>, out: Seq<(CborTree, CborTree)>)
    requires
        sorted_keys(fs),
        keeps_exactly(CborTree::Entries(fo), host_entries_to(fs, 0)),
        forall|j: int| 0 <= j < fs.len() ==> host_from_cbor(host_to_cbor(#[trigger] fs[j].1)) == Some(fs[j].1),
        keeps_exactly(
            CborTree::Entries(out),
            seq![(CborTree::Text("$tag"@), CborTree::Text(tag)), (CborTree::Text("$fields"@), CborTree::Entries(fo))],
        ),
    ensures
        host_map_value(out) == Some(Val::Enum(tag, fs)),
{
    reveal_strlit("$tag");
    reveal_strlit("$fields");
    reveal_strlit("$tuple");
    let c = seq![(CborTree::Text("$tag"@), CborTree::Text(tag)), (CborTree::Text("$fields"@), CborTree::Entries(fo))];
    lemma_entries_decode(fs, fo);
    assert(out.contains(c[0]));
    assert(out.contains(c[1]));
    let n0 = choose|n: int| 0 <= n < out.len() && out[n] == c[0];
    let n1 = choose|n: int| 0 <= n < out.len() && out[n] == c[1];
    assert(n0 != n1);
    lemma_key_index_first(out, "$tag"@, 0, n0);
    lemma_key_index_first(out, "$fields"@, 0, n1);
    lemma_key_index(out, "$tag"@, 0);
    lemma_key_index(out, "$fields"@, 0);
    let ti = key_index(out, "$tag"@, 0);
    let fi = key_index(out, "$fields"@, 0);
    assert(c.contains(out[ti]));
    assert(c.contains(out[fi]));
    assert(out[ti] == c[0]);
    assert(out[fi] == c[1]);
}

} // verus!
