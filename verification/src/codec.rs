use vstd::prelude::*;
use crate::cbor_order::{canon_insert, canon_key_before, canon_lt, canon_sort, canon_sorted, distinct_keys, entry_key, insert_pos, lemma_canon_lt, lemma_canon_sort, lemma_insert_pos};
use crate::host_cbor::{key_index, lemma_key_index, lemma_key_index_first, lemma_map_get_at, lemma_map_get_none, lemma_map_insert_get, lemma_map_insert_sorted, lemma_sorted_eq, text_keys, keeps_exactly};
use crate::text::owned;
use vstd::utf8::{is_ascii_chars, is_ascii_chars_encode_utf8};
use crate::vm::value::{
    chars_lt, entries, entries_insert, lemma_entries0, lemma_vals0, map_get, map_insert, val, vals, Entries, Val,
    VmValue,
};

verus! {

// ---------------------------------------------------------------------------
// CBOR values of ciborium
// ---------------------------------------------------------------------------

#[verifier::external_type_specification]
#[verifier::external_body]
pub struct ExCborValue(ciborium::Value);

#[verifier::external_type_specification]
#[verifier::external_body]
pub struct ExIoError(std::io::Error);

#[verifier::external_type_specification]
#[verifier::external_body]
#[verifier::reject_recursive_types(T)]
pub struct ExDecodeError<T>(ciborium::de::Error<T>);

#[verifier::external_type_specification]
#[verifier::external_body]
#[verifier::reject_recursive_types(T)]
pub struct ExEncodeError<T>(ciborium::ser::Error<T>);

/// The content of a CBOR value, as far as values of this library can be made of it; byte
/// strings, floats and tagged values are `Other`.
pub enum CborTree {
    Null,
    Bool(bool),
    Integer(int),
    Text(Seq<char>),
    Array(Seq<CborTree>),
    Entries(Seq<(CborTree, CborTree)>),
    Other,
}

/// What a ciborium value holds.
pub uninterp spec fn cbor_content(v: ciborium::Value) -> CborTree;

/// What ciborium decodes from the bytes `bytes`, if they decode.
pub uninterp spec fn cbor_decoding(bytes: Seq<u8>) -> Option<CborTree>;

/// The bytes ciborium writes for a value with content `t`, if it writes it.
pub uninterp spec fn cbor_encoding(t: CborTree) -> Option<Seq<u8>>;

pub open spec fn contents(s: Seq<ciborium::Value>) -> Seq<CborTree> {
    s.map_values(|x: ciborium::Value| cbor_content(x))
}

pub open spec fn pair_contents(s: Seq<(ciborium::Value, ciborium::Value)>) -> Seq<(CborTree, CborTree)> {
    s.map_values(|e: (ciborium::Value, ciborium::Value)| (cbor_content(e.0), cbor_content(e.1)))
}

/// Whether a content has no `Other` part and only integers of `i64` (then it determines the
/// ciborium value).
pub open spec fn plain_tree(t: CborTree) -> bool
    decreases t,
{
    match t {
        CborTree::Array(items) => forall|i: int| 0 <= i < items.len() ==> plain_tree(#[trigger] items[i]),
        CborTree::Entries(es) => forall|i: int|
            0 <= i < es.len() ==> plain_tree(#[trigger] es[i].0) && plain_tree(es[i].1),
        CborTree::Integer(n) => i64::MIN <= n <= i64::MAX,
        CborTree::Other => false,
        _ => true,
    }
}

/// Whether every array and map of `t` lies within `n` levels of nesting: each array or map
/// takes one level, the parts inside it the levels below.
pub open spec fn nested_within(t: CborTree, n: nat) -> bool
    decreases t,
{
    match t {
        CborTree::Array(items) => n > 0 && forall|i: int|
            0 <= i < items.len() ==> nested_within(#[trigger] items[i], (n - 1) as nat),
        CborTree::Entries(es) => n > 0 && forall|i: int|
            0 <= i < es.len() ==> nested_within(#[trigger] es[i].0, (n - 1) as nat) && nested_within(
                es[i].1,
                (n - 1) as nat,
            ),
        _ => true,
    }
}

/// More levels allow what fewer allow.
pub proof fn lemma_nested_more(t: CborTree, n: nat, m: nat)
    requires
        nested_within(t, n),
        n <= m,
    ensures
        nested_within(t, m),
    decreases t,
{
    match t {
        CborTree::Array(items) => {
            assert forall|i: int| 0 <= i < items.len() implies nested_within(#[trigger] items[i], (m - 1) as nat) by {
                lemma_nested_more(items[i], (n - 1) as nat, (m - 1) as nat);
            }
        },
        CborTree::Entries(es) => {
            assert forall|i: int| 0 <= i < es.len() implies nested_within(#[trigger] es[i].0, (m - 1) as nat)
                && nested_within(es[i].1, (m - 1) as nat) by {
                lemma_nested_more(es[i].0, (n - 1) as nat, (m - 1) as nat);
                lemma_nested_more(es[i].1, (n - 1) as nat, (m - 1) as nat);
            }
        },
        _ => {},
    }
}

/// A look at one level of a ciborium value.
pub enum CborRead<'a> {
    Null,
    Bool(bool),
    Integer(i128),
    Text(&'a String),
    Array(&'a Vec<ciborium::Value>),
    Entries(&'a Vec<(ciborium::Value, ciborium::Value)>),
    Other,
}

/// Tells the variants of `ciborium::Value` apart; an integer is read with
/// `From<ciborium::value::Integer> for i128`. Claims that each variant's content is the
/// content of its parts.
#[verifier::external_body]
fn cbor_read<'a>(v: &'a ciborium::Value) -> (r: CborRead<'a>)
    ensures
        match r {
            CborRead::Null => cbor_content(*v) == CborTree::Null,
            CborRead::Bool(b) => cbor_content(*v) == CborTree::Bool(b),
            CborRead::Integer(n) => cbor_content(*v) == CborTree::Integer(n as int),
            CborRead::Text(s) => cbor_content(*v) == CborTree::Text(s@),
            CborRead::Array(a) => cbor_content(*v) == CborTree::Array(contents(a@)),
            CborRead::Entries(m) => cbor_content(*v) == CborTree::Entries(pair_contents(m@)),
            CborRead::Other => cbor_content(*v) == CborTree::Other,
        },
{
    match v {
        ciborium::Value::Null => CborRead::Null,
        ciborium::Value::Bool(b) => CborRead::Bool(*b),
        ciborium::Value::Integer(i) => CborRead::Integer(i128::from(*i)),
        ciborium::Value::Text(s) => CborRead::Text(s),
        ciborium::Value::Array(a) => CborRead::Array(a),
        ciborium::Value::Map(m) => CborRead::Entries(m),
        _ => CborRead::Other,
    }
}

/// `ciborium::Value::Null`.
#[verifier::external_body]
fn cbor_null() -> (r: ciborium::Value)
    ensures
        cbor_content(r) == CborTree::Null,
{
    ciborium::Value::Null
}

/// `ciborium::Value::Bool`.
#[verifier::external_body]
fn cbor_bool(b: bool) -> (r: ciborium::Value)
    ensures
        cbor_content(r) == CborTree::Bool(b),
{
    ciborium::Value::Bool(b)
}

/// `ciborium::Value::Integer`, made with `From<i64> for ciborium::value::Integer`.
#[verifier::external_body]
fn cbor_integer(n: i64) -> (r: ciborium::Value)
    ensures
        cbor_content(r) == CborTree::Integer(n as int),
{
    ciborium::Value::Integer(n.into())
}

/// `ciborium::Value::Text`.
#[verifier::external_body]
fn cbor_text(s: String) -> (r: ciborium::Value)
    ensures
        cbor_content(r) == CborTree::Text(s@),
{
    ciborium::Value::Text(s)
}

/// `ciborium::Value::Array`.
#[verifier::external_body]
fn cbor_array(items: Vec<ciborium::Value>) -> (r: ciborium::Value)
    ensures
        cbor_content(r) == CborTree::Array(contents(items@)),
{
    ciborium::Value::Array(items)
}

/// `ciborium::Value::Map`, its entries in the given order.
#[verifier::external_body]
fn cbor_map(es: Vec<(ciborium::Value, ciborium::Value)>) -> (r: ciborium::Value)
    ensures
        cbor_content(r) == CborTree::Entries(pair_contents(es@)),
{
    ciborium::Value::Map(es)
}

/// `ciborium::from_reader` on a byte slice: the value it decodes, or its error. The claim is
/// that what it decodes is a function of the bytes.
#[verifier::external_body]
fn cbor_from_bytes(bytes: &[u8]) -> (r: Result<ciborium::Value, ciborium::de::Error<std::io::Error>>)
    ensures
        match r {
            Ok(v) => cbor_decoding(bytes@) == Some(cbor_content(v)),
            Err(_) => cbor_decoding(bytes@) is None,
        },
{
    ciborium::from_reader(bytes)
}

/// `ciborium::into_writer` into a new byte vector: the bytes written. The claim is that for a
/// value without float, byte string or tag parts writing succeeds (a vector takes every write),
/// that what it writes is a function of the value's content, and that `ciborium::from_reader`
/// reads that content back from those bytes when its arrays and maps are nested at most 256
/// deep, the depth `from_reader` allows (null, booleans, integers, texts, arrays, and maps with
/// their entries in order are written and read as they are).
#[verifier::external_body]
fn cbor_to_bytes(v: &ciborium::Value) -> (r: Result<Vec<u8>, ciborium::ser::Error<std::io::Error>>)
    requires
        plain_tree(cbor_content(*v)),
    ensures
        r is Ok,
        match r {
            Ok(b) => cbor_encoding(cbor_content(*v)) == Some(b@) && (nested_within(cbor_content(*v), 256)
                ==> cbor_decoding(b@) == Some(cbor_content(*v))),
            Err(_) => cbor_encoding(cbor_content(*v)) is None,
        },
{
    let mut bytes = Vec::new();
    ciborium::into_writer(v, &mut bytes)?;
    Ok(bytes)
}

// ---------------------------------------------------------------------------
// The mapping between CBOR and runtime values
// ---------------------------------------------------------------------------

pub open spec fn text_key(t: CborTree, k: Seq<char>) -> bool {
    t == CborTree::Text(k)
}

/// The runtime value a CBOR content stands for; `None` when it has an invalid format.
/// A map with the single key `$tuple` is a tuple; a map with `$tag` or `$fields` is an enum
/// value, which needs both; any other map with text keys is a map.
pub open spec fn from_cbor(t: CborTree) -> Option<Val>
    decreases t, 2int, 0int,
{
    match t {
        CborTree::Null => Some(Val::Unit),
        CborTree::Bool(b) => Some(Val::Bool(b)),
        CborTree::Integer(n) => if i64::MIN <= n <= i64::MAX {
            Some(Val::Int(n as i64))
        } else {
            None
        },
        CborTree::Text(s) => Some(Val::Str(s)),
        CborTree::Array(items) => match items_from(items, 0) {
            Some(vs) => Some(Val::List(vs)),
            None => None,
        },
        CborTree::Entries(es) => if es.len() == 1 && text_key(es[0].0, "$tuple"@) {
            match es[0].1 {
                CborTree::Array(items) => match items_from(items, 0) {
                    Some(vs) => Some(Val::Tuple(vs)),
                    None => None,
                },
                _ => None,
            }
        } else {
            map_from(es, 0, seq![], None, None)
        },
        CborTree::Other => None,
    }
}

/// The values of `items[i..]`, if each has a valid format.
pub open spec fn items_from(items: Seq<CborTree>, i: int) -> Option<Seq<Val>>
    decreases items, 1int, items.len() - i,
{
    if 0 <= i < items.len() {
        match (from_cbor(items[i]), items_from(items, i + 1)) {
            (Some(v), Some(vs)) => Some(seq![v] + vs),
            _ => None,
        }
    } else {
        Some(seq![])
    }
}

/// The entries `fs[i..]` of an enum's `$fields` map, set in order in `acc`.
pub open spec fn fields_from(fs: Seq<(CborTree, CborTree)>, i: int, acc: Entries) -> Option<Entries>
    decreases fs, 1int, fs.len() - i,
{
    if 0 <= i < fs.len() {
        match fs[i].0 {
            CborTree::Text(k) => match from_cbor(fs[i].1) {
                Some(v) => fields_from(fs, i + 1, map_insert(acc, k, v)),
                None => None,
            },
            _ => None,
        }
    } else {
        Some(acc)
    }
}

/// Reading the entries `es[i..]` of a map: the plain entries in `acc`, and `$tag` and `$fields`
/// when they come.
pub open spec fn map_from(
    es: Seq<(CborTree, CborTree)>,
    i: int,
    acc: Entries,
    tag: Option<Seq<char>>,
    fields: Option<Entries>,
) -> Option<Val>
    decreases es, 1int, es.len() - i,
{
    if 0 <= i < es.len() {
        match es[i].0 {
            CborTree::Text(k) => if k == "$tag"@ {
                match es[i].1 {
                    CborTree::Text(t) => map_from(es, i + 1, acc, Some(t), fields),
                    _ => None,
                }
            } else if k == "$fields"@ {
                match es[i].1 {
                    CborTree::Entries(fs) => match fields_from(fs, 0, seq![]) {
                        Some(f) => map_from(es, i + 1, acc, tag, Some(f)),
                        None => None,
                    },
                    _ => None,
                }
            } else {
                match from_cbor(es[i].1) {
                    Some(v) => map_from(es, i + 1, map_insert(acc, k, v), tag, fields),
                    None => None,
                }
            },
            _ => None,
        }
    } else {
        match (tag, fields) {
            (None, None) => Some(Val::Dict(acc)),
            (Some(t), Some(f)) => Some(Val::Enum(t, f)),
            _ => None,
        }
    }
}

/// Why a CBOR content cannot be read as a runtime value: the message of the first problem
/// found, in the order the content is read.
pub open spec fn cbor_error(t: CborTree) -> Seq<char>
    decreases t, 2int, 0int,
{
    match t {
        CborTree::Integer(_) => "integer does not fit in i64"@,
        CborTree::Array(items) => items_error(items, 0),
        CborTree::Entries(es) => if es.len() == 1 && text_key(es[0].0, "$tuple"@) {
            match es[0].1 {
                CborTree::Array(items) => items_error(items, 0),
                _ => "`$tuple` must be an array"@,
            }
        } else {
            map_error(es, 0, false, false)
        },
        CborTree::Other => "unsupported CBOR type for VmValue"@,
        _ => seq![],
    }
}

/// The message of the first of `items[i..]` that cannot be read.
pub open spec fn items_error(items: Seq<CborTree>, i: int) -> Seq<char>
    decreases items, 1int, items.len() - i,
{
    if 0 <= i < items.len() {
        if from_cbor(items[i]) is None {
            cbor_error(items[i])
        } else {
            items_error(items, i + 1)
        }
    } else {
        seq![]
    }
}

/// The message of the first problem among the entries `fs[i..]` of an enum's `$fields` map.
pub open spec fn fields_error(fs: Seq<(CborTree, CborTree)>, i: int) -> Seq<char>
    decreases fs, 1int, fs.len() - i,
{
    if 0 <= i < fs.len() {
        match fs[i].0 {
            CborTree::Text(_) => if from_cbor(fs[i].1) is None {
                cbor_error(fs[i].1)
            } else {
                fields_error(fs, i + 1)
            },
            _ => "enum field key must be text"@,
        }
    } else {
        seq![]
    }
}

/// The message of the first problem reading the entries `es[i..]` of a map, `tag` and `fields`
/// telling whether `$tag` and `$fields` came before.
pub open spec fn map_error(es: Seq<(CborTree, CborTree)>, i: int, tag: bool, fields: bool) -> Seq<char>
    decreases es, 1int, es.len() - i,
{
    if 0 <= i < es.len() {
        match es[i].0 {
            CborTree::Text(k) => if k == "$tag"@ {
                match es[i].1 {
                    CborTree::Text(_) => map_error(es, i + 1, true, fields),
                    _ => "`$tag` must be text"@,
                }
            } else if k == "$fields"@ {
                match es[i].1 {
                    CborTree::Entries(fs) => if fields_from(fs, 0, seq![]) is None {
                        fields_error(fs, 0)
                    } else {
                        map_error(es, i + 1, tag, true)
                    },
                    _ => "`$fields` must be a map"@,
                }
            } else if from_cbor(es[i].1) is None {
                cbor_error(es[i].1)
            } else {
                map_error(es, i + 1, tag, fields)
            },
            _ => "map key must be text"@,
        }
    } else if !tag && fields {
        "enum map is missing `$tag`"@
    } else if tag && !fields {
        "enum map is missing `$fields`"@
    } else {
        seq![]
    }
}

/// The CBOR content a runtime value is written as; the entries of each map in canonical key
/// order (an enum value is the map of `$tag` and `$fields`, in that order).
pub open spec fn to_cbor(v: Val) -> CborTree
    decreases v, 0int,
{
    match v {
        Val::Unit => CborTree::Null,
        Val::Int(n) => CborTree::Integer(n as int),
        Val::Bool(b) => CborTree::Bool(b),
        Val::Str(s) => CborTree::Text(s),
        Val::List(items) => CborTree::Array(items_to(items, 0)),
        Val::Tuple(items) => CborTree::Entries(seq![(CborTree::Text("$tuple"@), CborTree::Array(items_to(items, 0)))]),
        Val::Dict(es) => CborTree::Entries(canon_sort(entries_to(es, 0))),
        Val::Enum(tag, fs) => CborTree::Entries(
            seq![(CborTree::Text("$tag"@), CborTree::Text(tag)), (CborTree::Text("$fields"@), CborTree::Entries(canon_sort(entries_to(fs, 0))))],
        ),
    }
}

pub open spec fn items_to(items: Seq<Val>, i: int) -> Seq<CborTree>
    decreases items, items.len() - i,
{
    if 0 <= i < items.len() {
        seq![to_cbor(items[i])] + items_to(items, i + 1)
    } else {
        seq![]
    }
}

pub open spec fn entries_to(es: Entries, i: int) -> Seq<(CborTree, CborTree)>
    decreases es, es.len() - i,
{
    if 0 <= i < es.len() {
        seq![(CborTree::Text(es[i].0), to_cbor(es[i].1))] + entries_to(es, i + 1)
    } else {
        seq![]
    }
}

/// How deeply a runtime value nests the arrays and maps it is written as: a list or a map
/// takes one level, a tuple or an enum value two (an array inside a map, a map inside a map).
pub open spec fn val_depth(v: Val) -> nat
    decreases v, 1int, 0int,
{
    match v {
        Val::List(items) => 1 + items_depth(items, 0),
        Val::Tuple(items) => 2 + items_depth(items, 0),
        Val::Dict(es) => 1 + entries_depth(es, 0),
        Val::Enum(_, fs) => 2 + entries_depth(fs, 0),
        _ => 0,
    }
}

/// The deepest of the values `items[i..]`.
pub open spec fn items_depth(items: Seq<Val>, i: int) -> nat
    decreases items, 0int, items.len() - i,
{
    if 0 <= i < items.len() {
        let a = val_depth(items[i]);
        let b = items_depth(items, i + 1);
        if a >= b {
            a
        } else {
            b
        }
    } else {
        0
    }
}

/// The deepest of the entry values `es[i..]`.
pub open spec fn entries_depth(es: Entries, i: int) -> nat
    decreases es, 0int, es.len() - i,
{
    if 0 <= i < es.len() {
        let a = val_depth(es[i].1);
        let b = entries_depth(es, i + 1);
        if a >= b {
            a
        } else {
            b
        }
    } else {
        0
    }
}

pub proof fn lemma_items_depth(items: Seq<Val>, i: int, k: int)
    requires
        0 <= i <= k < items.len(),
    ensures
        val_depth(items[k]) <= items_depth(items, i),
    decreases k - i,
{
    if i < k {
        lemma_items_depth(items, i + 1, k);
    }
}

pub proof fn lemma_entries_depth(es: Entries, i: int, k: int)
    requires
        0 <= i <= k < es.len(),
    ensures
        val_depth(es[k].1) <= entries_depth(es, i),
    decreases k - i,
{
    if i < k {
        lemma_entries_depth(es, i + 1, k);
    }
}

/// What a runtime value is written as nests its arrays and maps as deeply as the value says.
pub proof fn lemma_to_cbor_nested(v: Val)
    ensures
        nested_within(to_cbor(v), val_depth(v)),
    decreases v,
{
    match v {
        Val::List(items) => {
            lemma_items_to(items, 0);
            assert forall|i: int| 0 <= i < items_to(items, 0).len() implies nested_within(
                #[trigger] items_to(items, 0)[i],
                items_depth(items, 0),
            ) by {
                lemma_to_cbor_nested(items[i]);
                lemma_items_depth(items, 0, i);
                lemma_nested_more(to_cbor(items[i]), val_depth(items[i]), items_depth(items, 0));
            }
        },
        Val::Tuple(items) => {
            lemma_items_to(items, 0);
            let d = items_depth(items, 0);
            assert forall|i: int| 0 <= i < items_to(items, 0).len() implies nested_within(
                #[trigger] items_to(items, 0)[i],
                d,
            ) by {
                lemma_to_cbor_nested(items[i]);
                lemma_items_depth(items, 0, i);
                lemma_nested_more(to_cbor(items[i]), val_depth(items[i]), d);
            }
            assert(nested_within(CborTree::Array(items_to(items, 0)), d + 1));
            let es = seq![(CborTree::Text("$tuple"@), CborTree::Array(items_to(items, 0)))];
            assert forall|i: int| 0 <= i < es.len() implies nested_within(#[trigger] es[i].0, d + 1) && nested_within(
                es[i].1,
                d + 1,
            ) by {}
        },
        Val::Dict(es) => {
            let d = entries_depth(es, 0);
            let c = canon_sort(entries_to(es, 0));
            assert forall|i: int| 0 <= i < c.len() implies nested_within(#[trigger] c[i].0, d) && nested_within(
                c[i].1,
                d,
            ) by {
                let m = lemma_sorted_entry(es, i);
                lemma_to_cbor_nested(es[m].1);
                lemma_entries_depth(es, 0, m);
                lemma_nested_more(to_cbor(es[m].1), val_depth(es[m].1), d);
            }
        },
        Val::Enum(tag, fs) => {
            let d = entries_depth(fs, 0);
            let c = canon_sort(entries_to(fs, 0));
            assert forall|i: int| 0 <= i < c.len() implies nested_within(#[trigger] c[i].0, d) && nested_within(
                c[i].1,
                d,
            ) by {
                let m = lemma_sorted_entry(fs, i);
                lemma_to_cbor_nested(fs[m].1);
                lemma_entries_depth(fs, 0, m);
                lemma_nested_more(to_cbor(fs[m].1), val_depth(fs[m].1), d);
            }
            assert(nested_within(CborTree::Entries(c), d + 1));
            let t = to_cbor(v);
            assert forall|i: int| 0 <= i < t->Entries_0.len() implies nested_within(#[trigger] t->Entries_0[i].0, d + 1)
                && nested_within(t->Entries_0[i].1, d + 1) by {}
        },
        _ => {},
    }
}

// ---------------------------------------------------------------------------
// Executable mapping
// ---------------------------------------------------------------------------

/// Why a value could not be decoded or encoded.
#[derive(Debug)]
pub enum CodecError {
    Decode(ciborium::de::Error<std::io::Error>),
    Encode(ciborium::ser::Error<std::io::Error>),
    InvalidFormat(String),
}

proof fn lemma_items_to(items: Seq<Val>, i: int)
    requires
        0 <= i <= items.len(),
    ensures
        items_to(items, i) == Seq::new((items.len() - i) as nat, |k: int| to_cbor(items[i + k])),
    decreases items.len() - i,
{
    if i < items.len() {
        lemma_items_to(items, i + 1);
    }
    assert(items_to(items, i) =~= Seq::new((items.len() - i) as nat, |k: int| to_cbor(items[i + k])));
}

proof fn lemma_entries_to(es: Entries, i: int)
    requires
        0 <= i <= es.len(),
    ensures
        entries_to(es, i) == Seq::new(
            (es.len() - i) as nat,
            |k: int| (CborTree::Text(es[i + k].0), to_cbor(es[i + k].1)),
        ),
    decreases es.len() - i,
{
    if i < es.len() {
        lemma_entries_to(es, i + 1);
    }
    assert(entries_to(es, i) =~= Seq::new(
        (es.len() - i) as nat,
        |k: int| (CborTree::Text(es[i + k].0), to_cbor(es[i + k].1)),
    ));
}

/// Every runtime value is written as a CBOR content without `Other` parts.
proof fn lemma_to_cbor_plain(v: Val)
    ensures
        plain_tree(to_cbor(v)),
    decreases v,
{
    match v {
        Val::List(items) => {
            lemma_items_to(items, 0);
            assert forall|i: int| 0 <= i < items.len() implies plain_tree(#[trigger] items_to(items, 0)[i]) by {
                lemma_to_cbor_plain(items[i]);
            }
            assert(plain_tree(CborTree::Array(items_to(items, 0))));
        },
        Val::Tuple(items) => {
            lemma_items_to(items, 0);
            assert forall|i: int| 0 <= i < items.len() implies plain_tree(#[trigger] items_to(items, 0)[i]) by {
                lemma_to_cbor_plain(items[i]);
            }
            assert(plain_tree(CborTree::Array(items_to(items, 0))));
            assert(plain_tree(CborTree::Text("$tuple"@)));
            let es = seq![(CborTree::Text("$tuple"@), CborTree::Array(items_to(items, 0)))];
            assert forall|i: int| 0 <= i < es.len() implies plain_tree(#[trigger] es[i].0) && plain_tree(es[i].1) by {}
            assert(plain_tree(CborTree::Entries(es)));
        },
        Val::Dict(es) => {
            let c = canon_sort(entries_to(es, 0));
            assert forall|i: int| 0 <= i < c.len() implies plain_tree(#[trigger] c[i].0) && plain_tree(c[i].1) by {
                let m = lemma_sorted_entry(es, i);
                lemma_to_cbor_plain(es[m].1);
                assert(plain_tree(CborTree::Text(es[m].0)));
            }
            assert(plain_tree(CborTree::Entries(c)));
        },
        Val::Enum(tag, fs) => {
            let c = canon_sort(entries_to(fs, 0));
            assert forall|i: int| 0 <= i < c.len() implies plain_tree(#[trigger] c[i].0) && plain_tree(c[i].1) by {
                let m = lemma_sorted_entry(fs, i);
                lemma_to_cbor_plain(fs[m].1);
                assert(plain_tree(CborTree::Text(fs[m].0)));
            }
            assert(plain_tree(CborTree::Entries(c)));
            assert(plain_tree(CborTree::Text("$fields"@)));
            assert(plain_tree(CborTree::Text("$tag"@)));
            assert(plain_tree(CborTree::Text(tag)));
            let es = seq![
                (CborTree::Text("$tag"@), CborTree::Text(tag)),
                (CborTree::Text("$fields"@), CborTree::Entries(c)),
            ];
            assert forall|i: int| 0 <= i < es.len() implies plain_tree(#[trigger] es[i].0) && plain_tree(es[i].1) by {}
            assert(plain_tree(CborTree::Entries(es)));
        },
        _ => {},
    }
}

spec fn opt_text(o: Option<String>) -> Option<Seq<char>> {
    match o {
        Some(t) => Some(t@),
        None => None,
    }
}

spec fn opt_entries(o: Option<Vec<(String, VmValue)>>) -> Option<Entries> {
    match o {
        Some(f) => Some(entries(f@, 0)),
        None => None,
    }
}

fn invalid(message: &str) -> (e: CodecError)
    ensures
        e matches CodecError::InvalidFormat(m) && m@ == message@,
{
    CodecError::InvalidFormat(owned(message))
}

/// Whether a CBOR value is the text `key`.
fn is_text_key(v: &ciborium::Value, key: &str) -> (r: bool)
    ensures
        r == (cbor_content(*v) == CborTree::Text(key@)),
{
    match cbor_read(v) {
        CborRead::Text(s) => *s == owned(key),
        _ => false,
    }
}

/// The runtime value a CBOR value stands for.
fn vm_value_from_cbor(value: &ciborium::Value) -> (r: Result<VmValue, CodecError>)
    ensures
        match (r, from_cbor(cbor_content(*value))) {
            (Ok(v), Some(x)) => val(v) == x,
            (Err(e), None) => e matches CodecError::InvalidFormat(m) && m@ == cbor_error(cbor_content(*value)),
            _ => false,
        },
    decreases cbor_content(*value), 2int,
{
    match cbor_read(value) {
        CborRead::Null => Ok(VmValue::Unit),
        CborRead::Bool(b) => Ok(VmValue::Bool(b)),
        CborRead::Integer(n) => {
            if n < i64::MIN as i128 || n > i64::MAX as i128 {
                return Err(invalid("integer does not fit in i64"));
            }
            Ok(VmValue::Int(n as i64))
        },
        CborRead::Text(s) => Ok(VmValue::String(s.clone())),
        CborRead::Array(items) => {
            let out = decode_items(items)?;
            Ok(VmValue::List(out))
        },
        CborRead::Entries(es) => parse_vm_map(es),
        CborRead::Other => Err(invalid("unsupported CBOR type for VmValue")),
    }
}

/// The values of a CBOR array's items.
fn decode_items(items: &Vec<ciborium::Value>) -> (r: Result<Vec<VmValue>, CodecError>)
    ensures
        match (r, items_from(contents(items@), 0)) {
            (Ok(vs), Some(xs)) => vals(vs@, 0) == xs,
            (Err(e), None) => e matches CodecError::InvalidFormat(m) && m@ == items_error(contents(items@), 0),
            _ => false,
        },
    decreases contents(items@), 1int,
{
    let ghost c = contents(items@);
    let mut out: Vec<VmValue> = Vec::new();
    let mut i: usize = 0;
    proof {
        lemma_vals0(out@);
        assert(vals(out@, 0) + items_from(c, 0).unwrap_or(seq![]) =~= items_from(c, 0).unwrap_or(seq![]));
    }
    while i < items.len()
        invariant
            i <= items.len(),
            c == contents(items@),
            items_from(c, 0) == match items_from(c, i as int) {
                Some(rest) => Some(vals(out@, 0) + rest),
                None => None::<Seq<Val>>,
            },
            items_error(c, 0) == items_error(c, i as int),
        decreases items.len() - i,
    {
        proof {
            assert(c[i as int] == cbor_content(items@[i as int]));
            assert(decreases_to!(c => c[i as int]));
        }
        let v = match vm_value_from_cbor(&items[i]) {
            Ok(v) => v,
            Err(e) => {
                return Err(e);
            },
        };
        let ghost before = out@;
        out.push(v);
        proof {
            lemma_vals0(before);
            lemma_vals0(out@);
            assert(vals(out@, 0) =~= vals(before, 0).push(val(v)));
            match items_from(c, i + 1) {
                Some(rest) => {
                    assert(vals(out@, 0) + rest =~= vals(before, 0) + (seq![val(v)] + rest));
                },
                None => {},
            }
        }
        i += 1;
    }
    proof {
        assert(vals(out@, 0) + seq![] =~= vals(out@, 0));
    }
    Ok(out)
}

/// The entries of an enum's `$fields` map.
fn decode_fields(fs: &Vec<(ciborium::Value, ciborium::Value)>) -> (r: Result<Vec<(String, VmValue)>, CodecError>)
    ensures
        match (r, fields_from(pair_contents(fs@), 0, seq![])) {
            (Ok(es), Some(xs)) => entries(es@, 0) == xs,
            (Err(e), None) => e matches CodecError::InvalidFormat(m) && m@ == fields_error(pair_contents(fs@), 0),
            _ => false,
        },
    decreases pair_contents(fs@), 1int,
{
    let ghost c = pair_contents(fs@);
    let mut acc: Vec<(String, VmValue)> = Vec::new();
    let mut i: usize = 0;
    proof {
        lemma_entries0(acc@);
        assert(entries(acc@, 0) =~= seq![]);
    }
    while i < fs.len()
        invariant
            i <= fs.len(),
            c == pair_contents(fs@),
            fields_from(c, 0, seq![]) == fields_from(c, i as int, entries(acc@, 0)),
            fields_error(c, 0) == fields_error(c, i as int),
        decreases fs.len() - i,
    {
        proof {
            assert(c[i as int] == (cbor_content(fs@[i as int].0), cbor_content(fs@[i as int].1)));
            assert(decreases_to!(c => c[i as int]));
            assert(decreases_to!(c[i as int] => c[i as int].1));
        }
        let key = match cbor_read(&fs[i].0) {
            CborRead::Text(k) => k.clone(),
            _ => {
                return Err(invalid("enum field key must be text"));
            },
        };
        let v = match vm_value_from_cbor(&fs[i].1) {
            Ok(v) => v,
            Err(e) => {
                return Err(e);
            },
        };
        entries_insert(&mut acc, key, v);
        i += 1;
    }
    Ok(acc)
}

/// The runtime value a CBOR map stands for: a tuple, an enum value or a map.
fn parse_vm_map(es: &Vec<(ciborium::Value, ciborium::Value)>) -> (r: Result<VmValue, CodecError>)
    ensures
        match (r, from_cbor(CborTree::Entries(pair_contents(es@)))) {
            (Ok(v), Some(x)) => val(v) == x,
            (Err(e), None) => e matches CodecError::InvalidFormat(m) && m@ == cbor_error(CborTree::Entries(pair_contents(es@))),
            _ => false,
        },
    decreases pair_contents(es@), 1int,
{
    let ghost c = pair_contents(es@);
    if es.len() == 1 && is_text_key(&es[0].0, "$tuple") {
        proof {
            assert(c[0] == (cbor_content(es@[0].0), cbor_content(es@[0].1)));
            assert(decreases_to!(c => c[0]));
            assert(decreases_to!(c[0] => c[0].1));
        }
        return match cbor_read(&es[0].1) {
            CborRead::Array(items) => {
                proof {
                    assert(decreases_to!(c[0].1 => contents(items@)));
                }
                let out = decode_items(items)?;
                Ok(VmValue::Tuple(out))
            },
            _ => Err(invalid("`$tuple` must be an array")),
        };
    }
    proof {
        if es.len() == 1 {
            assert(c[0].0 == cbor_content(es@[0].0));
        }
        assert(from_cbor(CborTree::Entries(c)) == map_from(c, 0, seq![], None, None));
    }
    let mut map: Vec<(String, VmValue)> = Vec::new();
    let mut tag: Option<String> = None;
    let mut fields: Option<Vec<(String, VmValue)>> = None;
    let mut i: usize = 0;
    proof {
        lemma_entries0(map@);
        assert(entries(map@, 0) =~= seq![]);
    }
    while i < es.len()
        invariant
            i <= es.len(),
            c == pair_contents(es@),
            from_cbor(CborTree::Entries(c)) == map_from(c, 0, seq![], None, None),
            map_from(c, 0, seq![], None, None) == map_from(
                c,
                i as int,
                entries(map@, 0),
                opt_text(tag),
                opt_entries(fields),
            ),
            cbor_error(CborTree::Entries(c)) == map_error(c, 0, false, false),
            map_error(c, 0, false, false) == map_error(c, i as int, tag is Some, fields is Some),
        decreases es.len() - i,
    {
        proof {
            assert(c[i as int] == (cbor_content(es@[i as int].0), cbor_content(es@[i as int].1)));
            assert(decreases_to!(c => c[i as int]));
            assert(decreases_to!(c[i as int] => c[i as int].1));
        }
        let ghost tg = opt_text(tag);
        let ghost fl = opt_entries(fields);
        let key = match cbor_read(&es[i].0) {
            CborRead::Text(k) => k,
            _ => {
                return Err(invalid("map key must be text"));
            },
        };
        if *key == owned("$tag") {
            match cbor_read(&es[i].1) {
                CborRead::Text(t) => {
                    tag = Some(t.clone());
                },
                _ => {
                    assert(!(cbor_content(es@[i as int].1) is Text));
                    assert(map_from(c, i as int, entries(map@, 0), tg, fl) is None);
                    return Err(invalid("`$tag` must be text"));
                },
            }
        } else if *key == owned("$fields") {
            match cbor_read(&es[i].1) {
                CborRead::Entries(f) => {
                    proof {
                        assert(decreases_to!(c[i as int].1 => pair_contents(f@)));
                    }
                    let parsed = decode_fields(f)?;
                    fields = Some(parsed);
                },
                _ => {
                    assert(!(cbor_content(es@[i as int].1) is Entries));
                    assert(map_from(c, i as int, entries(map@, 0), tg, fl) is None);
                    return Err(invalid("`$fields` must be a map"));
                },
            }
        } else {
            let v = vm_value_from_cbor(&es[i].1)?;
            entries_insert(&mut map, key.clone(), v);
        }
        i += 1;
    }
    match (tag, fields) {
        (None, None) => Ok(VmValue::Dict(map)),
        (Some(t), Some(f)) => Ok(VmValue::Enum { tag: t, fields: f }),
        (None, Some(_)) => Err(invalid("enum map is missing `$tag`")),
        (Some(_), None) => Err(invalid("enum map is missing `$fields`")),
    }
}

/// The CBOR value a runtime value is written as.
fn cbor_from_vm_value(value: &VmValue) -> (r: ciborium::Value)
    ensures
        cbor_content(r) == to_cbor(val(*value)),
    decreases value,
{
    match value {
        VmValue::Unit => cbor_null(),
        VmValue::Int(n) => cbor_integer(*n),
        VmValue::Bool(b) => cbor_bool(*b),
        VmValue::String(s) => cbor_text(s.clone()),
        VmValue::List(items) => {
            let out = encode_items(value, items);
            cbor_array(out)
        },
        VmValue::Tuple(items) => {
            let out = encode_items(value, items);
            let mut es: Vec<(ciborium::Value, ciborium::Value)> = Vec::new();
            es.push((cbor_text(owned("$tuple")), cbor_array(out)));
            assert(pair_contents(es@) =~= seq![
                (CborTree::Text("$tuple"@), CborTree::Array(items_to(vals(items@, 0), 0))),
            ]);
            cbor_map(es)
        },
        VmValue::Dict(entries) => {
            let out = encode_entries(value, entries);
            cbor_map(out)
        },
        VmValue::Enum { tag, fields } => {
            let out = encode_entries(value, fields);
            let mut es: Vec<(ciborium::Value, ciborium::Value)> = Vec::new();
            es.push((cbor_text(owned("$tag")), cbor_text(tag.clone())));
            es.push((cbor_text(owned("$fields")), cbor_map(out)));
            assert(pair_contents(es@) =~= seq![
                (CborTree::Text("$tag"@), CborTree::Text(tag@)),
                (CborTree::Text("$fields"@), CborTree::Entries(canon_sort(entries_to(entries(fields@, 0), 0)))),
            ]);
            cbor_map(es)
        },
    }
}

fn encode_items(parent: &VmValue, items: &Vec<VmValue>) -> (r: Vec<ciborium::Value>)
    requires
        (parent matches VmValue::List(x) && x == items) || (parent matches VmValue::Tuple(x) && x == items),
    ensures
        contents(r@) == items_to(vals(items@, 0), 0),
    decreases parent, 1int,
{
    let mut out: Vec<ciborium::Value> = Vec::new();
    let mut i: usize = 0;
    while i < items.len()
        invariant
            i <= items.len(),
            (parent matches VmValue::List(x) && x == items) || (parent matches VmValue::Tuple(x) && x == items),
            out.len() == i,
            forall|k: int| 0 <= k < i ==> #[trigger] cbor_content(out@[k]) == to_cbor(val(items@[k])),
        decreases items.len() - i,
    {
        proof {
            assert(decreases_to!(parent => items@[i as int]));
        }
        out.push(cbor_from_vm_value(&items[i]));
        i += 1;
    }
    proof {
        lemma_vals0(items@);
        lemma_items_to(vals(items@, 0), 0);
        assert(contents(out@) =~= items_to(vals(items@, 0), 0));
    }
    out
}

/// The entry `e` set into `t` at `p`, where `canon_insert` sets it.
proof fn lemma_insert_at(t: Seq<(CborTree, CborTree)>, e: (CborTree, CborTree), p: int)
    requires
        0 <= p <= t.len(),
        forall|j: int| 0 <= j < p ==> !canon_lt(entry_key(e), entry_key(#[trigger] t[j])),
        p < t.len() ==> canon_lt(entry_key(e), entry_key(t[p])),
    ensures
        canon_insert(t, e) == t.insert(p, e),
{
    lemma_insert_pos(t, e, 0);
    assert(t.skip(0) =~= t);
    let q = insert_pos(t, e, 0);
    if q < p {
        assert(!canon_lt(entry_key(e), entry_key(t[q])));
    } else if p < q {
        assert(!canon_lt(entry_key(e), entry_key(t[p])));
    }
}

/// The CBOR entries a runtime map or enum value is written as, in canonical key order: each is
/// set before the first entry whose key its key comes before.
fn encode_entries(parent: &VmValue, es: &Vec<(String, VmValue)>) -> (r: Vec<(ciborium::Value, ciborium::Value)>)
    requires
        (parent matches VmValue::Dict(x) && x == es) || (parent matches VmValue::Enum { fields: x, .. } && x == es),
    ensures
        pair_contents(r@) == canon_sort(entries_to(entries(es@, 0), 0)),
    decreases parent, 1int,
{
    let ghost c = entries_to(entries(es@, 0), 0);
    proof {
        lemma_entries0(es@);
        lemma_entries_to(entries(es@, 0), 0);
        assert(c.take(0) =~= Seq::<(CborTree, CborTree)>::empty());
    }
    let mut out: Vec<(ciborium::Value, ciborium::Value)> = Vec::new();
    let mut keys: Vec<String> = Vec::new();
    let mut i: usize = 0;
    proof {
        assert(pair_contents(out@) =~= canon_sort(c.take(0)));
    }
    while i < es.len()
        invariant
            i <= es.len(),
            (parent matches VmValue::Dict(x) && x == es) || (parent matches VmValue::Enum { fields: x, .. } && x == es),
            c.len() == es.len(),
            forall|k: int|
                0 <= k < es.len() ==> #[trigger] c[k] == (CborTree::Text(es@[k].0@), to_cbor(val(es@[k].1))),
            pair_contents(out@) == canon_sort(c.take(i as int)),
            keys.len() == out.len(),
            forall|k: int| 0 <= k < keys.len() ==> entry_key(#[trigger] pair_contents(out@)[k]) == keys@[k]@,
        decreases es.len() - i,
    {
        proof {
            assert(decreases_to!(parent => es@[i as int].1));
        }
        let key = es[i].0.clone();
        let v = cbor_from_vm_value(&es[i].1);
        let ghost t = pair_contents(out@);
        let ghost e = c[i as int];
        let mut p: usize = 0;
        while p < keys.len() && !canon_key_before(&key, &keys[p])
            invariant
                p <= keys.len(),
                keys.len() == t.len(),
                key@ == es@[i as int].0@,
                entry_key(e) == key@,
                forall|k: int| 0 <= k < keys.len() ==> entry_key(#[trigger] t[k]) == keys@[k]@,
                forall|j: int| 0 <= j < p ==> !canon_lt(entry_key(e), entry_key(#[trigger] t[j])),
            decreases keys.len() - p,
        {
            p += 1;
        }
        proof {
            if p < keys.len() {
                assert(entry_key(t[p as int]) == keys@[p as int]@);
            }
            lemma_insert_at(t, e, p as int);
            assert(c.take(i + 1).drop_last() =~= c.take(i as int));
            assert(c.take(i + 1).last() == e);
        }
        let ghost before = out@;
        let ghost kb = keys@;
        out.insert(p, (cbor_text(key.clone()), v));
        keys.insert(p, key);
        proof {
            assert(pair_contents(out@) =~= t.insert(p as int, e));
            t.insert_ensures(p as int, e);
            kb.insert_ensures(p as int, keys@[p as int]);
            assert(keys@ =~= kb.insert(p as int, keys@[p as int]));
            assert forall|k: int| 0 <= k < keys.len() implies entry_key(#[trigger] pair_contents(out@)[k]) == keys@[k]@ by {
                if k < p {
                    assert(pair_contents(out@)[k] == t[k]);
                    assert(keys@[k] == kb[k]);
                } else if k > p {
                    assert(pair_contents(out@)[k] == t[k - 1]);
                    assert(keys@[k] == kb[k - 1]);
                }
            }
        }
        i += 1;
    }
    proof {
        assert(c.take(es.len() as int) =~= c);
    }
    out
}

/// Decodes a runtime value from CBOR bytes.
pub fn decode_value(bytes: &[u8]) -> (r: Result<VmValue, CodecError>)
    ensures
        match (r, cbor_decoding(bytes@)) {
            (Ok(v), Some(t)) => from_cbor(t) == Some(val(v)),
            (Err(CodecError::Decode(_)), None) => true,
            (Err(CodecError::InvalidFormat(m)), Some(t)) => from_cbor(t) is None && m@ == cbor_error(t),
            _ => false,
        },
{
    match cbor_from_bytes(bytes) {
        Ok(c) => vm_value_from_cbor(&c),
        Err(e) => Err(CodecError::Decode(e)),
    }
}

/// Encodes a runtime value as CBOR bytes, each map's keys in canonical order (`to_cbor`); it
/// always succeeds. Decoding the bytes of a value whose
/// maps keep their keys in order, once each, without the reserved keys, and which nests at most
/// 256 levels deep, gives the value back.
pub fn encode_value(value: &VmValue) -> (r: Result<Vec<u8>, CodecError>)
    ensures
        r is Ok,
        match (r, cbor_encoding(to_cbor(val(*value)))) {
            (Ok(b), Some(sb)) => b@ == sb,
            (Err(CodecError::Encode(_)), None) => true,
            _ => false,
        },
        well_formed(val(*value)) && val_depth(val(*value)) <= 256 ==> (r matches Ok(b) ==> match cbor_decoding(b@) {
            Some(t) => from_cbor(t) == Some(val(*value)),
            None => false,
        }),
{
    let c = cbor_from_vm_value(value);
    proof {
        lemma_to_cbor_plain(val(*value));
        if well_formed(val(*value)) {
            lemma_roundtrip(val(*value));
        }
        lemma_to_cbor_nested(val(*value));
        if val_depth(val(*value)) <= 256 {
            lemma_nested_more(to_cbor(val(*value)), val_depth(val(*value)), 256);
        }
    }
    match cbor_to_bytes(&c) {
        Ok(b) => Ok(b),
        Err(e) => Err(CodecError::Encode(e)),
    }
}

// ---------------------------------------------------------------------------
// Round trip
// ---------------------------------------------------------------------------

/// Keys in strictly ascending order.
pub open spec fn sorted_keys(es: Entries) -> bool {
    forall|i: int, j: int| 0 <= i < j < es.len() ==> chars_lt(#[trigger] es[i].0, #[trigger] es[j].0)
}

/// A runtime value that the encoding writes unambiguously: map and enum entries in ascending key
/// order, and no map whose keys would read as a tuple or an enum value.
pub open spec fn well_formed(v: Val) -> bool
    decreases v,
{
    match v {
        Val::List(items) => forall|i: int| 0 <= i < items.len() ==> well_formed(#[trigger] items[i]),
        Val::Tuple(items) => forall|i: int| 0 <= i < items.len() ==> well_formed(#[trigger] items[i]),
        Val::Dict(es) => {
            &&& sorted_keys(es)
            &&& forall|i: int| 0 <= i < es.len() ==> (#[trigger] es[i]).0 != "$tag"@ && es[i].0 != "$fields"@
            &&& !(es.len() == 1 && es[0].0 == "$tuple"@)
            &&& forall|i: int| 0 <= i < es.len() ==> well_formed(#[trigger] es[i].1)
        },
        Val::Enum(_, fs) => {
            &&& sorted_keys(fs)
            &&& forall|i: int| 0 <= i < fs.len() ==> well_formed(#[trigger] fs[i].1)
        },
        _ => true,
    }
}

/// Of two texts, at most one is before the other, and neither is before itself.
pub proof fn lemma_chars_lt_asym(a: Seq<char>, b: Seq<char>)
    ensures
        chars_lt(a, b) ==> !chars_lt(b, a) && a != b,
    decreases a.len(),
{
    if a.len() > 0 && b.len() > 0 && a[0] == b[0] {
        lemma_chars_lt_asym(a.drop_first(), b.drop_first());
        if a == b {
            assert(a.drop_first() == b.drop_first());
        }
    }
}

/// Setting a key greater than every key of `m` appends it.
proof fn lemma_insert_last(m: Entries, k: Seq<char>, v: Val)
    requires
        forall|j: int| 0 <= j < m.len() ==> chars_lt(#[trigger] m[j].0, k),
    ensures
        map_insert(m, k, v) == m.push((k, v)),
    decreases m.len(),
{
    if m.len() > 0 {
        lemma_chars_lt_asym(m[0].0, k);
        let t = m.drop_first();
        assert forall|j: int| 0 <= j < t.len() implies chars_lt(#[trigger] t[j].0, k) by {
            assert(t[j] == m[j + 1]);
        }
        lemma_insert_last(t, k, v);
        assert(map_insert(m, k, v) =~= m.push((k, v)));
    }
}

/// Setting the next key of key-sorted entries extends their prefix.
pub proof fn lemma_insert_sorted(es: Entries, i: int)
    requires
        sorted_keys(es),
        0 <= i < es.len(),
    ensures
        map_insert(es.take(i), es[i].0, es[i].1) == es.take(i + 1),
{
    let m = es.take(i);
    assert forall|j: int| 0 <= j < m.len() implies chars_lt(#[trigger] m[j].0, es[i].0) by {
        assert(m[j] == es[j]);
    }
    lemma_insert_last(m, es[i].0, es[i].1);
    assert(m.push((es[i].0, es[i].1)) =~= es.take(i + 1));
}

proof fn lemma_items_roundtrip(items: Seq<Val>, i: int)
    requires
        0 <= i <= items.len(),
        forall|k: int| 0 <= k < items.len() ==> well_formed(#[trigger] items[k]),
    ensures
        items_from(items_to(items, 0), i) == Some(items.skip(i)),
    decreases items, items.len() - i,
{
    lemma_items_to(items, 0);
    if i < items.len() {
        lemma_roundtrip(items[i]);
        lemma_items_roundtrip(items, i + 1);
        assert(seq![items[i]] + items.skip(i + 1) =~= items.skip(i));
    } else {
        assert(items.skip(i) =~= Seq::<Val>::empty());
    }
}

/// An entry of the sorted CBOR entries of a runtime map is the entry of one of its keys.
proof fn lemma_sorted_entry(es: Entries, k: int) -> (m: int)
    requires
        0 <= k < canon_sort(entries_to(es, 0)).len(),
    ensures
        0 <= m < es.len(),
        canon_sort(entries_to(es, 0))[k] == (CborTree::Text(es[m].0), to_cbor(es[m].1)),
{
    let c = entries_to(es, 0);
    lemma_entries_to(es, 0);
    lemma_canon_sort(c);
    assert(c.contains(canon_sort(c)[k]));
    choose|m: int| 0 <= m < c.len() && c[m] == canon_sort(c)[k]
}

/// The CBOR entries of a runtime map with sorted keys, in canonical order, are exactly its
/// entries, keys strictly increasing in canonical order.
proof fn lemma_sorted_keeps(es: Entries)
    requires
        sorted_keys(es),
    ensures
        keeps_exactly(CborTree::Entries(canon_sort(entries_to(es, 0))), entries_to(es, 0)),
        canon_sorted(canon_sort(entries_to(es, 0))),
{
    let c = entries_to(es, 0);
    let o = canon_sort(c);
    lemma_entries_to(es, 0);
    assert(distinct_keys(c)) by {
        assert forall|a: int, b: int| 0 <= a < b < c.len() implies entry_key(#[trigger] c[a]) != entry_key(#[trigger] c[b]) by {
            lemma_chars_lt_asym(es[a].0, es[b].0);
        }
    }
    lemma_canon_sort(c);
    assert forall|i: int| 0 <= i < o.len() implies (#[trigger] o[i]).0 is Text by {
        let m = lemma_sorted_entry(es, i);
    }
    assert forall|i: int, j: int|
        0 <= i < o.len() && 0 <= j < o.len() && i != j && (#[trigger] o[i]).0 is Text implies o[i].0 != (
        #[trigger] o[j]).0 by {
        if i < j {
            lemma_canon_lt(entry_key(o[i]), entry_key(o[j]), entry_key(o[j]));
        } else {
            lemma_canon_lt(entry_key(o[j]), entry_key(o[i]), entry_key(o[i]));
        }
    }
}

/// Reading entries without a reserved key as a map sets them in turn, as an enum's fields are.
proof fn lemma_map_from_plain(out: Seq<(CborTree, CborTree)>, i: int, acc: Entries)
    requires
        0 <= i <= out.len(),
        forall|j: int|
            i <= j < out.len() ==> (#[trigger] out[j]).0 is Text && entry_key(out[j]) != "$tag"@ && entry_key(out[j])
                != "$fields"@,
    ensures
        map_from(out, i, acc, None, None) == match fields_from(out, i, acc) {
            Some(r) => Some(Val::Dict(r)),
            None => None,
        },
    decreases out.len() - i,
{
    if i < out.len() {
        assert(out[i].0 is Text);
        let k = out[i].0->Text_0;
        assert(entry_key(out[i]) == k);
        match from_cbor(out[i].1) {
            Some(v) => {
                lemma_map_from_plain(out, i + 1, map_insert(acc, k, v));
            },
            None => {},
        }
    }
}

/// Setting the entries `out[i..]` in order in `acc`.
proof fn lemma_fields_fold(out: Seq<(CborTree, CborTree)>, i: int, acc: Entries)
    requires
        0 <= i <= out.len(),
        text_keys(out),
        sorted_keys(acc),
        forall|j: int| i <= j < out.len() ==> from_cbor(#[trigger] out[j].1) is Some,
    ensures
        fields_from(out, i, acc) is Some,
        sorted_keys(fields_from(out, i, acc).unwrap()),
        forall|q: Seq<char>|
            #[trigger] map_get(fields_from(out, i, acc).unwrap(), q) == if key_index(out, q, i) < out.len() {
                from_cbor(out[key_index(out, q, i)].1)
            } else {
                map_get(acc, q)
            },
    decreases out.len() - i,
{
    if i < out.len() {
        let k = out[i].0->Text_0;
        let v = from_cbor(out[i].1).unwrap();
        lemma_map_insert_sorted(acc, k, v);
        lemma_fields_fold(out, i + 1, map_insert(acc, k, v));
        assert(fields_from(out, i, acc) == fields_from(out, i + 1, map_insert(acc, k, v)));
        let r = fields_from(out, i, acc).unwrap();
        assert forall|q: Seq<char>|
            #[trigger] map_get(r, q) == if key_index(out, q, i) < out.len() {
                from_cbor(out[key_index(out, q, i)].1)
            } else {
                map_get(acc, q)
            } by {
            lemma_map_insert_get(acc, k, v, q);
            lemma_key_index(out, q, i + 1);
            if q == k {
                assert(key_index(out, q, i) == i);
                if key_index(out, q, i + 1) < out.len() {
                    let m = key_index(out, q, i + 1);
                    assert(out[m].0 == out[i].0);
                    assert(out[i].0 != out[m].0);
                }
            } else {
                assert(!text_key(out[i].0, q));
                assert(key_index(out, q, i) == key_index(out, q, i + 1));
            }
        }
    }
}

/// Reading back the entries of a runtime map from any order that keeps exactly them.
proof fn lemma_fields_back(es: Entries, out: Seq<(CborTree, CborTree)>)
    requires
        sorted_keys(es),
        keeps_exactly(CborTree::Entries(out), entries_to(es, 0)),
        forall|j: int| 0 <= j < es.len() ==> from_cbor(to_cbor(#[trigger] es[j].1)) == Some(es[j].1),
    ensures
        fields_from(out, 0, seq![]) == Some(es),
{
    let c = entries_to(es, 0);
    lemma_entries_to(es, 0);
    assert forall|j: int| 0 <= j < out.len() implies from_cbor(#[trigger] out[j].1) is Some by {
        assert(c.contains(out[j]));
        let m = choose|m: int| 0 <= m < c.len() && c[m] == out[j];
        assert(c[m].1 == to_cbor(es[m].1));
    }
    let e0 = Seq::<(Seq<char>, Val)>::empty();
    assert(sorted_keys(e0));
    lemma_fields_fold(out, 0, e0);
    let r = fields_from(out, 0, e0).unwrap();
    assert forall|q: Seq<char>| map_get(r, q) == map_get(es, q) by {
        lemma_key_index(out, q, 0);
        let ki = key_index(out, q, 0);
        if ki < out.len() {
            assert(c.contains(out[ki]));
            let m = choose|m: int| 0 <= m < c.len() && c[m] == out[ki];
            assert(c[m] == (CborTree::Text(es[m].0), to_cbor(es[m].1)));
            lemma_map_get_at(es, m);
        } else {
            assert forall|j: int| 0 <= j < es.len() implies (#[trigger] es[j]).0 != q by {
                if es[j].0 == q {
                    assert(c[j] == (CborTree::Text(es[j].0), to_cbor(es[j].1)));
                    assert(out.contains(c[j]));
                    let n = choose|n: int| 0 <= n < out.len() && out[n] == c[j];
                    lemma_key_index_first(out, q, 0, n);
                }
            }
            lemma_map_get_none(es, q);
            lemma_map_get_none(e0, q);
        }
    }
    lemma_sorted_eq(r, es);
}

/// Decoding the canonical entries of a well-formed runtime map gives its entries back.
proof fn lemma_entries_roundtrip(es: Entries)
    requires
        sorted_keys(es),
        forall|k: int| 0 <= k < es.len() ==> well_formed(#[trigger] es[k].1),
    ensures
        fields_from(canon_sort(entries_to(es, 0)), 0, seq![]) == Some(es),
    decreases es, 0int,
{
    lemma_sorted_keeps(es);
    assert forall|j: int| 0 <= j < es.len() implies from_cbor(to_cbor(#[trigger] es[j].1)) == Some(es[j].1) by {
        lemma_roundtrip(es[j].1);
    }
    lemma_fields_back(es, canon_sort(entries_to(es, 0)));
}

/// Decoding what a well-formed value is written as gives the value back.
pub proof fn lemma_roundtrip(v: Val)
    requires
        well_formed(v),
    ensures
        from_cbor(to_cbor(v)) == Some(v),
    decreases v, 1int,
{
    match v {
        Val::Int(n) => {},
        Val::List(items) => {
            lemma_items_roundtrip(items, 0);
            assert(items.skip(0) =~= items);
        },
        Val::Tuple(items) => {
            lemma_items_roundtrip(items, 0);
            assert(items.skip(0) =~= items);
        },
        Val::Dict(es) => {
            let o = canon_sort(entries_to(es, 0));
            lemma_entries_roundtrip(es);
            assert forall|j: int| 0 <= j < o.len() implies (#[trigger] o[j]).0 is Text && entry_key(o[j]) != "$tag"@
                && entry_key(o[j]) != "$fields"@ by {
                let m = lemma_sorted_entry(es, j);
            }
            lemma_map_from_plain(o, 0, seq![]);
            if o.len() == 1 {
                let m = lemma_sorted_entry(es, 0);
                lemma_entries_to(es, 0);
                lemma_canon_sort(entries_to(es, 0));
                assert(es[0].0 != "$tuple"@);
                assert(!text_key(o[0].0, "$tuple"@));
            }
        },
        Val::Enum(tag, fs) => {
            reveal_strlit("$tag");
            reveal_strlit("$fields");
            reveal_strlit("$tuple");
            assert("$fields"@ != "$tag"@) by {
                assert("$fields"@[1] != "$tag"@[1]);
            }
            let o = canon_sort(entries_to(fs, 0));
            lemma_entries_roundtrip(fs);
            let es = seq![
                (CborTree::Text("$tag"@), CborTree::Text(tag)),
                (CborTree::Text("$fields"@), CborTree::Entries(o)),
            ];
            assert(map_from(es, 2, seq![], Some(tag), Some(fs)) == Some(Val::Enum(tag, fs)));
            assert(map_from(es, 1, seq![], Some(tag), None) == Some(Val::Enum(tag, fs)));
            assert(map_from(es, 0, seq![], None, None) == Some(Val::Enum(tag, fs)));
        },
        _ => {},
    }
}

/// Every map of a content has text keys, strictly increasing in canonical order.
pub open spec fn ordered_maps(t: CborTree) -> bool
    decreases t,
{
    match t {
        CborTree::Array(items) => forall|i: int| 0 <= i < items.len() ==> ordered_maps(#[trigger] items[i]),
        CborTree::Entries(es) => {
            &&& forall|i: int| 0 <= i < es.len() ==> (#[trigger] es[i]).0 is Text
            &&& canon_sorted(es)
            &&& forall|i: int| 0 <= i < es.len() ==> ordered_maps(#[trigger] es[i].1)
        },
        _ => true,
    }
}

/// The encoder writes every map of a value whose maps keep their keys in order with its keys in
/// canonical CBOR order: shorter UTF-8 encodings first, then by their bytes.
pub proof fn lemma_encoded_maps_ordered(v: Val)
    requires
        well_formed(v),
    ensures
        ordered_maps(to_cbor(v)),
    decreases v,
{
    match v {
        Val::List(items) => {
            lemma_items_to(items, 0);
            assert forall|i: int| 0 <= i < items.len() implies ordered_maps(#[trigger] items_to(items, 0)[i]) by {
                lemma_encoded_maps_ordered(items[i]);
            }
            assert(ordered_maps(CborTree::Array(items_to(items, 0))));
            assert(to_cbor(v) == CborTree::Array(items_to(items, 0)));
        },
        Val::Tuple(items) => {
            lemma_items_to(items, 0);
            assert forall|i: int| 0 <= i < items.len() implies ordered_maps(#[trigger] items_to(items, 0)[i]) by {
                lemma_encoded_maps_ordered(items[i]);
            }
            assert(ordered_maps(CborTree::Array(items_to(items, 0))));
            let es = seq![(CborTree::Text("$tuple"@), CborTree::Array(items_to(items, 0)))];
            assert(es[0].1 == CborTree::Array(items_to(items, 0)));
            assert(canon_sorted(es));
            assert(ordered_maps(CborTree::Entries(es)));
        },
        Val::Dict(es) => {
            let o = canon_sort(entries_to(es, 0));
            lemma_sorted_keeps(es);
            assert forall|i: int| 0 <= i < o.len() implies ordered_maps(#[trigger] o[i].1) by {
                let m = lemma_sorted_entry(es, i);
                lemma_encoded_maps_ordered(es[m].1);
            }
            assert(ordered_maps(CborTree::Entries(o)));
        },
        Val::Enum(tag, fs) => {
            reveal_strlit("$tag");
            reveal_strlit("$fields");
            let o = canon_sort(entries_to(fs, 0));
            lemma_sorted_keeps(fs);
            assert forall|i: int| 0 <= i < o.len() implies ordered_maps(#[trigger] o[i].1) by {
                let m = lemma_sorted_entry(fs, i);
                lemma_encoded_maps_ordered(fs[m].1);
            }
            assert(ordered_maps(CborTree::Entries(o)));
            let a = "$tag"@;
            let b = "$fields"@;
            assert(is_ascii_chars(a));
            assert(is_ascii_chars(b));
            is_ascii_chars_encode_utf8(a);
            is_ascii_chars_encode_utf8(b);
            assert(canon_lt(a, b));
            let es = seq![(CborTree::Text(a), CborTree::Text(tag)), (CborTree::Text(b), CborTree::Entries(o))];
            assert(entry_key(es[0]) == a && entry_key(es[1]) == b);
            assert(canon_sorted(es));
            assert(ordered_maps(es[1].1));
            assert(ordered_maps(es[0].1));
            assert forall|i: int| 0 <= i < es.len() implies (#[trigger] es[i]).0 is Text && ordered_maps(es[i].1) by {}
            assert(ordered_maps(CborTree::Entries(es)));
        },
        _ => {},
    }
}

} // verus!
