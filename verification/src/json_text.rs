use vstd::prelude::*;
use crate::json::{member_trees, tree, trees, Json, JsonTree};

verus! {

// ---------------------------------------------------------------------------
// JSON text read with serde_json
// ---------------------------------------------------------------------------

#[verifier::external_type_specification]
#[verifier::external_body]
pub struct ExSerdeJsonValue(serde_json::Value);

#[verifier::external_type_specification]
#[verifier::external_body]
pub struct ExSerdeJsonNumber(serde_json::Number);

#[verifier::external_type_specification]
#[verifier::external_body]
pub struct ExSerdeJsonError(serde_json::Error);

#[verifier::external_type_specification]
#[verifier::external_body]
#[verifier::reject_recursive_types(K)]
#[verifier::reject_recursive_types(V)]
pub struct ExSerdeJsonMap<K, V>(serde_json::Map<K, V>);

/// What a serde_json value holds; a number as the `i64` it is, when it is one.
pub uninterp spec fn serde_content(v: serde_json::Value) -> JsonTree;

/// The members of a serde_json object, in the order its map lists them.
pub uninterp spec fn serde_members(m: serde_json::Map<String, serde_json::Value>) -> Seq<(Seq<char>, JsonTree)>;

/// What `serde_json::Number::as_i64` gives for a number.
pub uninterp spec fn serde_number(n: serde_json::Number) -> Option<i64>;

/// What `serde_json::from_str` reads from a text, if it reads a JSON document.
pub uninterp spec fn serde_parse(text: Seq<char>) -> Option<JsonTree>;

pub open spec fn serde_contents(s: Seq<serde_json::Value>) -> Seq<JsonTree> {
    s.map_values(|x: serde_json::Value| serde_content(x))
}

pub open spec fn serde_ref_members<'a>(s: Seq<(&'a String, &'a serde_json::Value)>) -> Seq<(Seq<char>, JsonTree)> {
    s.map_values(|e: (&'a String, &'a serde_json::Value)| (e.0@, serde_content(*e.1)))
}

/// A look at one level of a serde_json value.
pub enum SerdeRead<'a> {
    Null,
    Bool(bool),
    Number(&'a serde_json::Number),
    Text(&'a String),
    Array(&'a Vec<serde_json::Value>),
    Object(&'a serde_json::Map<String, serde_json::Value>),
}

/// Tells the variants of `serde_json::Value` apart. Claims that each variant's content is the
/// content of its parts.
#[verifier::external_body]
fn serde_read<'a>(v: &'a serde_json::Value) -> (r: SerdeRead<'a>)
    ensures
        match r {
            SerdeRead::Null => serde_content(*v) == JsonTree::Null,
            SerdeRead::Bool(b) => serde_content(*v) == JsonTree::Bool(b),
            SerdeRead::Number(n) => serde_content(*v) == JsonTree::Number(serde_number(*n)),
            SerdeRead::Text(s) => serde_content(*v) == JsonTree::Str(s@),
            SerdeRead::Array(a) => serde_content(*v) == JsonTree::Array(serde_contents(a@)),
            SerdeRead::Object(m) => serde_content(*v) == JsonTree::Object(serde_members(*m)),
        },
{
    match v {
        serde_json::Value::Null => SerdeRead::Null,
        serde_json::Value::Bool(b) => SerdeRead::Bool(*b),
        serde_json::Value::Number(n) => SerdeRead::Number(n),
        serde_json::Value::String(s) => SerdeRead::Text(s),
        serde_json::Value::Array(a) => SerdeRead::Array(a),
        serde_json::Value::Object(m) => SerdeRead::Object(m),
    }
}

/// `serde_json::Number::as_i64`: the number as an `i64`, when it is one.
#[verifier::external_body]
fn serde_number_i64(n: &serde_json::Number) -> (r: Option<i64>)
    ensures
        r == serde_number(*n),
{
    n.as_i64()
}

/// `serde_json::Map::iter`, collected: the members of an object in the map's order.
#[verifier::external_body]
fn serde_map_members<'a>(m: &'a serde_json::Map<String, serde_json::Value>) -> (r: Vec<(&'a String, &'a serde_json::Value)>)
    ensures
        serde_ref_members(r@) == serde_members(*m),
{
    m.iter().collect()
}

/// `serde_json::from_str` into a value: the document it reads, or its error. The claim is that
/// what it reads is a function of the text.
#[verifier::external_body]
fn serde_from_str(text: &str) -> (r: Result<serde_json::Value, serde_json::Error>)
    ensures
        match r {
            Ok(v) => serde_parse(text@) == Some(serde_content(v)),
            Err(_) => serde_parse(text@) is None,
        },
{
    serde_json::from_str(text)
}

/// The text of a serde_json error, as its `Display` writes it; nothing is claimed of it.
#[verifier::external_body]
fn serde_error_text(e: &serde_json::Error) -> String {
    format!("{e}")
}

/// The library's JSON document for a serde_json value, part for part.
fn json_from_serde(v: &serde_json::Value) -> (r: Json)
    ensures
        tree(r) == serde_content(*v),
    decreases serde_content(*v), 2int,
{
    match serde_read(v) {
        SerdeRead::Null => Json::Null,
        SerdeRead::Bool(b) => Json::Bool(b),
        SerdeRead::Number(n) => Json::Number(serde_number_i64(n)),
        SerdeRead::Text(s) => Json::String(s.clone()),
        SerdeRead::Array(items) => {
            proof {
                let t = serde_content(*v);
                assert(t == JsonTree::Array(serde_contents(items@)));
                assert(decreases_to!(t => t->Array_0));
            }
            Json::Array(json_items_from_serde(items))
        },
        SerdeRead::Object(m) => {
            let members = serde_map_members(m);
            proof {
                let t = serde_content(*v);
                assert(t == JsonTree::Object(serde_ref_members(members@)));
                assert(decreases_to!(t => t->Object_0));
            }
            Json::Object(json_members_from_serde(&members))
        },
    }
}

fn json_items_from_serde(items: &Vec<serde_json::Value>) -> (r: Vec<Json>)
    ensures
        trees(r@, 0) == serde_contents(items@),
    decreases serde_contents(items@), 1int,
{
    let ghost c = serde_contents(items@);
    let mut out: Vec<Json> = Vec::new();
    let mut i: usize = 0;
    while i < items.len()
        invariant
            i <= items.len(),
            c == serde_contents(items@),
            out.len() == i,
            forall|k: int| 0 <= k < i ==> tree(#[trigger] out@[k]) == c[k],
        decreases items.len() - i,
    {
        proof {
            assert(c[i as int] == serde_content(items@[i as int]));
            assert(decreases_to!(c => c[i as int]));
        }
        out.push(json_from_serde(&items[i]));
        i += 1;
    }
    proof {
        lemma_trees(out@, 0);
        assert(trees(out@, 0) =~= c);
    }
    out
}

fn json_members_from_serde<'a>(members: &Vec<(&'a String, &'a serde_json::Value)>) -> (r: Vec<(String, Json)>)
    ensures
        member_trees(r@, 0) == serde_ref_members(members@),
    decreases serde_ref_members(members@), 1int,
{
    let ghost c = serde_ref_members(members@);
    let mut out: Vec<(String, Json)> = Vec::new();
    let mut i: usize = 0;
    while i < members.len()
        invariant
            i <= members.len(),
            c == serde_ref_members(members@),
            out.len() == i,
            forall|k: int| 0 <= k < i ==> (#[trigger] out@[k]).0@ == c[k].0 && tree(out@[k].1) == c[k].1,
        decreases members.len() - i,
    {
        proof {
            assert(c[i as int] == (members@[i as int].0@, serde_content(*members@[i as int].1)));
            assert(decreases_to!(c => c[i as int]));
            assert(decreases_to!(c[i as int] => c[i as int].1));
        }
        let (k, v) = members[i];
        let j = json_from_serde(v);
        out.push((k.clone(), j));
        i += 1;
    }
    proof {
        lemma_member_trees(out@, 0);
        assert(member_trees(out@, 0) =~= c);
    }
    out
}

proof fn lemma_trees(s: Seq<Json>, i: int)
    requires
        0 <= i <= s.len(),
    ensures
        trees(s, i) == Seq::new((s.len() - i) as nat, |k: int| tree(s[i + k])),
    decreases s.len() - i,
{
    if i < s.len() {
        lemma_trees(s, i + 1);
    }
    assert(trees(s, i) =~= Seq::new((s.len() - i) as nat, |k: int| tree(s[i + k])));
}

proof fn lemma_member_trees(s: Seq<(String, Json)>, i: int)
    requires
        0 <= i <= s.len(),
    ensures
        member_trees(s, i) == Seq::new((s.len() - i) as nat, |k: int| (s[i + k].0@, tree(s[i + k].1))),
    decreases s.len() - i,
{
    if i < s.len() {
        lemma_member_trees(s, i + 1);
    }
    assert(member_trees(s, i) =~= Seq::new((s.len() - i) as nat, |k: int| (s[i + k].0@, tree(s[i + k].1))));
}

/// Reads a JSON document from its text: the document serde_json reads, part for part, or the
/// text of serde_json's error when the text is not one.
pub fn parse_json_text(text: &str) -> (r: Result<Json, String>)
    ensures
        match (r, serde_parse(text@)) {
            (Ok(j), Some(t)) => tree(j) == t,
            (Err(_), None) => true,
            _ => false,
        },
{
    match serde_from_str(text) {
        Ok(v) => Ok(json_from_serde(&v)),
        Err(e) => Err(serde_error_text(&e)),
    }
}

} // verus!
