use vstd::prelude::*;
use crate::codec::{lemma_insert_sorted, sorted_keys};
use crate::text::owned;
use crate::vm::value::{
    entries, entries_insert, lemma_entries0, lemma_vals0, map_insert, val, vals, Entries, Val, VmValue,
};

verus! {

/// A JSON document as the command-line tool reads and writes it. A number is kept as the
/// integer it is when it is one that fits `i64`; an object keeps its members in order.
#[derive(Debug, PartialEq, Eq)]
pub enum Json {
    Null,
    Bool(bool),
    Number(Option<i64>),
    String(String),
    Array(Vec<Json>),
    Object(Vec<(String, Json)>),
}

/// The index of the first member named `k` from `i` on; the length when there is none.
pub open spec fn find_member(ms: Seq<(String, Json)>, k: Seq<char>, i: int) -> int
    decreases ms.len() - i,
{
    if i < 0 || i >= ms.len() {
        ms.len() as int
    } else if ms[i].0@ == k {
        i
    } else {
        find_member(ms, k, i + 1)
    }
}

pub proof fn lemma_find_member_range(ms: Seq<(String, Json)>, k: Seq<char>, i: int)
    requires
        0 <= i <= ms.len(),
    ensures
        i <= find_member(ms, k, i) <= ms.len(),
    decreases ms.len() - i,
{
    if i < ms.len() && ms[i].0@ != k {
        lemma_find_member_range(ms, k, i + 1);
    }
}

pub open spec fn has_member(ms: Seq<(String, Json)>, k: Seq<char>) -> bool {
    find_member(ms, k, 0) < ms.len()
}

/// The runtime value a JSON document stands for; `None` when it cannot be read as one.
/// An object with the single member `$tuple` is a tuple; an object with both `$tag` and
/// `$fields` is an enum value; any other object is a map.
pub open spec fn from_json(j: Json) -> Option<Val>
    decreases j, 2int, 0int,
{
    match j {
        Json::Null => Some(Val::Unit),
        Json::Bool(b) => Some(Val::Bool(b)),
        Json::Number(n) => match n {
            Some(i) => Some(Val::Int(i)),
            None => None,
        },
        Json::String(s) => Some(Val::Str(s@)),
        Json::Array(items) => match json_items(items@, 0) {
            Some(vs) => Some(Val::List(vs)),
            None => None,
        },
        Json::Object(ms) => if ms.len() == 1 && has_member(ms@, "$tuple"@) {
            match ms@[0].1 {
                Json::Array(items) => match json_items(items@, 0) {
                    Some(vs) => Some(Val::Tuple(vs)),
                    None => None,
                },
                _ => None,
            }
        } else if has_member(ms@, "$tag"@) && has_member(ms@, "$fields"@) {
            let ti = find_member(ms@, "$tag"@, 0);
            let fi = find_member(ms@, "$fields"@, 0);
            proof {
                lemma_find_member_range(ms@, "$fields"@, 0);
            }
            match (ms@[ti].1, ms@[fi].1) {
                (Json::String(t), Json::Object(fs)) => match json_members(fs@, 0, seq![]) {
                    Some(f) => Some(Val::Enum(t@, f)),
                    None => None,
                },
                _ => None,
            }
        } else {
            match json_members(ms@, 0, seq![]) {
                Some(m) => Some(Val::Dict(m)),
                None => None,
            }
        },
    }
}

pub open spec fn json_items(items: Seq<Json>, i: int) -> Option<Seq<Val>>
    decreases items, 1int, items.len() - i,
{
    if 0 <= i < items.len() {
        match (from_json(items[i]), json_items(items, i + 1)) {
            (Some(v), Some(vs)) => Some(seq![v] + vs),
            _ => None,
        }
    } else {
        Some(seq![])
    }
}

/// The members `ms[i..]` of an object, set in order in `acc`.
pub open spec fn json_members(ms: Seq<(String, Json)>, i: int, acc: Entries) -> Option<Entries>
    decreases ms, 1int, ms.len() - i,
{
    if 0 <= i < ms.len() {
        match from_json(ms[i].1) {
            Some(v) => json_members(ms, i + 1, map_insert(acc, ms[i].0@, v)),
            None => None,
        }
    } else {
        Some(acc)
    }
}

/// Why a JSON document cannot be read as a runtime value: the description of the first part,
/// in document order, that cannot be read.
pub open spec fn json_error(j: Json) -> Seq<char>
    decreases j, 2int, 0int,
{
    match j {
        Json::Number(None) => "Invalid number: only i64 is supported for now"@,
        Json::Array(items) => items_error(items@, 0),
        Json::Object(ms) => if ms.len() == 1 && has_member(ms@, "$tuple"@) {
            match ms@[0].1 {
                Json::Array(items) => items_error(items@, 0),
                _ => "$tuple must be an array"@,
            }
        } else if has_member(ms@, "$tag"@) && has_member(ms@, "$fields"@) {
            let ti = find_member(ms@, "$tag"@, 0);
            let fi = find_member(ms@, "$fields"@, 0);
            proof {
                lemma_find_member_range(ms@, "$tag"@, 0);
                lemma_find_member_range(ms@, "$fields"@, 0);
            }
            match ms@[ti].1 {
                Json::String(_) => match ms@[fi].1 {
                    Json::Object(fs) => members_error(fs@, 0),
                    _ => "$fields must be an object"@,
                },
                _ => "$tag must be a string"@,
            }
        } else {
            members_error(ms@, 0)
        },
        _ => seq![],
    }
}

/// The description of the first of `items[i..]` that cannot be read.
pub open spec fn items_error(items: Seq<Json>, i: int) -> Seq<char>
    decreases items, 1int, items.len() - i,
{
    if 0 <= i < items.len() {
        if from_json(items[i]) is None {
            json_error(items[i])
        } else {
            items_error(items, i + 1)
        }
    } else {
        seq![]
    }
}

/// The description of the first of the member values `ms[i..]` that cannot be read.
pub open spec fn members_error(ms: Seq<(String, Json)>, i: int) -> Seq<char>
    decreases ms, 1int, ms.len() - i,
{
    if 0 <= i < ms.len() {
        if from_json(ms[i].1) is None {
            json_error(ms[i].1)
        } else {
            members_error(ms, i + 1)
        }
    } else {
        seq![]
    }
}

/// The JSON document a runtime value is written as, by content: its members by name.
pub enum JsonTree {
    Null,
    Bool(bool),
    Number(Option<i64>),
    Str(Seq<char>),
    Array(Seq<JsonTree>),
    Object(Seq<(Seq<char>, JsonTree)>),
}

pub open spec fn tree(j: Json) -> JsonTree
    decreases j, 0int,
{
    match j {
        Json::Null => JsonTree::Null,
        Json::Bool(b) => JsonTree::Bool(b),
        Json::Number(n) => JsonTree::Number(n),
        Json::String(s) => JsonTree::Str(s@),
        Json::Array(items) => JsonTree::Array(trees(items@, 0)),
        Json::Object(ms) => JsonTree::Object(member_trees(ms@, 0)),
    }
}

pub open spec fn trees(s: Seq<Json>, i: int) -> Seq<JsonTree>
    decreases s, s.len() - i,
{
    if 0 <= i < s.len() {
        seq![tree(s[i])] + trees(s, i + 1)
    } else {
        seq![]
    }
}

pub open spec fn member_trees(s: Seq<(String, Json)>, i: int) -> Seq<(Seq<char>, JsonTree)>
    decreases s, s.len() - i,
{
    if 0 <= i < s.len() {
        seq![(s[i].0@, tree(s[i].1))] + member_trees(s, i + 1)
    } else {
        seq![]
    }
}

/// The JSON content a runtime value is written as.
pub open spec fn to_json(v: Val) -> JsonTree
    decreases v, 0int,
{
    match v {
        Val::Unit => JsonTree::Null,
        Val::Int(i) => JsonTree::Number(Some(i)),
        Val::Bool(b) => JsonTree::Bool(b),
        Val::Str(s) => JsonTree::Str(s),
        Val::List(items) => JsonTree::Array(items_json(items, 0)),
        Val::Tuple(items) => JsonTree::Object(seq![("$tuple"@, JsonTree::Array(items_json(items, 0)))]),
        Val::Dict(es) => JsonTree::Object(entries_json(es, 0)),
        Val::Enum(tag, fs) => JsonTree::Object(
            seq![("$tag"@, JsonTree::Str(tag)), ("$fields"@, JsonTree::Object(entries_json(fs, 0)))],
        ),
    }
}

pub open spec fn items_json(items: Seq<Val>, i: int) -> Seq<JsonTree>
    decreases items, items.len() - i,
{
    if 0 <= i < items.len() {
        seq![to_json(items[i])] + items_json(items, i + 1)
    } else {
        seq![]
    }
}

pub open spec fn entries_json(es: Entries, i: int) -> Seq<(Seq<char>, JsonTree)>
    decreases es, es.len() - i,
{
    if 0 <= i < es.len() {
        seq![(es[i].0, to_json(es[i].1))] + entries_json(es, i + 1)
    } else {
        seq![]
    }
}

/// A runtime value that the JSON document it is written as reads back as: map keys in order,
/// once each; a map neither has the single key `$tuple` nor both `$tag` and `$fields`.
pub open spec fn json_well_formed(v: Val) -> bool
    decreases v,
{
    match v {
        Val::List(items) => forall|i: int| 0 <= i < items.len() ==> json_well_formed(#[trigger] items[i]),
        Val::Tuple(items) => forall|i: int| 0 <= i < items.len() ==> json_well_formed(#[trigger] items[i]),
        Val::Dict(es) => {
            &&& sorted_keys(es)
            &&& !(es.len() == 1 && es[0].0 == "$tuple"@)
            &&& !((exists|i: int| 0 <= i < es.len() && (#[trigger] es[i]).0 == "$tag"@) && (exists|i: int|
                0 <= i < es.len() && (#[trigger] es[i]).0 == "$fields"@))
            &&& forall|i: int| 0 <= i < es.len() ==> json_well_formed(#[trigger] es[i].1)
        },
        Val::Enum(_, fs) => {
            &&& sorted_keys(fs)
            &&& forall|i: int| 0 <= i < fs.len() ==> json_well_formed(#[trigger] fs[i].1)
        },
        _ => true,
    }
}

proof fn lemma_find_member_absent(ms: Seq<(String, Json)>, k: Seq<char>, i: int)
    requires
        0 <= i <= ms.len(),
        forall|j: int| i <= j < ms.len() ==> (#[trigger] ms[j]).0@ != k,
    ensures
        find_member(ms, k, i) == ms.len(),
    decreases ms.len() - i,
{
    if i < ms.len() {
        lemma_find_member_absent(ms, k, i + 1);
    }
}

proof fn lemma_json_items_read(items: Seq<Json>, xs: Seq<Val>, i: int)
    requires
        0 <= i <= items.len(),
        items.len() == xs.len(),
        forall|k: int| 0 <= k < items.len() ==> from_json(#[trigger] items[k]) == Some(xs[k]),
    ensures
        json_items(items, i) == Some(xs.skip(i)),
    decreases items.len() - i,
{
    if i < items.len() {
        lemma_json_items_read(items, xs, i + 1);
        assert(xs.skip(i) =~= seq![xs[i]] + xs.skip(i + 1));
    } else {
        assert(xs.skip(i) =~= Seq::<Val>::empty());
    }
}

proof fn lemma_json_members_read(ms: Seq<(String, Json)>, es: Entries, i: int)
    requires
        0 <= i <= ms.len(),
        ms.len() == es.len(),
        sorted_keys(es),
        forall|k: int| 0 <= k < ms.len() ==> (#[trigger] ms[k]).0@ == es[k].0 && from_json(ms[k].1) == Some(es[k].1),
    ensures
        json_members(ms, i, es.take(i)) == Some(es),
    decreases ms.len() - i,
{
    if i < ms.len() {
        assert(ms[i].0@ == es[i].0);
        lemma_insert_sorted(es, i);
        lemma_json_members_read(ms, es, i + 1);
    } else {
        assert(es.take(i) =~= es);
    }
}

/// Items that each read back as the value they were written from read back as the list.
proof fn lemma_values_read(items: Seq<VmValue>, out: Seq<Json>)
    requires
        out.len() == items.len(),
        forall|k: int| 0 <= k < items.len() ==> json_well_formed(#[trigger] vals(items, 0)[k]),
        forall|k: int|
            0 <= k < items.len() && json_well_formed(val(items[k])) ==> from_json(#[trigger] out[k]) == Some(
                val(items[k]),
            ),
    ensures
        json_items(out, 0) == Some(vals(items, 0)),
{
    lemma_vals0(items);
    let xs = vals(items, 0);
    assert forall|k: int| 0 <= k < out.len() implies from_json(#[trigger] out[k]) == Some(xs[k]) by {
        assert(json_well_formed(xs[k]));
    }
    lemma_json_items_read(out, xs, 0);
    assert(xs.skip(0) =~= xs);
}

/// Members that each read back as the entry they were written from, in key order, read back
/// as the entries.
proof fn lemma_members_read(es: Seq<(String, VmValue)>, ms: Seq<(String, Json)>)
    requires
        ms.len() == es.len(),
        sorted_keys(entries(es, 0)),
        forall|k: int| 0 <= k < es.len() ==> json_well_formed(#[trigger] entries(es, 0)[k].1),
        forall|k: int|
            0 <= k < es.len() ==> (#[trigger] ms[k]).0@ == es[k].0@ && (json_well_formed(val(es[k].1))
                ==> from_json(ms[k].1) == Some(val(es[k].1))),
    ensures
        json_members(ms, 0, seq![]) == Some(entries(es, 0)),
{
    lemma_entries0(es);
    let e = entries(es, 0);
    assert forall|k: int| 0 <= k < ms.len() implies (#[trigger] ms[k]).0@ == e[k].0 && from_json(ms[k].1) == Some(
        e[k].1,
    ) by {
        assert(json_well_formed(e[k].1));
    }
    lemma_json_members_read(ms, e, 0);
    assert(e.take(0) =~= seq![]);
}

// ---------------------------------------------------------------------------
// Executable mapping
// ---------------------------------------------------------------------------

/// The index of the first member named `k`; the length when there is none.
fn member_index(ms: &Vec<(String, Json)>, k: &str) -> (r: usize)
    ensures
        r == find_member(ms@, k@, 0),
{
    let key = owned(k);
    let mut i: usize = 0;
    while i < ms.len()
        invariant
            i <= ms.len(),
            key@ == k@,
            find_member(ms@, k@, 0) == find_member(ms@, k@, i as int),
        decreases ms.len() - i,
    {
        if ms[i].0 == key {
            return i;
        }
        i += 1;
    }
    i
}

/// The runtime value a JSON document stands for, or a description of why it cannot be read.
pub fn json_to_vm_value(json: &Json) -> (r: Result<VmValue, String>)
    ensures
        match (r, from_json(*json)) {
            (Ok(v), Some(x)) => val(v) == x,
            (Err(e), None) => e@ == json_error(*json),
            _ => false,
        },
    decreases json, 2int,
{
    match json {
        Json::Null => Ok(VmValue::Unit),
        Json::Bool(b) => Ok(VmValue::Bool(*b)),
        Json::Number(n) => match n {
            Some(i) => Ok(VmValue::Int(*i)),
            None => Err(owned("Invalid number: only i64 is supported for now")),
        },
        Json::String(s) => Ok(VmValue::String(s.clone())),
        Json::Array(items) => {
            let out = json_items_to_values(items)?;
            Ok(VmValue::List(out))
        },
        Json::Object(ms) => {
            if ms.len() == 1 && member_index(ms, "$tuple") == 0 {
                return match &ms[0].1 {
                    Json::Array(items) => {
                        let out = json_items_to_values(items)?;
                        Ok(VmValue::Tuple(out))
                    },
                    _ => Err(owned("$tuple must be an array")),
                };
            }
            let ti = member_index(ms, "$tag");
            let fi = member_index(ms, "$fields");
            proof {
                lemma_find_member_range(ms@, "$tag"@, 0);
                lemma_find_member_range(ms@, "$fields"@, 0);
                if ms.len() == 1 {
                    assert(has_member(ms@, "$tuple"@) ==> find_member(ms@, "$tuple"@, 0) == 0);
                }
            }
            if ti < ms.len() && fi < ms.len() {
                let tag = match &ms[ti].1 {
                    Json::String(t) => t.clone(),
                    _ => {
                        return Err(owned("$tag must be a string"));
                    },
                };
                let fields = match &ms[fi].1 {
                    Json::Object(fs) => json_members_to_entries(fs)?,
                    _ => {
                        return Err(owned("$fields must be an object"));
                    },
                };
                return Ok(VmValue::Enum { tag, fields });
            }
            let map = json_members_to_entries(ms)?;
            Ok(VmValue::Dict(map))
        },
    }
}

fn json_items_to_values(items: &Vec<Json>) -> (r: Result<Vec<VmValue>, String>)
    ensures
        match (r, json_items(items@, 0)) {
            (Ok(vs), Some(xs)) => vals(vs@, 0) == xs,
            (Err(e), None) => e@ == items_error(items@, 0),
            _ => false,
        },
    decreases items@, 1int,
{
    let mut out: Vec<VmValue> = Vec::new();
    let mut i: usize = 0;
    proof {
        lemma_vals0(out@);
        assert(vals(out@, 0) + json_items(items@, 0).unwrap_or(seq![]) =~= json_items(items@, 0).unwrap_or(seq![]));
    }
    while i < items.len()
        invariant
            i <= items.len(),
            json_items(items@, 0) == match json_items(items@, i as int) {
                Some(rest) => Some(vals(out@, 0) + rest),
                None => None::<Seq<Val>>,
            },
            items_error(items@, 0) == items_error(items@, i as int),
        decreases items.len() - i,
    {
        proof {
            assert(decreases_to!(items@ => items@[i as int]));
        }
        let v = match json_to_vm_value(&items[i]) {
            Ok(v) => v,
            Err(e) => {
                return Err(e);
            },
        };
        let ghost before = out@;
        out.push(v);
        proof {
            lemma_vals0(before);
            lemma_vals0(out@);
            assert(vals(out@, 0) =~= vals(before, 0).push(val(v)));
            match json_items(items@, i + 1) {
                Some(rest) => {
                    assert(vals(out@, 0) + rest =~= vals(before, 0) + (seq![val(v)] + rest));
                },
                None => {},
            }
        }
        i += 1;
    }
    proof {
        assert(vals(out@, 0) + seq![] =~= vals(out@, 0));
    }
    Ok(out)
}

fn json_members_to_entries(ms: &Vec<(String, Json)>) -> (r: Result<Vec<(String, VmValue)>, String>)
    ensures
        match (r, json_members(ms@, 0, seq![])) {
            (Ok(es), Some(xs)) => entries(es@, 0) == xs,
            (Err(e), None) => e@ == members_error(ms@, 0),
            _ => false,
        },
    decreases ms@, 1int,
{
    let mut acc: Vec<(String, VmValue)> = Vec::new();
    let mut i: usize = 0;
    proof {
        lemma_entries0(acc@);
        assert(entries(acc@, 0) =~= seq![]);
    }
    while i < ms.len()
        invariant
            i <= ms.len(),
            json_members(ms@, 0, seq![]) == json_members(ms@, i as int, entries(acc@, 0)),
            members_error(ms@, 0) == members_error(ms@, i as int),
        decreases ms.len() - i,
    {
        proof {
            assert(decreases_to!(ms@ => ms@[i as int]));
            assert(decreases_to!(ms@[i as int] => ms@[i as int].1));
        }
        let v = match json_to_vm_value(&ms[i].1) {
            Ok(v) => v,
            Err(e) => {
                return Err(e);
            },
        };
        entries_insert(&mut acc, ms[i].0.clone(), v);
        i += 1;
    }
    Ok(acc)
}

proof fn lemma_trees(s: Seq<Json>, i: int)
    requires
        0 <= i <= s.len(),
    ensures
        trees(s, i) == Seq::new((s.len() - i) as nat, |k: int| tree(s[i + k])),
    decreases s.len() - i,
{
    if i < s.len() {
        lemma_trees(s, i + 1);
    }
    assert(trees(s, i) =~= Seq::new((s.len() - i) as nat, |k: int| tree(s[i + k])));
}

proof fn lemma_member_trees(s: Seq<(String, Json)>, i: int)
    requires
        0 <= i <= s.len(),
    ensures
        member_trees(s, i) == Seq::new((s.len() - i) as nat, |k: int| (s[i + k].0@, tree(s[i + k].1))),
    decreases s.len() - i,
{
    if i < s.len() {
        lemma_member_trees(s, i + 1);
    }
    assert(member_trees(s, i) =~= Seq::new((s.len() - i) as nat, |k: int| (s[i + k].0@, tree(s[i + k].1))));
}

proof fn lemma_items_json(items: Seq<Val>, i: int)
    requires
        0 <= i <= items.len(),
    ensures
        items_json(items, i) == Seq::new((items.len() - i) as nat, |k: int| to_json(items[i + k])),
    decreases items.len() - i,
{
    if i < items.len() {
        lemma_items_json(items, i + 1);
    }
    assert(items_json(items, i) =~= Seq::new((items.len() - i) as nat, |k: int| to_json(items[i + k])));
}

proof fn lemma_entries_json(es: Entries, i: int)
    requires
        0 <= i <= es.len(),
    ensures
        entries_json(es, i) == Seq::new((es.len() - i) as nat, |k: int| (es[i + k].0, to_json(es[i + k].1))),
    decreases es.len() - i,
{
    if i < es.len() {
        lemma_entries_json(es, i + 1);
    }
    assert(entries_json(es, i) =~= Seq::new((es.len() - i) as nat, |k: int| (es[i + k].0, to_json(es[i + k].1))));
}

/// The JSON document a runtime value is written as.
pub fn vm_value_to_json(value: &VmValue) -> (r: Json)
    ensures
        tree(r) == to_json(val(*value)),
        json_well_formed(val(*value)) ==> from_json(r) == Some(val(*value)),
    decreases value,
{
    match value {
        VmValue::Unit => Json::Null,
        VmValue::Int(i) => Json::Number(Some(*i)),
        VmValue::Bool(b) => Json::Bool(*b),
        VmValue::String(s) => Json::String(s.clone()),
        VmValue::List(items) => {
            let out = values_to_json(value, items);
            proof {
                if json_well_formed(val(*value)) {
                    lemma_vals0(items@);
                    lemma_values_read(items@, out@);
                }
            }
            Json::Array(out)
        },
        VmValue::Tuple(items) => {
            let out = values_to_json(value, items);
            proof {
                if json_well_formed(val(*value)) {
                    lemma_vals0(items@);
                    lemma_values_read(items@, out@);
                }
            }
            let arr = Json::Array(out);
            let mut ms: Vec<(String, Json)> = Vec::new();
            ms.push((owned("$tuple"), arr));
            proof {
                lemma_member_trees(ms@, 0);
                assert(member_trees(ms@, 0) =~= seq![("$tuple"@, tree(arr))]);
                assert(ms@[0].0@ == "$tuple"@);
                assert(has_member(ms@, "$tuple"@));
            }
            Json::Object(ms)
        },
        VmValue::Dict(es) => {
            let ms = entries_to_json(value, es);
            proof {
                if json_well_formed(val(*value)) {
                    let e = entries(es@, 0);
                    lemma_entries0(es@);
                    lemma_members_read(es@, ms@);
                    if ms@.len() == 1 {
                        lemma_find_member_absent(ms@, "$tuple"@, 0);
                    }
                    if forall|j: int| 0 <= j < e.len() ==> (#[trigger] e[j]).0 != "$tag"@ {
                        assert forall|j: int| 0 <= j < ms@.len() implies (#[trigger] ms@[j]).0@ != "$tag"@ by {
                            assert(e[j].0 == es@[j].0@);
                        }
                        lemma_find_member_absent(ms@, "$tag"@, 0);
                    } else {
                        assert forall|j: int| 0 <= j < ms@.len() implies (#[trigger] ms@[j]).0@ != "$fields"@ by {
                            assert(e[j].0 == es@[j].0@);
                        }
                        lemma_find_member_absent(ms@, "$fields"@, 0);
                    }
                }
            }
            Json::Object(ms)
        },
        VmValue::Enum { tag, fields } => {
            let fms = entries_to_json(value, fields);
            proof {
                if json_well_formed(val(*value)) {
                    lemma_entries0(fields@);
                    lemma_members_read(fields@, fms@);
                }
            }
            let fs = Json::Object(fms);
            let mut ms: Vec<(String, Json)> = Vec::new();
            ms.push((owned("$tag"), Json::String(tag.clone())));
            ms.push((owned("$fields"), fs));
            proof {
                lemma_member_trees(ms@, 0);
                assert(member_trees(ms@, 0) =~= seq![("$tag"@, JsonTree::Str(tag@)), ("$fields"@, tree(fs))]);
                reveal_strlit("$tag");
                reveal_strlit("$fields");
                assert(ms@[0].0@ == "$tag"@);
                assert(ms@[1].0@ == "$fields"@);
                assert(ms@[0].0@ != "$fields"@);
                assert(find_member(ms@, "$tag"@, 0) == 0);
                assert(find_member(ms@, "$fields"@, 1) == 1);
                assert(find_member(ms@, "$fields"@, 0) == 1);
            }
            Json::Object(ms)
        },
    }
}

fn values_to_json(parent: &VmValue, items: &Vec<VmValue>) -> (r: Vec<Json>)
    requires
        (parent matches VmValue::List(x) && x == items) || (parent matches VmValue::Tuple(x) && x == items),
    ensures
        trees(r@, 0) == items_json(vals(items@, 0), 0),
        r@.len() == items@.len(),
        forall|k: int|
            0 <= k < items@.len() && json_well_formed(val(items@[k])) ==> from_json(#[trigger] r@[k]) == Some(
                val(items@[k]),
            ),
    decreases parent, 1int,
{
    let mut out: Vec<Json> = Vec::new();
    let mut i: usize = 0;
    while i < items.len()
        invariant
            i <= items.len(),
            (parent matches VmValue::List(x) && x == items) || (parent matches VmValue::Tuple(x) && x == items),
            out.len() == i,
            forall|k: int| 0 <= k < i ==> #[trigger] tree(out@[k]) == to_json(val(items@[k])),
            forall|k: int|
                0 <= k < i && json_well_formed(val(items@[k])) ==> from_json(#[trigger] out@[k]) == Some(
                    val(items@[k]),
                ),
        decreases items.len() - i,
    {
        proof {
            assert(decreases_to!(parent => items@[i as int]));
        }
        out.push(vm_value_to_json(&items[i]));
        i += 1;
    }
    proof {
        lemma_vals0(items@);
        lemma_trees(out@, 0);
        lemma_items_json(vals(items@, 0), 0);
        assert(trees(out@, 0) =~= items_json(vals(items@, 0), 0));
    }
    out
}

fn entries_to_json(parent: &VmValue, es: &Vec<(String, VmValue)>) -> (r: Vec<(String, Json)>)
    requires
        (parent matches VmValue::Dict(x) && x == es) || (parent matches VmValue::Enum { fields: x, .. } && x == es),
    ensures
        member_trees(r@, 0) == entries_json(entries(es@, 0), 0),
        r@.len() == es@.len(),
        forall|k: int|
            0 <= k < es@.len() ==> (#[trigger] r@[k]).0@ == es@[k].0@ && (json_well_formed(val(es@[k].1))
                ==> from_json(r@[k].1) == Some(val(es@[k].1))),
    decreases parent, 1int,
{
    let mut out: Vec<(String, Json)> = Vec::new();
    let mut i: usize = 0;
    while i < es.len()
        invariant
            i <= es.len(),
            (parent matches VmValue::Dict(x) && x == es) || (parent matches VmValue::Enum { fields: x, .. } && x == es),
            out.len() == i,
            forall|k: int|
                0 <= k < i ==> (#[trigger] out@[k]).0@ == es@[k].0@ && tree(out@[k].1) == to_json(val(es@[k].1)),
            forall|k: int|
                0 <= k < i && json_well_formed(val(es@[k].1)) ==> from_json((#[trigger] out@[k]).1) == Some(
                    val(es@[k].1),
                ),
        decreases es.len() - i,
    {
        proof {
            assert(decreases_to!(parent => es@[i as int].1));
        }
        let j = vm_value_to_json(&es[i].1);
        out.push((es[i].0.clone(), j));
        i += 1;
    }
    proof {
        lemma_entries0(es@);
        lemma_member_trees(out@, 0);
        lemma_entries_json(entries(es@, 0), 0);
        assert(member_trees(out@, 0) =~= entries_json(entries(es@, 0), 0));
    }
    out
}

} // verus!
