use vstd::prelude::*;
use crate::codec::{lemma_chars_lt_asym, CborTree};
use crate::host_cbor::{lemma_lt_total, lemma_lt_trans};
use crate::vm::value::{chars_lt, string_lt};
use vstd::utf8::encode_utf8;

verus! {

// ---------------------------------------------------------------------------
// The key order of canonical CBOR maps
// ---------------------------------------------------------------------------

/// Whether key `a` comes before key `b` in a canonical CBOR map (RFC 8949: the bytewise order
/// of the encoded keys): the key with the shorter UTF-8 encoding first, keys of one length in
/// the order of their code points (which is the order of their UTF-8 bytes).
pub open spec fn canon_lt(a: Seq<char>, b: Seq<char>) -> bool {
    let la = encode_utf8(a).len();
    let lb = encode_utf8(b).len();
    la < lb || (la == lb && chars_lt(a, b))
}

/// The text key of a CBOR map entry (empty for a key of another kind).
pub open spec fn entry_key(e: (CborTree, CborTree)) -> Seq<char> {
    match e.0 {
        CborTree::Text(k) => k,
        _ => seq![],
    }
}

/// `t` with `e` set before the first entry whose key `e`'s key comes before.
pub open spec fn canon_insert(t: Seq<(CborTree, CborTree)>, e: (CborTree, CborTree)) -> Seq<(CborTree, CborTree)>
    decreases t.len(),
{
    if t.len() == 0 {
        seq![e]
    } else if canon_lt(entry_key(e), entry_key(t[0])) {
        seq![e] + t
    } else {
        seq![t[0]] + canon_insert(t.drop_first(), e)
    }
}

/// The entries `s` in canonical key order: each set in turn among the ones before it.
pub open spec fn canon_sort(s: Seq<(CborTree, CborTree)>) -> Seq<(CborTree, CborTree)>
    decreases s.len(),
{
    if s.len() == 0 {
        s
    } else {
        canon_insert(canon_sort(s.drop_last()), s.last())
    }
}

/// Keys strictly increasing in canonical order.
pub open spec fn canon_sorted(s: Seq<(CborTree, CborTree)>) -> bool {
    forall|i: int, j: int| 0 <= i < j < s.len() ==> canon_lt(entry_key(#[trigger] s[i]), entry_key(#[trigger] s[j]))
}

/// No key occurs twice.
pub open spec fn distinct_keys(s: Seq<(CborTree, CborTree)>) -> bool {
    forall|i: int, j: int| 0 <= i < j < s.len() ==> entry_key(#[trigger] s[i]) != entry_key(#[trigger] s[j])
}

/// Where `canon_insert` sets `e` in `t`, looking from `i` on.
pub open spec fn insert_pos(t: Seq<(CborTree, CborTree)>, e: (CborTree, CborTree), i: int) -> int
    decreases t.len() - i,
{
    if 0 <= i < t.len() && !canon_lt(entry_key(e), entry_key(t[i])) {
        insert_pos(t, e, i + 1)
    } else {
        i
    }
}

/// The canonical key order is a strict total order.
pub proof fn lemma_canon_lt(a: Seq<char>, b: Seq<char>, c: Seq<char>)
    ensures
        canon_lt(a, b) ==> !canon_lt(b, a) && a != b,
        canon_lt(a, b) && canon_lt(b, c) ==> canon_lt(a, c),
        a != b ==> canon_lt(a, b) || canon_lt(b, a),
{
    lemma_chars_lt_asym(a, b);
    if chars_lt(a, b) && chars_lt(b, c) {
        lemma_lt_trans(a, b, c);
    }
    lemma_lt_total(a, b);
}

pub proof fn lemma_insert_pos(t: Seq<(CborTree, CborTree)>, e: (CborTree, CborTree), i: int)
    requires
        0 <= i <= t.len(),
    ensures
        i <= insert_pos(t, e, i) <= t.len(),
        canon_insert(t.skip(i), e) == t.skip(i).insert(insert_pos(t, e, i) - i, e),
        forall|j: int| i <= j < insert_pos(t, e, i) ==> !canon_lt(entry_key(e), entry_key(#[trigger] t[j])),
        insert_pos(t, e, i) < t.len() ==> canon_lt(entry_key(e), entry_key(t[insert_pos(t, e, i)])),
    decreases t.len() - i,
{
    let u = t.skip(i);
    if i == t.len() {
        assert(canon_insert(u, e) =~= u.insert(0, e));
    } else if canon_lt(entry_key(e), entry_key(t[i])) {
        assert(u[0] == t[i]);
        assert(canon_insert(u, e) =~= u.insert(0, e));
    } else {
        assert(u[0] == t[i]);
        lemma_insert_pos(t, e, i + 1);
        let p = insert_pos(t, e, i + 1);
        assert(u.drop_first() =~= t.skip(i + 1));
        let w = t.skip(i + 1);
        w.insert_ensures(p - i - 1, e);
        u.insert_ensures(p - i, e);
        assert(canon_insert(u, e) =~= u.insert(p - i, e)) by {
            let a = canon_insert(u, e);
            let b = u.insert(p - i, e);
            assert(a == seq![u[0]] + w.insert(p - i - 1, e));
            assert forall|k: int| 0 <= k < a.len() implies a[k] == b[k] by {
                if k > 0 {
                    if k - 1 < p - i - 1 {
                        assert(w[k - 1] == u[k]);
                    } else if k - 1 > p - i - 1 {
                        assert(w[k - 2] == u[k - 1]);
                    }
                }
            }
        }
    }
}

/// Setting `e` into key-sorted entries with other keys keeps them sorted.
proof fn lemma_canon_insert_sorted(t: Seq<(CborTree, CborTree)>, e: (CborTree, CborTree))
    requires
        canon_sorted(t),
        forall|j: int| 0 <= j < t.len() ==> entry_key(#[trigger] t[j]) != entry_key(e),
    ensures
        canon_insert(t, e) == t.insert(insert_pos(t, e, 0), e),
        canon_sorted(canon_insert(t, e)),
{
    lemma_insert_pos(t, e, 0);
    assert(t.skip(0) =~= t);
    let p = insert_pos(t, e, 0);
    let o = t.insert(p, e);
    t.insert_ensures(p, e);
    let ke = entry_key(e);
    assert forall|a: int, b: int| 0 <= a < b < o.len() implies canon_lt(entry_key(#[trigger] o[a]), entry_key(#[trigger] o[b])) by {
        if b < p {
            assert(o[a] == t[a] && o[b] == t[b]);
        } else if a > p {
            assert(o[a] == t[a - 1] && o[b] == t[b - 1]);
        } else if a == p {
            assert(o[b] == t[b - 1]);
            if b - 1 > p {
                lemma_canon_lt(ke, entry_key(t[p]), entry_key(t[b - 1]));
            }
        } else if b == p {
            assert(o[a] == t[a]);
            lemma_canon_lt(entry_key(t[a]), ke, ke);
            lemma_canon_lt(ke, entry_key(t[a]), ke);
        } else {
            assert(o[a] == t[a] && o[b] == t[b - 1]);
        }
    }
}

/// The entries of `d` with `e` added, set at `p` among the sorted entries `t` of `d`, are the
/// entries of `d.push(e)`.
proof fn lemma_insert_keeps(d: Seq<(CborTree, CborTree)>, t: Seq<(CborTree, CborTree)>, e: (CborTree, CborTree), p: int)
    requires
        0 <= p <= t.len(),
        t.len() == d.len(),
        forall|k: int| 0 <= k < t.len() ==> d.contains(#[trigger] t[k]),
        forall|j: int| 0 <= j < d.len() ==> t.contains(#[trigger] d[j]),
    ensures
        t.insert(p, e).len() == d.push(e).len(),
        forall|k: int| 0 <= k < t.insert(p, e).len() ==> d.push(e).contains(#[trigger] t.insert(p, e)[k]),
        forall|j: int| 0 <= j < d.push(e).len() ==> t.insert(p, e).contains(#[trigger] d.push(e)[j]),
{
    let s = d.push(e);
    let o = t.insert(p, e);
    let n = d.len() as int;
    t.insert_ensures(p, e);
    assert forall|k: int| 0 <= k < o.len() implies s.contains(#[trigger] o[k]) by {
        if k == p {
            assert(s[n] == e);
        } else {
            let x = if k < p {
                k
            } else {
                k - 1
            };
            assert(o[k] == t[x]);
            assert(d.contains(t[x]));
            let m = choose|m: int| 0 <= m < d.len() && d[m] == t[x];
            assert(s[m] == d[m]);
        }
    }
    assert forall|j: int| 0 <= j < s.len() implies o.contains(#[trigger] s[j]) by {
        if j == n {
            assert(o[p] == s[j]);
        } else {
            assert(d[j] == s[j]);
            assert(t.contains(d[j]));
            let m = choose|m: int| 0 <= m < t.len() && t[m] == d[j];
            if m < p {
                assert(o[m] == s[j]);
            } else {
                assert(o[m + 1] == s[j]);
            }
        }
    }
}

/// Sorting keeps the entries, each once, and sorts entries with distinct keys.
pub proof fn lemma_canon_sort(s: Seq<(CborTree, CborTree)>)
    ensures
        canon_sort(s).len() == s.len(),
        forall|k: int| 0 <= k < canon_sort(s).len() ==> s.contains(#[trigger] canon_sort(s)[k]),
        forall|j: int| 0 <= j < s.len() ==> canon_sort(s).contains(#[trigger] s[j]),
        distinct_keys(s) ==> canon_sorted(canon_sort(s)),
    decreases s.len(),
{
    if s.len() > 0 {
        let d = s.drop_last();
        let e = s.last();
        let n = s.len() - 1;
        lemma_canon_sort(d);
        let t = canon_sort(d);
        lemma_insert_pos(t, e, 0);
        assert(t.skip(0) =~= t);
        let p = insert_pos(t, e, 0);
        assert(canon_sort(s) == t.insert(p, e));
        assert(s =~= d.push(e));
        lemma_insert_keeps(d, t, e, p);
        if distinct_keys(s) {
            assert(distinct_keys(d)) by {
                assert forall|a: int, b: int| 0 <= a < b < d.len() implies entry_key(#[trigger] d[a]) != entry_key(
                    #[trigger] d[b],
                ) by {
                    assert(d[a] == s[a] && d[b] == s[b]);
                }
            }
            assert forall|j: int| 0 <= j < t.len() implies entry_key(#[trigger] t[j]) != entry_key(e) by {
                assert(d.contains(t[j]));
                let m = choose|m: int| 0 <= m < d.len() && d[m] == t[j];
                assert(s[m] == d[m]);
                assert(entry_key(s[m]) != entry_key(s[n]));
            }
            lemma_canon_insert_sorted(t, e);
        }
    }
}

/// The length of the UTF-8 encoding of a string.
fn utf8_len_of(s: &String) -> (r: usize)
    ensures
        r == encode_utf8(s@).len(),
{
    let b = s.as_str().as_bytes();
    b.len()
}

/// Whether key `a` comes before key `b` in a canonical CBOR map.
pub fn canon_key_before(a: &String, b: &String) -> (r: bool)
    ensures
        r == canon_lt(a@, b@),
{
    let la = utf8_len_of(a);
    let lb = utf8_len_of(b);
    la < lb || (la == lb && string_lt(a, b))
}

} // verus!
