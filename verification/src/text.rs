use vstd::prelude::*;

verus! {

/// The string made of the characters `cs[start..end]`.
/// Calls `FromIterator<char>` for `String` (through `Iterator::collect`); the claim is that the
/// collected string holds exactly those characters, in order.
#[verifier::external_body]
pub(crate) fn string_from_chars(cs: &Vec<char>, start: usize, end: usize) -> (s: String)
    requires
        start <= end <= cs.len(),
    ensures
        s@ == cs@.subrange(start as int, end as int),
{
    cs[start..end].iter().collect()
}

/// `a` followed by `b`.
pub fn concat_str(a: String, b: &str) -> (s: String)
    ensures
        s@ == a@ + b@,
{
    a.concat(b)
}

/// An owned copy of a string slice.
pub fn owned(s: &str) -> (r: String)
    ensures
        r@ == s@,
{
    s.to_owned()
}

/// `prefix`, then `name` in backquotes, then `suffix`: how a message names something.
pub open spec fn named_text(prefix: Seq<char>, name: Seq<char>, suffix: Seq<char>) -> Seq<char> {
    prefix + "`"@ + name + "`"@ + suffix
}

pub(crate) fn named(prefix: &str, name: &str, suffix: &str) -> (r: String)
    ensures
        r@ == named_text(prefix@, name@, suffix@),
{
    concat_str(concat_str(concat_str(concat_str(owned(prefix), "`"), name), "`"), suffix)
}

/// The decimal digit `d`.
pub open spec fn digit(d: nat) -> char {
    if d == 0 {
        '0'
    } else if d == 1 {
        '1'
    } else if d == 2 {
        '2'
    } else if d == 3 {
        '3'
    } else if d == 4 {
        '4'
    } else if d == 5 {
        '5'
    } else if d == 6 {
        '6'
    } else if d == 7 {
        '7'
    } else if d == 8 {
        '8'
    } else {
        '9'
    }
}

/// The decimal digits of `n`, most significant first, with no leading zero.
pub open spec fn decimal_text(n: nat) -> Seq<char>
    decreases n,
{
    if n < 10 {
        seq![digit(n)]
    } else {
        decimal_text(n / 10) + seq![digit(n % 10)]
    }
}

/// The decimal digits of `n`.
pub(crate) fn decimal(n: usize) -> (r: String)
    ensures
        r@ == decimal_text(n as nat),
    decreases n,
{
    let d: u8 = (n % 10) as u8;
    let c = if d == 0 {
        '0'
    } else if d == 1 {
        '1'
    } else if d == 2 {
        '2'
    } else if d == 3 {
        '3'
    } else if d == 4 {
        '4'
    } else if d == 5 {
        '5'
    } else if d == 6 {
        '6'
    } else if d == 7 {
        '7'
    } else if d == 8 {
        '8'
    } else {
        '9'
    };
    let mut digits: Vec<char> = Vec::new();
    digits.push(c);
    let last = string_from_chars(&digits, 0, 1);
    proof {
        assert(digits@.subrange(0, 1) =~= seq![digit((n % 10) as nat)]);
    }
    if n < 10 {
        last
    } else {
        let head = decimal(n / 10);
        concat_str(head, last.as_str())
    }
}

} // verus!
