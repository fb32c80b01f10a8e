//! Natural order: `pwm10` after `pwm9`, `hwmon10` after `hwmon9`.
//!
//! A name is split into the text before its trailing decimal digits and the
//! number those digits spell; names compare by the text, then by the number.

use std::cmp::Ordering;
use vstd::prelude::*;

use crate::text::{chars_eq, chars_of, is_ascii_digit, is_digit, parse_u64, parse_u64_of, slice_to_vec};

verus! {

/// How many decimal digits end `s`.
pub open spec fn trailing_digits(s: Seq<char>) -> nat
    decreases s.len(),
{
    if s.len() > 0 && is_digit(s.last()) {
        trailing_digits(s.drop_last()) + 1
    } else {
        0
    }
}

/// A name, as natural order sees it: the text before the trailing digits,
/// and the number they spell where it fits in a `u64`.
pub open spec fn natural_key(s: Seq<char>) -> (Seq<char>, Option<u64>) {
    let d = trailing_digits(s);
    (s.take(s.len() - d), parse_u64(s.skip(s.len() - d)))
}

/// Lexicographic order by code point, which is the order `str::cmp` gives.
pub open spec fn lex_lt(a: Seq<char>, b: Seq<char>) -> bool
    decreases a.len(),
{
    if a.len() == 0 {
        b.len() > 0
    } else if b.len() == 0 {
        false
    } else if (a[0] as u32) < (b[0] as u32) {
        true
    } else if a[0] == b[0] {
        lex_lt(a.drop_first(), b.drop_first())
    } else {
        false
    }
}

pub open spec fn opt_lt(a: Option<u64>, b: Option<u64>) -> bool {
    match (a, b) {
        (None, Some(_)) => true,
        (Some(x), Some(y)) => x < y,
        _ => false,
    }
}

/// `a` sorts strictly before `b`.
pub open spec fn natural_lt(a: Seq<char>, b: Seq<char>) -> bool {
    let (ha, na) = natural_key(a);
    let (hb, nb) = natural_key(b);
    lex_lt(ha, hb) || (ha == hb && opt_lt(na, nb))
}

pub proof fn lemma_lex_trichotomy(a: Seq<char>, b: Seq<char>)
    ensures
        lex_lt(a, b) || lex_lt(b, a) || a == b,
        !(lex_lt(a, b) && lex_lt(b, a)),
        !lex_lt(a, a),
    decreases a.len(),
{
    if a.len() > 0 && b.len() > 0 {
        lemma_lex_trichotomy(a.drop_first(), b.drop_first());
        vstd::utf8::char_u32_cast(a[0], a[0] as u32);
        vstd::utf8::char_u32_cast(b[0], b[0] as u32);
        if a[0] == b[0] && a.drop_first() == b.drop_first() {
            assert(a =~= seq![a[0]] + a.drop_first());
            assert(b =~= seq![b[0]] + b.drop_first());
        }
    } else if a.len() == 0 && b.len() == 0 {
        assert(a =~= b);
    }
    if a.len() > 0 {
        lemma_lex_trichotomy(a.drop_first(), a.drop_first());
    }
}

pub proof fn lemma_lex_transitive(a: Seq<char>, b: Seq<char>, c: Seq<char>)
    requires
        lex_lt(a, b),
        lex_lt(b, c),
    ensures
        lex_lt(a, c),
    decreases a.len(),
{
    if a.len() > 0 && b.len() > 0 && c.len() > 0 {
        if a[0] == b[0] && b[0] == c[0] {
            lemma_lex_transitive(a.drop_first(), b.drop_first(), c.drop_first());
        }
    }
}

/// Natural order is a strict order: never both ways, and transitive.
pub proof fn lemma_natural_lt_strict(a: Seq<char>, b: Seq<char>, c: Seq<char>)
    ensures
        !natural_lt(a, a),
        !(natural_lt(a, b) && natural_lt(b, a)),
        natural_lt(a, b) && natural_lt(b, c) ==> natural_lt(a, c),
{
    let (ha, na) = natural_key(a);
    let (hb, nb) = natural_key(b);
    let (hc, nc) = natural_key(c);
    lemma_lex_trichotomy(ha, hb);
    lemma_lex_trichotomy(hb, hc);
    lemma_lex_trichotomy(ha, hc);
    if natural_lt(a, b) && natural_lt(b, c) {
        if lex_lt(ha, hb) && lex_lt(hb, hc) {
            lemma_lex_transitive(ha, hb, hc);
        }
    }
}

/// Any two names either sort one before the other, or have the same key and
/// compare the same against everything.
pub proof fn lemma_natural_lt_total(a: Seq<char>, b: Seq<char>)
    ensures
        natural_lt(a, b) || natural_lt(b, a) || natural_key(a) == natural_key(b),
{
    let (ha, na) = natural_key(a);
    let (hb, nb) = natural_key(b);
    lemma_lex_trichotomy(ha, hb);
}

/// Whatever sorts before `e` sorts before `y` or `y` before `e`: the property
/// that lets an insertion keep a sorted list sorted.
pub proof fn lemma_natural_lt_split(x: Seq<char>, y: Seq<char>, e: Seq<char>)
    requires
        natural_lt(x, e),
    ensures
        natural_lt(x, y) || natural_lt(y, e),
{
    lemma_natural_lt_total(x, y);
    lemma_natural_lt_strict(y, x, e);
}

/// The number of trailing digits of `s`, computed.
fn trailing_digits_exec(s: &[char]) -> (d: usize)
    ensures
        d == trailing_digits(s@),
        d <= s@.len(),
{
    let n = s.len();
    let mut j = n;
    assert(s@.take(n as int) =~= s@);
    while j > 0 && is_ascii_digit(s[j - 1])
        invariant
            j <= n == s@.len(),
            trailing_digits(s@) == trailing_digits(s@.take(j as int)) + (n - j),
        decreases j,
    {
        assert(s@.take(j as int).drop_last() =~= s@.take(j - 1));
        j = j - 1;
    }
    n - j
}

pub fn lex_lt_exec(a: &[char], b: &[char]) -> (r: bool)
    ensures
        r == lex_lt(a@, b@),
{
    let mut i: usize = 0;
    assert(a@.skip(0) =~= a@);
    assert(b@.skip(0) =~= b@);
    while i < a.len() && i < b.len() && a[i] == b[i]
        invariant
            i <= a@.len(),
            i <= b@.len(),
            lex_lt(a@, b@) == lex_lt(a@.skip(i as int), b@.skip(i as int)),
        decreases a@.len() - i,
    {
        assert(a@.skip(i as int).drop_first() =~= a@.skip(i + 1));
        assert(b@.skip(i as int).drop_first() =~= b@.skip(i + 1));
        i = i + 1;
    }
    if i == a.len() {
        i < b.len()
    } else if i == b.len() {
        false
    } else {
        assert(a@.skip(i as int)[0] == a@[i as int]);
        assert(b@.skip(i as int)[0] == b@[i as int]);
        (a[i] as u32) < (b[i] as u32)
    }
}

/// The parts of a name that natural order compares.
pub fn natural_key_exec(s: &[char]) -> (r: (Vec<char>, Option<u64>))
    ensures
        (r.0@, r.1) == natural_key(s@),
{
    let d = trailing_digits_exec(s);
    let n = s.len();
    let head = slice_to_vec(s, 0, n - d);
    let tail = slice_to_vec(s, n - d, n);
    assert(head@ =~= s@.take(s@.len() - d));
    assert(tail@ =~= s@.skip(s@.len() - d));
    (head, parse_u64_of(&tail))
}

/// `a` sorts strictly before `b` in natural order.
pub fn natural_lt_exec(a: &[char], b: &[char]) -> (r: bool)
    ensures
        r == natural_lt(a@, b@),
{
    let (ha, na) = natural_key_exec(a);
    let (hb, nb) = natural_key_exec(b);
    if lex_lt_exec(&ha, &hb) {
        return true;
    }
    if !chars_eq(&ha, &hb) {
        return false;
    }
    match (na, nb) {
        (None, Some(_)) => true,
        (Some(x), Some(y)) => x < y,
        _ => false,
    }
}

/// `pwm10` sorts after `pwm9`, and `hwmon10` after `hwmon9`: the text before
/// the trailing digits decides first, then the number they spell.
pub fn natural_cmp(a: &str, b: &str) -> (o: Ordering)
    ensures
        (o == Ordering::Less) == natural_lt(a@, b@),
        (o == Ordering::Greater) == natural_lt(b@, a@),
        (o == Ordering::Equal) == (natural_key(a@) == natural_key(b@)),
{
    let va = chars_of(a);
    let vb = chars_of(b);
    proof {
        let (ha, na) = natural_key(a@);
        let (hb, nb) = natural_key(b@);
        lemma_lex_trichotomy(ha, hb);
    }
    if natural_lt_exec(&va, &vb) {
        Ordering::Less
    } else if natural_lt_exec(&vb, &va) {
        Ordering::Greater
    } else {
        Ordering::Equal
    }
}

} // verus!
