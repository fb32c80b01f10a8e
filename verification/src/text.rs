//! Text, as the kernel hands it to us: whitespace, lines, decimal integers.
//!
//! Everything is stated over `Seq<char>`, the view of a `String`.

use vstd::prelude::*;
use vstd::std_specs::iter::IteratorSpec;

verus! {

/// Unicode `White_Space`, which is what `char::is_whitespace` tests.
pub open spec fn is_ws(c: char) -> bool {
    let u = c as u32;
    ||| 9 <= u <= 13
    ||| u == 32
    ||| u == 0x85
    ||| u == 0xA0
    ||| u == 0x1680
    ||| 0x2000 <= u <= 0x200A
    ||| u == 0x2028
    ||| u == 0x2029
    ||| u == 0x202F
    ||| u == 0x205F
    ||| u == 0x3000
}

pub fn is_whitespace(c: char) -> (b: bool)
    ensures
        b == is_ws(c),
{
    let u = c as u32;
    (9 <= u && u <= 13) || u == 32 || u == 0x85 || u == 0xA0 || u == 0x1680 || (0x2000 <= u
        && u <= 0x200A) || u == 0x2028 || u == 0x2029 || u == 0x202F || u == 0x205F || u == 0x3000
}

/// The characters of a string, in order.
pub(crate) fn chars_of(s: &str) -> (v: Vec<char>)
    ensures
        v@ == s@,
{
    broadcast use vstd::string::group_string_axioms;

    let mut it = s.chars();
    let mut v: Vec<char> = Vec::new();
    loop
        invariant
            v@ + it.remaining() == s@,
        ensures
            v@ == s@,
        decreases s@.len() - v@.len(),
    {
        match it.next() {
            Some(c) => {
                v.push(c);
            },
            None => {
                assert(v@ + it.remaining() == v@);
                break;
            },
        }
    }
    v
}

/// `String::push`: the string with `c` on the end.
#[verifier::external_body]
fn push_char(s: &mut String, c: char)
    ensures
        final(s)@ == old(s)@.push(c),
{
    s.push(c);
}

/// A string made of the given characters.
pub(crate) fn string_of(v: &[char]) -> (s: String)
    ensures
        s@ == v@,
{
    let mut s = String::new();
    let mut i: usize = 0;
    while i < v.len()
        invariant
            i <= v@.len(),
            s@ == v@.take(i as int),
        decreases v@.len() - i,
    {
        push_char(&mut s, v[i]);
        assert(v@.take(i + 1) =~= v@.take(i as int).push(v@[i as int]));
        i = i + 1;
    }
    assert(v@.take(v@.len() as int) =~= v@);
    s
}

pub open spec fn trim_start(s: Seq<char>) -> Seq<char>
    decreases s.len(),
{
    if s.len() > 0 && is_ws(s[0]) {
        trim_start(s.drop_first())
    } else {
        s
    }
}

pub open spec fn trim_end(s: Seq<char>) -> Seq<char>
    decreases s.len(),
{
    if s.len() > 0 && is_ws(s.last()) {
        trim_end(s.drop_last())
    } else {
        s
    }
}

/// `str::trim`: leading and trailing whitespace removed.
pub open spec fn trim(s: Seq<char>) -> Seq<char> {
    trim_end(trim_start(s))
}

proof fn lemma_trim_start_shape(s: Seq<char>)
    ensures
        trim_start(s).len() == 0 || !is_ws(trim_start(s)[0]),
    decreases s.len(),
{
    if s.len() > 0 && is_ws(s[0]) {
        lemma_trim_start_shape(s.drop_first());
    }
}

/// `trim_end` keeps a prefix: a non-empty result starts where `s` did.
proof fn lemma_trim_end_shape(s: Seq<char>)
    ensures
        trim_end(s).len() <= s.len(),
        trim_end(s) =~= s.take(trim_end(s).len() as int),
        trim_end(s).len() == 0 || !is_ws(trim_end(s).last()),
    decreases s.len(),
{
    if s.len() > 0 && is_ws(s.last()) {
        lemma_trim_end_shape(s.drop_last());
        assert(s.drop_last().take(trim_end(s).len() as int) =~= s.take(trim_end(s).len() as int));
    }
}

/// Trimming twice is trimming once: what a read gives is already trimmed.
pub proof fn lemma_trim_idempotent(s: Seq<char>)
    ensures
        trim(trim(s)) == trim(s),
{
    let t0 = trim_start(s);
    let t = trim(s);
    lemma_trim_start_shape(s);
    lemma_trim_end_shape(t0);
    if t.len() > 0 {
        assert(t[0] == t0[0]);
    }
    assert(trim_start(t) == t);
    lemma_trim_end_shape(t);
    assert(trim_end(t) == t);
}

/// Text that neither starts nor ends with whitespace is its own trim.
pub proof fn lemma_trim_plain(s: Seq<char>)
    requires
        s.len() > 0 ==> !is_ws(s[0]) && !is_ws(s.last()),
    ensures
        trim(s) == s,
{
}

/// A decimal spelling has no whitespace to trim.
pub proof fn lemma_trim_decimal(n: nat)
    ensures
        trim(decimal(n)) == decimal(n),
        parse_u32(decimal(n)) == (if n <= u32::MAX { Some(n as u32) } else { None::<u32> }),
{
    lemma_parse_decimal(n);
    let d = decimal(n);
    assert(is_digit(d[0]) && is_digit(d.last()));
    lemma_trim_plain(d);
}

pub fn trim_chars(s: &[char]) -> (r: Vec<char>)
    ensures
        r@ == trim(s@),
{
    let n = s.len();
    let mut i: usize = 0;
    assert(s@.subrange(0, n as int) =~= s@);
    while i < n && is_whitespace(s[i])
        invariant
            n == s@.len(),
            i <= n,
            trim_start(s@) == trim_start(s@.subrange(i as int, n as int)),
        decreases n - i,
    {
        assert(s@.subrange(i as int, n as int).drop_first() =~= s@.subrange(i + 1, n as int));
        i = i + 1;
    }
    assert(trim_start(s@) == s@.subrange(i as int, n as int));
    let mut j: usize = n;
    while j > i && is_whitespace(s[j - 1])
        invariant
            n == s@.len(),
            i <= j <= n,
            trim(s@) == trim_end(s@.subrange(i as int, j as int)),
        decreases j,
    {
        assert(s@.subrange(i as int, j as int).drop_last() =~= s@.subrange(i as int, j - 1));
        j = j - 1;
    }
    let mut r: Vec<char> = Vec::new();
    let mut k: usize = i;
    while k < j
        invariant
            n == s@.len(),
            i <= k <= j <= n,
            r@ =~= s@.subrange(i as int, k as int),
        decreases j - k,
    {
        r.push(s[k]);
        k = k + 1;
    }
    r
}

} // verus!

verus! {

/// The texts held by a vector of character vectors.
pub open spec fn views(v: Seq<Vec<char>>) -> Seq<Seq<char>> {
    Seq::new(v.len(), |i: int| v[i]@)
}

// ---- whitespace-separated words ---------------------------------------------

/// The words of `s` still to come, given the word `cur` already begun.
pub open spec fn words_from(s: Seq<char>, cur: Seq<char>) -> Seq<Seq<char>>
    decreases s.len(),
{
    if s.len() == 0 {
        if cur.len() > 0 {
            seq![cur]
        } else {
            seq![]
        }
    } else if is_ws(s[0]) {
        let rest = words_from(s.drop_first(), seq![]);
        if cur.len() > 0 {
            seq![cur] + rest
        } else {
            rest
        }
    } else {
        words_from(s.drop_first(), cur.push(s[0]))
    }
}

/// `str::split_whitespace`: the maximal runs of non-whitespace characters.
pub open spec fn words(s: Seq<char>) -> Seq<Seq<char>> {
    words_from(s, seq![])
}

proof fn lemma_words_from_plain(s: Seq<char>, cur: Seq<char>)
    requires
        no_ws(cur),
    ensures
        forall|i: int|
            0 <= i < words_from(s, cur).len() ==> #[trigger] words_from(s, cur)[i].len() > 0 && no_ws(
                words_from(s, cur)[i],
            ),
    decreases s.len(),
{
    if s.len() == 0 {
        if cur.len() > 0 {
            assert(words_from(s, cur) == seq![cur]);
        } else {
            assert(words_from(s, cur).len() == 0);
        }
    } else if is_ws(s[0]) {
        lemma_words_from_plain(s.drop_first(), seq![]);
        let rest = words_from(s.drop_first(), seq![]);
        if cur.len() == 0 {
            assert(words_from(s, cur) == rest);
        } else {
            assert(words_from(s, cur) == seq![cur] + rest);
            let w = seq![cur] + rest;
            assert forall|i: int| 0 <= i < w.len() implies #[trigger] w[i].len() > 0 && no_ws(w[i]) by {
                if i > 0 {
                    assert(w[i] == rest[i - 1]);
                }
            }
        }
    } else {
        assert(words_from(s, cur) == words_from(s.drop_first(), cur.push(s[0])));
        let c2 = cur.push(s[0]);
        assert forall|i: int| 0 <= i < c2.len() implies !is_ws(#[trigger] c2[i]) by {
            if i < cur.len() {
                assert(c2[i] == cur[i]);
            }
        }
        lemma_words_from_plain(s.drop_first(), c2);
    }
}

/// Every word is a non-empty run without whitespace.
pub proof fn lemma_words_are_plain(s: Seq<char>)
    ensures
        forall|i: int| 0 <= i < words(s).len() ==> #[trigger] words(s)[i].len() > 0 && no_ws(words(s)[i]),
{
    lemma_words_from_plain(s, seq![]);
}

pub fn words_of(s: &[char]) -> (r: Vec<Vec<char>>)
    ensures
        views(r@) == words(s@),
{
    let n = s.len();
    let mut out: Vec<Vec<char>> = Vec::new();
    let mut cur: Vec<char> = Vec::new();
    let mut i: usize = 0;
    assert(s@.skip(0) =~= s@);
    while i < n
        invariant
            n == s@.len(),
            i <= n,
            words(s@) == views(out@) + words_from(s@.skip(i as int), cur@),
        decreases n - i,
    {
        let ghost t = s@.skip(i as int);
        assert(t.drop_first() =~= s@.skip(i + 1));
        assert(t[0] == s@[i as int]);
        if is_whitespace(s[i]) {
            if cur.len() > 0 {
                let ghost before = views(out@);
                let ghost c = cur@;
                out.push(cur);
                assert(views(out@) =~= before.push(c));
                assert(before + (seq![c] + words_from(t.drop_first(), seq![])) =~= before.push(c)
                    + words_from(t.drop_first(), seq![]));
                cur = Vec::new();
            } else {
                cur = Vec::new();
                assert(cur@ =~= Seq::<char>::empty());
            }
        } else {
            cur.push(s[i]);
        }
        i = i + 1;
    }
    if cur.len() > 0 {
        let ghost before = views(out@);
        let ghost c = cur@;
        out.push(cur);
        assert(views(out@) =~= before.push(c));
        assert(before + seq![c] =~= before.push(c));
    } else {
        assert(views(out@) + Seq::<Seq<char>>::empty() =~= views(out@));
    }
    out
}

// ---- lines ------------------------------------------------------------------

pub open spec fn without_cr(line: Seq<char>) -> Seq<char> {
    if line.len() > 0 && line.last() == '\r' {
        line.drop_last()
    } else {
        line
    }
}

/// The lines of `s` still to come, given the line `cur` already begun.
pub open spec fn lines_from(s: Seq<char>, cur: Seq<char>) -> Seq<Seq<char>>
    decreases s.len(),
{
    if s.len() == 0 {
        if cur.len() > 0 {
            seq![cur]
        } else {
            seq![]
        }
    } else if s[0] == '\n' {
        seq![without_cr(cur)] + lines_from(s.drop_first(), seq![])
    } else {
        lines_from(s.drop_first(), cur.push(s[0]))
    }
}

/// `str::lines`: split at `\n`, a `\r` before it dropped, no empty last line.
pub open spec fn lines(s: Seq<char>) -> Seq<Seq<char>> {
    lines_from(s, seq![])
}

pub fn lines_of(s: &[char]) -> (r: Vec<Vec<char>>)
    ensures
        views(r@) == lines(s@),
{
    let n = s.len();
    let mut out: Vec<Vec<char>> = Vec::new();
    let mut cur: Vec<char> = Vec::new();
    let mut i: usize = 0;
    assert(s@.skip(0) =~= s@);
    while i < n
        invariant
            n == s@.len(),
            i <= n,
            lines(s@) == views(out@) + lines_from(s@.skip(i as int), cur@),
        decreases n - i,
    {
        let ghost t = s@.skip(i as int);
        assert(t.drop_first() =~= s@.skip(i + 1));
        assert(t[0] == s@[i as int]);
        if s[i] == '\n' {
            let ghost before = views(out@);
            let ghost c = without_cr(cur@);
            let line = if cur.len() > 0 && cur[cur.len() - 1] == '\r' {
                let mut l: Vec<char> = Vec::new();
                let mut k: usize = 0;
                while k < cur.len() - 1
                    invariant
                        cur@.len() > 0,
                        k + 1 <= cur@.len(),
                        l@ =~= cur@.take(k as int),
                    decreases cur@.len() - k,
                {
                    l.push(cur[k]);
                    k = k + 1;
                }
                assert(l@ =~= cur@.drop_last());
                l
            } else {
                cur
            };
            out.push(line);
            assert(views(out@) =~= before.push(c));
            assert(before + (seq![c] + lines_from(t.drop_first(), seq![])) =~= before.push(c)
                + lines_from(t.drop_first(), seq![]));
            cur = Vec::new();
        } else {
            cur.push(s[i]);
        }
        i = i + 1;
    }
    if cur.len() > 0 {
        let ghost before = views(out@);
        let ghost c = cur@;
        out.push(cur);
        assert(views(out@) =~= before.push(c));
        assert(before + seq![c] =~= before.push(c));
    } else {
        assert(views(out@) + Seq::<Seq<char>>::empty() =~= views(out@));
    }
    out
}

} // verus!

verus! {

// ---- decimal integers -------------------------------------------------------

pub open spec fn is_digit(c: char) -> bool {
    48 <= (c as u32) <= 57
}

pub open spec fn digit_of(c: char) -> nat {
    (c as u32 - 48) as nat
}

pub open spec fn all_digits(s: Seq<char>) -> bool {
    forall|i: int| 0 <= i < s.len() ==> is_digit(#[trigger] s[i])
}

/// The number written by a run of decimal digits.
pub open spec fn digits_value(s: Seq<char>) -> nat
    decreases s.len(),
{
    if s.len() == 0 {
        0
    } else {
        digits_value(s.drop_last()) * 10 + digit_of(s.last())
    }
}

/// The digits after an optional leading `+`.
pub open spec fn unsigned_body(s: Seq<char>) -> Seq<char> {
    if s.len() > 0 && s[0] == '+' {
        s.drop_first()
    } else {
        s
    }
}

/// What `str::parse` makes of `s` for an unsigned type, before range checks.
pub open spec fn parse_nat(s: Seq<char>) -> Option<nat> {
    let b = unsigned_body(s);
    if b.len() > 0 && all_digits(b) {
        Some(digits_value(b))
    } else {
        None
    }
}

/// `str::parse::<u32>`.
pub open spec fn parse_u32(s: Seq<char>) -> Option<u32> {
    match parse_nat(s) {
        Some(v) => if v <= u32::MAX {
            Some(v as u32)
        } else {
            None
        },
        None => None,
    }
}

/// `str::parse::<u64>`.
pub open spec fn parse_u64(s: Seq<char>) -> Option<u64> {
    match parse_nat(s) {
        Some(v) => if v <= u64::MAX {
            Some(v as u64)
        } else {
            None
        },
        None => None,
    }
}

/// `str::parse::<i64>`: an optional sign, then decimal digits, in range.
pub open spec fn parse_i64(s: Seq<char>) -> Option<i64> {
    if s.len() > 0 && s[0] == '-' {
        let b = s.drop_first();
        if b.len() > 0 && all_digits(b) && digits_value(b) <= 0x8000_0000_0000_0000 {
            Some((0 - digits_value(b)) as i64)
        } else {
            None
        }
    } else {
        match parse_nat(s) {
            Some(v) => if v <= i64::MAX {
                Some(v as i64)
            } else {
                None
            },
            None => None,
        }
    }
}

pub fn is_ascii_digit(c: char) -> (b: bool)
    ensures
        b == is_digit(c),
{
    let u = c as u32;
    48 <= u && u <= 57
}

proof fn lemma_digits_step(s: Seq<char>, start: int, i: int)
    requires
        0 <= start <= i < s.len(),
    ensures
        digits_value(s.subrange(start, i + 1)) == digits_value(s.subrange(start, i)) * 10
            + digit_of(s[i]),
{
    assert(s.subrange(start, i + 1).drop_last() =~= s.subrange(start, i));
}

/// The value of the digits `s[start..]`, or `None` when one is not a digit;
/// `Some(cap + 1)` stands for every value above `cap`.
fn digits_capped(s: &[char], start: usize, cap: u64) -> (r: Option<u64>)
    requires
        start <= s@.len(),
        cap < u64::MAX,
    ensures
        match r {
            None => !all_digits(s@.skip(start as int)),
            Some(v) => all_digits(s@.skip(start as int)) && (if digits_value(
                s@.skip(start as int),
            ) <= cap {
                v == digits_value(s@.skip(start as int))
            } else {
                v == cap + 1
            }),
        },
{
    let n = s.len();
    let mut v: u128 = 0;
    let mut over = false;
    let mut i = start;
    assert(s@.subrange(start as int, start as int) =~= Seq::<char>::empty());
    while i < n
        invariant
            n == s@.len(),
            start <= i <= n,
            cap < u64::MAX,
            all_digits(s@.subrange(start as int, i as int)),
            over ==> digits_value(s@.subrange(start as int, i as int)) > cap && v == cap + 1,
            !over ==> v == digits_value(s@.subrange(start as int, i as int)) && v <= cap,
        decreases n - i,
    {
        if !is_ascii_digit(s[i]) {
            assert(s@.skip(start as int)[i - start] == s@[i as int]);
            return None;
        }
        proof {
            lemma_digits_step(s@, start as int, i as int);
            assert forall|k: int| 0 <= k < i + 1 - start implies is_digit(
                #[trigger] s@.subrange(start as int, i + 1)[k],
            ) by {
                if k < i - start {
                    assert(s@.subrange(start as int, i + 1)[k] == s@.subrange(
                        start as int,
                        i as int,
                    )[k]);
                }
            }
        }
        if !over {
            let d = (s[i] as u32 - 48) as u128;
            let next = v * 10 + d;
            if next > cap as u128 {
                over = true;
                v = cap as u128 + 1;
            } else {
                v = next;
            }
        }
        i = i + 1;
    }
    assert(s@.subrange(start as int, n as int) =~= s@.skip(start as int));
    Some(v as u64)
}

pub fn parse_u32_of(s: &[char]) -> (r: Option<u32>)
    ensures
        r == parse_u32(s@),
{
    let start: usize = if s.len() > 0 && s[0] == '+' {
        1
    } else {
        0
    };
    assert(unsigned_body(s@) =~= s@.skip(start as int));
    if start >= s.len() {
        return None;
    }
    match digits_capped(s, start, 0xFFFF_FFFF) {
        None => None,
        Some(v) => if v <= 0xFFFF_FFFF {
            Some(v as u32)
        } else {
            None
        },
    }
}

pub fn parse_u64_of(s: &[char]) -> (r: Option<u64>)
    ensures
        r == parse_u64(s@),
{
    let start: usize = if s.len() > 0 && s[0] == '+' {
        1
    } else {
        0
    };
    assert(unsigned_body(s@) =~= s@.skip(start as int));
    if start >= s.len() {
        return None;
    }
    digits_u64(s, start)
}

/// `s[start..]` as a `u64`, if it is all digits and in range.
fn digits_u64(s: &[char], start: usize) -> (r: Option<u64>)
    requires
        start < s@.len(),
    ensures
        r == (if all_digits(s@.skip(start as int)) && digits_value(s@.skip(start as int))
            <= u64::MAX {
            Some(digits_value(s@.skip(start as int)) as u64)
        } else {
            None
        }),
{
    let n = s.len();
    let mut v: u128 = 0;
    let mut over = false;
    let mut i = start;
    assert(s@.subrange(start as int, start as int) =~= Seq::<char>::empty());
    while i < n
        invariant
            n == s@.len(),
            start <= i <= n,
            all_digits(s@.subrange(start as int, i as int)),
            over ==> digits_value(s@.subrange(start as int, i as int)) > u64::MAX,
            !over ==> v == digits_value(s@.subrange(start as int, i as int)) && v <= u64::MAX,
        decreases n - i,
    {
        if !is_ascii_digit(s[i]) {
            assert(s@.skip(start as int)[i - start] == s@[i as int]);
            return None;
        }
        proof {
            lemma_digits_step(s@, start as int, i as int);
            assert forall|k: int| 0 <= k < i + 1 - start implies is_digit(
                #[trigger] s@.subrange(start as int, i + 1)[k],
            ) by {
                if k < i - start {
                    assert(s@.subrange(start as int, i + 1)[k] == s@.subrange(
                        start as int,
                        i as int,
                    )[k]);
                }
            }
        }
        if !over {
            let d = (s[i] as u32 - 48) as u128;
            let next = v * 10 + d;
            if next > 0xFFFF_FFFF_FFFF_FFFF {
                over = true;
            } else {
                v = next;
            }
        }
        i = i + 1;
    }
    assert(s@.subrange(start as int, n as int) =~= s@.skip(start as int));
    if over {
        None
    } else {
        Some(v as u64)
    }
}

pub fn parse_i64_of(s: &[char]) -> (r: Option<i64>)
    ensures
        r == parse_i64(s@),
{
    if s.len() > 0 && s[0] == '-' {
        assert(s@.drop_first() =~= s@.skip(1));
        if s.len() < 2 {
            return None;
        }
        match digits_capped(s, 1, 0x8000_0000_0000_0000) {
            None => None,
            Some(v) => if v <= 0x8000_0000_0000_0000 {
                if v == 0x8000_0000_0000_0000 {
                    Some(i64::MIN)
                } else {
                    let m = v as i64;
                    Some(-m)
                }
            } else {
                None
            },
        }
    } else {
        let start: usize = if s.len() > 0 && s[0] == '+' {
            1
        } else {
            0
        };
        assert(unsigned_body(s@) =~= s@.skip(start as int));
        if start >= s.len() {
            return None;
        }
        match digits_capped(s, start, 0x7FFF_FFFF_FFFF_FFFF) {
            None => None,
            Some(v) => if v <= 0x7FFF_FFFF_FFFF_FFFF {
                Some(v as i64)
            } else {
                None
            },
        }
    }
}

pub open spec fn digit_char(d: nat) -> char {
    (d + 48) as char
}

/// The decimal spelling of `n`, as `to_string` writes it.
pub open spec fn decimal(n: nat) -> Seq<char>
    decreases n,
{
    if n < 10 {
        seq![digit_char(n)]
    } else {
        decimal(n / 10).push(digit_char(n % 10))
    }
}

/// What `to_string` writes, `str::parse` reads back: the decimal spelling of
/// a number is a run of digits whose value is that number.
pub proof fn lemma_parse_decimal(n: nat)
    ensures
        decimal(n).len() > 0,
        all_digits(decimal(n)),
        decimal(n)[0] != '+',
        digits_value(decimal(n)) == n,
        parse_nat(decimal(n)) == Some(n),
    decreases n,
{
    if n < 10 {
        let c = digit_char(n);
        assert(decimal(n) =~= seq![c]);
        assert(seq![c].drop_last() =~= Seq::<char>::empty());
        assert((c as u32) == n + 48);
        assert(digits_value(Seq::<char>::empty()) == 0);
        assert(digit_of(c) == n);
        assert(digits_value(decimal(n)) == n);
    } else {
        lemma_parse_decimal(n / 10);
        let d = digit_char(n % 10);
        assert((d as u32) == n % 10 + 48);
        let s = decimal(n / 10).push(d);
        assert(s.drop_last() =~= decimal(n / 10));
        assert(s[0] == decimal(n / 10)[0]);
        assert(all_digits(s)) by {
            assert forall|i: int| 0 <= i < s.len() implies is_digit(#[trigger] s[i]) by {
                if i < s.len() - 1 {
                    assert(s[i] == decimal(n / 10)[i]);
                }
            }
        }
        assert(n / 10 * 10 + n % 10 == n);
    }
    assert(unsigned_body(decimal(n)) == decimal(n));
}

fn push_decimal(n: u128, out: &mut Vec<char>)
    ensures
        final(out)@ == old(out)@ + decimal(n as nat),
    decreases n,
{
    if n >= 10 {
        push_decimal(n / 10, out);
    }
    let d = (n % 10) as u32;
    let c = char_of_digit(d);
    out.push(c);
    proof {
        if n >= 10 {
            assert(old(out)@ + decimal(n as nat) =~= (old(out)@ + decimal((n / 10) as nat)).push(
                digit_char((n % 10) as nat),
            ));
        } else {
            assert(old(out)@ + decimal(n as nat) =~= old(out)@.push(digit_char(n as nat)));
        }
    }
}

fn char_of_digit(d: u32) -> (c: char)
    requires
        d < 10,
    ensures
        c == digit_char(d as nat),
{
    let c = match d {
        0 => '0',
        1 => '1',
        2 => '2',
        3 => '3',
        4 => '4',
        5 => '5',
        6 => '6',
        7 => '7',
        8 => '8',
        _ => '9',
    };
    c
}

/// `n.to_string()`, as characters.
pub fn decimal_of(n: u64) -> (r: Vec<char>)
    ensures
        r@ == decimal(n as nat),
{
    let mut r: Vec<char> = Vec::new();
    push_decimal(n as u128, &mut r);
    assert(Seq::<char>::empty() + decimal(n as nat) =~= decimal(n as nat));
    r
}

/// The decimal spelling of a `u128`, as a string.
pub fn u128_string(n: u128) -> (r: String)
    ensures
        r@ == decimal(n as nat),
{
    let mut v: Vec<char> = Vec::new();
    push_decimal(n, &mut v);
    assert(Seq::<char>::empty() + decimal(n as nat) =~= decimal(n as nat));
    string_of(&v)
}

} // verus!

verus! {

// ---- searching ----------------------------------------------------------------

pub open spec fn starts_with(s: Seq<char>, p: Seq<char>) -> bool {
    p.len() <= s.len() && s.take(p.len() as int) == p
}

pub open spec fn ends_with(s: Seq<char>, p: Seq<char>) -> bool {
    p.len() <= s.len() && s.skip(s.len() - p.len()) == p
}

/// `str::strip_prefix`.
pub open spec fn strip_prefix(s: Seq<char>, p: Seq<char>) -> Option<Seq<char>> {
    if starts_with(s, p) {
        Some(s.skip(p.len() as int))
    } else {
        None
    }
}

/// `str::strip_suffix`.
pub open spec fn strip_suffix(s: Seq<char>, p: Seq<char>) -> Option<Seq<char>> {
    if ends_with(s, p) {
        Some(s.take(s.len() - p.len()))
    } else {
        None
    }
}

pub open spec fn occurs_at(s: Seq<char>, p: Seq<char>, i: int) -> bool {
    0 <= i && i + p.len() <= s.len() && s.subrange(i, i + p.len()) == p
}

/// `str::contains` with a string pattern.
pub open spec fn contains(s: Seq<char>, p: Seq<char>) -> bool {
    exists|i: int| occurs_at(s, p, i)
}

pub fn occurs_at_exec(s: &[char], p: &[char], i: usize) -> (b: bool)
    ensures
        b == occurs_at(s@, p@, i as int),
{
    if i > s.len() || p.len() > s.len() - i {
        return false;
    }
    let mut k: usize = 0;
    while k < p.len()
        invariant
            i + p@.len() <= s@.len(),
            k <= p@.len(),
            forall|j: int| 0 <= j < k ==> s@[i + j] == p@[j],
        decreases p@.len() - k,
    {
        let n = s.len();
        assert(i + k < n);
        if s[i + k] != p[k] {
            assert(s@.subrange(i as int, i + p@.len())[k as int] != p@[k as int]);
            return false;
        }
        k = k + 1;
    }
    assert(s@.subrange(i as int, i + p@.len()) =~= p@);
    true
}

pub fn starts_with_exec(s: &[char], p: &[char]) -> (b: bool)
    ensures
        b == starts_with(s@, p@),
{
    let r = occurs_at_exec(s, p, 0);
    assert(p@.len() <= s@.len() ==> s@.take(p@.len() as int) =~= s@.subrange(0, p@.len() as int));
    r
}

pub fn ends_with_exec(s: &[char], p: &[char]) -> (b: bool)
    ensures
        b == ends_with(s@, p@),
{
    if p.len() > s.len() {
        return false;
    }
    let r = occurs_at_exec(s, p, s.len() - p.len());
    assert(s@.skip(s@.len() - p@.len()) =~= s@.subrange(s@.len() - p@.len(), s@.len() as int));
    r
}

pub fn contains_exec(s: &[char], p: &[char]) -> (b: bool)
    ensures
        b == contains(s@, p@),
{
    if p.len() > s.len() {
        assert(forall|i: int| !occurs_at(s@, p@, i));
        return false;
    }
    let last = s.len() - p.len();
    let mut i: usize = 0;
    loop
        invariant
            last == s@.len() - p@.len(),
            i <= last,
            forall|j: int| 0 <= j < i ==> !occurs_at(s@, p@, j),
        decreases last - i,
    {
        if occurs_at_exec(s, p, i) {
            return true;
        }
        if i == last {
            assert forall|j: int| !occurs_at(s@, p@, j) by {
                if occurs_at(s@, p@, j) {
                    assert(j <= last);
                }
            }
            return false;
        }
        i = i + 1;
    }
}

/// `s[from..to]` as a new vector.
pub fn slice_to_vec(s: &[char], from: usize, to: usize) -> (r: Vec<char>)
    requires
        from <= to <= s@.len(),
    ensures
        r@ == s@.subrange(from as int, to as int),
{
    let mut r: Vec<char> = Vec::new();
    let mut k = from;
    while k < to
        invariant
            from <= k <= to <= s@.len(),
            r@ =~= s@.subrange(from as int, k as int),
        decreases to - k,
    {
        r.push(s[k]);
        k = k + 1;
    }
    r
}

pub fn strip_prefix_exec(s: &[char], p: &[char]) -> (r: Option<Vec<char>>)
    ensures
        match r {
            Some(v) => strip_prefix(s@, p@) == Some(v@),
            None => strip_prefix(s@, p@).is_none(),
        },
{
    if starts_with_exec(s, p) {
        Some(slice_to_vec(s, p.len(), s.len()))
    } else {
        None
    }
}

pub fn strip_suffix_exec(s: &[char], p: &[char]) -> (r: Option<Vec<char>>)
    ensures
        match r {
            Some(v) => strip_suffix(s@, p@) == Some(v@),
            None => strip_suffix(s@, p@).is_none(),
        },
{
    if ends_with_exec(s, p) {
        let r = slice_to_vec(s, 0, s.len() - p.len());
        assert(r@ =~= s@.take(s@.len() - p@.len()));
        Some(r)
    } else {
        None
    }
}

pub open spec fn is_first_of(s: Seq<char>, c: char, i: int) -> bool {
    0 <= i < s.len() && s[i] == c && forall|j: int| 0 <= j < i ==> s[j] != c
}

pub open spec fn is_last_of(s: Seq<char>, c: char, i: int) -> bool {
    0 <= i < s.len() && s[i] == c && forall|j: int| i < j < s.len() ==> s[j] != c
}

/// Where `c` first occurs in `s`.
pub open spec fn first_index(s: Seq<char>, c: char) -> Option<int> {
    if exists|i: int| is_first_of(s, c, i) {
        Some(choose|i: int| is_first_of(s, c, i))
    } else {
        None
    }
}

/// Where `c` last occurs in `s`.
pub open spec fn last_index(s: Seq<char>, c: char) -> Option<int> {
    if exists|i: int| is_last_of(s, c, i) {
        Some(choose|i: int| is_last_of(s, c, i))
    } else {
        None
    }
}

/// `str::split_once` on a character.
pub open spec fn split_once(s: Seq<char>, c: char) -> Option<(Seq<char>, Seq<char>)> {
    match first_index(s, c) {
        Some(i) => Some((s.take(i), s.skip(i + 1))),
        None => None,
    }
}

/// `str::rsplit_once` on a character.
pub open spec fn rsplit_once(s: Seq<char>, c: char) -> Option<(Seq<char>, Seq<char>)> {
    match last_index(s, c) {
        Some(i) => Some((s.take(i), s.skip(i + 1))),
        None => None,
    }
}

pub fn first_index_exec(s: &[char], c: char) -> (r: Option<usize>)
    ensures
        match r {
            Some(i) => i < s@.len() && first_index(s@, c) == Some(i as int),
            None => first_index(s@, c).is_none(),
        },
{
    let mut i: usize = 0;
    while i < s.len()
        invariant
            i <= s@.len(),
            forall|j: int| 0 <= j < i ==> s@[j] != c,
        decreases s@.len() - i,
    {
        if s[i] == c {
            assert(is_first_of(s@, c, i as int));
            proof {
                let k = choose|k: int| is_first_of(s@, c, k);
                assert(k == i) by {
                    if k < i {
                    } else if k > i {
                    }
                }
            }
            return Some(i);
        }
        i = i + 1;
    }
    None
}

pub fn last_index_exec(s: &[char], c: char) -> (r: Option<usize>)
    ensures
        match r {
            Some(i) => i < s@.len() && last_index(s@, c) == Some(i as int),
            None => last_index(s@, c).is_none(),
        },
{
    let mut i: usize = s.len();
    while i > 0
        invariant
            i <= s@.len(),
            forall|j: int| i <= j < s@.len() ==> s@[j] != c,
        decreases i,
    {
        if s[i - 1] == c {
            assert(is_last_of(s@, c, i - 1));
            proof {
                let k = choose|k: int| is_last_of(s@, c, k);
                assert(k == i - 1) by {
                    if k < i - 1 {
                    } else if k > i - 1 {
                    }
                }
            }
            return Some(i - 1);
        }
        i = i - 1;
    }
    None
}

pub fn split_once_exec(s: &[char], c: char) -> (r: Option<(Vec<char>, Vec<char>)>)
    ensures
        match r {
            Some(p) => split_once(s@, c) == Some((p.0@, p.1@)),
            None => split_once(s@, c).is_none(),
        },
{
    match first_index_exec(s, c) {
        Some(i) => {
            let n = s.len();
            let a = slice_to_vec(s, 0, i);
            let b = slice_to_vec(s, i + 1, n);
            assert(a@ =~= s@.take(i as int));
            assert(b@ =~= s@.skip(i + 1));
            Some((a, b))
        },
        None => None,
    }
}

pub fn rsplit_once_exec(s: &[char], c: char) -> (r: Option<(Vec<char>, Vec<char>)>)
    ensures
        match r {
            Some(p) => rsplit_once(s@, c) == Some((p.0@, p.1@)),
            None => rsplit_once(s@, c).is_none(),
        },
{
    match last_index_exec(s, c) {
        Some(i) => {
            let n = s.len();
            let a = slice_to_vec(s, 0, i);
            let b = slice_to_vec(s, i + 1, n);
            assert(a@ =~= s@.take(i as int));
            assert(b@ =~= s@.skip(i + 1));
            Some((a, b))
        },
        None => None,
    }
}

// ---- case and substitution --------------------------------------------------

pub open spec fn lower(c: char) -> char {
    if 65 <= (c as u32) <= 90 {
        ((c as u32) + 32) as char
    } else {
        c
    }
}

pub open spec fn upper(c: char) -> char {
    if 97 <= (c as u32) <= 122 {
        ((c as u32) - 32) as char
    } else {
        c
    }
}

pub fn lower_exec(c: char) -> (r: char)
    ensures
        r == lower(c),
{
    let u = c as u32;
    if 65 <= u && u <= 90 {
        let l = (u + 32) as u8;
        l as char
    } else {
        c
    }
}

pub fn upper_exec(c: char) -> (r: char)
    ensures
        r == upper(c),
{
    let u = c as u32;
    if 97 <= u && u <= 122 {
        let l = (u - 32) as u8;
        l as char
    } else {
        c
    }
}

/// `str::to_ascii_lowercase`.
pub open spec fn to_lower(s: Seq<char>) -> Seq<char> {
    Seq::new(s.len(), |i: int| lower(s[i]))
}

pub fn to_lower_exec(s: &[char]) -> (r: Vec<char>)
    ensures
        r@ == to_lower(s@),
{
    let mut r: Vec<char> = Vec::new();
    let mut k: usize = 0;
    while k < s.len()
        invariant
            k <= s@.len(),
            r@ =~= to_lower(s@.take(k as int)),
        decreases s@.len() - k,
    {
        r.push(lower_exec(s[k]));
        k = k + 1;
    }
    assert(s@.take(s@.len() as int) =~= s@);
    r
}

/// `str::eq_ignore_ascii_case`.
pub open spec fn eq_ignore_case(a: Seq<char>, b: Seq<char>) -> bool {
    to_lower(a) == to_lower(b)
}

pub fn eq_ignore_case_exec(a: &[char], b: &[char]) -> (r: bool)
    ensures
        r == eq_ignore_case(a@, b@),
{
    let la = to_lower_exec(a);
    let lb = to_lower_exec(b);
    chars_eq(&la, &lb)
}

pub fn chars_eq(a: &[char], b: &[char]) -> (r: bool)
    ensures
        r == (a@ == b@),
{
    if a.len() != b.len() {
        return false;
    }
    let mut k: usize = 0;
    while k < a.len()
        invariant
            a@.len() == b@.len(),
            k <= a@.len(),
            forall|j: int| 0 <= j < k ==> a@[j] == b@[j],
        decreases a@.len() - k,
    {
        if a[k] != b[k] {
            return false;
        }
        k = k + 1;
    }
    assert(a@ =~= b@);
    true
}

/// Every `from` in `s` replaced by `to`.
pub open spec fn replace_char(s: Seq<char>, from: char, to: char) -> Seq<char> {
    Seq::new(s.len(), |i: int| if s[i] == from { to } else { s[i] })
}

pub fn replace_char_exec(s: &[char], from: char, to: char) -> (r: Vec<char>)
    ensures
        r@ == replace_char(s@, from, to),
{
    let mut r: Vec<char> = Vec::new();
    let mut k: usize = 0;
    while k < s.len()
        invariant
            k <= s@.len(),
            r@ =~= replace_char(s@.take(k as int), from, to),
        decreases s@.len() - k,
    {
        r.push(if s[k] == from {
            to
        } else {
            s[k]
        });
        k = k + 1;
    }
    assert(s@.take(s@.len() as int) =~= s@);
    r
}

/// Append `more` to `out`.
pub fn extend_chars(out: &mut Vec<char>, more: &[char])
    ensures
        final(out)@ == old(out)@ + more@,
{
    let mut k: usize = 0;
    while k < more.len()
        invariant
            k <= more@.len(),
            out@ =~= old(out)@ + more@.take(k as int),
        decreases more@.len() - k,
    {
        out.push(more[k]);
        k = k + 1;
    }
    assert(more@.take(more@.len() as int) =~= more@);
}

/// The words of a sequence joined by `sep`, as `[..].join(sep)` writes them.
pub open spec fn join(parts: Seq<Seq<char>>, sep: Seq<char>) -> Seq<char>
    decreases parts.len(),
{
    if parts.len() == 0 {
        seq![]
    } else if parts.len() == 1 {
        parts[0]
    } else {
        join(parts.drop_last(), sep) + sep + parts.last()
    }
}

/// A joined list is its first part, the separator, and the rest joined.
pub proof fn lemma_join_front(parts: Seq<Seq<char>>, sep: Seq<char>)
    requires
        parts.len() >= 2,
    ensures
        join(parts, sep) == parts[0] + sep + join(parts.drop_first(), sep),
    decreases parts.len(),
{
    if parts.len() > 2 {
        let init = parts.drop_last();
        let rest = parts.drop_first();
        lemma_join_front(init, sep);
        assert(init.drop_first() =~= rest.drop_last());
        assert(rest.last() == parts.last());
        assert(init[0] == parts[0]);
        let jm = join(rest.drop_last(), sep);
        assert(join(parts, sep) == join(init, sep) + sep + parts.last());
        assert(join(init, sep) == parts[0] + sep + jm);
        assert(join(rest, sep) == jm + sep + parts.last());
        assert(parts[0] + sep + jm + sep + parts.last() =~= parts[0] + sep + (jm + sep + parts.last()));
    } else {
        assert(parts.drop_first() =~= seq![parts[1]]);
        assert(parts.drop_last() =~= seq![parts[0]]);
        assert(join(parts.drop_last(), sep) == parts[0]);
        assert(join(parts.drop_first(), sep) == parts[1]);
        assert(join(parts, sep) == join(parts.drop_last(), sep) + sep + parts.last());
        assert(parts[0] + sep + parts[1] =~= parts[0] + sep + parts[1]);
    }
}

pub open spec fn no_ws(t: Seq<char>) -> bool {
    forall|i: int| 0 <= i < t.len() ==> !is_ws(#[trigger] t[i])
}

/// A run without whitespace is taken into the word being built.
pub proof fn lemma_words_plain(t: Seq<char>, rest: Seq<char>, cur: Seq<char>)
    requires
        no_ws(t),
    ensures
        words_from(t + rest, cur) == words_from(rest, cur + t),
    decreases t.len(),
{
    if t.len() > 0 {
        assert((t + rest)[0] == t[0]);
        assert((t + rest).drop_first() =~= t.drop_first() + rest);
        lemma_words_plain(t.drop_first(), rest, cur.push(t[0]));
        assert(cur.push(t[0]) + t.drop_first() =~= cur + t);
    } else {
        assert(t + rest =~= rest);
        assert(cur + t =~= cur);
    }
}

/// Splitting on whitespace gives back the parts that were joined with a
/// space, where each part is a non-empty run without whitespace.
pub proof fn lemma_words_of_join(parts: Seq<Seq<char>>)
    requires
        forall|i: int| 0 <= i < parts.len() ==> #[trigger] parts[i].len() > 0 && no_ws(parts[i]),
    ensures
        words(join(parts, " "@)) == parts,
    decreases parts.len(),
{
    reveal_strlit(" ");
    if parts.len() == 0 {
        assert(words(seq![]) =~= parts);
    } else if parts.len() == 1 {
        lemma_words_plain(parts[0], seq![], seq![]);
        assert(parts[0] + Seq::<char>::empty() =~= parts[0]);
        assert(Seq::<char>::empty() + parts[0] =~= parts[0]);
        assert(seq![parts[0]] =~= parts);
    } else {
        let rest = parts.drop_first();
        assert forall|i: int| 0 <= i < rest.len() implies #[trigger] rest[i].len() > 0 && no_ws(
            rest[i],
        ) by {
            assert(rest[i] == parts[i + 1]);
        }
        lemma_words_of_join(rest);
        lemma_join_front(parts, " "@);
        let tail = " "@ + join(rest, " "@);
        assert(parts[0] + " "@ + join(rest, " "@) =~= parts[0] + tail);
        lemma_words_plain(parts[0], tail, seq![]);
        assert(Seq::<char>::empty() + parts[0] =~= parts[0]);
        assert(tail[0] == ' ');
        assert(tail.drop_first() =~= join(rest, " "@));
        assert(seq![parts[0]] + rest =~= parts);
    }
}

/// The first and last characters of a joined list are those of its first
/// and last parts.
pub proof fn lemma_join_ends(parts: Seq<Seq<char>>, sep: Seq<char>)
    requires
        parts.len() > 0,
        parts[0].len() > 0,
        parts.last().len() > 0,
    ensures
        join(parts, sep).len() > 0,
        join(parts, sep)[0] == parts[0][0],
        join(parts, sep).last() == parts.last().last(),
{
    if parts.len() >= 2 {
        lemma_join_front(parts, sep);
    }
}

pub fn join_exec(parts: &Vec<Vec<char>>, sep: &[char]) -> (r: Vec<char>)
    ensures
        r@ == join(views(parts@), sep@),
{
    let mut r: Vec<char> = Vec::new();
    let mut k: usize = 0;
    while k < parts.len()
        invariant
            k <= parts@.len(),
            r@ == join(views(parts@).take(k as int), sep@),
        decreases parts@.len() - k,
    {
        let ghost before = views(parts@).take(k as int);
        if k > 0 {
            extend_chars(&mut r, sep);
        }
        extend_chars(&mut r, &parts[k]);
        proof {
            let now = views(parts@).take(k + 1);
            assert(now.drop_last() =~= before);
            if k == 0 {
                assert(r@ =~= now[0]);
            }
        }
        k = k + 1;
    }
    assert(views(parts@).take(parts@.len() as int) =~= views(parts@));
    r
}

} // verus!

verus! {

// ---- building strings -------------------------------------------------------

/// `a` followed by `b`.
pub fn cat(a: &str, b: &str) -> (r: String)
    ensures
        r@ == a@ + b@,
{
    let s = String::from_str(a);
    s.concat(b)
}

/// `a`, `b` and `c` in turn.
pub fn cat3(a: &str, b: &str, c: &str) -> (r: String)
    ensures
        r@ == a@ + b@ + c@,
{
    let s = String::from_str(a);
    let s = s.concat(b);
    s.concat(c)
}

/// The decimal spelling of a `u64`, as a string.
pub fn u64_string(n: u64) -> (r: String)
    ensures
        r@ == decimal(n as nat),
{
    let v = decimal_of(n);
    string_of(&v)
}

/// The decimal spelling of an integer, with a `-` before a negative one.
pub open spec fn signed_decimal(n: int) -> Seq<char> {
    if n < 0 {
        seq!['-'] + decimal((0 - n) as nat)
    } else {
        decimal(n as nat)
    }
}

/// `n.to_string()` for an `i64`.
pub fn i64_string(n: i64) -> (r: String)
    ensures
        r@ == signed_decimal(n as int),
{
    if n < 0 {
        let m: u64 = if n == i64::MIN {
            0x8000_0000_0000_0000
        } else {
            (-n) as u64
        };
        let mut v: Vec<char> = Vec::new();
        v.push('-');
        let d = decimal_of(m);
        extend_chars(&mut v, &d);
        assert(v@ =~= seq!['-'] + decimal((0 - n) as nat));
        string_of(&v)
    } else {
        u64_string(n as u64)
    }
}

} // verus!

verus! {

/// What `{:?}` writes for a string: quoted, with escapes.
pub uninterp spec fn debug_str(s: Seq<char>) -> Seq<char>;

/// `format!("{s:?}")`: the string quoted as Rust source would write it.
#[verifier::external_body]
pub(crate) fn debug_string(s: &str) -> (r: String)
    ensures
        r@ == debug_str(s@),
{
    format!("{s:?}")
}

/// `[a, b]` as `{:?}` writes a list of strings.
pub open spec fn debug_list(items: Seq<Seq<char>>) -> Seq<char> {
    "["@ + join(Seq::new(items.len(), |i: int| debug_str(items[i])), ", "@) + "]"@
}

/// `[1, 2]` as `{:?}` writes a list of numbers.
pub open spec fn debug_u32_list(items: Seq<u32>) -> Seq<char> {
    "["@ + join(Seq::new(items.len(), |i: int| decimal(items[i] as nat)), ", "@) + "]"@
}

pub fn debug_list_of(items: &Vec<String>) -> (r: String)
    ensures
        r@ == debug_list(string_views(items@)),
{
    let mut parts: Vec<Vec<char>> = Vec::new();
    let mut k: usize = 0;
    while k < items.len()
        invariant
            k <= items@.len(),
            views(parts@) =~= Seq::new(k as nat, |i: int| debug_str(items@[i]@)),
        decreases items@.len() - k,
    {
        let d = debug_string(items[k].as_str());
        let ghost before = parts@;
        let c = chars_of(d.as_str());
        parts.push(c);
        assert(views(parts@) =~= views(before).push(debug_str(items@[k as int]@)));
        k = k + 1;
        assert(views(parts@) =~= Seq::new(k as nat, |i: int| debug_str(items@[i]@)));
    }
    let sep = chars_of(", ");
    let j = join_exec(&parts, &sep);
    let j = string_of(&j);
    assert(views(parts@) =~= Seq::new(
        string_views(items@).len(),
        |i: int| debug_str(string_views(items@)[i]),
    ));
    cat3("[", j.as_str(), "]")
}

pub fn debug_u32_list_of(items: &Vec<u32>) -> (r: String)
    ensures
        r@ == debug_u32_list(items@),
{
    let mut parts: Vec<Vec<char>> = Vec::new();
    let mut k: usize = 0;
    while k < items.len()
        invariant
            k <= items@.len(),
            views(parts@) =~= Seq::new(k as nat, |i: int| decimal(items@[i] as nat)),
        decreases items@.len() - k,
    {
        let ghost before = parts@;
        let c = decimal_of(items[k] as u64);
        parts.push(c);
        assert(views(parts@) =~= views(before).push(decimal(items@[k as int] as nat)));
        k = k + 1;
        assert(views(parts@) =~= Seq::new(k as nat, |i: int| decimal(items@[i] as nat)));
    }
    let sep = chars_of(", ");
    let j = join_exec(&parts, &sep);
    let j = string_of(&j);
    cat3("[", j.as_str(), "]")
}

/// The texts of a vector of strings.
pub open spec fn string_views(v: Seq<String>) -> Seq<Seq<char>> {
    Seq::new(v.len(), |i: int| v[i]@)
}

/// `items.join(sep)`.
pub fn join_strings(items: &Vec<String>, sep: &str) -> (r: String)
    ensures
        r@ == join(string_views(items@), sep@),
{
    let mut parts: Vec<Vec<char>> = Vec::new();
    let mut k: usize = 0;
    while k < items.len()
        invariant
            k <= items@.len(),
            views(parts@) =~= string_views(items@).take(k as int),
        decreases items@.len() - k,
    {
        let ghost before = parts@;
        let c = chars_of(items[k].as_str());
        parts.push(c);
        assert(views(parts@) =~= views(before).push(items@[k as int]@));
        k = k + 1;
        assert(views(parts@) =~= string_views(items@).take(k as int));
    }
    assert(string_views(items@).take(items@.len() as int) =~= string_views(items@));
    let s = chars_of(sep);
    let j = join_exec(&parts, &s);
    string_of(&j)
}

/// A copy of a vector of strings.
pub fn copy_strings(v: &Vec<String>) -> (r: Vec<String>)
    ensures
        string_views(r@) == string_views(v@),
{
    let mut r: Vec<String> = Vec::new();
    let mut k: usize = 0;
    while k < v.len()
        invariant
            k <= v@.len(),
            string_views(r@) =~= string_views(v@).take(k as int),
        decreases v@.len() - k,
    {
        let ghost before = r@;
        r.push(v[k].clone());
        assert(r@ == before.push(v@[k as int]));
        assert(string_views(r@) =~= string_views(before).push(v@[k as int]@));
        k = k + 1;
        assert(string_views(r@) =~= string_views(v@).take(k as int));
    }
    assert(string_views(v@).take(v@.len() as int) =~= string_views(v@));
    r
}

/// A copy of a vector of integers.
pub fn copy_u32s(v: &Vec<u32>) -> (r: Vec<u32>)
    ensures
        r@ == v@,
{
    let mut r: Vec<u32> = Vec::new();
    let mut k: usize = 0;
    while k < v.len()
        invariant
            k <= v@.len(),
            r@ =~= v@.take(k as int),
        decreases v@.len() - k,
    {
        r.push(v[k]);
        k = k + 1;
    }
    assert(v@.take(v@.len() as int) =~= v@);
    r
}

} // verus!

verus! {

/// Strings made of each character vector.
pub fn strings_of(v: &Vec<Vec<char>>) -> (r: Vec<String>)
    ensures
        string_views(r@) == views(v@),
{
    let mut r: Vec<String> = Vec::new();
    let mut k: usize = 0;
    while k < v.len()
        invariant
            k <= v@.len(),
            string_views(r@) =~= views(v@).take(k as int),
        decreases v@.len() - k,
    {
        let ghost before = r@;
        let s = string_of(&v[k]);
        r.push(s);
        assert(string_views(r@) =~= string_views(before).push(v@[k as int]@));
        k = k + 1;
        assert(string_views(r@) =~= views(v@).take(k as int));
    }
    assert(views(v@).take(v@.len() as int) =~= views(v@));
    r
}

} // verus!
