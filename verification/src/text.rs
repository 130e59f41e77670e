//! Building message and key strings: decimal numerals and character appends.
use vstd::prelude::*;
use vstd::string::StrSliceExecFns;
use vstd::string::StringExecFns;

use crate::seqfind::{first_match, is_first_match, is_last_match, last_match, lemma_first_match, lemma_last_match};

verus! {

/// The character of decimal digit `d`.
pub open spec fn digit_char(d: int) -> char {
    (48 + d) as char
}

/// The decimal numeral of `n`, without leading zeros.
pub open spec fn decimal(n: nat) -> Seq<char>
    decreases n,
{
    if n < 10 {
        seq![digit_char(n as int)]
    } else {
        decimal(n / 10).push(digit_char((n % 10) as int))
    }
}

/// The decimal numeral of `n`, left-padded with zeros to at least `width` characters.
pub open spec fn decimal_padded(n: nat, width: nat) -> Seq<char> {
    let d = decimal(n);
    if d.len() >= width {
        d
    } else {
        Seq::new((width - d.len()) as nat, |i: int| '0') + d
    }
}

/// `String::push`: append one character.
#[verifier::external_body]
pub(crate) fn push_char(s: &mut String, c: char)
    ensures
        final(s)@ == old(s)@.push(c),
{
    s.push(c)
}

/// Append the decimal numeral of `n` to `s`.
pub fn push_decimal(s: &mut String, n: u128)
    ensures
        final(s)@ == old(s)@ + decimal(n as nat),
    decreases n,
{
    if n < 10 {
        let c = char_of_digit(n as u8);
        push_char(s, c);
        proof {
            assert(decimal(n as nat) == seq![digit_char(n as int)]);
            assert(old(s)@.push(c) =~= old(s)@ + seq![c]);
        }
    } else {
        push_decimal(s, n / 10);
        let c = char_of_digit((n % 10) as u8);
        let ghost mid = s@;
        push_char(s, c);
        proof {
            assert(s@ =~= old(s)@ + decimal((n / 10) as nat).push(c));
        }
    }
}

/// The character of decimal digit `d`.
pub fn char_of_digit(d: u8) -> (c: char)
    requires
        d < 10,
    ensures
        c == digit_char(d as int),
{
    let c = if d == 0 {
        '0'
    } else if d == 1 {
        '1'
    } else if d == 2 {
        '2'
    } else if d == 3 {
        '3'
    } else if d == 4 {
        '4'
    } else if d == 5 {
        '5'
    } else if d == 6 {
        '6'
    } else if d == 7 {
        '7'
    } else if d == 8 {
        '8'
    } else {
        '9'
    };
    c
}

/// The string of `prefix` followed by `rest`.
pub fn concat_str(prefix: &str, rest: &str) -> (s: String)
    ensures
        s@ == prefix@ + rest@,
{
    String::from_str(prefix).concat(rest)
}

/// The predicate "is the character `c`".
pub open spec fn is_char(c: char) -> spec_fn(char) -> bool {
    |x: char| x == c
}

/// Unicode `White_Space` characters, the ones `str::trim` removes.
pub open spec fn is_white_space(c: char) -> bool {
    ||| ('\u{9}' <= c && c <= '\u{d}')
    ||| c == ' '
    ||| c == '\u{85}'
    ||| c == '\u{a0}'
    ||| c == '\u{1680}'
    ||| ('\u{2000}' <= c && c <= '\u{200a}')
    ||| c == '\u{2028}'
    ||| c == '\u{2029}'
    ||| c == '\u{202f}'
    ||| c == '\u{205f}'
    ||| c == '\u{3000}'
}

/// The predicate "is not white space".
pub open spec fn not_white_space() -> spec_fn(char) -> bool {
    |x: char| !is_white_space(x)
}

/// `s` without leading and trailing white space.
pub open spec fn trimmed(s: Seq<char>) -> Seq<char> {
    let first = first_match(s, not_white_space());
    if first == -1 {
        Seq::empty()
    } else {
        s.subrange(first, last_match(s, not_white_space()) + 1)
    }
}

/// Whether `c` is white space.
pub fn white_space(c: char) -> (r: bool)
    ensures
        r == is_white_space(c),
{
    ('\u{9}' <= c && c <= '\u{d}') || c == ' ' || c == '\u{85}' || c == '\u{a0}' || c == '\u{1680}'
        || ('\u{2000}' <= c && c <= '\u{200a}') || c == '\u{2028}' || c == '\u{2029}' || c == '\u{202f}'
        || c == '\u{205f}' || c == '\u{3000}'
}

/// The first position of character `c` in `s`.
pub fn find_char(s: &str, c: char) -> (r: Option<usize>)
    ensures
        match r {
            Some(i) => is_first_match(s@, is_char(c), i as int) && first_match(s@, is_char(c)) == i,
            None => first_match(s@, is_char(c)) == -1,
        },
{
    let n = s.unicode_len();
    let mut i: usize = 0;
    while i < n
        invariant
            n == s@.len(),
            i <= n,
            forall|j: int| 0 <= j < i ==> !is_char(c)(#[trigger] s@[j]),
        decreases n - i,
    {
        if s.get_char(i) == c {
            proof {
                lemma_first_match(s@, is_char(c), i as int);
            }
            return Some(i);
        }
        i = i + 1;
    }
    proof {
        lemma_first_match(s@, is_char(c), 0);
    }
    None
}

/// The last position of character `c` in `s`.
pub fn rfind_char(s: &str, c: char) -> (r: Option<usize>)
    ensures
        match r {
            Some(i) => is_last_match(s@, is_char(c), i as int) && last_match(s@, is_char(c)) == i,
            None => last_match(s@, is_char(c)) == -1,
        },
{
    let n = s.unicode_len();
    let mut i: usize = n;
    while i > 0
        invariant
            n == s@.len(),
            i <= n,
            forall|j: int| i <= j < n ==> !is_char(c)(#[trigger] s@[j]),
        decreases i,
    {
        if s.get_char(i - 1) == c {
            proof {
                lemma_last_match(s@, is_char(c), i - 1);
            }
            return Some(i - 1);
        }
        i = i - 1;
    }
    proof {
        lemma_last_match(s@, is_char(c), 0);
    }
    None
}

/// `pat` occurs in `s` starting at position `i`.
pub open spec fn occurs_at(s: Seq<char>, pat: Seq<char>, i: int) -> bool {
    0 <= i && i + pat.len() <= s.len() && s.subrange(i, i + pat.len()) == pat
}

/// `i` is the first position where `pat` occurs in `s`.
pub open spec fn is_first_occurrence(s: Seq<char>, pat: Seq<char>, i: int) -> bool {
    occurs_at(s, pat, i) && forall|j: int| 0 <= j < i ==> !#[trigger] occurs_at(s, pat, j)
}

/// The first position where `pat` occurs in `s`, or -1.
pub open spec fn first_occurrence(s: Seq<char>, pat: Seq<char>) -> int {
    if exists|i: int| is_first_occurrence(s, pat, i) {
        choose|i: int| is_first_occurrence(s, pat, i)
    } else {
        -1
    }
}

/// The first occurrence is unique.
proof fn lemma_first_occurrence(s: Seq<char>, pat: Seq<char>, i: int)
    ensures
        is_first_occurrence(s, pat, i) ==> first_occurrence(s, pat) == i,
        (forall|j: int| 0 <= j ==> !#[trigger] occurs_at(s, pat, j)) ==> first_occurrence(s, pat) == -1,
{
    if is_first_occurrence(s, pat, i) {
        let k = choose|k: int| is_first_occurrence(s, pat, k);
        assert(is_first_occurrence(s, pat, k));
        if k < i {
            assert(!occurs_at(s, pat, k));
        }
        if i < k {
            assert(!occurs_at(s, pat, i));
        }
    }
}

/// Whether `pat` occurs in `s` at position `i`.
pub fn matches_at(s: &str, pat: &str, i: usize) -> (r: bool)
    ensures
        r == occurs_at(s@, pat@, i as int),
{
    let n = s.unicode_len();
    let m = pat.unicode_len();
    if i > n || m > n - i {
        return false;
    }
    let mut k: usize = 0;
    while k < m
        invariant
            n == s@.len(),
            m == pat@.len(),
            i + m <= n,
            k <= m,
            forall|j: int| 0 <= j < k ==> s@[i + j] == pat@[j],
        decreases m - k,
    {
        if s.get_char(i + k) != pat.get_char(k) {
            assert(s@.subrange(i as int, i + m)[k as int] != pat@[k as int]);
            return false;
        }
        k = k + 1;
    }
    assert(s@.subrange(i as int, i + m) =~= pat@);
    true
}

/// The first position where `pat` occurs in `s`.
pub fn find_str(s: &str, pat: &str) -> (r: Option<usize>)
    ensures
        match r {
            Some(i) => is_first_occurrence(s@, pat@, i as int) && first_occurrence(s@, pat@) == i,
            None => first_occurrence(s@, pat@) == -1,
        },
{
    let n = s.unicode_len();
    let mut i: usize = 0;
    loop
        invariant
            n == s@.len(),
            i <= n,
            forall|j: int| 0 <= j < i ==> !#[trigger] occurs_at(s@, pat@, j),
        decreases n - i,
    {
        if matches_at(s, pat, i) {
            proof {
                lemma_first_occurrence(s@, pat@, i as int);
            }
            return Some(i);
        }
        if i == n {
            proof {
                assert forall|j: int| 0 <= j implies !#[trigger] occurs_at(s@, pat@, j) by {
                    if j > n {
                        assert(!occurs_at(s@, pat@, j));
                    }
                }
                lemma_first_occurrence(s@, pat@, 0);
            }
            return None;
        }
        i = i + 1;
    }
}

/// `s` without leading and trailing white space.
pub fn trim(s: &str) -> (r: &str)
    ensures
        r@ == trimmed(s@),
{
    let n = s.unicode_len();
    let mut start: usize = 0;
    while start < n && white_space(s.get_char(start))
        invariant
            n == s@.len(),
            start <= n,
            forall|j: int| 0 <= j < start ==> !not_white_space()(#[trigger] s@[j]),
        decreases n - start,
    {
        start = start + 1;
    }
    if start == n {
        proof {
            lemma_first_match(s@, not_white_space(), 0);
        }
        return s.substring_char(0, 0);
    }
    proof {
        lemma_first_match(s@, not_white_space(), start as int);
    }
    let mut end: usize = n;
    while end > start + 1 && white_space(s.get_char(end - 1))
        invariant
            n == s@.len(),
            start < end <= n,
            !is_white_space(s@[start as int]),
            forall|j: int| end <= j < n ==> !not_white_space()(#[trigger] s@[j]),
        decreases end,
    {
        end = end - 1;
    }
    proof {
        lemma_last_match(s@, not_white_space(), end - 1);
    }
    s.substring_char(start, end)
}

/// Whether `c` is a decimal digit.
pub open spec fn is_digit(c: char) -> bool {
    '0' <= c && c <= '9'
}

/// The value of a string of decimal digits.
pub open spec fn digits_value(d: Seq<char>) -> nat
    decreases d.len(),
{
    if d.len() == 0 {
        0
    } else {
        digits_value(d.drop_last()) * 10 + (d.last() as nat - 48) as nat
    }
}

/// Whether every character of `d` is a decimal digit.
pub open spec fn all_digits(d: Seq<char>) -> bool {
    forall|i: int| 0 <= i < d.len() ==> is_digit(#[trigger] d[i])
}

/// An unsigned integer parse of `p` as std's `FromStr` does it: an optional
/// `+`, then at least one digit, and a value of at most `max`.
pub open spec fn parse_decimal_spec(p: Seq<char>, max: u64) -> Option<u64> {
    let d = if p.len() > 0 && p[0] == '+' {
        p.drop_first()
    } else {
        p
    };
    if d.len() > 0 && all_digits(d) && digits_value(d) <= max {
        Some(digits_value(d) as u64)
    } else {
        None
    }
}

/// A prefix of a digit string is worth no more than the whole.
pub proof fn lemma_digits_prefix(d: Seq<char>, k: int)
    requires
        all_digits(d),
        0 <= k <= d.len(),
    ensures
        digits_value(d.subrange(0, k)) <= digits_value(d),
    decreases d.len(),
{
    if k < d.len() {
        let e = d.drop_last();
        assert(e.subrange(0, k) =~= d.subrange(0, k));
        lemma_digits_prefix(e, k);
    } else {
        assert(d.subrange(0, k) =~= d);
    }
}

/// Parse an unsigned decimal number of at most `max`.
pub fn parse_decimal(p: &str, max: u64) -> (r: Option<u64>)
    ensures
        r == parse_decimal_spec(p@, max),
{
    let n = p.unicode_len();
    let start: usize = if n > 0 && p.get_char(0) == '+' {
        1
    } else {
        0
    };
    let ghost d = p@.subrange(start as int, n as int);
    proof {
        if n > 0 && p@[0] == '+' {
            assert(d =~= p@.drop_first());
        } else {
            assert(d =~= p@);
        }
    }
    if start == n {
        return None;
    }
    let mut acc: u128 = 0;
    let mut i: usize = start;
    proof {
        assert(d.subrange(0, 0) =~= Seq::<char>::empty());
    }
    while i < n
        invariant
            n == p@.len(),
            start <= i <= n,
            d == p@.subrange(start as int, n as int),
            d == (if p@.len() > 0 && p@[0] == '+' {
                p@.drop_first()
            } else {
                p@
            }),
            d.len() > 0,
            all_digits(d.subrange(0, i - start)),
            acc == digits_value(d.subrange(0, i - start)),
            acc <= max,
        decreases n - i,
    {
        let c = p.get_char(i);
        if !('0' <= c && c <= '9') {
            proof {
                assert(d[i - start] == c);
            }
            return None;
        }
        let ghost prefix = d.subrange(0, i - start + 1);
        proof {
            assert(prefix.drop_last() =~= d.subrange(0, i - start));
            assert(prefix.last() == c);
        }
        acc = acc * 10 + (c as u128 - 48);
        i = i + 1;
        proof {
            assert(acc == digits_value(d.subrange(0, i - start)));
            assert(all_digits(d.subrange(0, i - start)));
        }
        if acc > max as u128 {
            proof {
                if all_digits(d) {
                    lemma_digits_prefix(d, i - start);
                }
            }
            return None;
        }
    }
    proof {
        assert(d.subrange(0, n - start) =~= d);
    }
    Some(acc as u64)
}

} // verus!
