//! The shapes of condition parameters: times of day, durations and
//! probabilities.

use vstd::prelude::*;
use crate::model::ids::{lemma_first_index_from, spec_split_once, split_once};
use crate::text::{all_digits, ascii_ws, is_ascii_ws, is_digit};

verus! {

/// `t` without its leading ASCII whitespace.
pub open spec fn trim_start(t: Seq<u8>) -> Seq<u8>
    decreases t.len(),
{
    if t.len() > 0 && is_ascii_ws(t[0]) {
        trim_start(t.drop_first())
    } else {
        t
    }
}

/// `t` without its trailing ASCII whitespace.
pub open spec fn trim_end(t: Seq<u8>) -> Seq<u8>
    decreases t.len(),
{
    if t.len() > 0 && is_ascii_ws(t.last()) {
        trim_end(t.drop_last())
    } else {
        t
    }
}

/// `<[u8]>::trim_ascii`: leading and trailing ASCII whitespace removed.
pub open spec fn trim_ascii(t: Seq<u8>) -> Seq<u8> {
    trim_end(trim_start(t))
}

/// Removes leading and trailing ASCII whitespace.
pub fn trim(text: &[u8]) -> (r: &[u8])
    ensures
        r@ == trim_ascii(text@),
{
    let n = text.len();
    let mut a: usize = 0;
    assert(text@.subrange(0, n as int) =~= text@);
    while a < n && ascii_ws(text[a])
        invariant
            n == text@.len(),
            a <= n,
            trim_start(text@) == trim_start(text@.subrange(a as int, n as int)),
        decreases n - a,
    {
        assert(text@.subrange(a as int, n as int).drop_first() =~= text@.subrange(a + 1, n as int));
        a = a + 1;
    }
    let mut b: usize = n;
    while b > a && ascii_ws(text[b - 1])
        invariant
            n == text@.len(),
            a <= b <= n,
            trim_ascii(text@) == trim_end(text@.subrange(a as int, b as int)),
        decreases b - a,
    {
        assert(text@.subrange(a as int, b as int).drop_last() =~= text@.subrange(a as int, b - 1));
        b = b - 1;
    }
    let r = &text[a..b];
    assert(r@ =~= text@.subrange(a as int, b as int));
    r
}

/// Both halves of a split are shorter than the whole.
pub proof fn lemma_split_once_shorter(t: Seq<u8>, sep: u8)
    ensures
        spec_split_once(t, sep) matches Some((a, b)) ==> a.len() < t.len() && b.len() < t.len(),
{
    lemma_first_index_from(t, sep, 0);
}

/// The pieces of `t` between its `:` bytes.
pub open spec fn colon_parts(t: Seq<u8>) -> Seq<Seq<u8>>
    decreases t.len(),
{
    match spec_split_once(t, 58u8) {
        Some((a, b)) => {
            proof {
                lemma_split_once_shorter(t, 58u8);
            }
            seq![a] + colon_parts(b)
        },
        None => seq![t],
    }
}

/// One or two decimal digits.
pub open spec fn time_field(p: Seq<u8>) -> bool {
    1 <= p.len() <= 2 && all_digits(p)
}

/// `HH:MM[:SS]` with each part one or two digits.
pub open spec fn is_time_of_day(t: Seq<u8>) -> bool {
    let parts = colon_parts(t);
    &&& 2 <= parts.len() <= 3
    &&& forall|k: int| 0 <= k < parts.len() ==> time_field(#[trigger] parts[k])
}

/// `HH:MM[:SS][-HH:MM[:SS]]`, surrounding whitespace allowed.
pub open spec fn is_time_range(text: Seq<u8>) -> bool {
    let t = trim_ascii(text);
    match spec_split_once(t, 45u8) {
        None => is_time_of_day(t),
        Some((start, end)) => is_time_of_day(start) && is_time_of_day(end),
    }
}

/// `HH:MM:SS`, `HH:MM`, or up to ten digits of seconds, surrounding
/// whitespace allowed.
pub open spec fn is_duration(text: Seq<u8>) -> bool {
    let t = trim_ascii(text);
    (1 <= t.len() <= 10 && all_digits(t)) || is_time_of_day(t)
}

/// Every byte is `0`.
pub open spec fn all_zeros(s: Seq<u8>) -> bool {
    forall|i: int| 0 <= i < s.len() ==> #[trigger] s[i] == 48
}

/// The digits before the decimal point.
pub open spec fn integer_part(t: Seq<u8>) -> Seq<u8> {
    match spec_split_once(t, 46u8) {
        Some((a, _)) => a,
        None => t,
    }
}

/// The digits after the decimal point.
pub open spec fn fraction_part(t: Seq<u8>) -> Seq<u8> {
    match spec_split_once(t, 46u8) {
        Some((_, b)) => b,
        None => Seq::empty(),
    }
}

/// A decimal number `digits[.digits]`, with at least one digit on either
/// side of the point, whose value lies in `[0, 1]`.
pub open spec fn is_unit_decimal(t: Seq<u8>) -> bool {
    let i = integer_part(t);
    let f = fraction_part(t);
    &&& all_digits(i)
    &&& all_digits(f)
    &&& i.len() + f.len() >= 1
    &&& (all_zeros(i) || (i.len() >= 1 && i.last() == 49 && all_zeros(i.drop_last()) && all_zeros(f)))
}

/// A decimal number in `[0, 1]`, at most 32 bytes, surrounding whitespace
/// allowed.
pub open spec fn is_probability(text: Seq<u8>) -> bool {
    let t = trim_ascii(text);
    t.len() <= 32 && is_unit_decimal(t)
}

/// Every byte is a decimal digit.
pub fn digits(p: &[u8]) -> (r: bool)
    ensures
        r == all_digits(p@),
{
    let mut i: usize = 0;
    while i < p.len()
        invariant
            i <= p@.len(),
            forall|j: int| 0 <= j < i ==> is_digit(p@[j]),
        decreases p@.len() - i,
    {
        if !(48 <= p[i] && p[i] <= 57) {
            assert(!is_digit(p@[i as int]));
            return false;
        }
        i = i + 1;
    }
    true
}

fn zeros(p: &[u8]) -> (r: bool)
    ensures
        r == all_zeros(p@),
{
    let mut i: usize = 0;
    while i < p.len()
        invariant
            i <= p@.len(),
            forall|j: int| 0 <= j < i ==> p@[j] == 48,
        decreases p@.len() - i,
    {
        if p[i] != 48 {
            return false;
        }
        i = i + 1;
    }
    true
}

fn time_field_exec(p: &[u8]) -> (r: bool)
    ensures
        r == time_field(p@),
{
    1 <= p.len() && p.len() <= 2 && digits(p)
}

/// `HH:MM[:SS]` with each part one or two digits.
pub fn time_of_day(text: &[u8]) -> (r: bool)
    ensures
        r == is_time_of_day(text@),
{
    let mut rest = text;
    let mut count: usize = 0;
    let ghost mut done: Seq<Seq<u8>> = Seq::empty();
    loop
        invariant
            count == done.len(),
            count <= 2,
            colon_parts(text@) == done + colon_parts(rest@),
            forall|k: int| 0 <= k < done.len() ==> time_field(#[trigger] done[k]),
        decreases rest@.len(),
    {
        proof {
            lemma_split_once_shorter(rest@, 58u8);
        }
        match split_once(rest, 58) {
            Some((a, b)) => {
                let ghost parts = colon_parts(text@);
                assert(colon_parts(rest@) == seq![a@] + colon_parts(b@));
                if !time_field_exec(a) {
                    assert(parts[count as int] == a@);
                    return false;
                }
                if count == 2 {
                    assert(colon_parts(b@).len() >= 1);
                    return false;
                }
                proof {
                    assert(done + colon_parts(rest@) =~= done.push(a@) + colon_parts(b@));
                    done = done.push(a@);
                }
                count = count + 1;
                rest = b;
            },
            None => {
                let ghost parts = colon_parts(text@);
                assert(parts =~= done.push(rest@));
                let ok = time_field_exec(rest);
                if !ok {
                    assert(parts[count as int] == rest@);
                }
                return count >= 1 && ok;
            },
        }
    }
}

/// `HH:MM[:SS][-HH:MM[:SS]]`.
pub fn time_range(text: &[u8]) -> (r: bool)
    ensures
        r == is_time_range(text@),
{
    let t = trim(text);
    match split_once(t, 45) {
        None => time_of_day(t),
        Some((start, end)) => time_of_day(start) && time_of_day(end),
    }
}

/// `HH:MM:SS`, `HH:MM`, or `SS` (any number of seconds up to ten digits).
pub fn duration(text: &[u8]) -> (r: bool)
    ensures
        r == is_duration(text@),
{
    let t = trim(text);
    if 1 <= t.len() && t.len() <= 10 && digits(t) {
        return true;
    }
    time_of_day(t)
}

/// A decimal number in `[0, 1]`.
pub fn probability(text: &[u8]) -> (r: bool)
    ensures
        r == is_probability(text@),
{
    let t = trim(text);
    if t.len() > 32 {
        return false;
    }
    let (i, f): (&[u8], &[u8]) = match split_once(t, 46) {
        Some((a, b)) => (a, b),
        None => (t, &t[0..0]),
    };
    assert(i@ == integer_part(t@));
    assert(f@ =~= fraction_part(t@));
    if !digits(i) || !digits(f) || (i.len() == 0 && f.len() == 0) {
        return false;
    }
    if zeros(i) {
        return true;
    }
    let n = i.len();
    if n >= 1 && i[n - 1] == 49 {
        assert(i@.subrange(0, n - 1) =~= i@.drop_last());
        return zeros(&i[0..n - 1]) && zeros(f);
    }
    false
}

} // verus!
