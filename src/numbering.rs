//! Numbers in texts and file names, and the zero-padded labels of copies.

use vstd::prelude::*;
use crate::cipher::push_char;
use crate::text::{trim_of, trim_text};

verus! {

pub open spec fn is_digit(c: char) -> bool {
    '0' <= c && c <= '9'
}

pub open spec fn all_digits(s: Seq<char>) -> bool {
    forall|i: int| 0 <= i < s.len() ==> is_digit(s[i])
}

/// The value of a run of decimal digits.
pub open spec fn digits_value(d: Seq<char>) -> int
    decreases d.len(),
{
    if d.len() == 0 {
        0
    } else {
        digits_value(d.drop_last()) * 10 + (d.last() as int - '0' as int)
    }
}

/// Where the trailing run of ASCII digits of `s` starts.
pub open spec fn digit_run_start(s: Seq<char>) -> int
    decreases s.len(),
{
    if s.len() > 0 && is_digit(s.last()) {
        digit_run_start(s.drop_last())
    } else {
        s.len() as int
    }
}

/// The number that a text ends with; 1 when it ends with no digit or with a
/// number too large for an `i32`.
pub open spec fn trailing_number_spec(s: Seq<char>) -> int {
    let d = s.subrange(digit_run_start(s), s.len() as int);
    if d.len() == 0 || digits_value(d) > i32::MAX {
        1
    } else {
        digits_value(d)
    }
}

/// The text without its trailing digits, trimmed.
pub open spec fn base_without_number_spec(s: Seq<char>) -> Seq<char> {
    trim_of(s.subrange(0, digit_run_start(s)))
}

/// A run of ASCII digits read as an `i32`, as `str::parse` reads it.
pub open spec fn parse_digits_spec(s: Seq<char>) -> Option<int> {
    if s.len() > 0 && all_digits(s) && digits_value(s) <= i32::MAX {
        Some(digits_value(s))
    } else {
        None
    }
}

pub open spec fn digit_char(d: int) -> char {
    (d + '0' as int) as char
}

/// The decimal form of `n`, without leading zeros.
pub open spec fn decimal(n: nat) -> Seq<char>
    decreases n,
{
    if n < 10 {
        seq![digit_char(n as int)]
    } else {
        decimal(n / 10).push(digit_char((n % 10) as int))
    }
}

/// The decimal form of `n`, padded with zeros to at least three digits.
pub open spec fn label_spec(n: nat) -> Seq<char> {
    let d = decimal(n);
    if d.len() < 3 {
        Seq::new((3 - d.len()) as nat, |i: int| '0') + d
    } else {
        d
    }
}

pub proof fn lemma_run_start_bounds(s: Seq<char>)
    ensures
        0 <= digit_run_start(s) <= s.len(),
        all_digits(s.subrange(digit_run_start(s), s.len() as int)),
    decreases s.len(),
{
    if s.len() > 0 && is_digit(s.last()) {
        lemma_run_start_bounds(s.drop_last());
        let k = digit_run_start(s);
        assert forall|i: int| 0 <= i < s.len() - k implies is_digit(
            s.subrange(k, s.len() as int)[i],
        ) by {
            if k + i < s.len() - 1 {
                assert(s.subrange(k, s.len() as int)[i] == s.drop_last().subrange(
                    k,
                    s.len() - 1,
                )[i]);
            }
        }
    }
}

/// The number that a text ends with is never negative.
pub proof fn lemma_trailing_number_range(s: Seq<char>)
    ensures
        0 <= trailing_number_spec(s) <= i32::MAX,
{
    lemma_run_start_bounds(s);
    lemma_digits_value_nonneg(s.subrange(digit_run_start(s), s.len() as int));
}

proof fn lemma_digits_value_nonneg(d: Seq<char>)
    requires
        all_digits(d),
    ensures
        digits_value(d) >= 0,
    decreases d.len(),
{
    if d.len() > 0 {
        lemma_digits_value_nonneg(d.drop_last());
    }
}

/// A longer run of digits has no smaller value.
proof fn lemma_digits_value_grows(d: Seq<char>, k: int)
    requires
        all_digits(d),
        0 <= k <= d.len(),
    ensures
        digits_value(d.subrange(0, k)) <= digits_value(d),
    decreases d.len(),
{
    if k < d.len() {
        assert(d.drop_last().subrange(0, k) =~= d.subrange(0, k));
        assert(is_digit(d[d.len() - 1]));
        lemma_digits_value_grows(d.drop_last(), k);
        lemma_digits_value_nonneg(d.drop_last());
    } else {
        assert(d.subrange(0, k) =~= d);
    }
}

/// The value of the digits `s[from..to]`, when all are ASCII digits and the
/// value fits an `i32`.
fn digits_to_i32(s: &str, from: usize, to: usize) -> (r: Option<i32>)
    requires
        from <= to <= s@.len(),
    ensures
        match r {
            Some(v) => all_digits(s@.subrange(from as int, to as int)) && v == digits_value(
                s@.subrange(from as int, to as int),
            ),
            None => !all_digits(s@.subrange(from as int, to as int)) || digits_value(
                s@.subrange(from as int, to as int),
            ) > i32::MAX,
        },
{
    let mut v: i64 = 0;
    let mut i: usize = from;
    while i < to
        invariant
            from <= i <= to <= s@.len(),
            all_digits(s@.subrange(from as int, i as int)),
            v == digits_value(s@.subrange(from as int, i as int)),
            0 <= v <= i32::MAX,
        decreases to - i,
    {
        let c = s.get_char(i);
        proof {
            assert(s@.subrange(from as int, i + 1).drop_last() =~= s@.subrange(
                from as int,
                i as int,
            ));
        }
        if !('0' <= c && c <= '9') {
            proof {
                assert(s@.subrange(from as int, to as int)[i - from] == c);
            }
            return None;
        }
        v = v * 10 + ((c as u32) - 48) as i64;
        if v > 2147483647 {
            proof {
                let whole = s@.subrange(from as int, to as int);
                let k = i + 1 - from;
                assert(whole.subrange(0, k) =~= s@.subrange(from as int, i + 1));
                if all_digits(whole) {
                    lemma_digits_value_grows(whole, k);
                }
            }
            return None;
        }
        i = i + 1;
    }
    Some(v as i32)
}

fn digit_run_start_exec(text: &str) -> (r: usize)
    ensures
        r == digit_run_start(text@),
{
    let n = text.unicode_len();
    let mut start: usize = n;
    assert(text@.subrange(0, n as int) =~= text@);
    loop
        invariant
            start <= n == text@.len(),
            digit_run_start(text@) == digit_run_start(text@.subrange(0, start as int)),
        ensures
            digit_run_start(text@) == start,
        decreases start,
    {
        if start == 0 {
            assert(text@.subrange(0, 0).len() == 0);
            assert(digit_run_start(text@.subrange(0, start as int)) == start);
            break;
        }
        let c = text.get_char(start - 1);
        if !('0' <= c && c <= '9') {
            assert(text@.subrange(0, start as int).last() == c);
            assert(digit_run_start(text@.subrange(0, start as int)) == start);
            break;
        }
        proof {
            assert(text@.subrange(0, start as int).drop_last() =~= text@.subrange(
                0,
                start - 1,
            ));
        }
        start = start - 1;
    }
    start
}

/// The number that `text` ends with; 1 when it ends with no digit, or with a
/// number too large for an `i32`.
pub fn extract_trailing_number(text: &str) -> (r: i32)
    ensures
        r == trailing_number_spec(text@),
{
    let n = text.unicode_len();
    let start = digit_run_start_exec(text);
    proof {
        lemma_run_start_bounds(text@);
        assert(text@.subrange(0, n as int) =~= text@);
    }
    if start == n {
        return 1;
    }
    match digits_to_i32(text, start, n) {
        Some(v) => v,
        None => 1,
    }
}

/// The text without its trailing ASCII digits, trimmed of whitespace.
pub fn base_text_without_number(text: &str) -> (r: String)
    ensures
        r@ == base_without_number_spec(text@),
{
    proof {
        lemma_run_start_bounds(text@);
    }
    let start = digit_run_start_exec(text);
    let head = text.substring_char(0, start);
    trim_text(head)
}

/// A run of ASCII digits read as an `i32`; `None` when the text is empty,
/// holds anything but ASCII digits, or is too large.
pub fn parse_digits(s: &str) -> (r: Option<i32>)
    ensures
        as_opt_int(r) == parse_digits_spec(s@),
{
    let n = s.unicode_len();
    if n == 0 {
        return None;
    }
    let r = digits_to_i32(s, 0, n);
    assert(s@.subrange(0, n as int) =~= s@);
    r
}

pub open spec fn as_opt_int(r: Option<i32>) -> Option<int> {
    match r {
        Some(v) => Some(v as int),
        None => None,
    }
}

/// The decimal form of `n`.
pub fn decimal_string(n: u64) -> (r: String)
    ensures
        r@ == decimal(n as nat),
    decreases n,
{
    let d = ((n % 10) as u8 + 48) as char;
    if n < 10 {
        let mut s = String::new();
        push_char(&mut s, d);
        assert(s@ =~= seq![digit_char(n as int)]);
        s
    } else {
        let mut s = decimal_string(n / 10);
        push_char(&mut s, d);
        s
    }
}

/// Appends the characters of `t` to `out`.
pub fn push_text(out: &mut String, t: &str)
    ensures
        final(out)@ == old(out)@ + t@,
{
    let n = t.unicode_len();
    let mut i: usize = 0;
    while i < n
        invariant
            n == t@.len(),
            i <= n,
            out@ == old(out)@ + t@.subrange(0, i as int),
        decreases n - i,
    {
        push_char(out, t.get_char(i));
        proof {
            assert(t@.subrange(0, i + 1) =~= t@.subrange(0, i as int).push(t@[i as int]));
        }
        i = i + 1;
    }
    assert(t@.subrange(0, n as int) =~= t@);
}

proof fn lemma_decimal_len(n: nat)
    ensures
        decimal(n).len() >= 1,
        n < 10 ==> decimal(n).len() == 1,
        10 <= n < 100 ==> decimal(n).len() == 2,
        100 <= n ==> decimal(n).len() >= 3,
    decreases n,
{
    if n >= 10 {
        lemma_decimal_len(n / 10);
    }
}

/// The label of a copy: its order number in decimal, padded with zeros to
/// three digits.
pub fn order_label(order: i32) -> (r: String)
    requires
        order >= 0,
    ensures
        r@ == label_spec(order as nat),
{
    let mut s = String::new();
    if order < 10 {
        push_char(&mut s, '0');
        push_char(&mut s, '0');
    } else if order < 100 {
        push_char(&mut s, '0');
    }
    let d = decimal_string(order as u64);
    push_text(&mut s, d.as_str());
    proof {
        lemma_decimal_len(order as nat);
        assert(s@ =~= label_spec(order as nat));
    }
    s
}

/// The payload that marks the files of one copy: the base text, a space and
/// the copy's label.
pub fn copy_payload(base: &str, label: &str) -> (r: String)
    ensures
        r@ == base@ + seq![' '] + label@,
{
    let mut s = String::new();
    push_text(&mut s, base);
    push_char(&mut s, ' ');
    push_text(&mut s, label);
    proof {
        assert(s@ =~= base@ + seq![' '] + label@);
    }
    s
}

} // verus!
