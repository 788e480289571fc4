//! Reversible substitution over ASCII letters and digits.

use vstd::prelude::*;

verus! {

/// The amount by which text is shifted when it is encoded.
pub const SHIFT: i32 = 7;

/// Rotates `idx` by `k` positions within an alphabet of `m` symbols.
pub open spec fn rotate(idx: int, k: int, m: int) -> int {
    (idx + k) % m
}

/// The substitution applied to one character.
pub open spec fn shift_spec(c: char, k: int) -> char {
    if 'A' <= c && c <= 'Z' {
        (rotate(c as int - 'A' as int, k, 26) + 'A' as int) as char
    } else if 'a' <= c && c <= 'z' {
        (rotate(c as int - 'a' as int, k, 26) + 'a' as int) as char
    } else if '0' <= c && c <= '9' {
        (rotate(c as int - '0' as int, k, 10) + '0' as int) as char
    } else {
        c
    }
}

/// The substitution applied to every character of a text.
pub open spec fn shift_text(s: Seq<char>, k: int) -> Seq<char> {
    s.map_values(|c: char| shift_spec(c, k))
}

pub open spec fn encode_spec(s: Seq<char>) -> Seq<char> {
    shift_text(s, SHIFT as int)
}

pub open spec fn decode_spec(s: Seq<char>) -> Seq<char> {
    shift_text(s, -(SHIFT as int))
}

fn rotate_index(idx: u32, shift: i32, m: u32) -> (r: u32)
    requires
        idx < m,
        0 < m <= 26,
    ensures
        r as int == rotate(idx as int, shift as int, m as int),
        r < m,
{
    let big: i64 = (m as i64) * 2147483648i64;
    let t: i64 = idx as i64 + shift as i64 + big;
    let r = ((t as u64) % (m as u64)) as u32;
    proof {
        let mi = m as int;
        vstd::arithmetic::div_mod::lemma_mod_multiples_vanish(
            2147483648int,
            idx as int + shift as int,
            mi,
        );
        assert(mi * 2147483648int == big as int) by (nonlinear_arith)
            requires big as int == mi * 2147483648int;
    }
    r
}

/// Shifts an ASCII letter within its case (modulo 26) and a digit within the
/// digits (modulo 10) by `shift` positions; every other character is returned
/// unchanged.
pub fn shift_char(c: char, shift: i32) -> (r: char)
    ensures
        r == shift_spec(c, shift as int),
{
    if 'A' <= c && c <= 'Z' {
        let idx = (c as u32) - 65;
        let v = rotate_index(idx, shift, 26);
        ((v + 65) as u8) as char
    } else if 'a' <= c && c <= 'z' {
        let idx = (c as u32) - 97;
        let v = rotate_index(idx, shift, 26);
        ((v + 97) as u8) as char
    } else if '0' <= c && c <= '9' {
        let idx = (c as u32) - 48;
        let v = rotate_index(idx, shift, 10);
        ((v + 48) as u8) as char
    } else {
        c
    }
}

/// Relies on `String::push`: the character is added at the end.
#[verifier::external_body]
pub(crate) fn push_char(s: &mut String, c: char)
    ensures
        final(s)@ == old(s)@.push(c),
{
    s.push(c);
}

fn shift_str(input: &str, shift: i32) -> (r: String)
    ensures
        r@ == shift_text(input@, shift as int),
{
    let n = input.unicode_len();
    let mut out = String::new();
    let mut i: usize = 0;
    while i < n
        invariant
            n == input@.len(),
            i <= n,
            out@ == shift_text(input@.subrange(0, i as int), shift as int),
        decreases n - i,
    {
        let c = input.get_char(i);
        let d = shift_char(c, shift);
        push_char(&mut out, d);
        proof {
            assert(input@.subrange(0, i as int + 1) == input@.subrange(0, i as int).push(c));
        }
        i = i + 1;
    }
    proof {
        assert(input@.subrange(0, n as int) == input@);
    }
    out
}

/// Encodes a text by shifting each letter and digit forward.
pub fn encode_text_impl(input: &str) -> (r: String)
    ensures
        r@ == encode_spec(input@),
{
    shift_str(input, SHIFT)
}

/// Decodes a text by shifting each letter and digit back.
pub fn decode_text_impl(input: &str) -> (r: String)
    ensures
        r@ == decode_spec(input@),
{
    shift_str(input, -SHIFT)
}

pub fn encode_text(text: &str) -> (r: String)
    ensures
        r@ == encode_spec(text@),
{
    encode_text_impl(text)
}

pub fn decode_text(text: &str) -> (r: String)
    ensures
        r@ == decode_spec(text@),
{
    decode_text_impl(text)
}

proof fn lemma_rotate_back(idx: int, k: int, m: int)
    requires
        0 <= idx < m,
    ensures
        0 <= rotate(idx, k, m) < m,
        rotate(rotate(idx, k, m), -k, m) == idx,
{
    let q = (idx + k) / m;
    vstd::arithmetic::div_mod::lemma_fundamental_div_mod(idx + k, m);
    vstd::arithmetic::div_mod::lemma_mod_bound(idx + k, m);
    assert(rotate(idx, k, m) + -k == m * (-q) + idx) by (nonlinear_arith)
        requires
            rotate(idx, k, m) == idx + k - m * q,
    ;
    vstd::arithmetic::div_mod::lemma_mod_multiples_vanish(-q, idx, m);
    vstd::arithmetic::div_mod::lemma_small_mod(idx as nat, m as nat);
}

/// Shifting a character by `k` and then by `-k` gives the character back.
pub proof fn lemma_shift_inverse(c: char, k: int)
    ensures
        shift_spec(shift_spec(c, k), -k) == c,
{
    if 'A' <= c && c <= 'Z' {
        lemma_rotate_back(c as int - 'A' as int, k, 26);
    } else if 'a' <= c && c <= 'z' {
        lemma_rotate_back(c as int - 'a' as int, k, 26);
    } else if '0' <= c && c <= '9' {
        lemma_rotate_back(c as int - '0' as int, k, 10);
    }
}

/// Decoding an encoded text gives the text back, for every text.
pub proof fn lemma_decode_encode(s: Seq<char>)
    ensures
        decode_spec(encode_spec(s)) == s,
{
    assert forall|i: int| 0 <= i < s.len() implies decode_spec(encode_spec(s))[i] == s[i] by {
        lemma_shift_inverse(s[i], SHIFT as int);
    }
    assert(decode_spec(encode_spec(s)) =~= s);
}

} // verus!
