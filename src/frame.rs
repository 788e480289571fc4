//! The marker frame: a fixed prefix, the encoded payload and a fixed suffix,
//! searched for in the trailing window of a file's bytes.

use vstd::prelude::*;
use vstd::utf8::encode_utf8;
use crate::cipher::{
    encode_spec, encode_text_impl, lemma_shift_inverse, shift_char, shift_spec, SHIFT,
};
use crate::numbering::push_text;
use crate::search::{
    find_bytes, find_from, lemma_find_from, lemma_last_match, occurs_at, rfind_from,
};

verus! {

/// Size of the trailing window that detection and extraction inspect.
pub const TAIL_SCAN_SIZE: usize = 100;

/// The frame's opening sentinel, `<<==`.
pub open spec fn prefix_seq() -> Seq<u8> {
    seq![60u8, 60u8, 61u8, 61u8]
}

/// The frame's closing sentinel, `==>>`.
pub open spec fn suffix_seq() -> Seq<u8> {
    seq![61u8, 61u8, 62u8, 62u8]
}

/// The opening sentinel of the older format, `*/`, which has no terminator.
pub open spec fn legacy_seq() -> Seq<u8> {
    seq![42u8, 47u8]
}

pub fn prefix_bytes() -> (r: Vec<u8>)
    ensures
        r@ == prefix_seq(),
{
    let r = vec![60u8, 60u8, 61u8, 61u8];
    assert(r@ =~= prefix_seq());
    r
}

pub fn suffix_bytes() -> (r: Vec<u8>)
    ensures
        r@ == suffix_seq(),
{
    let r = vec![61u8, 61u8, 62u8, 62u8];
    assert(r@ =~= suffix_seq());
    r
}

pub fn legacy_bytes() -> (r: Vec<u8>)
    ensures
        r@ == legacy_seq(),
{
    let r = vec![42u8, 47u8];
    assert(r@ =~= legacy_seq());
    r
}

/// The cipher applied to one byte: ASCII bytes are shifted as characters,
/// all other bytes (those of multi-byte UTF-8 sequences) are kept.
pub open spec fn byte_shift(b: u8, k: int) -> u8 {
    if b < 128 {
        shift_spec(b as char, k) as u8
    } else {
        b
    }
}

pub open spec fn shift_bytes(s: Seq<u8>, k: int) -> Seq<u8> {
    s.map_values(|b: u8| byte_shift(b, k))
}

/// The complete frame around a payload given as bytes.
pub open spec fn frame_of(p: Seq<u8>) -> Seq<u8> {
    prefix_seq() + shift_bytes(p, SHIFT as int) + suffix_seq()
}

/// Where the frame sits in `d`: the rightmost prefix, and the first suffix
/// that starts after that prefix ends.
pub open spec fn frame_bounds(d: Seq<u8>) -> Option<(int, int)> {
    match rfind_from(d, prefix_seq(), 0) {
        Some(s) => match find_from(d, suffix_seq(), s + 4) {
            Some(e) => Some((s, e)),
            None => None,
        },
        None => None,
    }
}

pub proof fn lemma_frame_bounds(d: Seq<u8>)
    ensures
        match frame_bounds(d) {
            Some((s, e)) => 0 <= s && s + 4 <= e && e + 4 <= d.len() && occurs_at(
                d,
                prefix_seq(),
                s,
            ) && occurs_at(d, suffix_seq(), e),
            None => true,
        },
{
    lemma_last_match(d, prefix_seq(), 0, d.len() - prefix_seq().len());
    if let Some(s) = rfind_from(d, prefix_seq(), 0) {
        lemma_find_from(d, suffix_seq(), s + 4);
    }
}

pub proof fn lemma_byte_shift_inverse(b: u8, k: int)
    ensures
        byte_shift(b, k) < 128 <==> b < 128,
        byte_shift(byte_shift(b, k), -k) == b,
{
    if b < 128 {
        lemma_shift_inverse(b as char, k);
    }
}

fn shift_byte(b: u8, shift: i32) -> (r: u8)
    ensures
        r == byte_shift(b, shift as int),
{
    if b < 128 {
        let c = shift_char(b as char, shift);
        c as u8
    } else {
        b
    }
}

/// Applies the cipher to every byte of `s`.
pub fn shift_byte_slice(s: &[u8], shift: i32) -> (r: Vec<u8>)
    ensures
        r@ == shift_bytes(s@, shift as int),
{
    let mut out: Vec<u8> = Vec::new();
    let mut i: usize = 0;
    while i < s.len()
        invariant
            i <= s.len(),
            out@ == shift_bytes(s@.subrange(0, i as int), shift as int),
        decreases s.len() - i,
    {
        out.push(shift_byte(s[i], shift));
        proof {
            assert(s@.subrange(0, i + 1) == s@.subrange(0, i as int).push(s@[i as int]));
        }
        i = i + 1;
    }
    proof {
        assert(s@.subrange(0, s@.len() as int) == s@);
    }
    out
}

/// Copies `d[a..b]`.
pub fn copy_range(d: &[u8], a: usize, b: usize) -> (r: Vec<u8>)
    requires
        a <= b <= d.len(),
    ensures
        r@ == d@.subrange(a as int, b as int),
{
    let mut out: Vec<u8> = Vec::new();
    let mut i: usize = a;
    while i < b
        invariant
            a <= i <= b <= d.len(),
            out@ == d@.subrange(a as int, i as int),
        decreases b - i,
    {
        out.push(d[i]);
        proof {
            assert(d@.subrange(a as int, i + 1) == d@.subrange(a as int, i as int).push(
                d@[i as int],
            ));
        }
        i = i + 1;
    }
    out
}

/// Appends all of `s` to `v`.
pub fn append_bytes(v: &mut Vec<u8>, s: &[u8])
    ensures
        final(v)@ == old(v)@ + s@,
{
    let mut i: usize = 0;
    while i < s.len()
        invariant
            i <= s.len(),
            v@ == old(v)@ + s@.subrange(0, i as int),
        decreases s.len() - i,
    {
        v.push(s[i]);
        proof {
            assert(s@.subrange(0, i + 1) == s@.subrange(0, i as int).push(s@[i as int]));
        }
        i = i + 1;
    }
    proof {
        assert(s@.subrange(0, s@.len() as int) == s@);
    }
}

/// The frame around the UTF-8 bytes of `text`.
pub fn frame_bytes(text: &str) -> (r: Vec<u8>)
    ensures
        r@ == frame_of(encode_utf8(text@)),
{
    let mut out = prefix_bytes();
    let enc = shift_byte_slice(text.as_bytes(), SHIFT);
    append_bytes(&mut out, enc.as_slice());
    let suf = suffix_bytes();
    append_bytes(&mut out, suf.as_slice());
    out
}

/// Locates the frame in `data`: the rightmost prefix, then the first suffix
/// after it. Gives the prefix's start, the suffix's start and, when
/// `include_content` holds, the bytes between prefix and suffix.
pub fn find_watermark(data: &[u8], include_content: bool) -> (r: Option<
    (usize, usize, Option<Vec<u8>>),
>)
    ensures
        match frame_bounds(data@) {
            Some((s, e)) => match r {
                Some((s2, e2, c)) => s2 == s && e2 == e && match c {
                    Some(v) => include_content && v@ == data@.subrange(s + 4, e),
                    None => !include_content,
                },
                None => false,
            },
            None => r is None,
        },
{
    let pre = prefix_bytes();
    let suf = suffix_bytes();
    proof {
        lemma_frame_bounds(data@);
        lemma_last_match(data@, prefix_seq(), 0, data@.len() - prefix_seq().len());
        assert(prefix_seq().len() == 4);
    }
    let start = match find_bytes(data, pre.as_slice(), 0, true) {
        Some(s) => s,
        None => return None,
    };
    assert(rfind_from(data@, prefix_seq(), 0) == Some(start as int));
    assert(occurs_at(data@, prefix_seq(), start as int));
    assert(prefix_seq().len() == 4);
    assert(start + 4 <= data@.len());
    assert(data@.len() == data.len());
    let end = match find_bytes(data, suf.as_slice(), start + 4, false) {
        Some(e) => e,
        None => return None,
    };
    let content = if include_content {
        Some(copy_range(data, start + 4, end))
    } else {
        None
    };
    Some((start, end, content))
}

/// The frame around `text` as a standalone string: the prefix, the encoded
/// text and the suffix.
pub fn add_watermark_marker(text: &str) -> (r: String)
    ensures
        r@ == seq!['<', '<', '=', '='] + encode_spec(text@) + seq!['=', '=', '>', '>'],
{
    let mut r = String::new();
    push_text(&mut r, "<<==");
    let enc = encode_text_impl(text);
    push_text(&mut r, enc.as_str());
    push_text(&mut r, "==>>");
    proof {
        reveal_strlit("<<==");
        reveal_strlit("==>>");
        assert(r@ =~= seq!['<', '<', '=', '='] + encode_spec(text@) + seq!['=', '=', '>', '>']);
    }
    r
}

} // verus!
