//! Per-file marker operations on a file's bytes: detection and extraction in
//! the trailing window, the bytes to append, and removal of every frame.

use vstd::prelude::*;
use vstd::utf8::{decode_utf8, encode_utf8, valid_utf8};
use crate::cipher::SHIFT;
use crate::frame::{
    append_bytes, copy_range, find_watermark, frame_bounds, frame_bytes, frame_of,
    lemma_frame_bounds, legacy_bytes, legacy_seq, prefix_bytes, prefix_seq, shift_byte_slice,
    shift_bytes, TAIL_SCAN_SIZE,
};
use crate::search::{
    find_bytes, occurs_at, occurs_in, rfind_from, lemma_find_from_is, lemma_last_match,
    lemma_last_match_is,
};
use crate::frame::{byte_shift, lemma_byte_shift_inverse, suffix_seq};
use crate::text::{lossy_of, text_from_bytes, trim_of, trim_text};

verus! {

/// Where the trailing window of a buffer of `n` bytes starts.
pub open spec fn tail_start_spec(n: int) -> int {
    if n > TAIL_SCAN_SIZE {
        n - TAIL_SCAN_SIZE
    } else {
        0
    }
}

/// The last `TAIL_SCAN_SIZE` bytes of `d`, or all of `d` when it is shorter.
pub open spec fn tail_window(d: Seq<u8>) -> Seq<u8> {
    d.subrange(tail_start_spec(d.len() as int), d.len() as int)
}

/// The window shows a marker: a prefix of either format occurs in it.
pub open spec fn shows_marker(w: Seq<u8>) -> bool {
    occurs_in(w, prefix_seq()) || occurs_in(w, legacy_seq())
}

/// The encoded payload found in the trailing window of `d`, and whether it
/// came from a legacy frame: a complete frame first, else everything after
/// the rightmost legacy prefix.
pub open spec fn tail_payload(d: Seq<u8>) -> Option<(Seq<u8>, bool)> {
    let w = tail_window(d);
    match frame_bounds(w) {
        Some((s, e)) => Some((w.subrange(s + 4, e), false)),
        None => match rfind_from(w, legacy_seq(), 0) {
            Some(l) => Some((w.subrange(l + 2, w.len() as int), true)),
            None => None,
        },
    }
}

/// Removes the frame that starts at `s` and whose suffix starts at `e`.
pub open spec fn excise(d: Seq<u8>, s: int, e: int) -> Seq<u8> {
    d.subrange(0, s) + d.subrange(e + 4, d.len() as int)
}

/// Removes well-formed frames, rightmost prefix first, until the rightmost
/// prefix has no suffix after it.
pub open spec fn strip_new_frames(d: Seq<u8>) -> Seq<u8>
    decreases d.len(),
{
    match frame_bounds(d) {
        Some((s, e)) => if excise(d, s, e).len() < d.len() {
            strip_new_frames(excise(d, s, e))
        } else {
            d
        },
        None => d,
    }
}

/// Frames removed, then everything from the rightmost legacy prefix on.
pub open spec fn strip_spec(d: Seq<u8>) -> Seq<u8> {
    let t = strip_new_frames(d);
    match rfind_from(t, legacy_seq(), 0) {
        Some(l) => t.subrange(0, l),
        None => t,
    }
}

pub proof fn lemma_rfind_iff(d: Seq<u8>, p: Seq<u8>)
    ensures
        rfind_from(d, p, 0) is Some <==> occurs_in(d, p),
{
    lemma_last_match(d, p, 0, d.len() - p.len());
    if let Some(k) = rfind_from(d, p, 0) {
        assert(occurs_at(d, p, k));
    }
}

/// Where the trailing window of a buffer of `len` bytes starts.
pub fn tail_start(len: usize) -> (r: usize)
    ensures
        r == tail_start_spec(len as int),
{
    if len > TAIL_SCAN_SIZE {
        len - TAIL_SCAN_SIZE
    } else {
        0
    }
}

fn tail_of(data: &[u8]) -> (r: Vec<u8>)
    ensures
        r@ == tail_window(data@),
{
    copy_range(data, tail_start(data.len()), data.len())
}

fn shows_marker_exec(w: &[u8]) -> (r: bool)
    ensures
        r == shows_marker(w@),
{
    let pre = prefix_bytes();
    let leg = legacy_bytes();
    let a = find_bytes(w, pre.as_slice(), 0, true);
    let b = find_bytes(w, leg.as_slice(), 0, true);
    proof {
        lemma_rfind_iff(w@, prefix_seq());
        lemma_rfind_iff(w@, legacy_seq());
    }
    a.is_some() || b.is_some()
}

/// Whether the trailing window of `data` holds a prefix of either format.
/// A prefix without its suffix counts too.
pub fn has_tail_watermark(data: &[u8]) -> (r: bool)
    ensures
        r == shows_marker(tail_window(data@)),
{
    let w = tail_of(data);
    shows_marker_exec(w.as_slice())
}

/// The payload of the marker in the trailing window of `data`, decoded: that
/// of a complete frame if there is one, else the trimmed text after the
/// rightmost legacy prefix.
pub fn extract_tail_watermark(data: &[u8]) -> (r: Option<String>)
    ensures
        match tail_payload(data@) {
            Some((p, legacy)) => match r {
                Some(t) => if legacy {
                    t@ == trim_of(lossy_of(shift_bytes(p, -SHIFT)))
                } else {
                    &&& t@ == lossy_of(shift_bytes(p, -SHIFT))
                    &&& valid_utf8(shift_bytes(p, -SHIFT)) ==> t@ == decode_utf8(
                        shift_bytes(p, -SHIFT),
                    )
                },
                None => false,
            },
            None => r is None,
        },
{
    let w = tail_of(data);
    if let Some((_, _, Some(content))) = find_watermark(w.as_slice(), true) {
        let plain = shift_byte_slice(content.as_slice(), -SHIFT);
        return Some(text_from_bytes(plain.as_slice()));
    }
    let leg = legacy_bytes();
    match find_bytes(w.as_slice(), leg.as_slice(), 0, true) {
        Some(l) => {
            proof {
                lemma_last_match(w@, legacy_seq(), 0, w@.len() - legacy_seq().len());
                assert(occurs_at(w@, legacy_seq(), l as int));
                assert(legacy_seq().len() == 2);
            }
            let content = copy_range(w.as_slice(), l + 2, w.len());
            let plain = shift_byte_slice(content.as_slice(), -SHIFT);
            let text = text_from_bytes(plain.as_slice());
            Some(trim_text(text.as_str()))
        },
        None => None,
    }
}

/// The bytes that marking `data` with `text` appends: the frame, unless the
/// trailing window already shows a marker, in which case nothing.
pub fn tail_watermark_addition(data: &[u8], text: &str) -> (r: Option<Vec<u8>>)
    ensures
        shows_marker(tail_window(data@)) ==> r is None,
        !shows_marker(tail_window(data@)) ==> (r matches Some(v) && v@ == frame_of(
            encode_utf8(text@),
        )),
{
    if has_tail_watermark(data) {
        None
    } else {
        Some(frame_bytes(text))
    }
}

/// The bytes that marking a file of a numbered copy appends. A video gets the
/// tail rule of `tail_watermark_addition`; any other file gets the frame unless
/// that exact frame already occurs anywhere in it.
pub fn copy_watermark_addition(data: &[u8], payload: &str, is_video: bool) -> (r: Option<Vec<u8>>)
    ensures
        is_video ==> (shows_marker(tail_window(data@)) <==> r is None),
        !is_video ==> (occurs_in(data@, frame_of(encode_utf8(payload@))) <==> r is None),
        r matches Some(v) ==> v@ == frame_of(encode_utf8(payload@)),
{
    if is_video {
        return tail_watermark_addition(data, payload);
    }
    let frame = frame_bytes(payload);
    let found = find_bytes(data, frame.as_slice(), 0, true);
    proof {
        lemma_rfind_iff(data@, frame@);
    }
    if found.is_some() {
        None
    } else {
        Some(frame)
    }
}

fn excise_vec(d: &Vec<u8>, s: usize, e: usize) -> (r: Vec<u8>)
    requires
        s <= e,
        e + 4 <= d.len(),
    ensures
        r@ == excise(d@, s as int, e as int),
{
    let mut out = copy_range(d.as_slice(), 0, s);
    let rest = copy_range(d.as_slice(), e + 4, d.len());
    append_bytes(&mut out, rest.as_slice());
    out
}

/// Removes every well-formed frame (rightmost first, stopping at a prefix
/// without a suffix after it), then cuts the content at the rightmost legacy
/// prefix. Also tells whether anything was removed.
pub fn strip_frames(content: &[u8]) -> (r: (Vec<u8>, bool))
    ensures
        r.0@ == strip_spec(content@),
        r.1 == (r.0@ != content@),
{
    let mut cur = copy_range(content, 0, content.len());
    let mut modified = false;
    assert(cur@ =~= content@);
    loop
        invariant
            strip_new_frames(cur@) == strip_new_frames(content@),
            modified ==> cur@.len() < content@.len(),
            !modified ==> cur@ == content@,
        ensures
            strip_new_frames(content@) == cur@,
            modified ==> cur@.len() < content@.len(),
            !modified ==> cur@ == content@,
        decreases cur@.len(),
    {
        match find_watermark(cur.as_slice(), false) {
            Some((s, e, _)) => {
                proof {
                    lemma_frame_bounds(cur@);
                }
                let next = excise_vec(&cur, s, e);
                cur = next;
                modified = true;
            },
            None => break,
        }
    }
    let leg = legacy_bytes();
    match find_bytes(cur.as_slice(), leg.as_slice(), 0, true) {
        Some(l) => {
            proof {
                lemma_last_match(cur@, legacy_seq(), 0, cur@.len() - legacy_seq().len());
                assert(occurs_at(cur@, legacy_seq(), l as int));
                assert(legacy_seq().len() == 2);
            }
            cur.truncate(l);
            modified = true;
        },
        None => {},
    }
    (cur, modified)
}

/// A byte of the sentinels: `<`, `=` or `>`.
pub open spec fn sentinel_byte(b: u8) -> bool {
    b == 60 || b == 61 || b == 62
}

proof fn lemma_byte_shift_sentinel(b: u8, k: int)
    ensures
        sentinel_byte(byte_shift(b, k)) <==> sentinel_byte(b),
        sentinel_byte(b) ==> byte_shift(b, k) == b,
{
    vstd::arithmetic::div_mod::lemma_mod_bound(b as int - 65 + k, 26);
    vstd::arithmetic::div_mod::lemma_mod_bound(b as int - 97 + k, 26);
    vstd::arithmetic::div_mod::lemma_mod_bound(b as int - 48 + k, 10);
}

proof fn lemma_occurs_append(a: Seq<u8>, b: Seq<u8>, pat: Seq<u8>, j: int)
    requires
        0 <= j,
    ensures
        occurs_at(a + b, pat, j + a.len()) == occurs_at(b, pat, j),
{
    if j + pat.len() <= b.len() {
        assert((a + b).subrange(j + a.len(), j + a.len() + pat.len()) =~= b.subrange(
            j,
            j + pat.len(),
        ));
    }
}

proof fn lemma_occurs_agree(x: Seq<u8>, y: Seq<u8>, pat: Seq<u8>, j: int)
    requires
        x.len() == y.len(),
        forall|i: int|
            0 <= i < x.len() && (sentinel_byte(x[i]) || sentinel_byte(y[i])) ==> x[i] == y[i],
        forall|t: int| 0 <= t < pat.len() ==> sentinel_byte(pat[t]),
    ensures
        occurs_at(x, pat, j) == occurs_at(y, pat, j),
{
    if occurs_at(x, pat, j) {
        assert forall|t: int| 0 <= t < pat.len() implies y[j + t] == pat[t] by {
            assert(x.subrange(j, j + pat.len())[t] == pat[t]);
        }
        assert(y.subrange(j, j + pat.len()) =~= pat);
    }
    if occurs_at(y, pat, j) {
        assert forall|t: int| 0 <= t < pat.len() implies x[j + t] == pat[t] by {
            assert(y.subrange(j, j + pat.len())[t] == pat[t]);
        }
        assert(x.subrange(j, j + pat.len()) =~= pat);
    }
}

/// A frame appended to any content is the one found: its prefix is the
/// rightmost and its suffix the first after it, provided the payload, followed
/// by the suffix, shows no prefix and the payload shows no suffix.
pub proof fn lemma_frame_found(a: Seq<u8>, p: Seq<u8>)
    requires
        !occurs_in(p + suffix_seq(), prefix_seq()),
        !occurs_in(p, suffix_seq()),
    ensures
        frame_bounds(a + frame_of(p)) == Some((a.len() as int, (a.len() + 4 + p.len()) as int)),
{
    let q = shift_bytes(p, SHIFT as int);
    let f = frame_of(p);
    let d = a + f;
    let x = q + suffix_seq();
    let y = p + suffix_seq();
    let s0 = a.len() as int;
    let e0 = (a.len() + 4 + p.len()) as int;
    assert(f =~= prefix_seq() + x);
    assert forall|i: int|
        0 <= i < x.len() && (sentinel_byte(x[i]) || sentinel_byte(y[i])) implies x[i] == y[i] by {
        if i < p.len() {
            lemma_byte_shift_sentinel(p[i], SHIFT as int);
        }
    }
    assert forall|t: int| 0 <= t < 4 implies sentinel_byte(#[trigger] prefix_seq()[t])
        && sentinel_byte(suffix_seq()[t]) by {}
    // The prefix at the frame's start is the rightmost one.
    assert(d.subrange(s0, s0 + 4) =~= prefix_seq());
    assert forall|j: int| s0 < j <= d.len() - 4 implies !occurs_at(d, prefix_seq(), j) by {
        let i = j - s0;
        lemma_occurs_append(a, f, prefix_seq(), i);
        if i < 4 {
            if occurs_at(f, prefix_seq(), i) {
                assert(f.subrange(i, i + 4)[1] == prefix_seq()[1]);
                assert(f.subrange(i, i + 4)[0] == prefix_seq()[0]);
            }
        } else {
            lemma_occurs_append(prefix_seq(), x, prefix_seq(), i - 4);
            lemma_occurs_agree(x, y, prefix_seq(), i - 4);
        }
    }
    lemma_last_match_is(d, prefix_seq(), 0, d.len() - 4, s0);
    // The suffix at the frame's end is the first one after the prefix.
    assert(d.subrange(e0, e0 + 4) =~= suffix_seq());
    assert forall|j: int| s0 + 4 <= j < e0 implies !occurs_at(d, suffix_seq(), j) by {
        let t = j - s0 - 4;
        lemma_occurs_append(a, f, suffix_seq(), j - s0);
        lemma_occurs_append(prefix_seq(), x, suffix_seq(), t);
        lemma_occurs_agree(x, y, suffix_seq(), t);
        if occurs_at(y, suffix_seq(), t) {
            if t + 4 <= p.len() {
                assert(p.subrange(t, t + 4) =~= y.subrange(t, t + 4));
                assert(occurs_at(p, suffix_seq(), t));
            } else if t == p.len() - 1 {
                assert(y.subrange(t, t + 4)[2] == suffix_seq()[2]);
            } else if t == p.len() - 2 {
                assert(y.subrange(t, t + 4)[2] == suffix_seq()[2]);
            } else {
                assert(y.subrange(t, t + 4)[3] == suffix_seq()[3]);
            }
        }
    }
    lemma_find_from_is(d, suffix_seq(), s0 + 4, e0);
}

/// Extraction after appending recovers the payload: once the frame of a
/// payload `p` is appended to any content, the trailing window yields `p`'s
/// encoding, which decodes to `p`. This holds when the frame fits in the
/// window, the payload followed by the suffix shows no prefix, and the
/// payload shows no suffix.
pub proof fn lemma_extract_after_append(data: Seq<u8>, p: Seq<u8>)
    requires
        !occurs_in(p + suffix_seq(), prefix_seq()),
        !occurs_in(p, suffix_seq()),
        p.len() + 8 <= TAIL_SCAN_SIZE,
    ensures
        tail_payload(data + frame_of(p)) == Some((shift_bytes(p, SHIFT as int), false)),
        shift_bytes(shift_bytes(p, SHIFT as int), -SHIFT) == p,
{
    let f = frame_of(p);
    let d = data + f;
    let st = tail_start_spec(d.len() as int);
    let a = data.subrange(st, data.len() as int);
    assert(tail_window(d) =~= a + f);
    lemma_frame_found(a, p);
    assert((a + f).subrange(a.len() + 4int, a.len() + 4 + p.len() as int) =~= shift_bytes(p, SHIFT as int));
    assert forall|i: int| 0 <= i < p.len() implies shift_bytes(shift_bytes(p, SHIFT as int), -SHIFT)[i]
        == p[i] by {
        lemma_byte_shift_inverse(p[i], SHIFT as int);
    }
    assert(shift_bytes(shift_bytes(p, SHIFT as int), -SHIFT) =~= p);
}

/// Marking twice appends once: after the frame of a text whose UTF-8 form
/// fits the window with its sentinels is appended, the trailing window shows
/// a marker, so a second marking appends nothing.
pub proof fn lemma_tail_mark_once(data: Seq<u8>, text: Seq<char>)
    requires
        encode_utf8(text).len() + 8 <= TAIL_SCAN_SIZE,
    ensures
        shows_marker(tail_window(data + frame_of(encode_utf8(text)))),
{
    let f = frame_of(encode_utf8(text));
    let d = data + f;
    let w = tail_window(d);
    let k = w.len() - f.len();
    assert(w.subrange(k, k + 4) =~= prefix_seq());
    assert(occurs_at(w, prefix_seq(), k));
}

/// Marking a file of a copy twice appends once: after the frame is appended,
/// it occurs in the content, so a second marking appends nothing.
pub proof fn lemma_copy_mark_once(data: Seq<u8>, payload: Seq<char>)
    ensures
        occurs_in(data + frame_of(encode_utf8(payload)), frame_of(encode_utf8(payload))),
{
    let f = frame_of(encode_utf8(payload));
    assert((data + f).subrange(data.len() as int, (data.len() + f.len()) as int) =~= f);
    assert(occurs_at(data + f, f, data.len() as int));
}

/// Removing frames leaves no well-formed frame, and doing it again changes
/// nothing.
pub proof fn lemma_strip_new_frames_done(d: Seq<u8>)
    ensures
        frame_bounds(strip_new_frames(d)) is None,
        strip_new_frames(strip_new_frames(d)) == strip_new_frames(d),
    decreases d.len(),
{
    lemma_frame_bounds(d);
    if let Some((s, e)) = frame_bounds(d) {
        lemma_strip_new_frames_done(excise(d, s, e));
    }
}

/// Stripping leaves no well-formed frame, and is idempotent on every content
/// in which no legacy prefix remains once the frames are removed.
pub proof fn lemma_strip_idempotent(c: Seq<u8>)
    requires
        !occurs_in(strip_new_frames(c), legacy_seq()),
    ensures
        frame_bounds(strip_spec(c)) is None,
        strip_spec(strip_spec(c)) == strip_spec(c),
{
    lemma_strip_new_frames_done(c);
    lemma_rfind_iff(strip_new_frames(c), legacy_seq());
}

proof fn lemma_strip_new_frames_len(d: Seq<u8>)
    ensures
        strip_new_frames(d).len() <= d.len(),
        frame_bounds(d) is Some ==> strip_new_frames(d).len() < d.len(),
    decreases d.len(),
{
    lemma_frame_bounds(d);
    if let Some((s, e)) = frame_bounds(d) {
        lemma_strip_new_frames_len(excise(d, s, e));
    }
}

/// Stripping leaves a content as it is exactly when the content holds
/// neither a well-formed frame nor a legacy prefix. Applied to a stripped
/// content, this says on which contents stripping is idempotent.
pub proof fn lemma_strip_fixed_point(c: Seq<u8>)
    ensures
        strip_spec(c) == c <==> (frame_bounds(c) is None && !occurs_in(c, legacy_seq())),
{
    lemma_strip_new_frames_len(c);
    let t = strip_new_frames(c);
    lemma_last_match(t, legacy_seq(), 0, t.len() - legacy_seq().len());
    lemma_rfind_iff(t, legacy_seq());
    if let Some(l) = rfind_from(t, legacy_seq(), 0) {
        assert(occurs_at(t, legacy_seq(), l));
        assert(strip_spec(c).len() < c.len());
    }
}

/// The same for a text: once the frame of `t` is appended, extraction gives
/// back the UTF-8 form of `t`, which decodes to `t`.
pub proof fn lemma_extract_text_after_append(data: Seq<u8>, t: Seq<char>)
    requires
        !occurs_in(encode_utf8(t) + suffix_seq(), prefix_seq()),
        !occurs_in(encode_utf8(t), suffix_seq()),
        encode_utf8(t).len() + 8 <= TAIL_SCAN_SIZE,
    ensures
        tail_payload(data + frame_of(encode_utf8(t))) == Some(
            (shift_bytes(encode_utf8(t), SHIFT as int), false),
        ),
        shift_bytes(shift_bytes(encode_utf8(t), SHIFT as int), -SHIFT) == encode_utf8(t),
        valid_utf8(encode_utf8(t)),
        decode_utf8(encode_utf8(t)) == t,
{
    lemma_extract_after_append(data, encode_utf8(t));
    vstd::utf8::encode_utf8_valid_utf8(t);
    vstd::utf8::encode_utf8_decode_utf8(t);
}

} // verus!
