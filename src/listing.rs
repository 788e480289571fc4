//! The listing of the files that carry markers: filtered by extension and
//! sorted, so that every run visits them in the same order.

use vstd::prelude::*;
use vstd::utf8::encode_utf8;
use crate::classify::{is_supported_file, is_supported_spec};

verus! {

/// `a` comes no later than `b` in lexicographic byte order.
pub open spec fn bytes_le(a: Seq<u8>, b: Seq<u8>) -> bool
    decreases a.len(),
{
    if a.len() == 0 {
        true
    } else if b.len() == 0 {
        false
    } else if a[0] != b[0] {
        a[0] < b[0]
    } else {
        bytes_le(a.drop_first(), b.drop_first())
    }
}

/// `a` comes no later than `b` in the order of `String`: that of their UTF-8
/// bytes.
pub open spec fn text_le(a: Seq<char>, b: Seq<char>) -> bool {
    bytes_le(encode_utf8(a), encode_utf8(b))
}

/// The texts of `s` stand in ascending order.
pub open spec fn sorted_texts(s: Seq<String>) -> bool {
    forall|i: int, j: int| 0 <= i < j < s.len() ==> text_le(s[i]@, s[j]@)
}

/// The paths of `s` that carry markers, in their order in `s`.
pub open spec fn supported_only(s: Seq<String>) -> Seq<String> {
    s.filter(|p: String| is_supported_spec(p@))
}

/// Relies on `slice::sort`: the same strings, in ascending order of
/// `String`'s `Ord`, which compares the UTF-8 bytes lexicographically.
#[verifier::external_body]
fn sort_texts(v: &mut Vec<String>)
    ensures
        final(v)@.to_multiset() == old(v)@.to_multiset(),
        sorted_texts(final(v)@),
{
    v.sort();
}

/// The paths among `paths` whose files carry markers, in ascending order.
pub fn list_supported_files(paths: &Vec<String>) -> (r: Vec<String>)
    ensures
        r@.to_multiset() == supported_only(paths@).to_multiset(),
        sorted_texts(r@),
{
    let mut out: Vec<String> = Vec::new();
    let mut i: usize = 0;
    while i < paths.len()
        invariant
            i <= paths.len(),
            out@ == supported_only(paths@.subrange(0, i as int)),
        decreases paths.len() - i,
    {
        proof {
            reveal(Seq::filter);
            assert(paths@.subrange(0, i + 1).drop_last() =~= paths@.subrange(0, i as int));
        }
        if is_supported_file(paths[i].as_str()) {
            out.push(paths[i].clone());
        }
        i = i + 1;
    }
    assert(paths@.subrange(0, paths@.len() as int) =~= paths@);
    sort_texts(&mut out);
    out
}

} // verus!
