//! Which files carry markers, told apart by the extension of their path.

use vstd::prelude::*;
use vstd::utf8::encode_utf8;

verus! {

/// The text that `str::to_lowercase` makes of a text.
pub uninterp spec fn lower_of(s: Seq<char>) -> Seq<char>;

/// Relies on `str::to_lowercase`: the lower-case form of a text.
#[verifier::external_body]
fn lowercase(s: &str) -> (r: String)
    ensures
        r@ == lower_of(s@),
{
    s.to_lowercase()
}

/// The index of the last `c` in `s`, or -1.
pub open spec fn last_index_of(s: Seq<char>, c: char) -> int
    decreases s.len(),
{
    if s.len() == 0 {
        -1
    } else if s.last() == c {
        s.len() - 1
    } else {
        last_index_of(s.drop_last(), c)
    }
}

pub proof fn lemma_last_index_bounds(s: Seq<char>, c: char)
    ensures
        -1 <= last_index_of(s, c) < s.len(),
        last_index_of(s, c) >= 0 ==> s[last_index_of(s, c)] == c,
    decreases s.len(),
{
    if s.len() > 0 && s.last() != c {
        lemma_last_index_bounds(s.drop_last(), c);
    }
}

/// Where the last component of a path starts.
pub open spec fn name_start(path: Seq<char>) -> int {
    last_index_of(path, '/') + 1
}

/// The last component of a path.
pub open spec fn file_name_of(path: Seq<char>) -> Seq<char> {
    path.subrange(name_start(path), path.len() as int)
}

/// The extension of a path: what follows the last `.` of its last component,
/// where that dot is not the component's first character.
pub open spec fn extension_of(path: Seq<char>) -> Option<Seq<char>> {
    let dot = last_index_of(path, '.');
    if dot > name_start(path) {
        Some(path.subrange(dot + 1, path.len() as int))
    } else {
        None
    }
}

pub open spec fn image_exts() -> Seq<Seq<char>> {
    seq![seq!['j', 'p', 'g'], seq!['j', 'p', 'e', 'g'], seq!['p', 'n', 'g']]
}

pub open spec fn video_exts() -> Seq<Seq<char>> {
    seq![seq!['m', 'p', '4'], seq!['a', 'v', 'i'], seq!['m', 'o', 'v'], seq!['m', 'k', 'v']]
}

/// The extensions of the files that carry markers, in lower case.
pub open spec fn supported_exts() -> Seq<Seq<char>> {
    seq![seq!['t', 'x', 't']] + image_exts() + video_exts()
}

/// The lower-cased extension of `path` is one of `exts`.
pub open spec fn has_ext_in(path: Seq<char>, exts: Seq<Seq<char>>) -> bool {
    match extension_of(path) {
        Some(e) => exts.contains(lower_of(e)),
        None => false,
    }
}

pub open spec fn is_supported_spec(path: Seq<char>) -> bool {
    has_ext_in(path, supported_exts())
}

/// What a file is, as far as marking goes.
#[derive(Clone, Copy, Debug, PartialEq, Eq, Structural)]
pub enum FileKind {
    Image,
    Video,
    PlainText,
    Unsupported,
}

pub open spec fn kind_spec(path: Seq<char>) -> FileKind {
    if has_ext_in(path, image_exts()) {
        FileKind::Image
    } else if has_ext_in(path, video_exts()) {
        FileKind::Video
    } else if has_ext_in(path, seq![seq!['t', 'x', 't']]) {
        FileKind::PlainText
    } else {
        FileKind::Unsupported
    }
}

/// The lower-case extensions of the files that carry markers.
pub fn supported_extensions() -> (r: Vec<&'static str>)
    ensures
        r@.map_values(|s: &str| s@) == supported_exts(),
{
    let r = vec!["txt", "jpg", "jpeg", "png", "mp4", "avi", "mov", "mkv"];
    proof {
        reveal_strlit("txt");
        reveal_strlit("jpg");
        reveal_strlit("jpeg");
        reveal_strlit("png");
        reveal_strlit("mp4");
        reveal_strlit("avi");
        reveal_strlit("mov");
        reveal_strlit("mkv");
        assert(r@[0]@ =~= seq!['t', 'x', 't']);
        assert(r@[1]@ =~= seq!['j', 'p', 'g']);
        assert(r@[2]@ =~= seq!['j', 'p', 'e', 'g']);
        assert(r@[3]@ =~= seq!['p', 'n', 'g']);
        assert(r@[4]@ =~= seq!['m', 'p', '4']);
        assert(r@[5]@ =~= seq!['a', 'v', 'i']);
        assert(r@[6]@ =~= seq!['m', 'o', 'v']);
        assert(r@[7]@ =~= seq!['m', 'k', 'v']);
        assert(r@.map_values(|s: &str| s@) =~= supported_exts());
    }
    r
}

fn same_text(a: &str, b: &str) -> (r: bool)
    ensures
        r == (a@ == b@),
{
    let n = a.unicode_len();
    if n != b.unicode_len() {
        return false;
    }
    let mut i: usize = 0;
    while i < n
        invariant
            n == a@.len() == b@.len(),
            i <= n,
            forall|t: int| 0 <= t < i ==> a@[t] == b@[t],
        decreases n - i,
    {
        if a.get_char(i) != b.get_char(i) {
            return false;
        }
        i = i + 1;
    }
    assert(a@ =~= b@);
    true
}

pub(crate) fn last_index(s: &str, c: char) -> (r: Option<usize>)
    ensures
        match r {
            Some(i) => i == last_index_of(s@, c),
            None => last_index_of(s@, c) == -1,
        },
{
    let n = s.unicode_len();
    let mut last: Option<usize> = None;
    let mut i: usize = 0;
    while i < n
        invariant
            n == s@.len(),
            i <= n,
            match last {
                Some(k) => k == last_index_of(s@.subrange(0, i as int), c),
                None => last_index_of(s@.subrange(0, i as int), c) == -1,
            },
        decreases n - i,
    {
        proof {
            assert(s@.subrange(0, i + 1).drop_last() =~= s@.subrange(0, i as int));
        }
        if s.get_char(i) == c {
            last = Some(i);
        }
        i = i + 1;
    }
    assert(s@.subrange(0, n as int) =~= s@);
    last
}
/// The lower-cased extension of `path`, if it has one.
fn lower_extension(path: &str) -> (r: Option<String>)
    ensures
        match extension_of(path@) {
            Some(e) => r matches Some(l) && l@ == lower_of(e),
            None => r is None,
        },
{
    proof {
        lemma_last_index_bounds(path@, '/');
        lemma_last_index_bounds(path@, '.');
    }
    let n = path.unicode_len();
    let start: usize = match last_index(path, '/') {
        Some(k) => k + 1,
        None => 0,
    };
    match last_index(path, '.') {
        Some(dot) => if dot > start {
            let ext = path.substring_char(dot + 1, n);
            Some(lowercase(ext))
        } else {
            None
        },
        None => None,
    }
}

fn ext_in(ext: &String, exts: &Vec<&'static str>) -> (r: bool)
    ensures
        r == exts@.map_values(|s: &str| s@).contains(ext@),
{
    let mut i: usize = 0;
    while i < exts.len()
        invariant
            i <= exts.len(),
            forall|t: int| 0 <= t < i ==> exts@[t]@ != ext@,
        decreases exts.len() - i,
    {
        if same_text(ext.as_str(), exts[i]) {
            assert(exts@.map_values(|s: &str| s@)[i as int] == ext@);
            return true;
        }
        i = i + 1;
    }
    false
}

fn path_has_ext_in(path: &str, exts: &Vec<&'static str>) -> (r: bool)
    ensures
        r == has_ext_in(path@, exts@.map_values(|s: &str| s@)),
{
    match lower_extension(path) {
        Some(e) => ext_in(&e, exts),
        None => false,
    }
}

/// Whether a lower-case extension is one of `supported_extensions`.
pub fn is_supported_extension(ext: &str) -> (r: bool)
    ensures
        r == supported_exts().contains(ext@),
{
    let mut e = String::new();
    crate::numbering::push_text(&mut e, ext);
    assert(e@ =~= ext@);
    ext_in(&e, &supported_extensions())
}

/// Whether the file at `path` carries markers: its extension, in lower case,
/// is one of `supported_extensions`.
pub fn is_supported_file(path: &str) -> (r: bool)
    ensures
        r == is_supported_spec(path@),
{
    match lower_extension(path) {
        Some(e) => is_supported_extension(e.as_str()),
        None => false,
    }
}

/// Whether the file at `path` is an image: jpg, jpeg or png, in any case.
pub fn is_image_file(path: &str) -> (r: bool)
    ensures
        r == has_ext_in(path@, image_exts()),
{
    let exts = vec!["jpg", "jpeg", "png"];
    proof {
        reveal_strlit("jpg");
        reveal_strlit("jpeg");
        reveal_strlit("png");
        assert(exts@[0]@ =~= seq!['j', 'p', 'g']);
        assert(exts@[1]@ =~= seq!['j', 'p', 'e', 'g']);
        assert(exts@[2]@ =~= seq!['p', 'n', 'g']);
        assert(exts@.map_values(|s: &str| s@) =~= image_exts());
    }
    path_has_ext_in(path, &exts)
}

/// Whether the file at `path` is a video: mp4, avi, mov or mkv, in any case.
pub fn is_video_file(path: &str) -> (r: bool)
    ensures
        r == has_ext_in(path@, video_exts()),
{
    let exts = vec!["mp4", "avi", "mov", "mkv"];
    proof {
        reveal_strlit("mp4");
        reveal_strlit("avi");
        reveal_strlit("mov");
        reveal_strlit("mkv");
        assert(exts@[0]@ =~= seq!['m', 'p', '4']);
        assert(exts@[1]@ =~= seq!['a', 'v', 'i']);
        assert(exts@[2]@ =~= seq!['m', 'o', 'v']);
        assert(exts@[3]@ =~= seq!['m', 'k', 'v']);
        assert(exts@.map_values(|s: &str| s@) =~= video_exts());
    }
    path_has_ext_in(path, &exts)
}

/// What the file at `path` is, by its extension.
pub fn classify(path: &str) -> (r: FileKind)
    ensures
        r == kind_spec(path@),
{
    if is_image_file(path) {
        FileKind::Image
    } else if is_video_file(path) {
        FileKind::Video
    } else {
        let exts = vec!["txt"];
        proof {
            reveal_strlit("txt");
            assert(exts@[0]@ =~= seq!['t', 'x', 't']);
            assert(exts@.map_values(|s: &str| s@) =~= seq![seq!['t', 'x', 't']]);
        }
        if path_has_ext_in(path, &exts) {
            FileKind::PlainText
        } else {
            FileKind::Unsupported
        }
    }
}

} // verus!
