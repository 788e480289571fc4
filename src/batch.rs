//! Planning of a batch run: the numbered copies, the images that the visible
//! watermark and the swap pick, and the names of folders and archive entries.

use vstd::prelude::*;
use crate::cipher::push_char;
use crate::classify::{
    file_name_of, has_ext_in, image_exts, is_image_file, last_index, lemma_last_index_bounds,
};
use crate::numbering::{
    as_opt_int, base_text_without_number, base_without_number_spec, copy_payload, decimal,
    decimal_string, extract_trailing_number, label_spec, order_label, parse_digits,
    parse_digits_spec, push_text, trailing_number_spec,
};

verus! {

/// The text of the first capture group of `.*?(\d+).*` matched against a
/// name, as the `regex` crate finds it: its first run of decimal digits.
pub uninterp spec fn number_capture_of(name: Seq<char>) -> Option<Seq<char>>;

/// Relies on `regex::Regex::captures`: the first capture group of
/// `.*?(\d+).*` in `name`.
#[verifier::external_body]
fn first_number_capture(name: &str) -> (r: Option<String>)
    ensures
        match r {
            Some(t) => number_capture_of(name@) == Some(t@),
            None => number_capture_of(name@) is None,
        },
{
    let re = match regex::Regex::new(r".*?(\d+).*") {
        Ok(re) => re,
        Err(_) => return None,
    };
    match re.captures(name) {
        Some(caps) => match caps.get(1) {
            Some(m) => Some(m.as_str().to_string()),
            None => None,
        },
        None => None,
    }
}

/// The number that a file name carries: its first run of digits, read as an
/// `i32`.
pub open spec fn file_number_spec(name: Seq<char>) -> Option<int> {
    match number_capture_of(name) {
        Some(c) => parse_digits_spec(c),
        None => None,
    }
}

/// The number that the file name `name` carries, if its first run of digits
/// reads as an `i32`.
pub fn extract_file_number(name: &str) -> (r: Option<i32>)
    ensures
        as_opt_int(r) == file_number_spec(name@),
{
    match first_number_capture(name) {
        Some(t) => parse_digits(t.as_str()),
        None => None,
    }
}

/// The last component of `path`.
pub fn file_name(path: &str) -> (r: String)
    ensures
        r@ == file_name_of(path@),
{
    proof {
        lemma_last_index_bounds(path@, '/');
    }
    let n = path.unicode_len();
    let start: usize = match last_index(path, '/') {
        Some(k) => k + 1,
        None => 0,
    };
    let mut r = String::new();
    push_text(&mut r, path.substring_char(start, n));
    assert(r@ =~= file_name_of(path@));
    r
}

/// `path` is an image whose file name carries the number `n`.
pub open spec fn is_numbered_image(path: Seq<char>, n: int) -> bool {
    has_ext_in(path, image_exts()) && file_number_spec(file_name_of(path)) == Some(n)
}

/// `i` is the first index of `paths` that holds an image numbered `n`.
pub open spec fn first_numbered_at(paths: Seq<String>, n: int, i: int) -> bool {
    0 <= i < paths.len() && is_numbered_image(paths[i]@, n) && forall|j: int|
        0 <= j < i ==> !is_numbered_image(paths[j]@, n)
}

pub open spec fn no_numbered(paths: Seq<String>, n: int) -> bool {
    forall|j: int| 0 <= j < paths.len() ==> !is_numbered_image(paths[j]@, n)
}

/// The index of the first image among `paths` whose file name carries `n`.
pub fn find_numbered_image(paths: &Vec<String>, n: i32) -> (r: Option<usize>)
    ensures
        match r {
            Some(i) => first_numbered_at(paths@, n as int, i as int),
            None => no_numbered(paths@, n as int),
        },
{
    let mut i: usize = 0;
    while i < paths.len()
        invariant
            i <= paths.len(),
            forall|j: int| 0 <= j < i ==> !is_numbered_image(paths@[j]@, n as int),
        decreases paths.len() - i,
    {
        let p = paths[i].as_str();
        if is_image_file(p) {
            let name = file_name(p);
            if extract_file_number(name.as_str()) == Some(n) {
                return Some(i);
            }
        }
        i = i + 1;
    }
    None
}

/// The image of a copy that receives the visible watermark: the first among
/// the copy's listed `paths` whose file name carries `photo_number`.
pub fn add_visible_watermark_in_folder(paths: &Vec<String>, photo_number: i32) -> (r: Option<
    usize,
>)
    ensures
        match r {
            Some(i) => first_numbered_at(paths@, photo_number as int, i as int),
            None => no_numbered(paths@, photo_number as int),
        },
{
    find_numbered_image(paths, photo_number)
}

/// The two images whose contents the swap exchanges: the first numbered
/// `order` and the first numbered `order + 10`; `None` when either is
/// missing, in which case nothing is swapped.
pub fn swap_pair(paths: &Vec<String>, order: i32) -> (r: Option<(usize, usize)>)
    requires
        order <= i32::MAX - 10,
    ensures
        match r {
            Some((a, b)) => first_numbered_at(paths@, order as int, a as int) && first_numbered_at(
                paths@,
                order + 10,
                b as int,
            ),
            None => no_numbered(paths@, order as int) || no_numbered(paths@, order + 10),
        },
{
    let a = find_numbered_image(paths, order);
    let b = find_numbered_image(paths, order + 10);
    match (a, b) {
        (Some(x), Some(y)) => Some((x, y)),
        _ => None,
    }
}

/// One copy of a batch: its order number, its zero-padded label and the
/// payload that marks its files.
pub struct CopyPlan {
    pub order: i32,
    pub label: String,
    pub payload: String,
}

/// The plan of copy `i` of a batch whose base text is `text`.
pub open spec fn plan_spec(p: CopyPlan, text: Seq<char>, i: int) -> bool {
    let order = trailing_number_spec(text) + i;
    &&& p.order == order
    &&& p.label@ == label_spec(order as nat)
    &&& p.payload@ == base_without_number_spec(text) + seq![' '] + label_spec(order as nat)
}

/// The copies that a batch with base text `base_text` makes: `num_copies` of
/// them (none when it is not positive), numbered on from the number that the
/// base text ends with (1 when it ends with none).
pub fn plan_copies(base_text: &str, num_copies: i32) -> (r: Vec<CopyPlan>)
    requires
        trailing_number_spec(base_text@) + num_copies <= i32::MAX + 1,
    ensures
        r@.len() == if num_copies > 0 {
            num_copies as int
        } else {
            0
        },
        forall|i: int| 0 <= i < r@.len() ==> plan_spec(#[trigger] r@[i], base_text@, i),
{
    proof {
        crate::numbering::lemma_trailing_number_range(base_text@);
    }
    let start = extract_trailing_number(base_text);
    let base = base_text_without_number(base_text);
    let mut plans: Vec<CopyPlan> = Vec::new();
    let count: i32 = if num_copies > 0 {
        num_copies
    } else {
        0
    };
    let mut i: i32 = 0;
    while i < count
        invariant
            0 <= i <= count,
            count == if num_copies > 0 {
                num_copies as int
            } else {
                0
            },
            start == trailing_number_spec(base_text@),
            0 <= start,
            start + num_copies <= i32::MAX + 1,
            base@ == base_without_number_spec(base_text@),
            plans@.len() == i,
            forall|j: int| 0 <= j < i ==> plan_spec(#[trigger] plans@[j], base_text@, j),
        decreases count - i,
    {
        let order = start + i;
        let label = order_label(order);
        let payload = copy_payload(base.as_str(), label.as_str());
        plans.push(CopyPlan { order, label, payload });
        i = i + 1;
    }
    plans
}

/// The name of the folder that holds the copies of a folder named `name`.
pub fn copies_folder_name(name: &str) -> (r: String)
    ensures
        r@ == name@ + seq!['-', 'C', 'o', 'p', 'i', 'e', 's'],
{
    let mut r = String::new();
    push_text(&mut r, name);
    push_text(&mut r, "-Copies");
    proof {
        reveal_strlit("-Copies");
        assert(r@ =~= name@ + seq!['-', 'C', 'o', 'p', 'i', 'e', 's']);
    }
    r
}

/// The name of the archive of a folder named `name`.
pub fn archive_file_name(name: &str) -> (r: String)
    ensures
        r@ == name@ + seq!['.', 'z', 'i', 'p'],
{
    let mut r = String::new();
    push_text(&mut r, name);
    push_text(&mut r, ".zip");
    proof {
        reveal_strlit(".zip");
        assert(r@ =~= name@ + seq!['.', 'z', 'i', 'p']);
    }
    r
}

/// A path with every backslash turned into a forward slash.
pub open spec fn forward_slashes(s: Seq<char>) -> Seq<char> {
    s.map_values(|c: char| if c == '\\' { '/' } else { c })
}

/// The name under which an archive stores the entry at relative path `rel`:
/// forward slashes throughout, and a trailing slash on a directory. The
/// folder itself, at the empty relative path, gets no entry.
pub fn archive_entry_name(rel: &str, is_dir: bool) -> (r: Option<String>)
    ensures
        match r {
            Some(t) => !(rel@.len() == 0 && is_dir) && t@ == if is_dir {
                forward_slashes(rel@).push('/')
            } else {
                forward_slashes(rel@)
            },
            None => rel@.len() == 0 && is_dir,
        },
{
    let n = rel.unicode_len();
    if is_dir && n == 0 {
        return None;
    }
    let mut out = String::new();
    let mut i: usize = 0;
    while i < n
        invariant
            n == rel@.len(),
            i <= n,
            out@ == forward_slashes(rel@.subrange(0, i as int)),
        decreases n - i,
    {
        let c = rel.get_char(i);
        let d = if c == '\\' {
            '/'
        } else {
            c
        };
        push_char(&mut out, d);
        proof {
            assert(rel@.subrange(0, i + 1) =~= rel@.subrange(0, i as int).push(c));
        }
        i = i + 1;
    }
    assert(rel@.subrange(0, n as int) =~= rel@);
    if is_dir {
        push_char(&mut out, '/');
    }
    if n == 0 {
        proof {
            assert(out@ =~= forward_slashes(rel@));
        }
    }
    Some(out)
}

/// The name of the temporary file through which a swap moves the file named
/// `name`, at time `millis`.
pub fn swap_temp_name(millis: u64, name: &str) -> (r: String)
    ensures
        r@ == seq!['t', 'e', 'm', 'p', '_'] + decimal(millis as nat) + seq!['_'] + name@,
{
    let mut r = String::new();
    push_text(&mut r, "temp_");
    let d = decimal_string(millis);
    push_text(&mut r, d.as_str());
    push_char(&mut r, '_');
    push_text(&mut r, name);
    proof {
        reveal_strlit("temp_");
        assert(r@ =~= seq!['t', 'e', 'm', 'p', '_'] + decimal(millis as nat) + seq!['_'] + name@);
    }
    r
}

} // verus!
