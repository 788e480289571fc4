use endecode::frame::{add_watermark_marker, find_watermark, frame_bytes};
use endecode::marker::{
    copy_watermark_addition, extract_tail_watermark, has_tail_watermark, strip_frames,
    tail_start, tail_watermark_addition,
};
use endecode::search::find_bytes;

fn with_frame(content: &[u8], text: &str) -> Vec<u8> {
    let mut v = content.to_vec();
    v.extend_from_slice(&frame_bytes(text));
    v
}

#[test]
fn marker_string_for_hi() {
    assert_eq!(add_watermark_marker("hi"), "<<==op==>>");
    assert_eq!(add_watermark_marker(""), "<<====>>");
}

#[test]
fn frame_bytes_match_marker_string() {
    assert_eq!(frame_bytes("hi"), b"<<==op==>>".to_vec());
    assert_eq!(frame_bytes("Order 005"), add_watermark_marker("Order 005").into_bytes());
}

#[test]
fn find_bytes_both_directions() {
    let d = b"ab<<==cd<<==ef";
    assert_eq!(find_bytes(d, b"<<==", 0, true), Some(8));
    assert_eq!(find_bytes(d, b"<<==", 0, false), Some(2));
    assert_eq!(find_bytes(d, b"<<==", 3, false), Some(8));
    assert_eq!(find_bytes(d, b"<<==", 9, true), None);
    assert_eq!(find_bytes(d, b"zz", 0, false), None);
    assert_eq!(find_bytes(b"ab", b"abc", 0, true), None);
}

#[test]
fn find_watermark_locates_the_rightmost_frame() {
    let r = find_watermark(b"xx<<==op==>>yy", true);
    assert_eq!(r, Some((2, 8, Some(b"op".to_vec()))));
    assert_eq!(find_watermark(b"xx<<==op==>>yy", false), Some((2, 8, None)));
    assert_eq!(find_watermark(b"<<==a==>><<==b==>>", true), Some((9, 14, Some(b"b".to_vec()))));
}

#[test]
fn find_watermark_rejects_a_prefix_without_suffix() {
    assert_eq!(find_watermark(b"<<==op", true), None);
    assert_eq!(find_watermark(b"<<==a==>>x<<==", true), None);
    assert_eq!(find_watermark(b"<<==>>", true), None);
    assert_eq!(find_watermark(b"plain", true), None);
}

#[test]
fn tail_frame_is_detected_and_extracted() {
    let data = with_frame(b"some file content", "hi");
    assert!(data.ends_with(b"<<==op==>>"));
    assert!(has_tail_watermark(&data));
    assert_eq!(extract_tail_watermark(&data), Some("hi".to_string()));
}

#[test]
fn legacy_frame_is_extracted_and_trimmed() {
    let data = b"old content*/vsk".to_vec();
    assert!(has_tail_watermark(&data));
    assert_eq!(extract_tail_watermark(&data), Some("old".to_string()));
    let spaced = b"xx*/ vsk \n".to_vec();
    assert_eq!(extract_tail_watermark(&spaced), Some("old".to_string()));
}

#[test]
fn new_format_wins_over_legacy() {
    let data = with_frame(b"a*/zzz", "new");
    assert_eq!(extract_tail_watermark(&data), Some("new".to_string()));
}

#[test]
fn markers_outside_the_tail_window_are_ignored() {
    let mut data = frame_bytes("hi");
    data.extend_from_slice(&[b'a'; 200]);
    assert!(!has_tail_watermark(&data));
    assert_eq!(extract_tail_watermark(&data), None);
    assert_eq!(tail_start(300), 200);
    assert_eq!(tail_start(40), 0);
}

#[test]
fn partial_prefix_counts_as_present_but_extracts_nothing() {
    let data = b"abc<<==unterminated".to_vec();
    assert!(has_tail_watermark(&data));
    assert_eq!(extract_tail_watermark(&data), None);
    assert!(!has_tail_watermark(b""));
    assert_eq!(extract_tail_watermark(b""), None);
}

#[test]
fn adding_twice_appends_once() {
    let content = b"video bytes".to_vec();
    let first = tail_watermark_addition(&content, "Order 005");
    assert_eq!(first, Some(frame_bytes("Order 005")));
    let mut marked = content.clone();
    marked.extend_from_slice(&first.unwrap());
    assert_eq!(tail_watermark_addition(&marked, "Order 005"), None);
    assert_eq!(extract_tail_watermark(&marked), Some("Order 005".to_string()));
}

#[test]
fn adding_is_refused_when_a_legacy_prefix_is_in_the_tail() {
    assert_eq!(tail_watermark_addition(b"abc*/xyz", "hi"), None);
}

#[test]
fn copy_marking_checks_the_whole_content() {
    let frame = frame_bytes("Order 005");
    let mut data = frame.clone();
    data.extend_from_slice(&[b'x'; 300]);
    assert_eq!(copy_watermark_addition(&data, "Order 005", false), None);
    assert_eq!(copy_watermark_addition(&data, "Order 006", false), Some(frame_bytes("Order 006")));
    assert_eq!(copy_watermark_addition(&data, "Order 005", true), Some(frame.clone()));
    assert_eq!(copy_watermark_addition(&frame, "Order 009", true), None);
}

#[test]
fn extract_after_build_gives_the_payload() {
    for p in ["hi", "Order 005", "", "Grüße 42", "a<b=c>d"].iter() {
        let data = with_frame(b"prefix data", p);
        assert_eq!(extract_tail_watermark(&data), Some(p.to_string()));
    }
}

#[test]
fn strip_removes_one_frame() {
    assert_eq!(strip_frames(b"data<<==op==>>"), (b"data".to_vec(), true));
}

#[test]
fn strip_removes_stacked_frames() {
    assert_eq!(strip_frames(b"a<<==x==>>b<<==y==>>"), (b"ab".to_vec(), true));
    assert_eq!(strip_frames(b"a<<==x==>><<==y==>>"), (b"a".to_vec(), true));
}

#[test]
fn strip_leaves_a_malformed_tail() {
    assert_eq!(strip_frames(b"a<<==x"), (b"a<<==x".to_vec(), false));
    assert_eq!(strip_frames(b"a<<==x==>>b<<==y"), (b"a<<==x==>>b<<==y".to_vec(), false));
    assert_eq!(strip_frames(b""), (Vec::new(), false));
}

#[test]
fn strip_cuts_at_the_legacy_prefix() {
    assert_eq!(strip_frames(b"abc*/zzz"), (b"abc".to_vec(), true));
    assert_eq!(strip_frames(b"abc<<==q==>>*/zzz"), (b"abc".to_vec(), true));
}

#[test]
fn strip_twice_equals_strip_once() {
    let inputs: [&[u8]; 5] = [b"data<<==op==>>", b"a<<==x==>>b<<==y==>>", b"a<<==x", b"plain", b"z*/q"];
    for d in inputs.iter() {
        let once = strip_frames(d).0;
        let twice = strip_frames(&once).0;
        assert_eq!(once, twice);
        assert_eq!(find_watermark(&once, false), None);
    }
}

#[test]
fn strip_cuts_only_at_the_rightmost_legacy_prefix() {
    let once = strip_frames(b"a*/b*/c").0;
    assert_eq!(once, b"a*/b".to_vec());
    assert_eq!(strip_frames(&once), (b"a".to_vec(), true));
}
