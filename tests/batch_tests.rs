use endecode::batch::{
    add_visible_watermark_in_folder, archive_entry_name, archive_file_name, copies_folder_name,
    extract_file_number, file_name, find_numbered_image, plan_copies, swap_pair, swap_temp_name,
};
use endecode::marker::{copy_watermark_addition, extract_tail_watermark};
use endecode::numbering::{
    base_text_without_number, copy_payload, decimal_string, extract_trailing_number, order_label,
    parse_digits,
};
use endecode::sweep::{FileOutcome, SweepReport};

#[test]
fn trailing_number_of_base_texts() {
    assert_eq!(extract_trailing_number("Order5"), 5);
    assert_eq!(extract_trailing_number("Order"), 1);
    assert_eq!(extract_trailing_number(""), 1);
    assert_eq!(extract_trailing_number("v0012"), 12);
    assert_eq!(extract_trailing_number("Batch 0"), 0);
    assert_eq!(extract_trailing_number("x99999999999"), 1);
    assert_eq!(extract_trailing_number("2147483647"), 2147483647);
}

#[test]
fn base_text_loses_number_and_spaces() {
    assert_eq!(base_text_without_number("Order5"), "Order");
    assert_eq!(base_text_without_number("  Order 12"), "Order");
    assert_eq!(base_text_without_number("42"), "");
    assert_eq!(base_text_without_number("Plain"), "Plain");
}

#[test]
fn labels_are_zero_padded_to_three() {
    assert_eq!(order_label(5), "005");
    assert_eq!(order_label(0), "000");
    assert_eq!(order_label(42), "042");
    assert_eq!(order_label(100), "100");
    assert_eq!(order_label(1234), "1234");
    assert_eq!(decimal_string(18446744073709551615), "18446744073709551615");
    assert_eq!(copy_payload("Order", "005"), "Order 005");
}

#[test]
fn digits_parse_as_i32() {
    assert_eq!(parse_digits("0015"), Some(15));
    assert_eq!(parse_digits(""), None);
    assert_eq!(parse_digits("12a"), None);
    assert_eq!(parse_digits("2147483648"), None);
}

#[test]
fn file_numbers_from_names() {
    assert_eq!(extract_file_number("IMG_0015.jpg"), Some(15));
    assert_eq!(extract_file_number("a12b34.png"), Some(12));
    assert_eq!(extract_file_number("photo.jpg"), None);
    assert_eq!(extract_file_number("x99999999999.png"), None);
    assert_eq!(file_name("/a/b/c.jpg"), "c.jpg");
    assert_eq!(file_name("c.jpg"), "c.jpg");
}

#[test]
fn plan_of_three_copies_from_order5() {
    let plans = plan_copies("Order5", 3);
    assert_eq!(plans.len(), 3);
    let expected = [(5, "005", "Order 005"), (6, "006", "Order 006"), (7, "007", "Order 007")];
    for (p, (o, l, pay)) in plans.iter().zip(expected.iter()) {
        assert_eq!(p.order, *o);
        assert_eq!(p.label, *l);
        assert_eq!(p.payload, *pay);
        let added = copy_watermark_addition(b"file body", &p.payload, false).unwrap();
        let mut data = b"file body".to_vec();
        data.extend_from_slice(&added);
        assert_eq!(extract_tail_watermark(&data), Some(pay.to_string()));
    }
}

#[test]
fn plan_with_no_copies() {
    assert_eq!(plan_copies("Order5", 0).len(), 0);
    assert_eq!(plan_copies("Order5", -4).len(), 0);
    let plans = plan_copies("Batch", 2);
    assert_eq!(plans[0].order, 1);
    assert_eq!(plans[1].payload, "Batch 002");
}

fn copy_listing() -> Vec<String> {
    vec![
        "/c/005/src/IMG_005.jpg".to_string(),
        "/c/005/src/notes_5.txt".to_string(),
        "/c/005/src/IMG_006.png".to_string(),
        "/c/005/src/IMG_015.jpg".to_string(),
        "/c/005/src/IMG_15b.jpg".to_string(),
    ]
}

#[test]
fn swap_without_target_is_a_no_op() {
    let paths = vec!["/c/005/src/IMG_005.jpg".to_string(), "/c/005/src/IMG_006.jpg".to_string()];
    assert_eq!(swap_pair(&paths, 5), None);
}

#[test]
fn swap_picks_order_and_order_plus_ten() {
    assert_eq!(swap_pair(&copy_listing(), 5), Some((0, 3)));
}

#[test]
fn visible_watermark_picks_first_numbered_image() {
    let paths = copy_listing();
    assert_eq!(add_visible_watermark_in_folder(&paths, 15), Some(3));
    assert_eq!(add_visible_watermark_in_folder(&paths, 6), Some(2));
    assert_eq!(add_visible_watermark_in_folder(&paths, 7), None);
    assert_eq!(find_numbered_image(&paths, 5), Some(0));
}

#[test]
fn folder_and_archive_names() {
    assert_eq!(copies_folder_name("Photos"), "Photos-Copies");
    assert_eq!(archive_file_name("Photos"), "Photos.zip");
    assert_eq!(archive_entry_name("sub\\dir", true), Some("sub/dir/".to_string()));
    assert_eq!(archive_entry_name("", true), None);
    assert_eq!(archive_entry_name("a/b.txt", false), Some("a/b.txt".to_string()));
    assert_eq!(swap_temp_name(123, "a.jpg"), "temp_123_a.jpg");
}

#[test]
fn sweep_report_counts_and_summary() {
    let mut r = SweepReport::new();
    r.record(FileOutcome::Removed);
    r.record(FileOutcome::Unchanged);
    r.record(FileOutcome::Failed);
    r.record(FileOutcome::Removed);
    assert_eq!(r.processed, 4);
    assert_eq!(r.removed, 2);
    assert_eq!(r.errors, 1);
    assert_eq!(
        r.summary(),
        "Watermark removal completed.\nFiles processed: 4\nWatermarks removed: 2\nErrors: 1"
    );
}
