use endecode::classify::{
    classify, is_image_file, is_supported_extension, is_supported_file, is_video_file,
    supported_extensions, FileKind,
};
use endecode::listing::list_supported_files;

#[test]
fn supported_extension_list() {
    assert_eq!(
        supported_extensions(),
        vec!["txt", "jpg", "jpeg", "png", "mp4", "avi", "mov", "mkv"]
    );
}

#[test]
fn supported_files_by_extension_in_any_case() {
    assert!(is_supported_file("/d/a.txt"));
    assert!(is_supported_file("/d/a.TXT"));
    assert!(is_supported_file("/d/clip.Mp4"));
    assert!(is_supported_file("rel/photo.jpeg"));
    assert!(!is_supported_file("/d/z.exe"));
    assert!(!is_supported_file("/d/noext"));
    assert!(!is_supported_file("/d/.png"));
    assert!(!is_supported_file("/d.png/file"));
    assert!(!is_supported_file("/d/archive.txt.gz"));
}

#[test]
fn images_and_videos() {
    assert!(is_image_file("x.JPeG"));
    assert!(is_image_file("/a/b/c.png"));
    assert!(!is_image_file("c.mp4"));
    assert!(is_video_file("v.mkv"));
    assert!(is_video_file("v.AVI"));
    assert!(!is_video_file("v.txt"));
}

#[test]
fn classify_each_kind() {
    assert_eq!(classify("a.jpg"), FileKind::Image);
    assert_eq!(classify("a.mov"), FileKind::Video);
    assert_eq!(classify("a.Txt"), FileKind::PlainText);
    assert_eq!(classify("a.doc"), FileKind::Unsupported);
}

#[test]
fn listing_filters_and_sorts() {
    let paths = vec![
        "/d/b.png".to_string(),
        "/d/a.txt".to_string(),
        "/d/z.exe".to_string(),
    ];
    assert_eq!(
        list_supported_files(&paths),
        vec!["/d/a.txt".to_string(), "/d/b.png".to_string()]
    );
}

#[test]
fn listing_orders_by_bytes_and_keeps_duplicates() {
    let paths = vec![
        "/d/b/x.mp4".to_string(),
        "/d/B.jpg".to_string(),
        "/d/a.txt".to_string(),
        "/d/a.txt".to_string(),
        "/d/readme".to_string(),
    ];
    assert_eq!(
        list_supported_files(&paths),
        vec![
            "/d/B.jpg".to_string(),
            "/d/a.txt".to_string(),
            "/d/a.txt".to_string(),
            "/d/b/x.mp4".to_string()
        ]
    );
    assert_eq!(list_supported_files(&Vec::new()), Vec::<String>::new());
}

#[test]
fn supported_extension_names() {
    assert!(is_supported_extension("mkv"));
    assert!(is_supported_extension("jpeg"));
    assert!(!is_supported_extension("MKV"));
    assert!(!is_supported_extension("exe"));
    assert!(!is_supported_extension(""));
}
