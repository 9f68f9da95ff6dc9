use comic_publisher::log::{ErrorLog, Outcome};
use comic_publisher::paths::{image_copy, image_url, parent_dir, to_forward_slashes, ImageCopy};
use comic_publisher::text::{doc_text, has_prefix, sort_texts, text_le};

#[test]
fn clean_log_removes_report() {
    let log = ErrorLog::new();
    assert_eq!(log.len(), 0);
    assert_eq!(log.finish(), Outcome::Clean);
    assert_eq!(log.report(), "");
}

#[test]
fn report_has_one_line_per_diagnostic_in_order() {
    let mut log = ErrorLog::new();
    log.record("first");
    log.record_failure("Failed to copy a to b: ", "not found");
    log.record("third\nwith a break");
    assert_eq!(log.len(), 3);
    let report = log.report();
    assert_eq!(report, "first\nFailed to copy a to b: not found\nthird with a break\n");
    assert_eq!(report.lines().count(), 3);
    assert_eq!(log.messages()[1], "Failed to copy a to b: not found");
    assert_eq!(log.finish(), Outcome::Failed(report));
}

#[test]
fn image_url_prefixes_namespace() {
    assert_eq!(image_url("strip/01.png"), "images/strip/01.png");
    assert_eq!(image_url("thumbs\\x.png"), "images/thumbs/x.png");
    assert_eq!(image_url(""), "images/");
}

#[test]
fn image_copy_strips_namespace() {
    assert_eq!(
        image_copy("images/strip/01.png"),
        Some(ImageCopy {
            source: "input/strip/01.png".to_string(),
            destination: "output/images/strip/01.png".to_string(),
            directory: "output/images/strip".to_string(),
        })
    );
    assert_eq!(image_copy("imagesx/01.png"), None);
    assert_eq!(image_copy("strip/01.png"), None);
}

#[test]
fn parent_dir_cuts_at_last_slash() {
    assert_eq!(parent_dir("a/b/c"), "a/b");
    assert_eq!(parent_dir("a/"), "a");
    assert_eq!(parent_dir("abc"), "");
}

#[test]
fn forward_slashes_everywhere() {
    assert_eq!(to_forward_slashes("a\\b\\c"), "a/b/c");
    assert_eq!(to_forward_slashes("plain"), "plain");
}

#[test]
fn text_order_matches_string_order() {
    let cases = ["", "a", "ab", "b", "B", "é", "z", "10", "9", "ä"];
    for x in cases {
        for y in cases {
            assert_eq!(text_le(x, y), x <= y, "{} {}", x, y);
        }
    }
    assert!(has_prefix("images/x", "images/"));
    assert!(!has_prefix("image", "images/"));
}

#[test]
fn sort_texts_sorts() {
    let v: Vec<String> = ["b", "a", "c", "a"].iter().map(|x| x.to_string()).collect();
    assert_eq!(sort_texts(&v), vec!["a", "a", "b", "c"]);
    assert!(sort_texts(&vec![]).is_empty());
}

#[test]
fn doc_text_line_breaks() {
    assert_eq!(doc_text("a\nb\n", true), "a\r\nb\r\n");
    assert_eq!(doc_text("a\nb\n", false), "a\nb\n");
}
