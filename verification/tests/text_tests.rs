use barmenu::records::application_from_attrs;
use barmenu::text::{split_categories, truncate_label};

#[test]
fn short_label_is_unchanged() {
    assert_eq!(truncate_label("Files", 25), "Files");
}

#[test]
fn label_at_the_limit_is_unchanged() {
    assert_eq!(truncate_label("abcd", 4), "abcd");
}

#[test]
fn long_label_is_cut_with_ellipsis() {
    assert_eq!(truncate_label("abcdefgh", 4), "abc…");
}

#[test]
fn truncation_counts_grapheme_clusters() {
    // Each "e" with a combining acute accent is one cluster of two chars.
    let label = "e\u{301}e\u{301}e\u{301}e\u{301}e\u{301}";
    assert_eq!(truncate_label(label, 3), "e\u{301}e\u{301}…");
    assert_eq!(truncate_label(label, 5), label);
}

#[test]
fn split_drops_trailing_separators() {
    assert_eq!(split_categories("Audio;Video;"), vec!["Audio", "Video"]);
}

#[test]
fn split_keeps_inner_empty_fields() {
    assert_eq!(split_categories("A;;B"), vec!["A", "", "B"]);
}

#[test]
fn split_of_empty_attribute_is_one_empty_field() {
    assert_eq!(split_categories(""), vec![""]);
    assert_eq!(split_categories(";;"), vec![""]);
}

#[test]
fn split_without_separator_is_one_field() {
    assert_eq!(split_categories("Misc"), vec!["Misc"]);
}

#[test]
fn application_is_built_from_attributes() {
    let record = application_from_attrs(
        "gimp.desktop",
        Some("Application"),
        Some("GNU Image Manipulation Program"),
        Some("Graphics;2DGraphics;"),
        None,
        25,
    )
    .unwrap();
    assert_eq!(record.label, "GNU Image Manipulation P…");
    assert_eq!(record.file_name, "gimp.desktop");
    assert_eq!(record.categories, vec!["Graphics", "2DGraphics"]);
}

#[test]
fn missing_categories_default_to_misc() {
    let record =
        application_from_attrs("a.desktop", Some("Application"), Some("A"), None, None, 25)
            .unwrap();
    assert_eq!(record.categories, vec!["Misc"]);
}

#[test]
fn non_application_entries_are_rejected() {
    assert!(application_from_attrs("a.desktop", Some("Link"), Some("A"), None, None, 25).is_none());
    assert!(application_from_attrs("a.desktop", None, Some("A"), None, None, 25).is_none());
}

#[test]
fn nameless_entries_are_rejected() {
    assert!(application_from_attrs("a.desktop", Some("Application"), None, None, None, 25)
        .is_none());
}

#[test]
fn hidden_entries_are_rejected() {
    assert!(application_from_attrs(
        "a.desktop",
        Some("Application"),
        Some("A"),
        None,
        Some("true"),
        25,
    )
    .is_none());
    assert!(application_from_attrs(
        "a.desktop",
        Some("Application"),
        Some("A"),
        None,
        Some("false"),
        25,
    )
    .is_some());
}
