use augur_gui::naming::{
    default_export_name, display_name, ensure_extension, file_extension, file_stem,
    insert_timestamp_suffix, join_path, replay_config_name, replay_file_extension,
    sanitize_file_stem, slugify as slug_of, truncate, SplitPath,
};
use augur_gui::text::{
    blank, decimal_text, less_text, signed_decimal_text, to_lower_text, trim_text,
};
use augur_gui::timestamps::{civil_from_days, format_timestamp};

#[test]
fn names_split_at_the_last_dot() {
    assert_eq!(file_extension("a.b.raw").as_deref(), Some("raw"));
    assert_eq!(file_stem("a.b.raw"), "a.b");
    assert_eq!(file_extension(".hidden"), None);
    assert_eq!(file_stem(".hidden"), ".hidden");
    assert_eq!(file_extension("plain"), None);
    assert_eq!(replay_file_extension("REC.RAW").as_deref(), Some("raw"));
    assert_eq!(replay_config_name("rec.raw"), "rec.toml");
}

#[test]
fn extensions_are_given_once() {
    assert_eq!(ensure_extension("stack", "tiff"), "stack.tiff");
    assert_eq!(ensure_extension("stack.tif", "tiff"), "stack.tif");
    assert_eq!(ensure_extension("a", ""), "a");
    assert_eq!(ensure_extension(&ensure_extension("stack", "tiff"), "tiff"), "stack.tiff");
}

#[test]
fn stamps_stand_before_the_extension() {
    assert_eq!(insert_timestamp_suffix(Some("rec.csv"), "20260805"), "rec_20260805.csv");
    assert_eq!(insert_timestamp_suffix(Some("rec"), "20260805"), "rec_20260805.raw");
    assert_eq!(insert_timestamp_suffix(None, "20260805"), "output_20260805.raw");
}

#[test]
fn paths_are_put_together() {
    assert_eq!(join_path("/data", "rec.raw", '/'), "/data/rec.raw");
    assert_eq!(join_path("/data/", "rec.raw", '/'), "/data/rec.raw");
    assert_eq!(join_path("", "rec.raw", '/'), "rec.raw");
    let path = SplitPath { prefix: "/a/".into(), file_name: Some("b".into()), tail: "/".into() };
    assert_eq!(path.whole_text(), "/a/b/");
    assert_eq!(path.with_file_name("c.raw", '/'), "/a/c.raw");
    assert_eq!(display_name(Some("b"), "/a/b"), "b");
    assert_eq!(display_name(None, "/"), "/");
    assert!(default_export_name(Some("rec.raw")).starts_with("rec"));
}

#[test]
fn titles_become_safe_names() {
    assert_eq!(slug_of("Hello World"), "hello_world");
    assert_eq!(slug_of(&slug_of("Run 3 — sample.raw")), slug_of("Run 3 — sample.raw"));
    let stem = sanitize_file_stem("Fit: A/B (2)");
    assert!(stem.chars().all(|c| c.is_ascii_alphanumeric() || c == '_' || c == '-'), "{stem}");
    assert_eq!(truncate("abcdef", 10), "abcdef");
    assert_eq!(truncate("abcdefghij", 5), "abcde…");
}

#[test]
fn days_have_their_dates() {
    assert_eq!(civil_from_days(0), (1970, 1, 1));
    assert_eq!(civil_from_days(19_782), (2024, 2, 29));
    assert_eq!(civil_from_days(-1), (1969, 12, 31));
    assert_eq!(civil_from_days(-719_468), (0, 3, 1));
}

#[test]
fn stamps_are_told_to_the_second() {
    assert_eq!(format_timestamp(0), "19700101_000000");
    assert_eq!(format_timestamp(1_785_963_661), "20260805_210101");
    assert_ne!(format_timestamp(1), format_timestamp(2));
}

#[test]
fn texts_are_trimmed_and_compared() {
    assert_eq!(trim_text(" \u{2003}a b\n"), "a b");
    assert!(blank(" \t\n"));
    assert!(!blank(" x "));
    assert_eq!(to_lower_text("ÄBC"), "Äbc");
    assert_eq!(decimal_text(u64::MAX), u64::MAX.to_string());
    assert_eq!(signed_decimal_text(i64::MIN), i64::MIN.to_string());
    for (a, b) in [("a", "b"), ("", "a"), ("a", "aa"), ("Z", "a"), ("é", "z"), ("b", "a")] {
        assert_eq!(less_text(a, b), a < b, "{a} {b}");
    }
}
