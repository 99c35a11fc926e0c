//! Why a file counts as changed though its diff is empty: the classification
//! on the contents, modes and line-ending settings the engine reads.

use terra_git::domain::{EolStyle, UnchangedReason};
use terra_git::ops::{
    cap_image, eol_style, expected_line_endings, explain_unchanged, image_diff, image_mime, is_binary, mode_text,
    strip_cr_before_lf, to_data_url, Attr, EolConfig, MAX_IMAGE_BYTES,
};

fn config(autocrlf: Option<&str>, eol: Option<&str>) -> EolConfig {
    EolConfig { autocrlf: autocrlf.map(String::from), eol: eol.map(String::from) }
}

fn text_auto() -> Attr {
    Attr::Value("auto".to_string())
}

#[test]
fn working_copy_lf_while_checkout_writes_crlf_is_eol_only() {
    let expected =
        expected_line_endings(&Attr::Unspecified, &text_auto(), Some(&config(Some("false"), Some("crlf"))), false);
    assert_eq!(expected, Some(EolStyle::Crlf));
    let blob = b"one\ntwo\nthree\n";
    let info = explain_unchanged(Some(blob), Some(blob), None, false, expected);
    assert_eq!(info.reason, UnchangedReason::EolOnly);
    assert_eq!(info.new_eol, Some(EolStyle::Lf));
    assert_eq!(info.expected_eol, Some(EolStyle::Crlf));
}

#[test]
fn working_copy_crlf_against_lf_blob_is_eol_only() {
    let info = explain_unchanged(Some(b"one\ntwo\nthree\n"), Some(b"one\r\ntwo\r\nthree\r\n"), None, false, None);
    assert_eq!(info.reason, UnchangedReason::EolOnly);
    assert_eq!(info.old_eol, Some(EolStyle::Lf));
    assert_eq!(info.new_eol, Some(EolStyle::Crlf));
}

#[test]
fn mode_bit_only_is_reported_as_such() {
    let script = b"#!/bin/sh\necho hi\n";
    let info = explain_unchanged(Some(script), Some(script), Some((0o100644, 0o100755)), true, None);
    assert_eq!(info.reason, UnchangedReason::ModeOnly);
    assert_eq!(info.old_mode.as_deref(), Some("100644"));
    assert_eq!(info.new_mode.as_deref(), Some("100755"));
}

#[test]
fn real_change_is_not_classified_as_harmless() {
    let info = explain_unchanged(Some(b"one\ntwo\n"), Some(b"one\nTWO\n"), None, false, None);
    assert_eq!(info.reason, UnchangedReason::Unknown);
}

#[test]
fn binary_change_is_not_classified_as_eol_only() {
    let info = explain_unchanged(Some(&[0u8, 159, 146, 150, 0, 1, 2]), Some(&[0u8, 1, 2, 3, 4, 5, 6, 7]), None, false, None);
    assert_ne!(info.reason, UnchangedReason::EolOnly);
    assert_ne!(info.reason, UnchangedReason::Identical);
}

#[test]
fn newly_created_file_is_not_reported_as_a_mode_change() {
    let content = b"PASSWORD=hunter2\nvery important\n";
    let staged = explain_unchanged(None, Some(b""), Some((0, 0o100644)), true, None);
    let unstaged = explain_unchanged(Some(b""), Some(content), Some((0o100644, 0o100644)), false, None);
    for info in [staged, unstaged] {
        assert_ne!(info.reason, UnchangedReason::ModeOnly);
        assert_ne!(info.reason, UnchangedReason::Identical);
    }
}

#[test]
fn staged_deletion_is_not_reported_as_a_mode_change() {
    let info = explain_unchanged(Some(b""), None, Some((0o100644, 0)), true, None);
    assert_ne!(info.reason, UnchangedReason::ModeOnly);
    assert_ne!(info.reason, UnchangedReason::Identical);
}

#[test]
fn binary_content_differing_in_cr_is_not_eol_only() {
    let info = explain_unchanged(Some(&[0u8, 1, b'\r', b'\n', 2]), Some(&[0u8, 1, b'\n', 2]), None, false, None);
    assert_eq!(info.reason, UnchangedReason::Unknown);
}

#[test]
fn mixed_line_endings_are_reported_as_mixed() {
    let info = explain_unchanged(Some(b"one\ntwo\nthree\n"), Some(b"one\r\ntwo\nthree\r\n"), None, false, None);
    assert_eq!(info.reason, UnchangedReason::EolOnly);
    assert_eq!(info.new_eol, Some(EolStyle::Mixed));
}

#[test]
fn autocrlf_is_read_boolean_and_case_insensitively() {
    for v in ["True", "1", "yes", "ON"] {
        let expected = expected_line_endings(&Attr::Unspecified, &text_auto(), Some(&config(Some(v), None)), false);
        assert_eq!(expected, Some(EolStyle::Crlf), "{v}");
    }
    let expected = expected_line_endings(&Attr::Unspecified, &text_auto(), Some(&config(Some("True"), None)), false);
    let info = explain_unchanged(Some(b"one\ntwo\n"), Some(b"one\ntwo\n"), None, false, expected);
    assert_eq!(info.reason, UnchangedReason::EolOnly);
    assert_eq!(info.expected_eol, Some(EolStyle::Crlf));
}

#[test]
fn autocrlf_input_claims_no_expectation() {
    let expected = expected_line_endings(&Attr::Unspecified, &text_auto(), Some(&config(Some("input"), None)), false);
    assert_eq!(expected, None);
    let info = explain_unchanged(Some(b"one\ntwo\n"), Some(b"one\ntwo\n"), None, false, expected);
    assert_eq!(info.reason, UnchangedReason::Identical);
    assert_eq!(info.expected_eol, None);
}

#[test]
fn clean_file_reports_identical() {
    let expected = expected_line_endings(&Attr::Unspecified, &Attr::Unspecified, Some(&config(None, None)), false);
    assert_eq!(expected, None);
    let info = explain_unchanged(Some(b"one\ntwo\n"), Some(b"one\ntwo\n"), None, false, expected);
    assert_eq!(info.reason, UnchangedReason::Identical);
}

#[test]
fn eol_attributes_and_platform_default() {
    let cfg = config(None, None);
    assert_eq!(expected_line_endings(&Attr::Value("crlf".into()), &Attr::Off, Some(&cfg), false), Some(EolStyle::Crlf));
    assert_eq!(expected_line_endings(&Attr::Value("lf".into()), &Attr::On, Some(&cfg), true), Some(EolStyle::Lf));
    assert_eq!(expected_line_endings(&Attr::Unspecified, &Attr::Off, Some(&config(Some("true"), None)), false), None);
    assert_eq!(expected_line_endings(&Attr::Unspecified, &Attr::On, Some(&cfg), false), Some(EolStyle::Lf));
    assert_eq!(expected_line_endings(&Attr::Unspecified, &Attr::On, Some(&cfg), true), Some(EolStyle::Crlf));
    assert_eq!(expected_line_endings(&Attr::Unspecified, &Attr::On, None, false), None);
}

#[test]
fn content_classification_basics() {
    assert_eq!(eol_style(b"a\nb\n"), EolStyle::Lf);
    assert_eq!(eol_style(b"a\r\nb\r\n"), EolStyle::Crlf);
    assert_eq!(eol_style(b"a\r\nb\n"), EolStyle::Mixed);
    assert_eq!(eol_style(b"abc"), EolStyle::NoBreaks);
    assert_eq!(strip_cr_before_lf(b"a\r\nb\rc\r\n"), b"a\nb\rc\n".to_vec());
    assert!(is_binary(&[1, 0, 2]));
    assert!(!is_binary(b"text"));
    assert_eq!(mode_text(0o100644), "100644");
    assert_eq!(mode_text(0o120000), "120000");
}

#[test]
fn image_data_urls() {
    assert_eq!(image_mime("logo.PNG"), Some("image/png"));
    assert_eq!(image_mime("a.jpeg"), Some("image/jpeg"));
    assert_eq!(image_mime("icon.svg"), Some("image/svg+xml"));
    assert_eq!(image_mime("notes.txt"), None);
    assert_eq!(to_data_url("image/png", b"Man"), "data:image/png;base64,TWFu");
    assert_eq!(to_data_url("image/gif", b"Ma"), "data:image/gif;base64,TWE=");
    assert_eq!(to_data_url("image/gif", b"M"), "data:image/gif;base64,TQ==");
    assert_eq!(cap_image(Some(vec![1, 2])), Some(vec![1, 2]));
    assert_eq!(cap_image(Some(vec![0u8; MAX_IMAGE_BYTES + 1])), None);
    let d = image_diff("image/png", None, Some(b"Man".to_vec()));
    assert_eq!(d.old_data_url, None);
    assert_eq!(d.new_data_url.as_deref(), Some("data:image/png;base64,TWFu"));
}
