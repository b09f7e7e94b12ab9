//! Behaviour of the definition-file parser on whole texts.

use paradox_patch::error::{ParseIssue, Span};
use paradox_patch::parse::parse_dlc;

fn ok(text: &[u8]) -> (u32, Vec<u8>) {
    match parse_dlc(text) {
        Ok(e) => (e.id, e.name),
        Err(e) => panic!("expected success, got {:?}", e),
    }
}

fn err(text: &[u8]) -> ParseIssue {
    match parse_dlc(text) {
        Ok(e) => panic!("expected failure, got id={} name={:?}", e.id, e.name),
        Err(e) => e,
    }
}

#[test]
fn parses_well_formed_file() {
    let (id, name) = ok(b"name = \"Grand Expansion\"\nsteam_id = \"1234\"\n");
    assert_eq!(id, 1234);
    assert_eq!(name, b"Grand Expansion".to_vec());
}

#[test]
fn parses_regardless_of_key_order() {
    let (id, name) = ok(b"steam_id = \"77\"\nname = \"Pack\"\n");
    assert_eq!(id, 77);
    assert_eq!(name, b"Pack".to_vec());
}

#[test]
fn ignores_unrecognized_keys_and_noise() {
    let text = b"# comment line\nversion = \"3\"\nname = \"Pack\"\nnot a key value line\nsteam_id = \"8\"\ntrailing junk\n";
    let (id, name) = ok(text);
    assert_eq!(id, 8);
    assert_eq!(name, b"Pack".to_vec());
}

#[test]
fn later_bindings_win() {
    let (id, name) = ok(b"name = \"First\"\nsteam_id = \"1\"\nname = \"Second\"\nsteam_id = \"2\"\n");
    assert_eq!(id, 2);
    assert_eq!(name, b"Second".to_vec());
}

#[test]
fn unquoted_values_are_accepted() {
    let (id, name) = ok(b"name = Plain Name\nsteam_id = 42\n");
    assert_eq!(id, 42);
    assert_eq!(name, b"Plain Name".to_vec());
}

#[test]
fn leading_plus_parses_as_rust_does() {
    let (id, _) = ok(b"name = \"P\"\nsteam_id = \"+123\"\n");
    assert_eq!(id, 123);
}

#[test]
fn crlf_lines_are_handled() {
    let (id, name) = ok(b"name = \"Pack\"\r\nsteam_id = \"5\"\r\n");
    assert_eq!(id, 5);
    assert_eq!(name, b"Pack".to_vec());
}

#[test]
fn missing_file_terminator_is_fine() {
    let (id, name) = ok(b"name = \"Pack\"\nsteam_id = \"5\"");
    assert_eq!(id, 5);
    assert_eq!(name, b"Pack".to_vec());
}

#[test]
fn missing_steam_id_fails_without_span() {
    assert_eq!(err(b"name = \"Pack\"\n"), ParseIssue::MissingField);
}

#[test]
fn missing_name_fails_without_span() {
    assert_eq!(err(b"steam_id = \"1234\"\n"), ParseIssue::MissingField);
}

#[test]
fn empty_file_fails_without_span() {
    assert_eq!(err(b""), ParseIssue::MissingField);
}

#[test]
fn zero_id_counts_as_missing() {
    assert_eq!(err(b"name = \"Pack\"\nsteam_id = \"0\"\n"), ParseIssue::MissingField);
}

#[test]
fn empty_name_counts_as_missing() {
    assert_eq!(err(b"name = \"\"\nsteam_id = \"9\"\n"), ParseIssue::MissingField);
}

#[test]
fn non_numeric_id_fails_with_exact_span() {
    // the span covers the whole value token, quotes included
    let text = b"steam_id = \"12x4\"\nname = \"Pack\"\n";
    assert_eq!(
        err(text),
        ParseIssue::InvalidId(Span { start: 11, len: 6 })
    );
    assert_eq!(&text[11..11 + 6], b"\"12x4\"");
}

#[test]
fn non_numeric_id_span_on_later_line() {
    let text = b"name = \"Pack\"\nsteam_id = abc\n";
    assert_eq!(
        err(text),
        ParseIssue::InvalidId(Span { start: 25, len: 3 })
    );
    assert_eq!(&text[25..25 + 3], b"abc");
}

#[test]
fn overflowing_id_fails_with_span() {
    let text = b"steam_id = \"99999999999999999999\"\nname = \"P\"\n";
    assert_eq!(
        err(text),
        ParseIssue::InvalidId(Span { start: 11, len: 22 })
    );
}

#[test]
fn empty_quoted_id_fails_with_span() {
    let text = b"steam_id = \"\"\nname = \"P\"\n";
    assert_eq!(err(text), ParseIssue::InvalidId(Span { start: 11, len: 2 }));
}

#[test]
fn largest_id_is_accepted() {
    let (id, _) = ok(b"name = \"P\"\nsteam_id = \"4294967295\"\n");
    assert_eq!(id, u32::MAX);
}

#[test]
fn id_just_past_u32_max_is_rejected() {
    let text = b"name = \"P\"\nsteam_id = \"4294967296\"\n";
    assert_eq!(err(text), ParseIssue::InvalidId(Span { start: 22, len: 12 }));
}

#[test]
fn value_stops_at_second_separator() {
    // a second ` = ` on the line cuts the value short, as `split` does
    let (_, name) = ok(b"name = A = B\nsteam_id = \"3\"\n");
    assert_eq!(name, b"A".to_vec());
}

#[test]
fn all_quotes_value_trims_to_nothing() {
    assert_eq!(err(b"name = \"\"\"\"\nsteam_id = \"3\"\n"), ParseIssue::MissingField);
}

#[test]
fn parse_issue_messages() {
    assert_eq!(ParseIssue::MissingField.message(), "Cannot find 'steam_id' or 'name'");
    assert_eq!(
        ParseIssue::InvalidId(Span { start: 0, len: 1 }).message(),
        "Wrong number format"
    );
}
