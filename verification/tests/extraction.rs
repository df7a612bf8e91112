use kopia_fsrepo_recovery::extract_from_log::{
    classify_line, extract_records, to_expected_path, try_to_expected_path, ExtractError,
    LineClass,
};

fn lines(raw: &[&str]) -> Vec<String> {
    raw.iter().map(|s| s.to_string()).collect()
}

#[test]
fn derives_nested_path() {
    assert_eq!(to_expected_path("abcdefxyz"), "abc/def/xyz.f");
}

#[test]
fn derives_path_for_six_char_identifier() {
    assert_eq!(to_expected_path("abcdef"), "abc/def/.f");
}

#[test]
fn derivation_is_stable_across_calls() {
    let a = to_expected_path("0123456789abcdef");
    let b = to_expected_path("0123456789abcdef");
    assert_eq!(a, b);
    assert_eq!(a, "012/345/6789abcdef.f");
}

#[test]
fn checked_derivation_rejects_short_identifier() {
    assert_eq!(try_to_expected_path("abcde"), None);
    assert_eq!(
        try_to_expected_path("abcdef0").as_deref(),
        Some("abc/def/0.f")
    );
}

#[test]
fn classifies_well_formed_error_line() {
    let line = "error processing snapshot 12: object k123 is backed by missing blob blob42xyz";
    match classify_line(line) {
        LineClass::MatchedError { object_id, blob_id } => {
            assert_eq!(object_id, "k123");
            assert_eq!(blob_id, "blob42xyz");
        }
        _ => panic!("expected a matched error line"),
    }
}

#[test]
fn greedy_capture_takes_rightmost_markers() {
    let line = "error processing foo object bar object baz is backed by missing blob blob99xyz";
    match classify_line(line) {
        LineClass::MatchedError { object_id, blob_id } => {
            assert_eq!(object_id, "baz");
            assert_eq!(blob_id, "blob99xyz");
        }
        _ => panic!("expected a matched error line"),
    }
}

#[test]
fn error_prefix_without_shape_is_unprocessable() {
    assert!(matches!(
        classify_line("error processing gibberish"),
        LineClass::UnprocessableError
    ));
    assert!(matches!(
        classify_line("error processing"),
        LineClass::UnprocessableError
    ));
    assert!(matches!(
        classify_line("error processingX object a is backed by missing blob b12345"),
        LineClass::UnprocessableError
    ));
}

#[test]
fn classifies_count_and_other_lines() {
    match classify_line("encountered 3 errors of significance") {
        LineClass::CountLine { value } => assert_eq!(value, 3),
        _ => panic!("expected a count line"),
    }
    assert!(matches!(classify_line("all good"), LineClass::Other));
    assert!(matches!(classify_line("encountered errors"), LineClass::Other));
    assert!(matches!(
        classify_line("encountered 99999999999999999999 errors"),
        LineClass::CountOverflow
    ));
}

#[test]
fn extracts_manifest_from_log() {
    let log = lines(&[
        "some banner",
        "error processing snapshot a: object oid1 is backed by missing blob abcdef123",
        "error processing snapshot b: object oid2 is backed by missing blob zzz999888",
        "encountered 2 errors",
    ]);
    let ex = extract_records(&log, false).expect("extraction succeeds");
    assert_eq!(ex.records.len(), 2);
    assert_eq!(ex.records[0].object_id, "oid1");
    assert_eq!(ex.records[0].blob_id, "abcdef123");
    assert_eq!(ex.records[0].expected_path, "abc/def/123.f");
    assert_eq!(ex.records[1].expected_path, "zzz/999/888.f");
    assert_eq!(ex.reported_count, 2);
    assert!(!ex.count_mismatch);
    assert!(ex.unprocessable.is_empty());
}

#[test]
fn unprocessable_line_aborts_by_default() {
    let log = lines(&[
        "error processing snapshot a: object oid1 is backed by missing blob abcdef123",
        "error processing gibberish",
        "encountered 1",
    ]);
    match extract_records(&log, false) {
        Err(ExtractError::UnprocessableLines { lines: ul }) => {
            assert_eq!(ul, vec!["error processing gibberish".to_string()]);
        }
        _ => panic!("expected the unprocessable line to abort the extraction"),
    }
}

#[test]
fn unprocessable_line_is_tolerated_on_request() {
    let log = lines(&[
        "error processing snapshot a: object oid1 is backed by missing blob abcdef123",
        "error processing gibberish",
        "encountered 1",
    ]);
    let ex = extract_records(&log, true).expect("extraction proceeds past the unknown line");
    assert_eq!(ex.records.len(), 1);
    assert_eq!(ex.records[0].blob_id, "abcdef123");
    assert_eq!(ex.unprocessable, vec!["error processing gibberish".to_string()]);
    assert_eq!(ex.reported_count, 1);
    assert!(!ex.count_mismatch);
}

#[test]
fn count_mismatch_is_reported_but_not_fatal() {
    let log = lines(&[
        "error processing snapshot a: object oid1 is backed by missing blob abcdef123",
        "encountered 2",
    ]);
    let ex = extract_records(&log, false).expect("extraction still succeeds");
    assert_eq!(ex.records.len(), 1);
    assert_eq!(ex.reported_count, 2);
    assert!(ex.count_mismatch);
}

#[test]
fn missing_total_count_is_fatal() {
    let log = lines(&[
        "error processing snapshot a: object oid1 is backed by missing blob abcdef123",
    ]);
    assert!(matches!(
        extract_records(&log, false),
        Err(ExtractError::MissingTotalCount)
    ));
}

#[test]
fn most_recent_count_wins() {
    let log = lines(&[
        "encountered 5",
        "error processing snapshot a: object oid1 is backed by missing blob abcdef123",
        "encountered 1",
    ]);
    let ex = extract_records(&log, false).expect("extraction succeeds");
    assert_eq!(ex.reported_count, 1);
    assert!(!ex.count_mismatch);
}

#[test]
fn short_blob_identifier_is_fatal() {
    let log = lines(&[
        "error processing snapshot a: object oid1 is backed by missing blob abc",
        "encountered 1",
    ]);
    match extract_records(&log, false) {
        Err(ExtractError::ShortBlobId { blob_id }) => assert_eq!(blob_id, "abc"),
        _ => panic!("expected the short blob identifier to abort the extraction"),
    }
}

#[test]
fn count_out_of_range_is_fatal() {
    let log = lines(&["encountered 99999999999999999999"]);
    assert!(matches!(
        extract_records(&log, false),
        Err(ExtractError::CountOutOfRange)
    ));
}

#[test]
fn zero_count_with_no_error_lines_succeeds() {
    let log = lines(&["encountered 0 errors", "all done"]);
    let ex = extract_records(&log, false).expect("nothing to extract is still a success");
    assert!(ex.records.is_empty());
    assert_eq!(ex.reported_count, 0);
    assert!(!ex.count_mismatch);
    assert!(ex.unprocessable.is_empty());
}
