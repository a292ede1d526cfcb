use martin::db::store::{is_duplicate_column, require_affected, RowKind};
use martin::text::decimal_i64;

#[test]
fn a_statement_that_changed_rows_succeeded() {
    assert_eq!(require_affected(1, RowKind::Transcription, 5), Ok(()));
    assert_eq!(require_affected(3, RowKind::PendingRecording, 5), Ok(()));
}

#[test]
fn a_statement_that_changed_nothing_did_not_find_the_row() {
    let err = require_affected(0, RowKind::Transcription, 999).unwrap_err();
    assert_eq!(err, "Transcription with id 999 not found");
    assert!(err.contains("not found"));
    let err = require_affected(0, RowKind::PendingRecording, -3).unwrap_err();
    assert_eq!(err, "Pending recording with id -3 not found");
}

#[test]
fn duplicate_column_errors_are_recognized() {
    assert!(is_duplicate_column("duplicate column name: status"));
    assert!(!is_duplicate_column("no such table: transcriptions"));
}

#[test]
fn decimal_text_matches_std_formatting() {
    for n in [0i64, 7, 10, 42, 999, -1, -120, i64::MAX, i64::MIN] {
        assert_eq!(decimal_i64(n), n.to_string());
    }
}
