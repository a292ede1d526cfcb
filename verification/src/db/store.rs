//! Decisions of the transcription store: which failures of a statement are errors,
//! and what they say. The SQLite database itself is opened and queried by the
//! application.
use vstd::prelude::*;
use crate::text;

verus! {

/// The kind of row a statement was meant to change.
#[derive(Clone, Copy, Debug, PartialEq, Eq)]
pub enum RowKind {
    Transcription,
    PendingRecording,
}

/// How a row of each kind is named in messages.
pub open spec fn row_label(kind: RowKind) -> Seq<char> {
    match kind {
        RowKind::Transcription => "Transcription"@,
        RowKind::PendingRecording => "Pending recording"@,
    }
}

/// The error of a statement that changed no row: `<kind> with id <id> not found`.
pub open spec fn not_found_message(kind: RowKind, id: i64) -> Seq<char> {
    row_label(kind) + " with id "@ + text::decimal(id as int) + " not found"@
}

/// An update or delete of the row `id` that changed `affected` rows succeeded when it
/// changed at least one; otherwise the row was not found.
pub fn require_affected(affected: usize, kind: RowKind, id: i64) -> (r: Result<(), String>)
    ensures
        r is Ok <==> affected > 0,
        r matches Err(m) ==> m@ == not_found_message(kind, id),
{
    if affected > 0 {
        return Ok(());
    }
    let mut m = match kind {
        RowKind::Transcription => String::from_str("Transcription"),
        RowKind::PendingRecording => String::from_str("Pending recording"),
    };
    m.append(" with id ");
    let digits = text::decimal_i64(id);
    m.append(digits.as_str());
    m.append(" not found");
    Err(m)
}

/// What a migration error says when the column already exists.
pub open spec fn duplicate_column_text() -> Seq<char> {
    "duplicate column name"@
}

/// Whether the error of adding the `status` column says the column already exists
/// (the database was migrated before), which makes the migration a no-op.
pub fn is_duplicate_column(message: &str) -> (r: bool)
    ensures
        r == text::occurs(message@, duplicate_column_text()),
{
    let m = text::chars_of(message);
    let pat = text::chars_of("duplicate column name");
    text::contains_chars(&m, &pat)
}

} // verus!
