//! Failures of statement parsing and aggregation.

use vstd::prelude::*;

verus! {

/// Failure of parsing or aggregating brokerage statements.
///
/// `TableNotFound` is the only recoverable kind: at the report level it
/// becomes an absent section.  Every other kind aborts extraction of the
/// whole document.
#[derive(Debug, Clone)]
pub enum ReportError {
    /// Reading the source text failed; carries the reader's message.
    Io(String),
    /// The markup could not be handled.
    Html(String),
    /// An expected table is missing from the document.
    TableNotFound {
        /// Name of the table that was looked for.
        table: &'static str,
    },
    /// A cell that should hold a number does not; carries the offending
    /// text and the logical column name.
    Number {
        /// The offending cell text, trimmed.
        value: String,
        /// The logical column the cell belongs to.
        column: &'static str,
    },
    /// A cell that should hold a `dd.mm.yyyy` date does not.
    Date {
        /// The offending cell text, trimmed.
        value: String,
    },
    /// A required field is absent from the document.
    MissingField {
        /// Name of the missing field.
        field: &'static str,
    },
    /// Text did not match the expected shape; carries the text.
    Regex(String),
}

impl ReportError {
    /// True exactly for the recoverable "table is absent" failure.
    pub open spec fn is_table_not_found(&self) -> bool {
        self matches ReportError::TableNotFound { .. }
    }
}

} // verus!
