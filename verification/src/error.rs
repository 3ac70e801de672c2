//! The ways in which a table can be malformed.

use crate::text::decimal_text;
use crate::text::string_of;
use crate::text::write_decimal;
use vstd::prelude::*;
use vstd::string::StringExecFns;

verus! {

/// Why a run over a table was abandoned. No partial output goes with it.
#[derive(Debug, Clone)]
pub enum TableError {
    /// The line that opens the table never appears.
    MissingStart,
    /// A number of a count cell could not be read; `text` is that number as written.
    BadCount { text: String },
    /// Group `group` of the row named `record` has fewer or more numbers than
    /// the output it is mapped to asks for.
    ShapeMismatch { record: String, group: usize },
}

/// A `TableError` with its texts as character sequences.
pub enum TableErrorView {
    MissingStart,
    BadCount { text: Seq<char> },
    ShapeMismatch { record: Seq<char>, group: nat },
}

impl View for TableError {
    type V = TableErrorView;

    open spec fn view(&self) -> TableErrorView {
        match *self {
            TableError::MissingStart => TableErrorView::MissingStart,
            TableError::BadCount { text } => TableErrorView::BadCount { text: text@ },
            TableError::ShapeMismatch { record, group } => TableErrorView::ShapeMismatch {
                record: record@,
                group: group as nat,
            },
        }
    }
}

/// What `describe` says of an error.
pub open spec fn description(e: TableErrorView) -> Seq<char> {
    match e {
        TableErrorView::MissingStart => "table start marker not found"@,
        TableErrorView::BadCount { text } => "failed to parse: \""@ + text + "\""@,
        TableErrorView::ShapeMismatch { record, group } => "row \""@ + record + "\": count group "@
            + decimal_text(group) + " has the wrong shape"@,
    }
}

impl TableError {
    /// The error in words, for a diagnostic.
    pub fn describe(&self) -> (s: String)
        ensures
            s@ == description(self@),
    {
        match self {
            TableError::MissingStart => String::from_str("table start marker not found"),
            TableError::BadCount { text } => {
                let mut s = String::from_str("failed to parse: \"");
                s.append(text.as_str());
                s.append("\"");
                s
            },
            TableError::ShapeMismatch { record, group } => {
                let mut s = String::from_str("row \"");
                s.append(record.as_str());
                s.append("\": count group ");
                let digits = string_of(&write_decimal(*group));
                s.append(digits.as_str());
                s.append(" has the wrong shape");
                s
            },
        }
    }
}

} // verus!
