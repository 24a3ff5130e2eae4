//! What can be wrong with the files of a migrations directory, and with a
//! baseline that is asked for.

use crate::text::{decimal, decimal_of};
use vstd::prelude::*;
use vstd::string::StringExecFns;

verus! {

/// A history or baseline file that cannot be read.
#[derive(Debug)]
pub enum ParseFailure {
    /// A record of the history whose timestamp is none; `text` is what stands there.
    HistoryTimestamp { text: String },
    /// A baseline whose `created` field is no timestamp; `text` is what stands there.
    BaselineTimestamp { text: String },
    /// A baseline without a `version` field.
    MissingVersion,
    /// A baseline without a `created` field.
    MissingCreated,
}

/// What a `ParseFailure` holds.
pub enum ParseFailureView {
    HistoryTimestamp { text: Seq<char> },
    BaselineTimestamp { text: Seq<char> },
    MissingVersion,
    MissingCreated,
}

impl View for ParseFailure {
    type V = ParseFailureView;

    open spec fn view(&self) -> ParseFailureView {
        match self {
            ParseFailure::HistoryTimestamp { text } => ParseFailureView::HistoryTimestamp {
                text: text@,
            },
            ParseFailure::BaselineTimestamp { text } => ParseFailureView::BaselineTimestamp {
                text: text@,
            },
            ParseFailure::MissingVersion => ParseFailureView::MissingVersion,
            ParseFailure::MissingCreated => ParseFailureView::MissingCreated,
        }
    }
}

impl ParseFailureView {
    /// The words in which the error is told.
    pub open spec fn message(self) -> Seq<char> {
        match self {
            ParseFailureView::HistoryTimestamp { text } => "Invalid timestamp in history file: "@
                + text,
            ParseFailureView::BaselineTimestamp { text } => "Invalid timestamp in baseline: "@
                + text,
            ParseFailureView::MissingVersion => "Baseline file missing 'version' field"@,
            ParseFailureView::MissingCreated => "Baseline file missing 'created' field"@,
        }
    }
}

impl ParseFailure {
    /// The words in which the error is told.
    pub fn message(&self) -> (r: String)
        ensures
            r@ == self@.message(),
    {
        match self {
            ParseFailure::HistoryTimestamp { text } => {
                let mut r = "Invalid timestamp in history file: ".to_owned();
                r.append(text.as_str());
                r
            },
            ParseFailure::BaselineTimestamp { text } => {
                let mut r = "Invalid timestamp in baseline: ".to_owned();
                r.append(text.as_str());
                r
            },
            ParseFailure::MissingVersion => "Baseline file missing 'version' field".to_owned(),
            ParseFailure::MissingCreated => "Baseline file missing 'created' field".to_owned(),
        }
    }
}

/// Why a baseline cannot be set at a version.
#[derive(Debug)]
pub enum ValidationError {
    /// No migration has the version.
    NoSuchVersion { version: String },
    /// The baseline that exists is at `from`, and `to` comes before it.
    BackwardMove { from: String, to: String },
    /// The migration `id` is at or before the version and has not been applied.
    Unapplied { id: String },
}

/// What a `ValidationError` holds.
pub enum ValidationErrorView {
    NoSuchVersion { version: Seq<char> },
    BackwardMove { from: Seq<char>, to: Seq<char> },
    Unapplied { id: Seq<char> },
}

impl View for ValidationError {
    type V = ValidationErrorView;

    open spec fn view(&self) -> ValidationErrorView {
        match self {
            ValidationError::NoSuchVersion { version } => ValidationErrorView::NoSuchVersion {
                version: version@,
            },
            ValidationError::BackwardMove { from, to } => ValidationErrorView::BackwardMove {
                from: from@,
                to: to@,
            },
            ValidationError::Unapplied { id } => ValidationErrorView::Unapplied { id: id@ },
        }
    }
}

impl ValidationErrorView {
    /// The words in which the error is told.
    pub open spec fn message(self) -> Seq<char> {
        match self {
            ValidationErrorView::NoSuchVersion { version } => "No migration found with version '"@
                + version + "'"@,
            ValidationErrorView::BackwardMove { from, to } => "Cannot move baseline backward from '"@
                + from + "' to '"@ + to + "'"@,
            ValidationErrorView::Unapplied { id } => "Cannot baseline: migration '"@ + id
                + "' has not been applied"@,
        }
    }
}

impl ValidationError {
    /// The words in which the error is told.
    pub fn message(&self) -> (r: String)
        ensures
            r@ == self@.message(),
    {
        match self {
            ValidationError::NoSuchVersion { version } => {
                let mut r = "No migration found with version '".to_owned();
                r.append(version.as_str());
                r.append("'");
                r
            },
            ValidationError::BackwardMove { from, to } => {
                let mut r = "Cannot move baseline backward from '".to_owned();
                r.append(from.as_str());
                r.append("' to '");
                r.append(to.as_str());
                r.append("'");
                r
            },
            ValidationError::Unapplied { id } => {
                let mut r = "Cannot baseline: migration '".to_owned();
                r.append(id.as_str());
                r.append("' has not been applied");
                r
            },
        }
    }
}

/// A migration that failed: the run stopped at it.
#[derive(Debug)]
pub struct ExecutionError {
    /// The id of the migration.
    pub id: String,
    /// The exit code of its process.
    pub exit_code: i32,
}

/// What an `ExecutionError` holds.
pub struct ExecutionErrorView {
    pub id: Seq<char>,
    pub exit_code: i32,
}

impl View for ExecutionError {
    type V = ExecutionErrorView;

    open spec fn view(&self) -> ExecutionErrorView {
        ExecutionErrorView { id: self.id@, exit_code: self.exit_code }
    }
}

impl ExecutionErrorView {
    /// The words in which the error is told.
    pub open spec fn message(self) -> Seq<char> {
        "Migration "@ + self.id + " failed with exit code "@ + decimal_of(self.exit_code as int)
    }
}

impl ExecutionError {
    /// The words in which the error is told.
    pub fn message(&self) -> (r: String)
        ensures
            r@ == self@.message(),
    {
        let code = decimal(self.exit_code as i64);
        let mut r = "Migration ".to_owned();
        r.append(self.id.as_str());
        r.append(" failed with exit code ");
        r.append(code.as_str());
        r
    }
}

} // verus!
