//! What can go wrong with the memory store and its tool.
use vstd::prelude::*;

use crate::text::{decimal, decimal_of, labelled, quote, quoted_text};

verus! {

/// Errors of the memory store and its tool.
#[derive(Debug, PartialEq)]
pub enum MemoryError {
    Storage(String),
    OverLimit { target: String, actual: usize, limit: usize },
    EntryTooLong { actual: usize, limit: usize },
    NoMatch { search: String },
    Ambiguous { search: String, count: usize },
    InvalidAction { action: String },
    InvalidTarget { target: String },
    MissingField { field: &'static str },
    Threat { kind: &'static str, detail: String },
    DriftDetected { target: String, backup_key: String },
    Lock { target: String, source: String },
}

/// The model of a memory error.
pub ghost enum MemoryErrorView {
    Storage(Seq<char>),
    OverLimit { target: Seq<char>, actual: nat, limit: nat },
    EntryTooLong { actual: nat, limit: nat },
    NoMatch { search: Seq<char> },
    Ambiguous { search: Seq<char>, count: nat },
    InvalidAction { action: Seq<char> },
    InvalidTarget { target: Seq<char> },
    MissingField { field: Seq<char> },
    Threat { kind: Seq<char>, detail: Seq<char> },
    DriftDetected { target: Seq<char>, backup_key: Seq<char> },
    Lock { target: Seq<char>, source: Seq<char> },
}

impl DeepView for MemoryError {
    type V = MemoryErrorView;

    open spec fn deep_view(&self) -> MemoryErrorView {
        match *self {
            MemoryError::Storage(m) => MemoryErrorView::Storage(m@),
            MemoryError::OverLimit { target, actual, limit } => MemoryErrorView::OverLimit {
                target: target@,
                actual: actual as nat,
                limit: limit as nat,
            },
            MemoryError::EntryTooLong { actual, limit } => MemoryErrorView::EntryTooLong {
                actual: actual as nat,
                limit: limit as nat,
            },
            MemoryError::NoMatch { search } => MemoryErrorView::NoMatch { search: search@ },
            MemoryError::Ambiguous { search, count } => MemoryErrorView::Ambiguous {
                search: search@,
                count: count as nat,
            },
            MemoryError::InvalidAction { action } => MemoryErrorView::InvalidAction {
                action: action@,
            },
            MemoryError::InvalidTarget { target } => MemoryErrorView::InvalidTarget {
                target: target@,
            },
            MemoryError::MissingField { field } => MemoryErrorView::MissingField { field: field@ },
            MemoryError::Threat { kind, detail } => MemoryErrorView::Threat {
                kind: kind@,
                detail: detail@,
            },
            MemoryError::DriftDetected { target, backup_key } => MemoryErrorView::DriftDetected {
                target: target@,
                backup_key: backup_key@,
            },
            MemoryError::Lock { target, source } => MemoryErrorView::Lock {
                target: target@,
                source: source@,
            },
        }
    }
}

/// The message of an error.
pub open spec fn memory_message(error: MemoryErrorView) -> Seq<char> {
    match error {
        MemoryErrorView::Storage(m) => "storage error: "@ + m,
        MemoryErrorView::OverLimit { target, actual, limit } => "would exceed cap for "@ + target
            + ": "@ + decimal(actual) + "/"@ + decimal(limit)
            + " chars (remove or replace an entry first)"@,
        MemoryErrorView::EntryTooLong { actual, limit } => "entry too long: "@ + decimal(actual)
            + " chars > per-target cap of "@ + decimal(limit),
        MemoryErrorView::NoMatch { search } => "no entry contained substring "@ + quoted_text(
            search,
        ),
        MemoryErrorView::Ambiguous { search, count } => "ambiguous: substring "@ + quoted_text(
            search,
        ) + " matched "@ + decimal(count) + " entries — narrow it"@,
        MemoryErrorView::InvalidAction { action } => "invalid action "@ + quoted_text(action)
            + ": must be one of add | replace | remove | read"@,
        MemoryErrorView::InvalidTarget { target } => "invalid target "@ + quoted_text(target)
            + ": must be 'memory' or 'user'"@,
        MemoryErrorView::MissingField { field } => "missing required field: "@ + field,
        MemoryErrorView::Threat { kind, detail } => "blocked by threat scanner ("@ + kind + (
        if detail.len() == 0 {
            Seq::empty()
        } else {
            ": "@ + detail
        }) + "): rephrase the entry"@,
        MemoryErrorView::DriftDetected { target, backup_key } => "refusing to write "@ + target
            + ": on-disk content was edited externally and would be lost on overwrite. A backup was saved to "@
            + quoted_text(backup_key) + ". Inspect it, then re-issue the write."@,
        MemoryErrorView::Lock { target, source } => "lock acquisition failed for "@ + target
            + ": "@ + source,
    }
}

impl MemoryError {
    /// The error as a sentence for people.
    pub fn message(&self) -> (r: String)
        ensures
            r@ == memory_message(self.deep_view()),
    {
        match self {
            MemoryError::Storage(m) => labelled("storage error: ", m.as_str()),
            MemoryError::OverLimit { target, actual, limit } => {
                let mut out = labelled("would exceed cap for ", target.as_str());
                out.append(": ");
                out.append(decimal_of(*actual as u128).as_str());
                out.append("/");
                out.append(decimal_of(*limit as u128).as_str());
                out.append(" chars (remove or replace an entry first)");
                out
            },
            MemoryError::EntryTooLong { actual, limit } => {
                let mut out = labelled("entry too long: ", decimal_of(*actual as u128).as_str());
                out.append(" chars > per-target cap of ");
                out.append(decimal_of(*limit as u128).as_str());
                out
            },
            MemoryError::NoMatch { search } => labelled(
                "no entry contained substring ",
                quote(search.as_str()).as_str(),
            ),
            MemoryError::Ambiguous { search, count } => {
                let mut out = labelled(
                    "ambiguous: substring ",
                    quote(search.as_str()).as_str(),
                );
                out.append(" matched ");
                out.append(decimal_of(*count as u128).as_str());
                out.append(" entries — narrow it");
                out
            },
            MemoryError::InvalidAction { action } => {
                let mut out = labelled("invalid action ", quote(action.as_str()).as_str());
                out.append(": must be one of add | replace | remove | read");
                out
            },
            MemoryError::InvalidTarget { target } => {
                let mut out = labelled("invalid target ", quote(target.as_str()).as_str());
                out.append(": must be 'memory' or 'user'");
                out
            },
            MemoryError::MissingField { field } => labelled("missing required field: ", field),
            MemoryError::Threat { kind, detail } => {
                let mut out = labelled("blocked by threat scanner (", kind);
                let tail = if detail.as_str().is_empty() {
                    String::new()
                } else {
                    labelled(": ", detail.as_str())
                };
                out.append(tail.as_str());
                out.append("): rephrase the entry");
                out
            },
            MemoryError::DriftDetected { target, backup_key } => {
                let mut out = labelled("refusing to write ", target.as_str());
                out.append(
                    ": on-disk content was edited externally and would be lost on overwrite. A backup was saved to ",
                );
                out.append(quote(backup_key.as_str()).as_str());
                out.append(". Inspect it, then re-issue the write.");
                out
            },
            MemoryError::Lock { target, source } => {
                let mut out = labelled("lock acquisition failed for ", target.as_str());
                out.append(": ");
                out.append(source.as_str());
                out
            },
        }
    }
}

} // verus!
