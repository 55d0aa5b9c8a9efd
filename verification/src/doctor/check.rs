//! What a check reports.
use crate::json;
use vstd::prelude::*;

verus! {

#[derive(Debug, Clone, Copy, PartialEq, Eq, Structural)]
pub enum Status {
    Pass,
    Warn,
    Fail,
    Skip,
    Fixed,
}

#[derive(Debug, Clone, Copy, PartialEq, Eq, Structural)]
pub enum Category {
    Health,
    Config,
}

#[derive(Debug, Clone)]
pub struct CheckResult {
    pub status: Status,
    pub message: String,
    pub details: Option<String>,
}

pub struct CheckText {
    pub status: Status,
    pub message: Seq<char>,
    pub details: Option<Seq<char>>,
}

impl View for CheckResult {
    type V = CheckText;

    open spec fn view(&self) -> CheckText {
        CheckText {
            status: self.status,
            message: self.message@,
            details: json::opt_text(self.details),
        }
    }
}

/// A result without details.
pub open spec fn plain(status: Status, message: Seq<char>) -> CheckText {
    CheckText { status, message, details: None }
}

pub(crate) fn result(status: Status, message: &str) -> (r: CheckResult)
    ensures
        r@ == plain(status, message@),
{
    CheckResult { status, message: message.to_owned(), details: None }
}

} // verus!
