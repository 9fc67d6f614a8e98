use vstd::prelude::*;

use crate::score::Score;

verus! {

/// How a response status bears on an endpoint's fitness.
#[derive(Clone, Copy, Debug, PartialEq, Eq, Structural)]
pub enum StatusClass {
    /// Informational, success and redirection statuses (100 ..= 399).
    NoError,
    /// Client errors that tend to clear up on retry: 408 and 429.
    Recoverable,
    /// The other client errors (400 ..= 499).
    NonRecoverable,
    /// Server errors (500 ..= 599).
    ServerError,
    /// Anything else, including the status 0 that stands for "no response".
    Undefined,
}

/// The class of a status code.
pub open spec fn class_of(status: u16) -> StatusClass {
    if 100 <= status <= 399 {
        StatusClass::NoError
    } else if status == 408 || status == 429 {
        StatusClass::Recoverable
    } else if 400 <= status <= 499 {
        StatusClass::NonRecoverable
    } else if 500 <= status <= 599 {
        StatusClass::ServerError
    } else {
        StatusClass::Undefined
    }
}

/// Classifies a response status; each class carries its own weight in a
/// fitness formula.
pub fn status_class(status: u16) -> (r: StatusClass)
    ensures
        r == class_of(status),
{
    if 100 <= status && status <= 399 {
        StatusClass::NoError
    } else if status == 408 || status == 429 {
        StatusClass::Recoverable
    } else if 400 <= status && status <= 499 {
        StatusClass::NonRecoverable
    } else if 500 <= status && status <= 599 {
        StatusClass::ServerError
    } else {
        StatusClass::Undefined
    }
}

/// Which way a response moves an endpoint's reliability.
#[derive(Clone, Copy, Debug, PartialEq, Eq, Structural)]
pub enum Trend {
    /// A success (200 ..= 299): reliability rises by one step.
    Rise,
    /// Informational or redirection (100 ..= 199, 300 ..= 399): unchanged.
    Hold,
    /// Any other status, or no response: reliability falls by `effort` steps.
    Fall,
}

/// The reliability trend of a status code.
pub open spec fn trend_of(status: u16) -> Trend {
    if 200 <= status <= 299 {
        Trend::Rise
    } else if 100 <= status <= 399 {
        Trend::Hold
    } else {
        Trend::Fall
    }
}

/// Decides how a response status moves reliability.
pub fn reliability_trend(status: u16) -> (r: Trend)
    ensures
        r == trend_of(status),
        200 <= status <= 299 ==> r == Trend::Rise,
        status == 0 ==> r == Trend::Fall,
{
    if 200 <= status && status <= 299 {
        Trend::Rise
    } else if 100 <= status && status <= 399 {
        Trend::Hold
    } else {
        Trend::Fall
    }
}

/// Turns an endpoint's previous score, its newest response time and the
/// newest status into its next score. Status 0 means that no response came.
pub trait Strategy {
    /// The score that `calculate` returns on these arguments.
    spec fn next_score(&self, score: Score, new_response_nanos: u64, status_code: u16) -> Score;

    fn calculate(&self, score: Score, new_response_nanos: u64, status_code: u16) -> (r: Score)
        ensures
            r == self.next_score(score, new_response_nanos, status_code),
    ;
}

} // verus!
