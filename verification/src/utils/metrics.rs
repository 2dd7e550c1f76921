//! Labels of the API call timing metrics.

use vstd::prelude::*;
use crate::utils::error::Error;

verus! {

/// Prometheus labels of the API call timing metrics.
#[derive(Clone, Debug)]
pub struct APICallLabels {
    pub endpoint: String,
    pub status_code: u16,
    pub outcome: APICallOutcome,
}

/// Outcome of an API call.
#[derive(Clone, Copy, Debug, PartialEq, Eq, Structural)]
pub enum APICallOutcome {
    Success,
    Failure,
}

/// The status code recorded for a call's result: 200 for a success or for contents that could
/// not be used, the received code for an unexpected status, and 0 when the transport failed.
pub open spec fn recorded_status<R>(result: Result<R, Error>) -> u16 {
    match result {
        Ok(_) => 200,
        Err(Error::InvalidContents { .. }) => 200,
        Err(Error::UnexpectedStatus { code }) => code,
        Err(Error::ReqwestError { .. }) => 0,
    }
}

/// The labels under which a call to `endpoint` with the given result is recorded.
pub fn api_call_labels<R>(endpoint: String, result: &Result<R, Error>) -> (l: APICallLabels)
    ensures
        l.endpoint == endpoint,
        l.status_code == recorded_status(*result),
        l.outcome == if result is Ok { APICallOutcome::Success } else { APICallOutcome::Failure },
{
    match result {
        Ok(_) => APICallLabels { endpoint, status_code: 200, outcome: APICallOutcome::Success },
        Err(err) => {
            let status_code = match err {
                Error::InvalidContents { .. } => 200,
                Error::UnexpectedStatus { code } => *code,
                Error::ReqwestError { .. } => 0,
            };
            APICallLabels { endpoint, status_code, outcome: APICallOutcome::Failure }
        },
    }
}

/// A call is recorded as a success with status 200 when it succeeded, and otherwise as a
/// failure: with status 200 when the contents could not be used, with the received status for
/// an unexpected one, and with status 0 when the transport failed.
pub proof fn law_recorded_status<R>(result: Result<R, Error>)
    ensures
        result is Ok ==> recorded_status(result) == 200,
        result matches Err(Error::InvalidContents { .. }) ==> recorded_status(result) == 200,
        result matches Err(Error::UnexpectedStatus { code }) ==> recorded_status(result) == code,
        result matches Err(Error::ReqwestError { .. }) ==> recorded_status(result) == 0,
{
}

} // verus!
