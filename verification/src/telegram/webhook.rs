//! The webhook handler's decisions: who may deliver updates, and what each request is answered.

use vstd::prelude::*;
use crate::text::text_eq;

verus! {

/// Prometheus labels of the webhook request counter.
#[derive(Clone, Copy, Debug, PartialEq, Eq, Structural)]
pub struct WebhookLabels {
    pub outcome: WebhookOutcome,
}

/// Outcome of a webhook request.
#[derive(Clone, Copy, Debug, PartialEq, Eq, Structural)]
pub enum WebhookOutcome {
    Success,
    NotAuthenticated,
    Timeout,
    ChannelClosed,
}

/// What became of an attempt to queue a received update.
#[derive(Clone, Copy, Debug, PartialEq, Eq, Structural)]
pub enum Delivery {
    /// The update was queued.
    Queued,
    /// The queue stayed full until the accept timeout.
    TimedOut,
    /// The queue is closed.
    Closed,
}

/// Checks the secret token that Telegram sent along with an update.
pub fn authenticate(token: &str, expected: &str) -> (r: bool)
    ensures
        r == (token@ == expected@),
{
    text_eq(token, expected)
}

/// The outcome of a request whose token matched, by what became of its update.
pub fn delivery_outcome(delivery: Delivery) -> (r: WebhookOutcome)
    ensures
        r == match delivery {
            Delivery::Queued => WebhookOutcome::Success,
            Delivery::TimedOut => WebhookOutcome::Timeout,
            Delivery::Closed => WebhookOutcome::ChannelClosed,
        },
{
    match delivery {
        Delivery::Queued => WebhookOutcome::Success,
        Delivery::TimedOut => WebhookOutcome::Timeout,
        Delivery::Closed => WebhookOutcome::ChannelClosed,
    }
}

impl WebhookOutcome {
    /// The HTTP status code that answers a request with this outcome.
    pub open spec fn code(self) -> u16 {
        match self {
            WebhookOutcome::Success => 200,
            WebhookOutcome::NotAuthenticated => 401,
            WebhookOutcome::Timeout => 503,
            WebhookOutcome::ChannelClosed => 500,
        }
    }

    /// The HTTP status code that answers a request with this outcome.
    pub fn status_code(&self) -> (r: u16)
        ensures
            r == self.code(),
    {
        match self {
            WebhookOutcome::Success => 200,
            WebhookOutcome::NotAuthenticated => 401,
            WebhookOutcome::Timeout => 503,
            WebhookOutcome::ChannelClosed => 500,
        }
    }
}

/// A request with a wrong token is answered 401 Unauthorized; an update that was queued is
/// answered 200 OK, one that found the queue full until the timeout 503 Service Unavailable, and
/// one that found the queue closed 500 Internal Server Error.
pub proof fn law_webhook_status_codes(outcome: WebhookOutcome)
    ensures
        outcome == WebhookOutcome::NotAuthenticated ==> outcome.code() == 401,
        outcome == WebhookOutcome::Success ==> outcome.code() == 200,
        outcome == WebhookOutcome::Timeout ==> outcome.code() == 503,
        outcome == WebhookOutcome::ChannelClosed ==> outcome.code() == 500,
{
}

} // verus!
