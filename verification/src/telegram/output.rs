//! Payloads queued for delivery to Telegram API.

use vstd::prelude::*;
use crate::telegram::models::{AnswerCallbackQuery, EditMessageText, SendChatAction, SendMessage};

verus! {

/// Types of payloads.
#[derive(Clone, Debug)]
pub enum Payload {
    SendMessage(SendMessage),
    EditMessageText(EditMessageText),
    SendChatAction(SendChatAction),
    AnswerCallbackQuery(AnswerCallbackQuery),
}

impl From<SendMessage> for Payload {
    fn from(value: SendMessage) -> (r: Payload) {
        Payload::SendMessage(value)
    }
}

impl vstd::std_specs::convert::FromSpecImpl<SendMessage> for Payload {
    open spec fn obeys_from_spec() -> bool {
        true
    }

    open spec fn from_spec(v: SendMessage) -> Payload {
        Payload::SendMessage(v)
    }
}

impl From<EditMessageText> for Payload {
    fn from(value: EditMessageText) -> (r: Payload) {
        Payload::EditMessageText(value)
    }
}

impl vstd::std_specs::convert::FromSpecImpl<EditMessageText> for Payload {
    open spec fn obeys_from_spec() -> bool {
        true
    }

    open spec fn from_spec(v: EditMessageText) -> Payload {
        Payload::EditMessageText(v)
    }
}

impl From<SendChatAction> for Payload {
    fn from(value: SendChatAction) -> (r: Payload) {
        Payload::SendChatAction(value)
    }
}

impl vstd::std_specs::convert::FromSpecImpl<SendChatAction> for Payload {
    open spec fn obeys_from_spec() -> bool {
        true
    }

    open spec fn from_spec(v: SendChatAction) -> Payload {
        Payload::SendChatAction(v)
    }
}

impl From<AnswerCallbackQuery> for Payload {
    fn from(value: AnswerCallbackQuery) -> (r: Payload) {
        Payload::AnswerCallbackQuery(value)
    }
}

impl vstd::std_specs::convert::FromSpecImpl<AnswerCallbackQuery> for Payload {
    open spec fn obeys_from_spec() -> bool {
        true
    }

    open spec fn from_spec(v: AnswerCallbackQuery) -> Payload {
        Payload::AnswerCallbackQuery(v)
    }
}

} // verus!
