use chargebot::telegram::models::{ChatAction, SendChatAction};
use chargebot::telegram::output::Payload;
use chargebot::utils::error::Error;
use chargebot::utils::retry::retry_after;

/// Plays the output writer's loop for one payload against a client that fails once with the
/// given error (if any): returns the delivered payload, or None when the writer gives up.
fn deliver_once(payload: Payload, fail_once: Option<Error>, delays: &[u64]) -> Option<Payload> {
    let mut attempts = delays.iter();
    let mut fail_once = fail_once;
    loop {
        match fail_once.take() {
            None => return Some(payload),
            Some(err) => {
                retry_after(&err, attempts.next().copied())?;
            }
        }
    }
}

#[test]
fn output_happy_flow() {
    let payload: Payload = SendChatAction::new(123, ChatAction::Typing).into();
    if let Some(Payload::SendChatAction(action)) = deliver_once(payload, None, &[5, 10]) {
        assert_eq!(action.chat_id, 123);
        assert!(matches!(action.action, ChatAction::Typing));
    } else {
        panic!("unexpected payload variant");
    }
}

#[test]
fn notifies_of_permanent_failure() {
    let payload: Payload = SendChatAction::new(123, ChatAction::Typing).into();
    assert!(deliver_once(payload, Some(Error::UnexpectedStatus { code: 400 }), &[5, 10]).is_none());
}

#[test]
fn retries_transient_errors() {
    let payload: Payload = SendChatAction::new(123, ChatAction::Typing).into();
    if let Some(Payload::SendChatAction(action)) =
        deliver_once(payload, Some(Error::UnexpectedStatus { code: 503 }), &[5, 10])
    {
        assert_eq!(action.chat_id, 123);
        assert!(matches!(action.action, ChatAction::Typing));
    } else {
        panic!("unexpected payload variant");
    }
}
