use chargebot::telegram::client::build_endpoint;
use chargebot::telegram::models::{
    AnswerCallbackQuery, ChatAction, EditMessageText, InlineKeyboardButton, ParseMode, Payload,
    ReplyMarkup, SendChatAction, SendMessage, Update,
};
use chargebot::telegram::polling::{advance_offset, get_updates_request, offset_after_updates};
use chargebot::telegram::webhook::{authenticate, delivery_outcome, Delivery, WebhookOutcome};

#[test]
fn polling_happy_flow() {
    let updates = vec![Update::new(1234), Update::new(1235)];
    let next = offset_after_updates(0, &updates);
    assert_eq!(next, 1236);
    let req = get_updates_request(next, 30);
    assert_eq!(req.offset, 1236);
    assert_eq!(req.timeout, 30);
    // nothing new
    assert_eq!(offset_after_updates(next, &vec![]), 1236);
    // another update
    assert_eq!(offset_after_updates(next, &vec![Update::new(1300)]), 1301);
}

#[test]
fn polling_offset_never_goes_back() {
    assert_eq!(advance_offset(100, 5), 100);
    assert_eq!(advance_offset(100, 100), 101);
    assert_eq!(offset_after_updates(10, &vec![Update::new(50), Update::new(20)]), 51);
    assert_eq!(get_updates_request(u64::MAX, 1).offset, -1);
}

#[test]
fn webhook_basic() {
    assert!(!authenticate("wrong", "abcdef"));
    assert!(authenticate("abcdef", "abcdef"));
    assert_eq!(WebhookOutcome::NotAuthenticated.status_code(), 401);
    assert_eq!(delivery_outcome(Delivery::Queued), WebhookOutcome::Success);
    assert_eq!(delivery_outcome(Delivery::Queued).status_code(), 200);
    assert_eq!(delivery_outcome(Delivery::TimedOut), WebhookOutcome::Timeout);
    assert_eq!(WebhookOutcome::Timeout.status_code(), 503);
    assert_eq!(delivery_outcome(Delivery::Closed), WebhookOutcome::ChannelClosed);
    assert_eq!(WebhookOutcome::ChannelClosed.status_code(), 500);
}

#[test]
fn telegram_models() {
    let m = SendMessage::new(5, "hi".to_string());
    assert_eq!(m.chat_id, 5);
    assert_eq!(m.parse_mode, ParseMode::Markdown);
    assert!(m.reply_markup.is_none());
    let kb = vec![vec![InlineKeyboardButton::new("t".to_string(), "d".to_string())]];
    let m = m.with_reply_markup(Some(ReplyMarkup::InlineKeyboard(kb)));
    assert_eq!(m.text, "hi");
    assert!(m.reply_markup.is_some());
    let e = EditMessageText::new(1, 2, "x".to_string()).with_reply_markup(None);
    assert_eq!((e.chat_id, e.message_id, e.text.as_str()), (1, 2, "x"));
    let a = SendChatAction::new(3, ChatAction::Typing);
    assert_eq!(a.chat_id, 3);
    let q = AnswerCallbackQuery::new("id".to_string(), "text".to_string());
    assert_eq!(q.callback_query_id, "id");
    assert_eq!(q.text, "text");
    let u = Update::new(9);
    assert!(u.message.is_none() && u.callback_query.is_none());
    assert_eq!(SendMessage::get_method_name(), "sendMessage");
    assert_eq!(EditMessageText::get_method_name(), "editMessageText");
    assert_eq!(SendChatAction::get_method_name(), "sendChatAction");
    assert_eq!(AnswerCallbackQuery::get_method_name(), "answerCallbackQuery");
    assert_eq!(build_endpoint("tok", "getUpdates"), "https://api.telegram.org/bottok/getUpdates");
}
