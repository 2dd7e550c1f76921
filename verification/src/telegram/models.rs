//! Minimal structures mirroring the Telegram Bot API objects that the bot reads and sends.

use vstd::prelude::*;

verus! {

/// Minimal structure representing the Update API object.
#[derive(Clone, Debug)]
pub struct Update {
    pub update_id: u64,
    pub message: Option<Message>,
    pub callback_query: Option<CallbackQuery>,
}

impl Update {
    /// An update that carries neither a message nor a callback query.
    pub fn new(update_id: u64) -> (u: Update)
        ensures
            u.update_id == update_id,
            u.message is None,
            u.callback_query is None,
    {
        Update { update_id, message: None, callback_query: None }
    }
}

/// Minimal structure representing the Message API object.
#[derive(Clone, Debug)]
pub struct Message {
    pub message_id: u64,
    pub chat: Chat,
    pub text: String,
    pub entities: Vec<MessageEntity>,
}

/// Minimal structure representing the MessageEntity API object.
/// `offset` and `length` count bytes of the message text.
#[derive(Clone, Debug)]
pub struct MessageEntity {
    pub offset: usize,
    pub length: usize,
    pub typ: EntityType,
}

/// Minimal enum for MessageEntity.type.
#[derive(Clone, Copy, Debug, PartialEq, Eq, Structural)]
pub enum EntityType {
    BotCommand,
    Other,
}

/// Minimal structure representing the CallbackQuery API object.
#[derive(Clone, Debug)]
pub struct CallbackQuery {
    pub id: String,
    pub message: Message,
    pub data: String,
    pub from: User,
}

/// Minimal structure representing the User API object.
#[derive(Clone, Debug)]
pub struct User {
    pub username: String,
}

/// Minimal structure representing the Chat API object.
#[derive(Clone, Debug)]
pub struct Chat {
    pub id: i64,
    pub typ: ChatType,
}

/// Minimal enum for Chat.type.
#[derive(Clone, Copy, Debug, PartialEq, Eq, Structural)]
pub enum ChatType {
    Private,
    Group,
    Other,
}

/// Represents objects that are sent to the API.
pub trait Payload {
    fn get_method_name() -> &'static str;
}

/// Minimal payload for the sendMessage API method.
#[derive(Clone, Debug)]
pub struct SendMessage {
    pub chat_id: i64,
    pub text: String,
    pub parse_mode: ParseMode,
    pub reply_markup: Option<ReplyMarkup>,
}

impl SendMessage {
    /// A Markdown message without reply markup.
    pub fn new(chat_id: i64, text: String) -> (m: SendMessage)
        ensures
            m.chat_id == chat_id,
            m.text@ == text@,
            m.parse_mode == ParseMode::Markdown,
            m.reply_markup is None,
    {
        SendMessage { chat_id, text, parse_mode: ParseMode::Markdown, reply_markup: None }
    }

    /// Replaces the reply markup.
    pub fn with_reply_markup(self, reply_markup: Option<ReplyMarkup>) -> (m: SendMessage)
        ensures
            m.chat_id == self.chat_id,
            m.text == self.text,
            m.parse_mode == self.parse_mode,
            m.reply_markup == reply_markup,
    {
        SendMessage { reply_markup, ..self }
    }
}

impl Payload for SendMessage {
    fn get_method_name() -> (r: &'static str)
        ensures
            r@ == "sendMessage"@,
    {
        "sendMessage"
    }
}

/// Minimal enum for the parse_mode field. This is always Markdown.
#[derive(Clone, Copy, Debug, PartialEq, Eq, Structural)]
pub enum ParseMode {
    Markdown,
}

/// Minimal structure representing the InlineKeyboardButton API object.
#[derive(Clone, Debug, PartialEq)]
pub struct InlineKeyboardButton {
    pub text: String,
    pub callback_data: String,
}

impl InlineKeyboardButton {
    pub fn new(text: String, callback_data: String) -> (b: InlineKeyboardButton)
        ensures
            b.text@ == text@,
            b.callback_data@ == callback_data@,
    {
        InlineKeyboardButton { text, callback_data }
    }
}

/// Minimal enum for the reply_markup field.
#[derive(Clone, Debug)]
pub enum ReplyMarkup {
    InlineKeyboard(Vec<Vec<InlineKeyboardButton>>),
}

/// Minimal payload for the editMessageText API method.
#[derive(Clone, Debug)]
pub struct EditMessageText {
    pub chat_id: i64,
    pub message_id: u64,
    pub text: String,
    pub parse_mode: ParseMode,
    pub reply_markup: Option<ReplyMarkup>,
}

impl EditMessageText {
    /// A Markdown edit without reply markup.
    pub fn new(chat_id: i64, message_id: u64, text: String) -> (m: EditMessageText)
        ensures
            m.chat_id == chat_id,
            m.message_id == message_id,
            m.text@ == text@,
            m.parse_mode == ParseMode::Markdown,
            m.reply_markup is None,
    {
        EditMessageText {
            chat_id,
            message_id,
            text,
            parse_mode: ParseMode::Markdown,
            reply_markup: None,
        }
    }

    /// Replaces the reply markup.
    pub fn with_reply_markup(self, reply_markup: Option<ReplyMarkup>) -> (m: EditMessageText)
        ensures
            m.chat_id == self.chat_id,
            m.message_id == self.message_id,
            m.text == self.text,
            m.parse_mode == self.parse_mode,
            m.reply_markup == reply_markup,
    {
        EditMessageText { reply_markup, ..self }
    }
}

impl Payload for EditMessageText {
    fn get_method_name() -> (r: &'static str)
        ensures
            r@ == "editMessageText"@,
    {
        "editMessageText"
    }
}

/// Minimal payload for the sendChatAction API method.
#[derive(Clone, Debug)]
pub struct SendChatAction {
    pub chat_id: i64,
    pub action: ChatAction,
}

impl SendChatAction {
    pub fn new(chat_id: i64, action: ChatAction) -> (a: SendChatAction)
        ensures
            a.chat_id == chat_id,
            a.action == action,
    {
        SendChatAction { chat_id, action }
    }
}

impl Payload for SendChatAction {
    fn get_method_name() -> (r: &'static str)
        ensures
            r@ == "sendChatAction"@,
    {
        "sendChatAction"
    }
}

/// Minimal enum for SendChatAction.action.
#[derive(Clone, Copy, Debug, PartialEq, Eq, Structural)]
pub enum ChatAction {
    Typing,
}

/// Minimal payload for the answerCallbackQuery API method.
#[derive(Clone, Debug)]
pub struct AnswerCallbackQuery {
    pub callback_query_id: String,
    pub text: String,
}

impl AnswerCallbackQuery {
    pub fn new(callback_query_id: String, text: String) -> (a: AnswerCallbackQuery)
        ensures
            a.callback_query_id@ == callback_query_id@,
            a.text@ == text@,
    {
        AnswerCallbackQuery { callback_query_id, text }
    }
}

impl Payload for AnswerCallbackQuery {
    fn get_method_name() -> (r: &'static str)
        ensures
            r@ == "answerCallbackQuery"@,
    {
        "answerCallbackQuery"
    }
}

/// Minimal parameters for the getUpdates API request.
#[derive(Clone, Copy, Debug)]
pub struct GetUpdates {
    pub offset: i64,
    pub timeout: u16,
}

} // verus!
