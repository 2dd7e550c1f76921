use std::collections::HashSet;

use chargebot::bot::{
    handle_event, message_is_processable, prepare_notification_text, process_callback_query,
    process_message, process_station, Event, Output, State, Step,
};
use chargebot::config;
use chargebot::datasource::Datasource;
use chargebot::flo::models::{Station, Status};
use chargebot::flo::watch::Command;
use chargebot::keyed::StrMap;
use chargebot::telegram::models::{
    CallbackQuery, Chat, ChatAction, ChatType, EntityType, Message, MessageEntity, ReplyMarkup,
    SendMessage, Update, User,
};
use chargebot::telegram::output::Payload;

fn datasource() -> Datasource {
    let st = |id: &str, alias: &str| config::Station { id: id.to_string(), alias: alias.to_string() };
    Datasource::new(
        vec![
            config::Location {
                id: "l1".to_string(),
                name: "L1".to_string(),
                parks: vec![
                    config::Park { id: "l1p1".to_string(), stations: vec![st("l1p1s1", "L1P1S1")] },
                    config::Park {
                        id: "l1p2".to_string(),
                        stations: vec![st("l1p2s1", "L1P2S1"), st("l1p2s2", "L1P2S2")],
                    },
                ],
            },
            config::Location {
                id: "l2".to_string(),
                name: "L2".to_string(),
                parks: vec![config::Park { id: "l2p1".to_string(), stations: vec![st("l2p1s1", "L2P1S1")] }],
            },
        ],
        vec![
            config::Chat { id: 123, locations: vec!["l1".to_string()] },
            config::Chat { id: -456, locations: vec!["l1".to_string(), "l2".to_string()] },
        ],
    )
    .unwrap()
}

fn private_chat(id: i64) -> Chat {
    Chat { id, typ: ChatType::Private }
}

fn group_chat(id: i64) -> Chat {
    Chat { id, typ: ChatType::Group }
}

fn command(chat: Chat, message_id: u64, text: &str) -> Message {
    Message {
        message_id,
        chat,
        text: text.to_string(),
        entities: vec![MessageEntity { offset: 0, length: text.len(), typ: EntityType::BotCommand }],
    }
}

fn query(chat: Chat, message_id: u64, data: &str, username: &str, id: &str) -> CallbackQuery {
    CallbackQuery {
        id: id.to_string(),
        message: Message { message_id, chat, text: "Where do you want to charge?".to_string(), entities: vec![] },
        data: data.to_string(),
        from: User { username: username.to_string() },
    }
}

fn station(id: &str, status: Status) -> Station {
    Station { id: id.to_string(), status }
}

fn sent(out: &Output) -> &SendMessage {
    match out {
        Output::TelegramPayload(Payload::SendMessage(m)) => m,
        _ => panic!("expected a message"),
    }
}

fn assert_text(out: &[Output], chat_id: i64, text: &str) {
    assert_eq!(out.len(), 1);
    let m = sent(&out[0]);
    assert_eq!(m.chat_id, chat_id);
    assert_eq!(m.text, text);
    assert!(m.reply_markup.is_none());
}

fn assert_subscribe(out: &Output, park: &str) {
    match out {
        Output::WatchCommand(Command::SubscribeToPark(p)) => assert_eq!(p, park),
        _ => panic!("expected a subscription"),
    }
}

fn assert_unsubscribe(out: &Output, park: &str) {
    match out {
        Output::WatchCommand(Command::UnsubscribeFromPark(p)) => assert_eq!(p, park),
        _ => panic!("expected an unsubscription"),
    }
}

fn assert_answer(out: &Output, id: &str, text: &str) {
    match out {
        Output::TelegramPayload(Payload::AnswerCallbackQuery(a)) => {
            assert_eq!(a.callback_query_id, id);
            assert_eq!(a.text, text);
        }
        _ => panic!("expected a callback answer"),
    }
}

fn assert_edit(out: &Output, chat_id: i64, message_id: u64, text: &str) {
    match out {
        Output::TelegramPayload(Payload::EditMessageText(e)) => {
            assert_eq!(e.chat_id, chat_id);
            assert_eq!(e.message_id, message_id);
            assert_eq!(e.text, text);
        }
        _ => panic!("expected an edit"),
    }
}

fn assert_typing(out: &Output, chat_id: i64) {
    match out {
        Output::TelegramPayload(Payload::SendChatAction(a)) => {
            assert_eq!(a.chat_id, chat_id);
            assert!(matches!(a.action, ChatAction::Typing));
        }
        _ => panic!("expected a chat action"),
    }
}

const STOPPED: &str = "Won't send any more updates here. Let me know when to /start again.";

#[test]
fn basic_happy() {
    let ds = datasource();
    let mut state = State::new();

    let out = process_message(&command(private_chat(123), 1, "/start"), &mut state, &ds);
    assert_eq!(out.len(), 1);
    let m = sent(&out[0]);
    assert_eq!(m.chat_id, 123);
    assert_eq!(m.text, "Where do you want to charge?");
    let Some(ReplyMarkup::InlineKeyboard(kb)) = &m.reply_markup else {
        panic!("message doesn't contain reply markup");
    };
    assert_eq!(kb.len(), 1);
    assert_eq!(kb[0].len(), 1);
    assert_eq!(kb[0][0].text, "L1");
    assert_eq!(kb[0][0].callback_data, "l1");

    let out = process_callback_query(&query(private_chat(123), 2, "l1", "bob", "3"), &mut state, &ds);
    assert_eq!(out.len(), 5);
    assert_subscribe(&out[0], "l1p1");
    assert_subscribe(&out[1], "l1p2");
    assert_answer(&out[2], "3", "L1");
    assert_edit(&out[3], 123, 2, "Where do you want to charge?\n👉*L1*");
    assert_typing(&out[4], 123);

    assert!(process_station(&station("l1p1s1", Status::InUse), &mut state, &ds).is_empty());
    assert!(process_station(&station("l1p2s1", Status::InUse), &mut state, &ds).is_empty());
    let out = process_station(&station("l1p2s2", Status::InUse), &mut state, &ds);
    assert_text(&out, 123, "No chargers at L1 can be used. Should I /stop?");

    let out = process_station(&station("l1p2s1", Status::Available), &mut state, &ds);
    assert_text(&out, 123, "Charger L1P2S1 is available at L1. Should I /stop?");

    let out = process_message(&command(private_chat(123), 4, "/stop"), &mut state, &ds);
    assert_eq!(out.len(), 3);
    assert_unsubscribe(&out[0], "l1p1");
    assert_unsubscribe(&out[1], "l1p2");
    assert_text(&out[2..], 123, STOPPED);
}

#[test]
fn wrong_chat() {
    let ds = datasource();
    let mut state = State::new();
    let out = process_message(&command(private_chat(567), 1, "/start"), &mut state, &ds);
    assert_text(&out, 567, "Sorry. I'm not configured to work in this chat.");
}

#[test]
fn parallel_watches() {
    let ds = datasource();
    let mut state = State::new();

    // chat 1 subscribes to L1
    process_message(&command(private_chat(123), 1, "/start"), &mut state, &ds);
    let out = process_callback_query(&query(private_chat(123), 2, "l1", "bob", "3"), &mut state, &ds);
    assert_eq!(out.len(), 5);
    assert_typing(&out[4], 123);

    // chat 1 gets notified after L1 statuses get synced
    assert!(process_station(&station("l1p1s1", Status::InUse), &mut state, &ds).is_empty());
    assert!(process_station(&station("l1p2s1", Status::Available), &mut state, &ds).is_empty());
    let out = process_station(&station("l1p2s2", Status::InUse), &mut state, &ds);
    assert_text(&out, 123, "Charger L1P2S1 is available at L1. Should I /stop?");

    // chat 2 subscribes to L2
    let out = process_message(&command(group_chat(-456), 4, "/start"), &mut state, &ds);
    let Some(ReplyMarkup::InlineKeyboard(kb)) = &sent(&out[0]).reply_markup else { panic!("no keyboard") };
    assert_eq!(kb.len(), 2);
    let out = process_callback_query(&query(group_chat(-456), 5, "l2", "alice", "6"), &mut state, &ds);
    assert_eq!(out.len(), 4);
    assert_subscribe(&out[0], "l2p1");
    assert_answer(&out[1], "6", "L2");
    assert_edit(&out[2], -456, 5, "Where do you want to charge?\nalice👉*L2*");
    assert_typing(&out[3], -456);

    // chat 2 gets notified after L2 status gets synced
    let out = process_station(&station("l2p1s1", Status::Available), &mut state, &ds);
    assert_text(&out, -456, "All chargers are available at L2. Should I /stop?");

    // chat 2 subscribes to L1 and gets an immediate notification of already known statuses
    process_message(&command(group_chat(-456), 7, "/start"), &mut state, &ds);
    let out = process_callback_query(&query(group_chat(-456), 8, "l1", "alice", "9"), &mut state, &ds);
    assert_eq!(out.len(), 5);
    assert_subscribe(&out[0], "l1p1");
    assert_subscribe(&out[1], "l1p2");
    assert_answer(&out[2], "9", "L1");
    assert_text(&out[4..], -456, "Charger L1P2S1 is available at L1. Should I /stop?");

    // L1 station update notifies both chats
    let out = process_station(&station("l1p1s1", Status::Available), &mut state, &ds);
    assert_eq!(out.len(), 2);
    let mut expect_chats = HashSet::<i64>::from([123, -456]);
    for o in &out {
        let m = sent(o);
        assert!(expect_chats.remove(&m.chat_id));
        assert_eq!(m.text, "Chargers L1P1S1 and L1P2S1 are available at L1. Should I /stop?");
    }
    assert!(expect_chats.is_empty());

    // chat 2 stops all subscriptions
    let out = process_message(&command(group_chat(-456), 10, "/stop"), &mut state, &ds);
    assert_eq!(out.len(), 2);
    assert_unsubscribe(&out[0], "l2p1");
    assert_text(&out[1..], -456, STOPPED);

    // chat 2 doesn't get notified about L2
    assert!(process_station(&station("l2p1s1", Status::InUse), &mut state, &ds).is_empty());

    // chat 1 still gets notified about L1
    let out = process_station(&station("l1p2s2", Status::Available), &mut state, &ds);
    assert_text(&out, 123, "All chargers are available at L1. Should I /stop?");

    // chat 2 subscribes to L2 again
    let out = process_callback_query(&query(group_chat(-456), 11, "l2", "alice", "12"), &mut state, &ds);
    assert_eq!(out.len(), 4);
    assert_typing(&out[3], -456);

    // still only chat 1 gets notified about L1
    let out = process_station(&station("l1p2s2", Status::InUse), &mut state, &ds);
    assert_text(&out, 123, "Chargers L1P1S1 and L1P2S1 are available at L1. Should I /stop?");

    // chat 2 gets notified after L2 status gets synced
    let out = process_station(&station("l2p1s1", Status::Available), &mut state, &ds);
    assert_text(&out, -456, "All chargers are available at L2. Should I /stop?");
}

#[test]
fn bot_repeated_status_is_quiet() {
    let ds = datasource();
    let mut state = State::new();
    process_callback_query(&query(private_chat(123), 2, "l1", "bob", "3"), &mut state, &ds);
    process_station(&station("l1p1s1", Status::InUse), &mut state, &ds);
    process_station(&station("l1p2s1", Status::InUse), &mut state, &ds);
    let out = process_station(&station("l1p2s2", Status::Other), &mut state, &ds);
    assert_text(&out, 123, "No chargers at L1 can be used. Should I /stop?");
    assert!(process_station(&station("l1p2s2", Status::InUse), &mut state, &ds).is_empty());
    assert!(process_station(&station("l1p2s2", Status::InUse), &mut state, &ds).is_empty());
}

#[test]
fn bot_unknown_station_or_unsubscribed_location() {
    let ds = datasource();
    let mut state = State::new();
    assert!(process_station(&station("nowhere", Status::Available), &mut state, &ds).is_empty());
    assert!(process_station(&station("l1p1s1", Status::Available), &mut state, &ds).is_empty());
}

#[test]
fn bot_command_is_lowercased() {
    let ds = datasource();
    let mut state = State::new();
    let out = process_message(&command(private_chat(567), 1, "/START"), &mut state, &ds);
    assert_text(&out, 567, "Sorry. I'm not configured to work in this chat.");
    let out = process_message(&command(private_chat(567), 2, "/Stop@chargebot"), &mut state, &ds);
    assert_text(&out, 567, STOPPED);
}

#[test]
fn bot_ignores_non_commands() {
    let ds = datasource();
    let mut state = State::new();
    let mut m = command(private_chat(123), 1, "/start");
    m.entities[0].typ = EntityType::Other;
    assert!(process_message(&m, &mut state, &ds).is_empty());
    let mut m = command(private_chat(123), 1, "/start");
    m.entities.clear();
    assert!(process_message(&m, &mut state, &ds).is_empty());
    let mut m = command(private_chat(123), 1, "/start");
    m.entities[0].length = 40;
    assert!(process_message(&m, &mut state, &ds).is_empty());
    assert!(process_message(&command(private_chat(123), 1, "/help"), &mut state, &ds).is_empty());
    // the command is taken from the entity's byte range
    let mut m = command(private_chat(123), 1, "hi /start");
    m.entities[0].offset = 3;
    m.entities[0].length = 6;
    assert_eq!(process_message(&m, &mut state, &ds).len(), 1);
}

#[test]
fn bot_processable_messages() {
    let mut m = command(private_chat(1), 1, "é/start");
    assert!(message_is_processable(&m));
    m.entities[0].offset = 1;
    m.entities[0].length = 2;
    assert!(!message_is_processable(&m));
    m.entities[0].offset = usize::MAX;
    assert!(!message_is_processable(&m));
    m.entities[0].typ = EntityType::Other;
    assert!(message_is_processable(&m));
}

#[test]
fn bot_handle_event() {
    let ds = datasource();
    let mut state = State::new();
    let step = handle_event(
        Event::TelegramUpdate(Update { update_id: 1, message: Some(command(private_chat(567), 1, "/start")), callback_query: None }),
        &mut state,
        &ds,
    );
    let Step::Dispatch(out) = step else { panic!("expected outputs") };
    assert_text(&out, 567, "Sorry. I'm not configured to work in this chat.");
    let Step::Dispatch(out) = handle_event(Event::TelegramUpdate(Update::new(2)), &mut state, &ds) else {
        panic!("expected outputs")
    };
    assert!(out.is_empty());
    assert!(matches!(handle_event(Event::TelegramUpdatesClosed, &mut state, &ds), Step::Finish));
    assert!(matches!(handle_event(Event::StationUpdatesClosed, &mut state, &ds), Step::Fail));
}

#[test]
fn bot_notification_texts() {
    let loc = config::Location {
        id: "l".to_string(),
        name: "Home".to_string(),
        parks: vec![config::Park {
            id: "p".to_string(),
            stations: vec![
                config::Station { id: "a".to_string(), alias: "A".to_string() },
                config::Station { id: "b".to_string(), alias: "B".to_string() },
                config::Station { id: "c".to_string(), alias: "C".to_string() },
            ],
        }],
    };
    let mut avail: StrMap<bool> = StrMap::new();
    avail.insert("a".to_string(), true);
    avail.insert("b".to_string(), true);
    assert!(prepare_notification_text(&loc, &avail).is_none());
    avail.insert("c".to_string(), true);
    assert_eq!(prepare_notification_text(&loc, &avail).unwrap(), "All chargers are available at Home. Should I /stop?");
    avail.insert("b".to_string(), false);
    assert_eq!(
        prepare_notification_text(&loc, &avail).unwrap(),
        "Chargers A and C are available at Home. Should I /stop?"
    );
    avail.insert("a".to_string(), false);
    assert_eq!(prepare_notification_text(&loc, &avail).unwrap(), "Charger C is available at Home. Should I /stop?");
    avail.insert("c".to_string(), false);
    assert_eq!(prepare_notification_text(&loc, &avail).unwrap(), "No chargers at Home can be used. Should I /stop?");
}

#[test]
fn bot_joins_many_aliases() {
    let stations: Vec<config::Station> = ["a", "b", "c", "d"]
        .iter()
        .map(|s| config::Station { id: s.to_string(), alias: s.to_uppercase() })
        .collect();
    let loc = config::Location {
        id: "l".to_string(),
        name: "X".to_string(),
        parks: vec![config::Park { id: "p".to_string(), stations }],
    };
    let mut avail: StrMap<bool> = StrMap::new();
    for s in ["a", "b", "c"] {
        avail.insert(s.to_string(), true);
    }
    avail.insert("d".to_string(), false);
    assert_eq!(
        prepare_notification_text(&loc, &avail).unwrap(),
        "Chargers A, B and C are available at X. Should I /stop?"
    );
}

#[test]
fn propagates_watcher_failure() {
    let ds = datasource();
    let mut state = State::new();
    assert!(matches!(handle_event(Event::StationUpdatesClosed, &mut state, &ds), Step::Fail));
}

#[test]
fn outputs_from_payloads_and_commands() {
    let o: Output = Command::SubscribeToPark("l1p1".to_string()).into();
    assert!(matches!(o, Output::WatchCommand(Command::SubscribeToPark(ref p)) if p == "l1p1"));
    let p: Payload = SendMessage::new(5, "hi".to_string()).into();
    let o: Output = p.into();
    match o {
        Output::TelegramPayload(Payload::SendMessage(m)) => {
            assert_eq!(m.chat_id, 5);
            assert_eq!(m.text, "hi");
        }
        _ => panic!("unexpected output"),
    }
}
