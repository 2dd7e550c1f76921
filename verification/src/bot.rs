//! The bot processor's decisions: how Telegram updates and station updates change the bot's
//! state and which payloads and watch commands they produce.

use vstd::prelude::*;
use vstd::string::*;
use vstd::utf8::*;
use crate::config::{Location, Park};
use crate::datasource::{lemma_has_station, park_station_ids, Datasource};
use crate::flo::models::{Station, Status};
use crate::flo::watch::Command;
use crate::keyed::StrMap;
use crate::telegram::models::{
    AnswerCallbackQuery, CallbackQuery, ChatAction, ChatType, EditMessageText, EntityType,
    InlineKeyboardButton, Message, ReplyMarkup, SendChatAction, SendMessage, Update,
};
use crate::telegram::output::Payload;
use crate::text::{byte_range, byte_range_text, is_prefix, join, lowercase, starts_with, text_eq, to_lowercase};

verus! {

broadcast use vstd::utf8::encode_utf8_decode_utf8;

/// Types of actions that bot can take in reaction to updates.
#[derive(Clone, Debug)]
pub enum Output {
    TelegramPayload(Payload),
    WatchCommand(Command),
}

impl From<Command> for Output {
    fn from(value: Command) -> (r: Output) {
        Output::WatchCommand(value)
    }
}

impl vstd::std_specs::convert::FromSpecImpl<Command> for Output {
    open spec fn obeys_from_spec() -> bool {
        true
    }

    open spec fn from_spec(v: Command) -> Output {
        Output::WatchCommand(v)
    }
}

impl From<Payload> for Output {
    fn from(value: Payload) -> (r: Output) {
        Output::TelegramPayload(value)
    }
}

impl vstd::std_specs::convert::FromSpecImpl<Payload> for Output {
    open spec fn obeys_from_spec() -> bool {
        true
    }

    open spec fn from_spec(v: Payload) -> Output {
        Output::TelegramPayload(v)
    }
}

/// An output as plain values.
pub enum OutputView {
    Send { chat_id: i64, text: Seq<char>, keyboard: Option<Seq<Seq<(Seq<char>, Seq<char>)>>> },
    Edit { chat_id: i64, message_id: u64, text: Seq<char>, keyboard: Option<Seq<Seq<(Seq<char>, Seq<char>)>>> },
    Action { chat_id: i64, action: ChatAction },
    Answer { callback_query_id: Seq<char>, text: Seq<char> },
    Subscribe { park_id: Seq<char> },
    Unsubscribe { park_id: Seq<char> },
}

/// A keyboard row, button by button as (text, callback data).
pub open spec fn row_view(row: Vec<InlineKeyboardButton>) -> Seq<(Seq<char>, Seq<char>)> {
    row@.map_values(|b: InlineKeyboardButton| (b.text@, b.callback_data@))
}

/// The inline keyboard of a reply markup, row by row.
pub open spec fn keyboard_view(markup: Option<ReplyMarkup>) -> Option<Seq<Seq<(Seq<char>, Seq<char>)>>> {
    match markup {
        Some(ReplyMarkup::InlineKeyboard(rows)) => Some(rows@.map_values(|row: Vec<InlineKeyboardButton>| row_view(row))),
        None => None,
    }
}

impl View for Output {
    type V = OutputView;

    open spec fn view(&self) -> OutputView {
        match self {
            Output::TelegramPayload(Payload::SendMessage(m)) =>
                OutputView::Send { chat_id: m.chat_id, text: m.text@, keyboard: keyboard_view(m.reply_markup) },
            Output::TelegramPayload(Payload::EditMessageText(m)) =>
                OutputView::Edit { chat_id: m.chat_id, message_id: m.message_id, text: m.text@, keyboard: keyboard_view(m.reply_markup) },
            Output::TelegramPayload(Payload::SendChatAction(a)) =>
                OutputView::Action { chat_id: a.chat_id, action: a.action },
            Output::TelegramPayload(Payload::AnswerCallbackQuery(a)) =>
                OutputView::Answer { callback_query_id: a.callback_query_id@, text: a.text@ },
            Output::WatchCommand(Command::SubscribeToPark(p)) => OutputView::Subscribe { park_id: p@ },
            Output::WatchCommand(Command::UnsubscribeFromPark(p)) => OutputView::Unsubscribe { park_id: p@ },
        }
    }
}

/// The views of a list of outputs.
pub open spec fn outputs_view(outs: Seq<Output>) -> Seq<OutputView> {
    outs.map_values(|o: Output| o@)
}

/// The bot's state as plain values: the chats subscribed to each location, and the last known
/// availability of each station.
pub struct StateView {
    pub subscriptions: Map<Seq<char>, Seq<i64>>,
    pub availability: Map<Seq<char>, bool>,
}

/// Represents bot's internal state.
pub struct State {
    pub location_chat_subscriptions: StrMap<Vec<i64>>,
    pub station_availability: StrMap<bool>,
}

impl View for State {
    type V = StateView;

    open spec fn view(&self) -> StateView {
        StateView {
            subscriptions: Map::new(
                |k: Seq<char>| self.location_chat_subscriptions@.contains_key(k),
                |k: Seq<char>| self.location_chat_subscriptions@[k]@,
            ),
            availability: self.station_availability@,
        }
    }
}

impl StateView {
    /// No chat is listed twice for a location.
    pub open spec fn wf(self) -> bool {
        forall|k: Seq<char>| #[trigger] self.subscriptions.contains_key(k) ==> self.subscriptions[k].no_duplicates()
    }
}

impl State {
    /// Both maps have distinct keys and no chat is listed twice for a location.
    pub open spec fn wf(self) -> bool {
        &&& self.location_chat_subscriptions.wf()
        &&& self.station_availability.wf()
        &&& self@.wf()
    }

    /// A state with no subscriptions and no known availability.
    pub fn new() -> (s: State)
        ensures
            s.wf(),
            s@.subscriptions == Map::<Seq<char>, Seq<i64>>::empty(),
            s@.availability == Map::<Seq<char>, bool>::empty(),
    {
        let s = State { location_chat_subscriptions: StrMap::new(), station_availability: StrMap::new() };
        assert(s@.subscriptions =~= Map::<Seq<char>, Seq<i64>>::empty());
        s
    }
}

/// Aliases of the stations that are known to be available, in order.
pub open spec fn available_aliases(stations: Seq<crate::config::Station>, availability: Map<Seq<char>, bool>) -> Seq<Seq<char>>
    decreases stations.len(),
{
    if stations.len() == 0 {
        Seq::empty()
    } else {
        let rest = available_aliases(stations.drop_last(), availability);
        if availability.contains_key(stations.last().id@) && availability[stations.last().id@] {
            rest.push(stations.last().alias@)
        } else {
            rest
        }
    }
}

/// The notification sent for a location, given the aliases of its available stations and the
/// number of its stations.
pub open spec fn availability_message(name: Seq<char>, aliases: Seq<Seq<char>>, count: nat) -> Seq<char> {
    if aliases.len() == count {
        "All chargers are available at "@ + name + ". Should I /stop?"@
    } else if aliases.len() > 1 {
        "Chargers "@ + join(aliases.drop_last(), ", "@) + " and "@ + aliases.last() + " are available at "@ + name + ". Should I /stop?"@
    } else if aliases.len() == 1 {
        "Charger "@ + aliases[0] + " is available at "@ + name + ". Should I /stop?"@
    } else {
        "No chargers at "@ + name + " can be used. Should I /stop?"@
    }
}

/// The notification for a location: none while the status of one of its stations is unknown.
pub open spec fn notification_text(location: Location, availability: Map<Seq<char>, bool>) -> Option<Seq<char>> {
    let stations = location.all_stations_spec();
    if exists|k: int| 0 <= k < stations.len() && !availability.contains_key(#[trigger] stations[k].id@) {
        None
    } else {
        Some(availability_message(location.name@, available_aliases(stations, availability), stations.len()))
    }
}

/// Builds the notification text from the aliases of available stations and the station count.
pub fn build_availability_message(name: &str, aliases: &Vec<&String>, count: usize) -> (r: String)
    ensures
        r@ == availability_message(name@, aliases@.map_values(|a: &String| a@), count as nat),
{
    let ghost av = aliases@.map_values(|a: &String| a@);
    let n = aliases.len();
    let mut r: String;
    if n == count {
        r = String::from_str("All chargers are available at ");
        r.append(name);
        r.append(". Should I /stop?");
    } else if n > 1 {
        r = String::from_str("Chargers ");
        let mut joined = aliases[0].clone();
        let mut k: usize = 1;
        proof {
            assert(av.drop_last().take(1) =~= seq![av[0]]);
        }
        while k < n - 1
            invariant
                n == aliases@.len(),
                n > 1,
                1 <= k <= n - 1,
                av == aliases@.map_values(|a: &String| a@),
                joined@ == join(av.drop_last().take(k as int), ", "@),
            decreases n - 1 - k,
        {
            joined.append(", ");
            joined.append(aliases[k].as_str());
            proof {
                let next = av.drop_last().take(k + 1);
                assert(next.drop_last() =~= av.drop_last().take(k as int));
                assert(next.last() == av[k as int]);
            }
            k = k + 1;
        }
        assert(av.drop_last().take((n - 1) as int) =~= av.drop_last());
        r.append(joined.as_str());
        r.append(" and ");
        r.append(aliases[n - 1].as_str());
        r.append(" are available at ");
        r.append(name);
        r.append(". Should I /stop?");
    } else if n == 1 {
        r = String::from_str("Charger ");
        r.append(aliases[0].as_str());
        r.append(" is available at ");
        r.append(name);
        r.append(". Should I /stop?");
    } else {
        r = String::from_str("No chargers at ");
        r.append(name);
        r.append(" can be used. Should I /stop?");
    }
    r
}

/// Builds notification text given a location and station availability map.
pub fn prepare_notification_text(location: &Location, availability: &StrMap<bool>) -> (r: Option<String>)
    requires
        availability.wf(),
    ensures
        match r {
            Some(t) => notification_text(*location, availability@) == Some(t@),
            None => notification_text(*location, availability@) is None,
        },
{
    let stations = location.all_stations();
    let ghost all = location.all_stations_spec();
    let mut aliases: Vec<&String> = Vec::new();
    let mut i: usize = 0;
    while i < stations.len()
        invariant
            availability.wf(),
            all == location.all_stations_spec(),
            stations@.len() == all.len(),
            forall|k: int| 0 <= k < stations@.len() ==> *stations@[k] == all[k],
            i <= stations@.len(),
            forall|k: int| 0 <= k < i ==> availability@.contains_key(#[trigger] all[k].id@),
            aliases@.map_values(|a: &String| a@) == available_aliases(all.take(i as int), availability@),
        decreases stations@.len() - i,
    {
        let station = stations[i];
        proof {
            let next = all.take(i + 1);
            assert(next.drop_last() =~= all.take(i as int));
            assert(next.last() == all[i as int]);
        }
        match availability.get(station.id.as_str()) {
            None => {
                return None;
            },
            Some(available) => {
                if *available {
                    let ghost before = aliases@.map_values(|a: &String| a@);
                    aliases.push(&station.alias);
                    assert(aliases@.map_values(|a: &String| a@) =~= before.push(station.alias@));
                }
            },
        }
        i = i + 1;
    }
    assert(all.take(stations@.len() as int) =~= all);
    Some(build_availability_message(location.name.as_str(), &aliases, stations.len()))
}

/// A Markdown text message without keyboard.
pub open spec fn send(chat_id: i64, text: Seq<char>) -> OutputView {
    OutputView::Send { chat_id, text, keyboard: None }
}

/// How a station update changes the state, and what it produces.
pub open spec fn station_effect(s: StateView, ds: Datasource, station: Station) -> (StateView, Seq<OutputView>) {
    let sid = station.id@;
    match ds.location_of_station(sid) {
        None => (s, Seq::empty()),
        Some(location) => {
            if !s.subscriptions.contains_key(location.id@) || s.subscriptions[location.id@].len() == 0 {
                (s, Seq::empty())
            } else {
                let now = station.status == Status::Available;
                if s.availability.contains_key(sid) && s.availability[sid] == now {
                    (s, Seq::empty())
                } else {
                    let s2 = StateView { availability: s.availability.insert(sid, now), ..s };
                    match notification_text(location, s2.availability) {
                        None => (s2, Seq::empty()),
                        Some(text) => (s2, s.subscriptions[location.id@].map_values(|c: i64| send(c, text))),
                    }
                }
            }
        },
    }
}

/// Handles a station status update. If any chats are subscribed to the station's location,
/// updates its stored availability in state and generates notifications for each of the chats.
pub fn process_station(station: &Station, state: &mut State, ds: &Datasource) -> (out: Vec<Output>)
    requires
        old(state).wf(),
        ds.wf(),
    ensures
        final(state).wf(),
        (final(state)@, outputs_view(out@)) == station_effect(old(state)@, *ds, *station),
{
    let ghost s0 = state@;
    let location = match ds.get_location_by_station(station.id.as_str()) {
        None => {
            return no_outputs();
        },
        Some(l) => l,
    };
    let chat_ids: Vec<i64> = match state.location_chat_subscriptions.get(location.id.as_str()) {
        None => {
            return no_outputs();
        },
        Some(ids) => copy_ids(ids),
    };
    if chat_ids.len() == 0 {
        return no_outputs();
    }
    let now = station.status == Status::Available;
    match state.station_availability.get(station.id.as_str()) {
        Some(was) => {
            if *was == now {
                return no_outputs();
            }
        },
        None => {},
    }
    state.station_availability.insert(station.id.clone(), now);
    let text = match prepare_notification_text(location, &state.station_availability) {
        None => {
            return no_outputs();
        },
        Some(t) => t,
    };
    let mut out: Vec<Output> = Vec::new();
    let mut k: usize = 0;
    while k < chat_ids.len()
        invariant
            k <= chat_ids@.len(),
            out@.len() == k,
            forall|q: int| 0 <= q < k ==> #[trigger] out@[q]@ == send(chat_ids@[q], text@),
        decreases chat_ids@.len() - k,
    {
        let m = SendMessage::new(chat_ids[k], text.clone());
        out.push(Output::TelegramPayload(Payload::SendMessage(m)));
        k = k + 1;
    }
    assert(outputs_view(out@) =~= s0.subscriptions[location.id@].map_values(|c: i64| send(c, text@)));
    assert(state@.subscriptions =~= s0.subscriptions);
    out
}

/// The chat list with `chat_id` left out.
pub open spec fn without(ids: Seq<i64>, chat_id: i64) -> Seq<i64>
    decreases ids.len(),
{
    if ids.len() == 0 {
        ids
    } else if ids.last() == chat_id {
        without(ids.drop_last(), chat_id)
    } else {
        without(ids.drop_last(), chat_id).push(ids.last())
    }
}

/// The chat list with `chat_id` added at the end unless it is there already.
pub open spec fn with_chat(ids: Seq<i64>, chat_id: i64) -> Seq<i64> {
    if ids.contains(chat_id) { ids } else { ids.push(chat_id) }
}

/// Unsubscribe commands for the given parks, in order.
pub open spec fn unsubscribes(parks: Seq<Park>) -> Seq<OutputView> {
    parks.map_values(|p: Park| OutputView::Unsubscribe { park_id: p.id@ })
}

/// Subscribe commands for the given parks, in order.
pub open spec fn subscribes(parks: Seq<Park>) -> Seq<OutputView> {
    parks.map_values(|p: Park| OutputView::Subscribe { park_id: p.id@ })
}

/// How a /stop from `chat_id` affects one of its locations: the chat leaves the location's
/// subscribers; when none are left, the location's parks are unsubscribed from and the known
/// availability of its stations is forgotten.
pub open spec fn stop_location(s: StateView, location: Location, chat_id: i64) -> (StateView, Seq<OutputView>) {
    if s.subscriptions.contains_key(location.id@) {
        let ids = without(s.subscriptions[location.id@], chat_id);
        let subscriptions = s.subscriptions.insert(location.id@, ids);
        if ids.len() == 0 {
            (
                StateView { subscriptions, availability: s.availability.remove_keys(park_station_ids(location.parks@)) },
                unsubscribes(location.parks@),
            )
        } else {
            (StateView { subscriptions, availability: s.availability }, Seq::empty())
        }
    } else {
        (s, Seq::empty())
    }
}

/// How a /stop from `chat_id` affects the given locations, one after the other.
pub open spec fn stop_locations(s: StateView, locations: Seq<Location>, chat_id: i64) -> (StateView, Seq<OutputView>)
    decreases locations.len(),
{
    if locations.len() == 0 {
        (s, Seq::empty())
    } else {
        let (s1, o1) = stop_locations(s, locations.drop_last(), chat_id);
        let (s2, o2) = stop_location(s1, locations.last(), chat_id);
        (s2, o1 + o2)
    }
}

/// The keyboard offered by /start: one row per location, with its name and ID.
pub open spec fn location_keyboard(locations: Seq<Location>) -> Seq<Seq<(Seq<char>, Seq<char>)>> {
    locations.map_values(|l: Location| seq![(l.name@, l.id@)])
}

/// The message holds exactly one entity, a bot command that ends within the text.
pub open spec fn command_fits(message: Message) -> bool {
    &&& message.entities@.len() == 1
    &&& message.entities@[0].typ == EntityType::BotCommand
    &&& message.entities@[0].offset + message.entities@[0].length <= encode_utf8(message.text@).len()
}

/// A message can be processed without a panic: when its single bot command ends within the text,
/// the command's byte range does not overflow and starts and ends on character boundaries.
pub open spec fn message_processable(message: Message) -> bool {
    (message.entities@.len() == 1 && message.entities@[0].typ == EntityType::BotCommand)
        ==> {
        let e = message.entities@[0];
        &&& e.offset + e.length <= usize::MAX
        &&& e.offset + e.length <= encode_utf8(message.text@).len() ==> {
                &&& is_char_boundary(encode_utf8(message.text@), e.offset as int)
                &&& is_char_boundary(encode_utf8(message.text@), e.offset + e.length)
            }
    }
}

/// The lowercased command of a message whose command fits.
pub open spec fn command_of(message: Message) -> Seq<char> {
    let e = message.entities@[0];
    lowercase(byte_range_text(message.text@, e.offset as int, e.offset + e.length))
}

pub open spec fn is_start(cmd: Seq<char>) -> bool {
    cmd == "/start"@ || is_prefix("/start@"@, cmd)
}

pub open spec fn is_stop(cmd: Seq<char>) -> bool {
    cmd == "/stop"@ || is_prefix("/stop@"@, cmd)
}

/// How a text message changes the state, and what it produces.
pub open spec fn message_effect(s: StateView, ds: Datasource, message: Message) -> (StateView, Seq<OutputView>) {
    let chat_id = message.chat.id;
    if !command_fits(message) {
        (s, Seq::empty())
    } else {
        let cmd = command_of(message);
        let locations = ds.locations_for_chat(chat_id);
        if is_start(cmd) {
            if locations.len() == 0 {
                (s, seq![send(chat_id, "Sorry. I'm not configured to work in this chat."@)])
            } else {
                (s, seq![OutputView::Send {
                    chat_id,
                    text: "Where do you want to charge?"@,
                    keyboard: Some(location_keyboard(locations)),
                }])
            }
        } else if is_stop(cmd) {
            let (s2, o) = stop_locations(s, locations, chat_id);
            (s2, o.push(send(chat_id, "Won't send any more updates here. Let me know when to /start again."@)))
        } else {
            (s, Seq::empty())
        }
    }
}

/// Position of the first location with the given ID.
pub open spec fn first_with_id(locations: Seq<Location>, id: Seq<char>) -> Option<int>
    decreases locations.len(),
{
    if locations.len() == 0 {
        None
    } else {
        match first_with_id(locations.drop_last(), id) {
            Some(k) => Some(k),
            None => if locations.last().id@ == id { Some(locations.len() - 1) } else { None },
        }
    }
}

/// `first_with_id` finds the first position holding the ID, if any.
pub proof fn lemma_first_with_id(locations: Seq<Location>, id: Seq<char>)
    ensures
        match first_with_id(locations, id) {
            Some(k) => 0 <= k < locations.len() && locations[k].id@ == id
                && forall|j: int| 0 <= j < k ==> #[trigger] locations[j].id@ != id,
            None => forall|j: int| 0 <= j < locations.len() ==> #[trigger] locations[j].id@ != id,
        },
    decreases locations.len(),
{
    if locations.len() > 0 {
        let prefix = locations.drop_last();
        lemma_first_with_id(prefix, id);
        assert forall|j: int| 0 <= j < prefix.len() implies #[trigger] locations[j] == prefix[j] by {}
    }
}

/// The text that replaces the keyboard message once a location is chosen.
pub open spec fn choice_text(chat_type: ChatType, username: Seq<char>, name: Seq<char>) -> Seq<char> {
    if chat_type == ChatType::Private {
        "Where do you want to charge?\n"@ + "👉*"@ + name + "*"@
    } else {
        "Where do you want to charge?\n"@ + username + "👉*"@ + name + "*"@
    }
}

/// How a click on the location keyboard changes the state, and what it produces.
pub open spec fn callback_effect(s: StateView, ds: Datasource, query: CallbackQuery) -> (StateView, Seq<OutputView>) {
    let chat_id = query.message.chat.id;
    let locations = ds.locations_for_chat(chat_id);
    match first_with_id(locations, query.data@) {
        None => (s, Seq::empty()),
        Some(k) => {
            let location = locations[k];
            let ids = if s.subscriptions.contains_key(location.id@) {
                with_chat(s.subscriptions[location.id@], chat_id)
            } else {
                seq![chat_id]
            };
            let s2 = StateView { subscriptions: s.subscriptions.insert(location.id@, ids), ..s };
            let last = match notification_text(location, s.availability) {
                Some(text) => send(chat_id, text),
                None => OutputView::Action { chat_id, action: ChatAction::Typing },
            };
            (s2, subscribes(location.parks@)
                .push(OutputView::Answer { callback_query_id: query.id@, text: location.name@ })
                .push(OutputView::Edit {
                    chat_id,
                    message_id: query.message.message_id,
                    text: choice_text(query.message.chat.typ, query.from.username@, location.name@),
                    keyboard: None,
                })
                .push(last))
        },
    }
}

/// An empty list of outputs.
fn no_outputs() -> (r: Vec<Output>)
    ensures
        r@.len() == 0,
        outputs_view(r@) == Seq::<OutputView>::empty(),
{
    let r: Vec<Output> = Vec::new();
    assert(outputs_view(r@) =~= Seq::<OutputView>::empty());
    r
}

/// Copies a list of chat IDs.
fn copy_ids(ids: &Vec<i64>) -> (r: Vec<i64>)
    ensures
        r@ == ids@,
{
    let mut r: Vec<i64> = Vec::new();
    let mut k: usize = 0;
    while k < ids.len()
        invariant
            k <= ids@.len(),
            r@ == ids@.take(k as int),
        decreases ids@.len() - k,
    {
        r.push(ids[k]);
        assert(ids@.take(k + 1) =~= ids@.take(k as int).push(ids@[k as int]));
        k = k + 1;
    }
    assert(ids@.take(ids@.len() as int) =~= ids@);
    r
}

/// Removes `chat_id` from a chat list.
fn remove_chat(ids: &Vec<i64>, chat_id: i64) -> (r: Vec<i64>)
    ensures
        r@ == without(ids@, chat_id),
{
    let mut r: Vec<i64> = Vec::new();
    let mut k: usize = 0;
    while k < ids.len()
        invariant
            k <= ids@.len(),
            r@ == without(ids@.take(k as int), chat_id),
        decreases ids@.len() - k,
    {
        proof {
            let next = ids@.take(k + 1);
            assert(next.drop_last() =~= ids@.take(k as int));
            assert(next.last() == ids@[k as int]);
        }
        if ids[k] != chat_id {
            r.push(ids[k]);
        }
        k = k + 1;
    }
    assert(ids@.take(ids@.len() as int) =~= ids@);
    r
}

proof fn lemma_without(ids: Seq<i64>, chat_id: i64)
    ensures
        forall|c: i64| #[trigger] without(ids, chat_id).contains(c) <==> (ids.contains(c) && c != chat_id),
        ids.no_duplicates() ==> without(ids, chat_id).no_duplicates(),
    decreases ids.len(),
{
    broadcast use vstd::seq_lib::lemma_seq_contains_after_push;
    if ids.len() > 0 {
        let prefix = ids.drop_last();
        let last = ids.last();
        lemma_without(prefix, chat_id);
        assert(ids =~= prefix.push(last));
        if ids.no_duplicates() {
            assert(prefix.no_duplicates()) by {
                assert forall|i: int, j: int| 0 <= i < prefix.len() && 0 <= j < prefix.len() && i != j implies prefix[i] != prefix[j] by {
                    assert(ids[i] != ids[j]);
                }
            }
            assert(!prefix.contains(last)) by {
                if prefix.contains(last) {
                    let k = choose|k: int| 0 <= k < prefix.len() && prefix[k] == last;
                    assert(ids[k] == ids[ids.len() - 1]);
                }
            }
            if last != chat_id {
                let w = without(prefix, chat_id);
                assert(!w.contains(last));
                assert(w.push(last).no_duplicates()) by {
                    assert forall|i: int, j: int| 0 <= i < w.len() + 1 && 0 <= j < w.len() + 1 && i != j implies w.push(last)[i] != w.push(last)[j] by {
                        if i < w.len() && j < w.len() {
                        } else if i == w.len() {
                            assert(w.contains(w[j]));
                        } else {
                            assert(w.contains(w[i]));
                        }
                    }
                }
            }
        }
    }
}

/// Adds `chat_id` to a chat list unless it is there already.
fn add_chat(ids: Vec<i64>, chat_id: i64) -> (r: Vec<i64>)
    ensures
        r@ == with_chat(ids@, chat_id),
{
    let mut k: usize = 0;
    while k < ids.len()
        invariant
            k <= ids@.len(),
            forall|q: int| 0 <= q < k ==> ids@[q] != chat_id,
        decreases ids@.len() - k,
    {
        if ids[k] == chat_id {
            assert(ids@.contains(chat_id));
            return ids;
        }
        k = k + 1;
    }
    let mut ids = ids;
    ids.push(chat_id);
    ids
}

/// Handles text commands from a Telegram user:
/// /start: Shows an inline keyboard with locations configured for this chat
/// /stop:  Cancels all location subscriptions for the chat.
///         Purges associated internal state for locations that aren't watched by any other chats.
pub fn process_message(message: &Message, state: &mut State, ds: &Datasource) -> (out: Vec<Output>)
    requires
        old(state).wf(),
        ds.wf(),
        message_processable(*message),
    ensures
        final(state).wf(),
        (final(state)@, outputs_view(out@)) == message_effect(old(state)@, *ds, *message),
{
    if message.entities.len() != 1 {
        return no_outputs();
    }
    let entity = &message.entities[0];
    if entity.typ != EntityType::BotCommand {
        return no_outputs();
    }
    let end = entity.offset + entity.length;
    if message.text.as_str().as_bytes().len() < end {
        return no_outputs();
    }
    let slice = match byte_range(message.text.as_str(), entity.offset, end) {
        Some(t) => t,
        None => {
            return no_outputs();
        },
    };
    let command = to_lowercase(slice);
    proof {
        assert(slice@ == decode_utf8(encode_utf8(slice@)));
    }
    let chat_id = message.chat.id;
    let start = text_eq(command.as_str(), "/start") || starts_with(command.as_str(), "/start@");
    let stop = text_eq(command.as_str(), "/stop") || starts_with(command.as_str(), "/stop@");
    if start {
        let locations = ds.get_locations_by_chat(chat_id);
        if locations.len() == 0 {
            let m = SendMessage::new(chat_id, String::from_str("Sorry. I'm not configured to work in this chat."));
            let mut out: Vec<Output> = Vec::new();
            out.push(Output::TelegramPayload(Payload::SendMessage(m)));
            assert(outputs_view(out@) =~= seq![send(chat_id, "Sorry. I'm not configured to work in this chat."@)]);
            return out;
        }
        let mut rows: Vec<Vec<InlineKeyboardButton>> = Vec::new();
        let mut k: usize = 0;
        while k < locations.len()
            invariant
                k <= locations@.len(),
                rows@.len() == k,
                forall|q: int| 0 <= q < k ==> #[trigger] row_view(rows@[q]) == seq![(locations@[q].name@, locations@[q].id@)],
            decreases locations@.len() - k,
        {
            let loc = locations[k];
            let mut row: Vec<InlineKeyboardButton> = Vec::new();
            row.push(InlineKeyboardButton::new(loc.name.clone(), loc.id.clone()));
            assert(row_view(row) =~= seq![(loc.name@, loc.id@)]);
            rows.push(row);
            k = k + 1;
        }
        let m = SendMessage::new(chat_id, String::from_str("Where do you want to charge?"))
            .with_reply_markup(Some(ReplyMarkup::InlineKeyboard(rows)));
        let mut out: Vec<Output> = Vec::new();
        out.push(Output::TelegramPayload(Payload::SendMessage(m)));
        proof {
            let lv = ds.locations_for_chat(chat_id);
            assert(keyboard_view(m.reply_markup) =~= Some(location_keyboard(lv)));
            assert(outputs_view(out@) =~= seq![OutputView::Send {
                chat_id,
                text: "Where do you want to charge?"@,
                keyboard: Some(location_keyboard(lv)),
            }]);
        }
        return out;
    } else if stop {
        let locations = ds.get_locations_by_chat(chat_id);
        let ghost lv = ds.locations_for_chat(chat_id);
        let ghost s0 = state@;
        let mut out: Vec<Output> = Vec::new();
        let mut k: usize = 0;
        while k < locations.len()
            invariant
                state.wf(),
                lv == ds.locations_for_chat(chat_id),
                locations@.len() == lv.len(),
                forall|q: int| 0 <= q < locations@.len() ==> *locations@[q] == lv[q],
                k <= locations@.len(),
                (state@, outputs_view(out@)) == stop_locations(s0, lv.take(k as int), chat_id),
            decreases locations@.len() - k,
        {
            let location = locations[k];
            proof {
                let next = lv.take(k + 1);
                assert(next.drop_last() =~= lv.take(k as int));
                assert(next.last() == lv[k as int]);
            }
            stop_one_location(location, chat_id, state, &mut out);
            k = k + 1;
        }
        assert(lv.take(lv.len() as int) =~= lv);
        let m = SendMessage::new(chat_id, String::from_str("Won't send any more updates here. Let me know when to /start again."));
        let ghost before = outputs_view(out@);
        out.push(Output::TelegramPayload(Payload::SendMessage(m)));
        assert(outputs_view(out@) =~= before.push(send(chat_id, "Won't send any more updates here. Let me know when to /start again."@)));
        return out;
    }
    no_outputs()
}

/// Applies a /stop from `chat_id` to one location, appending the outputs it produces.
fn stop_one_location(location: &Location, chat_id: i64, state: &mut State, out: &mut Vec<Output>)
    requires
        old(state).wf(),
    ensures
        final(state).wf(),
        (final(state)@, outputs_view(final(out)@)) == ({
            let (s2, o) = stop_location(old(state)@, *location, chat_id);
            (s2, outputs_view(old(out)@) + o)
        }),
{
    let ghost s0 = state@;
    let ghost o0 = outputs_view(out@);
    match state.location_chat_subscriptions.take(location.id.as_str()) {
        None => {
            assert(state@.subscriptions =~= s0.subscriptions);
            assert(o0 + Seq::<OutputView>::empty() =~= o0);
        },
        Some(ids) => {
            let remaining = remove_chat(&ids, chat_id);
            proof { lemma_without(ids@, chat_id); }
            let empty = remaining.len() == 0;
            state.location_chat_subscriptions.insert(location.id.clone(), remaining);
            assert(state@.subscriptions =~= s0.subscriptions.insert(location.id@, without(s0.subscriptions[location.id@], chat_id)));
            let ghost subs1 = state.location_chat_subscriptions@;
            if empty {
                let ghost avail0 = state.station_availability@;
                let mut p: usize = 0;
                while p < location.parks.len()
                    invariant
                        p <= location.parks@.len(),
                        state.location_chat_subscriptions.wf(),
                        state.location_chat_subscriptions@ == subs1,
                        state.station_availability.wf(),
                        state.station_availability@ == avail0.remove_keys(park_station_ids(location.parks@.take(p as int))),
                        outputs_view(out@) == o0 + unsubscribes(location.parks@.take(p as int)),
                    decreases location.parks@.len() - p,
                {
                    let park = &location.parks[p];
                    let ghost ob = outputs_view(out@);
                    out.push(Output::WatchCommand(Command::UnsubscribeFromPark(park.id.clone())));
                    proof {
                        assert(location.parks@.take(p + 1) =~= location.parks@.take(p as int).push(*park));
                        assert(outputs_view(out@) =~= ob.push(OutputView::Unsubscribe { park_id: park.id@ }));
                        assert(unsubscribes(location.parks@.take(p + 1)) =~= unsubscribes(location.parks@.take(p as int)).push(OutputView::Unsubscribe { park_id: park.id@ }));
                    }
                    let ghost a0 = state.station_availability@;
                    let mut q: usize = 0;
                    while q < park.stations.len()
                        invariant
                            p < location.parks@.len(),
                            *park == location.parks@[p as int],
                            state.location_chat_subscriptions.wf(),
                            state.location_chat_subscriptions@ == subs1,
                            q <= park.stations@.len(),
                            state.station_availability.wf(),
                            state.station_availability@ == a0.remove_keys(crate::datasource::station_ids(park.stations@.take(q as int))),
                        decreases park.stations@.len() - q,
                    {
                        let _ = state.station_availability.take(park.stations[q].id.as_str());
                        proof {
                            let sts = park.stations@;
                            let t1 = sts.take(q + 1);
                            let t0 = sts.take(q as int);
                            assert(crate::datasource::station_ids(t1) =~= crate::datasource::station_ids(t0).insert(sts[q as int].id@)) by {
                                assert forall|x: Seq<char>| crate::datasource::station_ids(t1).contains(x) implies crate::datasource::station_ids(t0).insert(sts[q as int].id@).contains(x) by {
                                    let i = choose|i: int| 0 <= i < t1.len() && #[trigger] t1[i].id@ == x;
                                    if i < q {
                                        assert(t0[i].id@ == x);
                                    }
                                }
                                assert forall|x: Seq<char>| crate::datasource::station_ids(t0).insert(sts[q as int].id@).contains(x) implies crate::datasource::station_ids(t1).contains(x) by {
                                    if x == sts[q as int].id@ {
                                        assert(t1[q as int].id@ == x);
                                    } else {
                                        let i = choose|i: int| 0 <= i < t0.len() && #[trigger] t0[i].id@ == x;
                                        assert(t1[i].id@ == x);
                                    }
                                }
                            }
                            assert(state.station_availability@ =~= a0.remove_keys(crate::datasource::station_ids(sts.take(q + 1))));
                        }
                        q = q + 1;
                    }
                    proof {
                        let parks = location.parks@;
                        let u1 = parks.take(p + 1);
                        let u0 = parks.take(p as int);
                        assert(park.stations@.take(park.stations@.len() as int) =~= park.stations@);
                        assert(park_station_ids(u1) =~= park_station_ids(u0) + crate::datasource::station_ids(park.stations@)) by {
                            assert forall|x: Seq<char>| park_station_ids(u1).contains(x) implies (park_station_ids(u0) + crate::datasource::station_ids(park.stations@)).contains(x) by {
                                let j = choose|j: int| 0 <= j < u1.len() && #[trigger] crate::datasource::station_ids(u1[j].stations@).contains(x);
                                if j < p {
                                    assert(u0[j] == u1[j]);
                                    assert(crate::datasource::station_ids(u0[j].stations@).contains(x));
                                }
                            }
                            assert forall|x: Seq<char>| (park_station_ids(u0) + crate::datasource::station_ids(park.stations@)).contains(x) implies park_station_ids(u1).contains(x) by {
                                if park_station_ids(u0).contains(x) {
                                    let j = choose|j: int| 0 <= j < u0.len() && #[trigger] crate::datasource::station_ids(u0[j].stations@).contains(x);
                                    assert(u1[j] == u0[j]);
                                    assert(crate::datasource::station_ids(u1[j].stations@).contains(x));
                                } else {
                                    assert(u1[p as int] == *park);
                                    assert(crate::datasource::station_ids(u1[p as int].stations@).contains(x));
                                }
                            }
                        }
                        assert(state.station_availability@ =~= avail0.remove_keys(park_station_ids(parks.take(p + 1))));
                    }
                    p = p + 1;
                }
                assert(location.parks@.take(location.parks@.len() as int) =~= location.parks@);
            } else {
                assert(o0 + Seq::<OutputView>::empty() =~= o0);
            }
            proof {
                assert forall|k: Seq<char>| #[trigger] state@.subscriptions.contains_key(k) implies state@.subscriptions[k].no_duplicates() by {
                    if k != location.id@ {
                        assert(s0.subscriptions.contains_key(k));
                    }
                }
            }
        },
    }
}

/// Position of the first location with the given ID.
fn find_location(locations: &Vec<&Location>, id: &str) -> (r: Option<usize>)
    ensures
        match r {
            Some(k) => k < locations@.len() && locations@[k as int].id@ == id@
                && forall|q: int| 0 <= q < k ==> #[trigger] locations@[q].id@ != id@,
            None => forall|q: int| 0 <= q < locations@.len() ==> #[trigger] locations@[q].id@ != id@,
        },
{
    let mut k: usize = 0;
    while k < locations.len()
        invariant
            k <= locations@.len(),
            forall|q: int| 0 <= q < k ==> #[trigger] locations@[q].id@ != id@,
        decreases locations@.len() - k,
    {
        if text_eq(locations[k].id.as_str(), id) {
            return Some(k);
        }
        k = k + 1;
    }
    None
}

/// Handles a click on the inline keyboard when a user subscribes a chat to a location.
/// Creates watcher subscriptions for all parks associated with the location. Modifies the original
/// message to remove the inline keyboard and denote the choice. If another chat is already subscribed
/// to the location and all the statuses are known, sends the response immediately. Otherwise, sends
/// typing notification while the statuses are synced by the watcher.
pub fn process_callback_query(callback_query: &CallbackQuery, state: &mut State, ds: &Datasource) -> (out: Vec<Output>)
    requires
        old(state).wf(),
        ds.wf(),
    ensures
        final(state).wf(),
        (final(state)@, outputs_view(out@)) == callback_effect(old(state)@, *ds, *callback_query),
{
    let chat_id = callback_query.message.chat.id;
    let locations = ds.get_locations_by_chat(chat_id);
    let ghost lv = ds.locations_for_chat(chat_id);
    let k = match find_location(&locations, callback_query.data.as_str()) {
        None => {
            proof {
                assert forall|q: int| 0 <= q < lv.len() implies #[trigger] lv[q].id@ != callback_query.data@ by {
                    assert(*locations@[q] == lv[q]);
                }
                lemma_first_with_id(lv, callback_query.data@);
            }
            return no_outputs();
        },
        Some(k) => k,
    };
    let location = locations[k];
    proof {
        assert forall|q: int| 0 <= q < k implies #[trigger] lv[q].id@ != callback_query.data@ by {
            assert(*locations@[q] == lv[q]);
        }
        assert(*locations@[k as int] == lv[k as int]);
        assert(lv[k as int].id@ == callback_query.data@);
        lemma_first_with_id(lv, callback_query.data@);
        let w = first_with_id(lv, callback_query.data@)->0;
        if w < k {
            assert(lv[w].id@ != callback_query.data@);
        }
        if w > k {
            assert(lv[k as int].id@ != callback_query.data@);
        }
        assert(w == k as int);
    }
    let ghost s0 = state@;
    let mut out: Vec<Output> = Vec::new();
    let mut p: usize = 0;
    proof {
        assert(location.parks@.take(0) =~= Seq::<Park>::empty());
        assert(outputs_view(out@) =~= subscribes(location.parks@.take(0)));
    }
    while p < location.parks.len()
        invariant
            p <= location.parks@.len(),
            outputs_view(out@) == subscribes(location.parks@.take(p as int)),
        decreases location.parks@.len() - p,
    {
        let ghost ob = outputs_view(out@);
        out.push(Output::WatchCommand(Command::SubscribeToPark(location.parks[p].id.clone())));
        proof {
            assert(location.parks@.take(p + 1) =~= location.parks@.take(p as int).push(location.parks@[p as int]));
            assert(outputs_view(out@) =~= ob.push(OutputView::Subscribe { park_id: location.parks@[p as int].id@ }));
        }
        p = p + 1;
    }
    assert(location.parks@.take(location.parks@.len() as int) =~= location.parks@);
    let ghost o1 = outputs_view(out@);
    let answer = AnswerCallbackQuery::new(callback_query.id.clone(), location.name.clone());
    out.push(Output::TelegramPayload(Payload::AnswerCallbackQuery(answer)));
    let ids = match state.location_chat_subscriptions.take(location.id.as_str()) {
        Some(ids) => add_chat(ids, chat_id),
        None => {
            let mut v: Vec<i64> = Vec::new();
            v.push(chat_id);
            v
        },
    };
    proof {
        if s0.subscriptions.contains_key(location.id@) {
            assert(s0.subscriptions[location.id@].no_duplicates());
        }
        assert(ids@.no_duplicates());
    }
    state.location_chat_subscriptions.insert(location.id.clone(), ids);
    assert(state.station_availability@ == s0.availability);
    let mut text = String::from_str("Where do you want to charge?
");
    if callback_query.message.chat.typ == ChatType::Private {
        text.append("👉*");
    } else {
        text.append(callback_query.from.username.as_str());
        text.append("👉*");
    }
    text.append(location.name.as_str());
    text.append("*");
    let edit = EditMessageText::new(chat_id, callback_query.message.message_id, text);
    out.push(Output::TelegramPayload(Payload::EditMessageText(edit)));
    let last = match prepare_notification_text(location, &state.station_availability) {
        Some(t) => Output::TelegramPayload(Payload::SendMessage(SendMessage::new(chat_id, t))),
        None => Output::TelegramPayload(Payload::SendChatAction(SendChatAction::new(chat_id, ChatAction::Typing))),
    };
    out.push(last);
    proof {
        assert forall|key: Seq<char>| #[trigger] state@.subscriptions.contains_key(key) implies state@.subscriptions[key].no_duplicates() by {
            if key != location.id@ {
                assert(s0.subscriptions.contains_key(key));
            }
        }
        let lastv = match notification_text(*location, s0.availability) {
            Some(t) => send(chat_id, t),
            None => OutputView::Action { chat_id, action: ChatAction::Typing },
        };
        assert(outputs_view(out@) =~= o1
            .push(OutputView::Answer { callback_query_id: callback_query.id@, text: location.name@ })
            .push(OutputView::Edit {
                chat_id,
                message_id: callback_query.message.message_id,
                text: choice_text(callback_query.message.chat.typ, callback_query.from.username@, location.name@),
                keyboard: None,
            })
            .push(lastv));
        assert(state@.subscriptions =~= s0.subscriptions.insert(location.id@, ids@));
    }
    out
}

/// Checks `message_processable`, so that a caller can refuse a message the processor cannot take.
pub fn message_is_processable(message: &Message) -> (r: bool)
    ensures
        r == message_processable(*message),
{
    if message.entities.len() != 1 || message.entities[0].typ != EntityType::BotCommand {
        return true;
    }
    let e = &message.entities[0];
    if e.offset > usize::MAX - e.length {
        return false;
    }
    let end = e.offset + e.length;
    let text = message.text.as_str();
    if text.as_bytes().len() < end {
        return true;
    }
    text.is_char_boundary(e.offset) && text.is_char_boundary(end)
}

/// An input of the bot processor.
pub enum Event {
    /// An update received from Telegram.
    TelegramUpdate(Update),
    /// A station status change reported by the park watcher.
    StationUpdate(Station),
    /// The channel of Telegram updates was closed.
    TelegramUpdatesClosed,
    /// The channel of station updates was closed.
    StationUpdatesClosed,
}

/// What the bot processor does next.
pub enum Step {
    /// Deliver these outputs, then wait for the next event.
    Dispatch(Vec<Output>),
    /// Stop quietly.
    Finish,
    /// Report a failure, then stop.
    Fail,
}

/// An event can be handled without a panic.
pub open spec fn event_processable(event: Event) -> bool {
    match event {
        Event::TelegramUpdate(u) => match u.message {
            Some(m) => message_processable(m),
            None => true,
        },
        _ => true,
    }
}

/// Decides how the processor reacts to one event: a Telegram update is handled as a message if
/// it has one, else as a callback query if it has one, else ignored; a station update is
/// handled as such; the end of Telegram updates finishes the processor, and the end of station
/// updates makes it fail.
pub fn handle_event(event: Event, state: &mut State, ds: &Datasource) -> (step: Step)
    requires
        old(state).wf(),
        ds.wf(),
        event_processable(event),
    ensures
        final(state).wf(),
        match event {
            Event::TelegramUpdate(u) => step matches Step::Dispatch(out) && match u.message {
                Some(m) => (final(state)@, outputs_view(out@)) == message_effect(old(state)@, *ds, m),
                None => match u.callback_query {
                    Some(q) => (final(state)@, outputs_view(out@)) == callback_effect(old(state)@, *ds, q),
                    None => final(state)@ == old(state)@ && out@.len() == 0,
                },
            },
            Event::StationUpdate(st) => step matches Step::Dispatch(out)
                && (final(state)@, outputs_view(out@)) == station_effect(old(state)@, *ds, st),
            Event::TelegramUpdatesClosed => step is Finish && final(state)@ == old(state)@,
            Event::StationUpdatesClosed => step is Fail && final(state)@ == old(state)@,
        },
{
    match event {
        Event::TelegramUpdate(update) => {
            match update.message {
                Some(message) => Step::Dispatch(process_message(&message, state, ds)),
                None => match update.callback_query {
                    Some(query) => Step::Dispatch(process_callback_query(&query, state, ds)),
                    None => Step::Dispatch(no_outputs()),
                },
            }
        },
        Event::StationUpdate(station) => Step::Dispatch(process_station(&station, state, ds)),
        Event::TelegramUpdatesClosed => Step::Finish,
        Event::StationUpdatesClosed => Step::Fail,
    }
}

/// Every chat subscribed to a location has that location among the locations configured for it.
pub open spec fn subscriptions_allowed(s: StateView, ds: Datasource) -> bool {
    forall|loc_id: Seq<char>, c: i64|
        #[trigger] s.subscriptions.contains_key(loc_id) && #[trigger] s.subscriptions[loc_id].contains(c)
            ==> exists|k: int| 0 <= k < ds.locations_for_chat(c).len() && #[trigger] ds.locations_for_chat(c)[k].id@ == loc_id
}

/// A station update notifies exactly the chats subscribed to the station's location, each once,
/// and nobody else.
pub proof fn law_station_notifies_subscribers(s: StateView, ds: Datasource, station: Station)
    ensures
        forall|i: int| 0 <= i < station_effect(s, ds, station).1.len() ==> {
            let o = #[trigger] station_effect(s, ds, station).1[i];
            &&& o is Send
            &&& ds.location_of_station(station.id@) is Some
            &&& s.subscriptions.contains_key(ds.location_of_station(station.id@)->0.id@)
            &&& s.subscriptions[ds.location_of_station(station.id@)->0.id@].contains(o->Send_chat_id)
        },
{
    let (s2, o) = station_effect(s, ds, station);
    assert forall|i: int| 0 <= i < o.len() implies {
        let oi = #[trigger] o[i];
        &&& oi is Send
        &&& ds.location_of_station(station.id@) is Some
        &&& s.subscriptions.contains_key(ds.location_of_station(station.id@)->0.id@)
        &&& s.subscriptions[ds.location_of_station(station.id@)->0.id@].contains(oi->Send_chat_id)
    } by {
        let loc = ds.location_of_station(station.id@)->0;
        let ids = s.subscriptions[loc.id@];
        assert(o[i]->Send_chat_id == ids[i]);
    }
}

/// Reporting the same station status twice in a row notifies nobody the second time and leaves
/// the state as the first report left it.
pub proof fn law_repeated_station_update_is_quiet(s: StateView, ds: Datasource, station: Station)
    ensures
        station_effect(station_effect(s, ds, station).0, ds, station).0 == station_effect(s, ds, station).0,
        station_effect(station_effect(s, ds, station).0, ds, station).1.len() == 0,
{
}

/// A click on the location keyboard subscribes the chat to the chosen location, first asking the
/// watcher to follow each of the location's parks.
pub proof fn law_choice_subscribes(s: StateView, ds: Datasource, query: CallbackQuery)
    requires
        first_with_id(ds.locations_for_chat(query.message.chat.id), query.data@) is Some,
    ensures
        ({
            let location = ds.locations_for_chat(query.message.chat.id)[first_with_id(ds.locations_for_chat(query.message.chat.id), query.data@)->0];
            let (s2, o) = callback_effect(s, ds, query);
            &&& s2.subscriptions.contains_key(location.id@)
            &&& s2.subscriptions[location.id@].contains(query.message.chat.id)
            &&& o.len() == location.parks@.len() + 3
            &&& forall|j: int| 0 <= j < location.parks@.len() ==> #[trigger] o[j] == (OutputView::Subscribe { park_id: location.parks@[j].id@ })
        }),
{
    let chat_id = query.message.chat.id;
    let location = ds.locations_for_chat(chat_id)[first_with_id(ds.locations_for_chat(chat_id), query.data@)->0];
    if s.subscriptions.contains_key(location.id@) {
        let ids = s.subscriptions[location.id@];
        if !ids.contains(chat_id) {
            assert(ids.push(chat_id)[ids.len() as int] == chat_id);
        }
    } else {
        assert(seq![chat_id][0] == chat_id);
    }
}

proof fn lemma_stop_locations(s: StateView, locations: Seq<Location>, chat_id: i64)
    ensures
        stop_locations(s, locations, chat_id).0.subscriptions.dom() == s.subscriptions.dom(),
        forall|k: Seq<char>| #[trigger] s.subscriptions.contains_key(k) ==>
            if exists|j: int| 0 <= j < locations.len() && #[trigger] locations[j].id@ == k {
                !stop_locations(s, locations, chat_id).0.subscriptions[k].contains(chat_id)
            } else {
                stop_locations(s, locations, chat_id).0.subscriptions[k] == s.subscriptions[k]
            },
        forall|k: Seq<char>, c: i64| #[trigger] s.subscriptions.contains_key(k)
            && #[trigger] stop_locations(s, locations, chat_id).0.subscriptions[k].contains(c)
            ==> s.subscriptions[k].contains(c),
    decreases locations.len(),
{
    if locations.len() > 0 {
        let prefix = locations.drop_last();
        let last = locations.last();
        lemma_stop_locations(s, prefix, chat_id);
        let s1 = stop_locations(s, prefix, chat_id).0;
        let s2 = stop_locations(s, locations, chat_id).0;
        assert(s2 == stop_location(s1, last, chat_id).0);
        if s1.subscriptions.contains_key(last.id@) {
            lemma_without(s1.subscriptions[last.id@], chat_id);
        }
        assert(s2.subscriptions.dom() =~= s.subscriptions.dom());
        assert forall|k: Seq<char>| #[trigger] s.subscriptions.contains_key(k) implies
            if exists|j: int| 0 <= j < locations.len() && #[trigger] locations[j].id@ == k {
                !s2.subscriptions[k].contains(chat_id)
            } else {
                s2.subscriptions[k] == s.subscriptions[k]
            } by {
            if k == last.id@ {
                assert(locations[locations.len() - 1].id@ == k);
            } else {
                if exists|j: int| 0 <= j < locations.len() && #[trigger] locations[j].id@ == k {
                    let j = choose|j: int| 0 <= j < locations.len() && #[trigger] locations[j].id@ == k;
                    assert(prefix[j].id@ == k);
                } else {
                    assert forall|j: int| 0 <= j < prefix.len() implies #[trigger] prefix[j].id@ != k by {
                        assert(locations[j] == prefix[j]);
                    }
                }
            }
        }
        assert forall|k: Seq<char>, c: i64| #[trigger] s.subscriptions.contains_key(k)
            && #[trigger] s2.subscriptions[k].contains(c) implies s.subscriptions[k].contains(c) by {
            if k == last.id@ {
                assert(s1.subscriptions[k].contains(c));
            } else {
                assert(s1.subscriptions[k] == s2.subscriptions[k]);
            }
        }
    }
}

/// Handling any event keeps every subscription within the locations configured for its chat.
pub proof fn law_subscriptions_stay_allowed(s: StateView, ds: Datasource, station: Station, message: Message, query: CallbackQuery)
    requires
        subscriptions_allowed(s, ds),
    ensures
        subscriptions_allowed(station_effect(s, ds, station).0, ds),
        subscriptions_allowed(message_effect(s, ds, message).0, ds),
        subscriptions_allowed(callback_effect(s, ds, query).0, ds),
{
    let chat_id = message.chat.id;
    lemma_stop_locations(s, ds.locations_for_chat(chat_id), chat_id);
    let sc = callback_effect(s, ds, query).0;
    let qc = query.message.chat.id;
    let locations = ds.locations_for_chat(qc);
    lemma_first_with_id(locations, query.data@);
    if first_with_id(locations, query.data@) is Some {
        let k = first_with_id(locations, query.data@)->0;
        let location = locations[k];
        assert forall|loc_id: Seq<char>, c: i64|
            #[trigger] sc.subscriptions.contains_key(loc_id) && #[trigger] sc.subscriptions[loc_id].contains(c)
            implies exists|j: int| 0 <= j < ds.locations_for_chat(c).len() && #[trigger] ds.locations_for_chat(c)[j].id@ == loc_id by {
            if loc_id == location.id@ {
                if c == qc {
                    assert(ds.locations_for_chat(c)[k].id@ == loc_id);
                } else if s.subscriptions.contains_key(loc_id) {
                    let ids = s.subscriptions[loc_id];
                    if !ids.contains(qc) {
                        assert(ids.push(qc).contains(c));
                        let w = choose|w: int| 0 <= w < ids.push(qc).len() && ids.push(qc)[w] == c;
                        assert(ids[w] == c);
                    }
                    assert(s.subscriptions[loc_id].contains(c));
                } else {
                    assert(seq![qc].contains(c));
                    let w = choose|w: int| 0 <= w < seq![qc].len() && seq![qc][w] == c;
                    assert(c == qc);
                }
            } else {
                assert(s.subscriptions[loc_id].contains(c));
            }
        }
    }
    let sm = message_effect(s, ds, message).0;
    assert forall|loc_id: Seq<char>, c: i64|
        #[trigger] sm.subscriptions.contains_key(loc_id) && #[trigger] sm.subscriptions[loc_id].contains(c)
        implies exists|j: int| 0 <= j < ds.locations_for_chat(c).len() && #[trigger] ds.locations_for_chat(c)[j].id@ == loc_id by {
        assert(s.subscriptions.contains_key(loc_id));
        assert(s.subscriptions[loc_id].contains(c));
    }
}

/// After /stop from a chat whose subscriptions are all allowed, the chat is subscribed to no
/// location, and no later station update notifies it.
pub proof fn law_stop_ends_notifications(s: StateView, ds: Datasource, message: Message, station: Station)
    requires
        subscriptions_allowed(s, ds),
        command_fits(message),
        !is_start(command_of(message)),
        is_stop(command_of(message)),
    ensures
        forall|k: Seq<char>| #[trigger] message_effect(s, ds, message).0.subscriptions.contains_key(k)
            ==> !message_effect(s, ds, message).0.subscriptions[k].contains(message.chat.id),
        forall|i: int| 0 <= i < station_effect(message_effect(s, ds, message).0, ds, station).1.len()
            ==> (#[trigger] station_effect(message_effect(s, ds, message).0, ds, station).1[i])->Send_chat_id != message.chat.id,
{
    let c = message.chat.id;
    let locations = ds.locations_for_chat(c);
    lemma_stop_locations(s, locations, c);
    let s2 = message_effect(s, ds, message).0;
    assert(s2 == stop_locations(s, locations, c).0);
    assert forall|k: Seq<char>| #[trigger] s2.subscriptions.contains_key(k) implies !s2.subscriptions[k].contains(c) by {
        assert(s.subscriptions.contains_key(k));
        if !(exists|j: int| 0 <= j < locations.len() && #[trigger] locations[j].id@ == k) {
            assert(s2.subscriptions[k] == s.subscriptions[k]);
            if s.subscriptions[k].contains(c) {
                assert(exists|j: int| 0 <= j < ds.locations_for_chat(c).len() && #[trigger] ds.locations_for_chat(c)[j].id@ == k);
            }
        }
    }
    law_station_notifies_subscribers(s2, ds, station);
}

/// A command addressed to the bot by name ("/start@" followed by the bot's name) does what
/// "/start" does: in the same chat and the same state, both give the same outputs and the same
/// state.
pub proof fn law_start_addressed_to_bot_is_start(s: StateView, ds: Datasource, plain: Message, addressed: Message, name: Seq<char>)
    requires
        command_fits(plain),
        command_fits(addressed),
        plain.chat.id == addressed.chat.id,
        command_of(plain) == "/start"@,
        command_of(addressed) == "/start@"@ + name,
    ensures
        message_effect(s, ds, addressed) == message_effect(s, ds, plain),
{
    assert(("/start@"@ + name).subrange(0, "/start@"@.len() as int) =~= "/start@"@);
}

/// "/start" leaves the state as it is and answers with one message to the chat: the location
/// keyboard, one row per location configured for the chat holding its name and ID in order, or
/// an apology when no location is configured for the chat.
pub proof fn law_start_offers_locations(s: StateView, ds: Datasource, m: Message)
    requires
        command_fits(m),
        command_of(m) == "/start"@,
    ensures
        ({
            let (s2, o) = message_effect(s, ds, m);
            let locs = ds.locations_for_chat(m.chat.id);
            &&& s2 == s
            &&& o.len() == 1
            &&& o[0] matches OutputView::Send { chat_id, text, keyboard } && chat_id == m.chat.id && if locs.len() == 0 {
                    text == "Sorry. I'm not configured to work in this chat."@ && keyboard is None
                } else {
                    &&& text == "Where do you want to charge?"@
                    &&& keyboard matches Some(rows)
                    &&& rows.len() == locs.len()
                    &&& forall|k: int| 0 <= k < locs.len() ==> #[trigger] rows[k] == seq![(locs[k].name@, locs[k].id@)]
                }
        }),
{
}

/// The text that replaces the keyboard after a choice: in a private chat it shows the chosen
/// location; in any other chat (a group, a supergroup, a channel) it also names the user who chose.
pub proof fn law_choice_names_the_user_outside_private_chats(s: StateView, ds: Datasource, q: CallbackQuery)
    requires
        first_with_id(ds.locations_for_chat(q.message.chat.id), q.data@) is Some,
    ensures
        ({
            let locs = ds.locations_for_chat(q.message.chat.id);
            let loc = locs[first_with_id(locs, q.data@)->0];
            let o = callback_effect(s, ds, q).1;
            let n = loc.parks@.len() as int;
            &&& o.len() == n + 3
            &&& o[n] == (OutputView::Answer { callback_query_id: q.id@, text: loc.name@ })
            &&& o[n + 1] matches OutputView::Edit { chat_id, message_id, text, keyboard }
                && chat_id == q.message.chat.id
                && message_id == q.message.message_id
                && keyboard is None
                && if q.message.chat.typ == ChatType::Private {
                    text == "Where do you want to charge?\n"@ + "👉*"@ + loc.name@ + "*"@
                } else {
                    text == "Where do you want to charge?\n"@ + q.from.username@ + "👉*"@ + loc.name@ + "*"@
                }
            &&& (exists|k: int| 0 <= k < loc.all_stations_spec().len()
                    && !s.availability.contains_key(#[trigger] loc.all_stations_spec()[k].id@))
                ==> o[n + 2] == (OutputView::Action { chat_id: q.message.chat.id, action: ChatAction::Typing })
            &&& (forall|k: int| 0 <= k < loc.all_stations_spec().len()
                    ==> s.availability.contains_key(#[trigger] loc.all_stations_spec()[k].id@))
                ==> (o[n + 2] matches OutputView::Send { chat_id, text, keyboard }
                    && chat_id == q.message.chat.id && keyboard is None
                    && Some(text) == notification_text(loc, s.availability))
        }),
{
}

proof fn lemma_stop_forgets(s: StateView, locs: Seq<Location>, c: i64)
    requires
        forall|j: int, k: int| 0 <= j < locs.len() && 0 <= k < locs.len()
            && #[trigger] locs[j].id@ == #[trigger] locs[k].id@ ==> locs[j] == locs[k],
    ensures
        forall|k: Seq<char>| #[trigger] stop_locations(s, locs, c).0.availability.contains_key(k) ==> s.availability.contains_key(k),
        forall|j: int, sid: Seq<char>|
            0 <= j < locs.len()
                && stop_locations(s, locs, c).0.subscriptions.contains_key(#[trigger] locs[j].id@)
                && stop_locations(s, locs, c).0.subscriptions[locs[j].id@].len() == 0
                && #[trigger] locs[j].has_station(sid)
                ==> !stop_locations(s, locs, c).0.availability.contains_key(sid),
        forall|j: int, p: int|
            0 <= j < locs.len()
                && stop_locations(s, locs, c).0.subscriptions.contains_key(#[trigger] locs[j].id@)
                && stop_locations(s, locs, c).0.subscriptions[locs[j].id@].len() == 0
                && 0 <= p < locs[j].parks@.len()
                ==> stop_locations(s, locs, c).1.contains(OutputView::Unsubscribe { park_id: #[trigger] locs[j].parks@[p].id@ }),
    decreases locs.len(),
{
    if locs.len() > 0 {
        let n = locs.len() - 1;
        let prefix = locs.drop_last();
        let last = locs.last();
        assert forall|j: int, k: int| 0 <= j < prefix.len() && 0 <= k < prefix.len()
            && #[trigger] prefix[j].id@ == #[trigger] prefix[k].id@ implies prefix[j] == prefix[k] by {
            assert(prefix[j] == locs[j] && prefix[k] == locs[k]);
        }
        lemma_stop_forgets(s, prefix, c);
        let s1 = stop_locations(s, prefix, c).0;
        let r = stop_locations(s, locs, c).0;
        assert(r == stop_location(s1, last, c).0);
        assert forall|j: int, sid: Seq<char>|
            0 <= j < locs.len()
                && r.subscriptions.contains_key(#[trigger] locs[j].id@)
                && r.subscriptions[locs[j].id@].len() == 0
                && #[trigger] locs[j].has_station(sid)
                implies !r.availability.contains_key(sid) by {
            if locs[j].id@ == last.id@ {
                assert(locs[n] == last);
                assert(locs[j] == last);
                lemma_has_station(last, sid);
                assert(s1.subscriptions.contains_key(last.id@));
            } else {
                assert(prefix[j] == locs[j]);
                assert(s1.subscriptions.contains_key(prefix[j].id@));
                assert(prefix[j].has_station(sid));
            }
        }
        let o1 = stop_locations(s, prefix, c).1;
        let o = stop_locations(s, locs, c).1;
        assert(o == o1 + stop_location(s1, last, c).1);
        assert forall|j: int, p: int|
            0 <= j < locs.len()
                && r.subscriptions.contains_key(#[trigger] locs[j].id@)
                && r.subscriptions[locs[j].id@].len() == 0
                && 0 <= p < locs[j].parks@.len()
                implies o.contains(OutputView::Unsubscribe { park_id: #[trigger] locs[j].parks@[p].id@ }) by {
            let u = OutputView::Unsubscribe { park_id: locs[j].parks@[p].id@ };
            if locs[j].id@ == last.id@ {
                assert(locs[n] == last);
                assert(locs[j] == last);
                assert(s1.subscriptions.contains_key(last.id@));
                let o2 = unsubscribes(last.parks@);
                assert(stop_location(s1, last, c).1 == o2);
                assert(o2[p] == u);
                assert(o[o1.len() + p] == u);
            } else {
                assert(prefix[j] == locs[j]);
                assert(s1.subscriptions.contains_key(prefix[j].id@));
                assert(o1.contains(OutputView::Unsubscribe { park_id: prefix[j].parks@[p].id@ }));
                let w = choose|w: int| 0 <= w < o1.len() && o1[w] == u;
                assert(o[w] == u);
            }
        }
    }
}

/// "/stop" (also when addressed to the bot by name) ends with a goodbye message to the chat, and
/// every location of the chat that is left with no subscribed chat has each of its parks
/// unsubscribed from and the known availability of all its stations, in every park, forgotten.
pub proof fn law_stop_forgets_unwatched_locations(s: StateView, ds: Datasource, m: Message, name: Seq<char>)
    requires
        ds.wf(),
        command_fits(m),
        command_of(m) == "/stop"@ || command_of(m) == "/stop@"@ + name,
    ensures
        ({
            let (s2, o) = message_effect(s, ds, m);
            let locs = ds.locations_for_chat(m.chat.id);
            &&& o.len() > 0
            &&& o.last() == (OutputView::Send {
                    chat_id: m.chat.id,
                    text: "Won't send any more updates here. Let me know when to /start again."@,
                    keyboard: None,
                })
            &&& forall|j: int, sid: Seq<char>|
                0 <= j < locs.len()
                    && s2.subscriptions.contains_key(#[trigger] locs[j].id@)
                    && s2.subscriptions[locs[j].id@].len() == 0
                    && #[trigger] locs[j].has_station(sid)
                    ==> !s2.availability.contains_key(sid)
            &&& forall|j: int, p: int|
                0 <= j < locs.len()
                    && s2.subscriptions.contains_key(#[trigger] locs[j].id@)
                    && s2.subscriptions[locs[j].id@].len() == 0
                    && 0 <= p < locs[j].parks@.len()
                    ==> o.contains(OutputView::Unsubscribe { park_id: #[trigger] locs[j].parks@[p].id@ })
        }),
{
    reveal_strlit("/stop");
    reveal_strlit("/stop@");
    reveal_strlit("/start");
    reveal_strlit("/start@");
    let cmd = command_of(m);
    assert(cmd[3] == 'o');
    assert("/start"@[3] == 'a');
    assert(cmd != "/start"@);
    assert(!is_prefix("/start@"@, cmd)) by {
        if is_prefix("/start@"@, cmd) {
            assert(cmd.subrange(0, 7)[3] == cmd[3]);
        }
    }
    if cmd != "/stop"@ {
        assert(cmd.subrange(0, "/stop@"@.len() as int) =~= "/stop@"@);
    }
    assert(is_stop(cmd));
    let locs = ds.locations_for_chat(m.chat.id);
    ds.lemma_chat_locations_by_id(m.chat.id);
    lemma_stop_forgets(s, locs, m.chat.id);
    let (s1, o1) = stop_locations(s, locs, m.chat.id);
    let o = message_effect(s, ds, m).1;
    assert forall|j: int, p: int|
        0 <= j < locs.len()
            && s1.subscriptions.contains_key(#[trigger] locs[j].id@)
            && s1.subscriptions[locs[j].id@].len() == 0
            && 0 <= p < locs[j].parks@.len()
            implies o.contains(OutputView::Unsubscribe { park_id: #[trigger] locs[j].parks@[p].id@ }) by {
        let u = OutputView::Unsubscribe { park_id: locs[j].parks@[p].id@ };
        assert(o1.contains(u));
        let w = choose|w: int| 0 <= w < o1.len() && o1[w] == u;
        assert(o[w] == u);
    }
}

proof fn lemma_available_aliases_len(stations: Seq<crate::config::Station>, av: Map<Seq<char>, bool>)
    ensures
        (forall|k: int| 0 <= k < stations.len() ==> av.contains_key(#[trigger] stations[k].id@) && av[stations[k].id@])
            ==> available_aliases(stations, av).len() == stations.len(),
        (forall|k: int| 0 <= k < stations.len() ==> av.contains_key(#[trigger] stations[k].id@) && !av[stations[k].id@])
            ==> available_aliases(stations, av).len() == 0,
    decreases stations.len(),
{
    if stations.len() > 0 {
        let pre = stations.drop_last();
        lemma_available_aliases_len(pre, av);
        assert forall|k: int| 0 <= k < pre.len() implies #[trigger] pre[k] == stations[k] by {}
        assert(stations[stations.len() - 1] == stations.last());
    }
}

/// Once the status of every station of a location is known: when all of them are available the
/// notification says so, and when none is available it says that no charger can be used.
/// While some station's status is unknown there is no notification.
pub proof fn law_notification_summarises_availability(location: Location, av: Map<Seq<char>, bool>)
    ensures
        ({
            let all = location.all_stations_spec();
            &&& (forall|k: int| 0 <= k < all.len() ==> av.contains_key(#[trigger] all[k].id@) && av[all[k].id@])
                ==> notification_text(location, av)
                    == Some("All chargers are available at "@ + location.name@ + ". Should I /stop?"@)
            &&& (all.len() > 0 && forall|k: int| 0 <= k < all.len() ==> av.contains_key(#[trigger] all[k].id@) && !av[all[k].id@])
                ==> notification_text(location, av)
                    == Some("No chargers at "@ + location.name@ + " can be used. Should I /stop?"@)
            &&& (exists|k: int| 0 <= k < all.len() && !av.contains_key(#[trigger] all[k].id@))
                ==> notification_text(location, av) is None
        }),
{
    lemma_available_aliases_len(location.all_stations_spec(), av);
}

/// When a station changes status (or its status becomes known) at a location with subscribed
/// chats, and the statuses of the location's other stations are known, the new status is
/// recorded and every subscribed chat, in order, gets one message with the location's
/// notification; subscriptions stay as they are.
pub proof fn law_station_change_notifies_every_subscriber(s: StateView, ds: Datasource, station: Station)
    requires
        ds.location_of_station(station.id@) matches Some(loc)
            && s.subscriptions.contains_key(loc.id@)
            && s.subscriptions[loc.id@].len() > 0
            && !(s.availability.contains_key(station.id@)
                && s.availability[station.id@] == (station.status == Status::Available))
            && forall|k: int| 0 <= k < loc.all_stations_spec().len()
                ==> #[trigger] loc.all_stations_spec()[k].id@ == station.id@
                    || s.availability.contains_key(loc.all_stations_spec()[k].id@),
    ensures
        ({
            let loc = ds.location_of_station(station.id@)->0;
            let ids = s.subscriptions[loc.id@];
            let (s2, o) = station_effect(s, ds, station);
            &&& s2.subscriptions == s.subscriptions
            &&& s2.availability == s.availability.insert(station.id@, station.status == Status::Available)
            &&& notification_text(loc, s2.availability) is Some
            &&& o.len() == ids.len()
            &&& forall|i: int| 0 <= i < ids.len() ==> (#[trigger] o[i] matches OutputView::Send { chat_id, text, keyboard }
                    && chat_id == ids[i] && keyboard is None
                    && Some(text) == notification_text(loc, s2.availability))
        }),
{
    let loc = ds.location_of_station(station.id@)->0;
    let av2 = s.availability.insert(station.id@, station.status == Status::Available);
    let all = loc.all_stations_spec();
    assert forall|k: int| 0 <= k < all.len() implies av2.contains_key(#[trigger] all[k].id@) by {
        if all[k].id@ != station.id@ {
            assert(s.availability.contains_key(all[k].id@));
        }
    }
    assert(!(exists|k: int| 0 <= k < all.len() && !av2.contains_key(#[trigger] all[k].id@)));
}

} // verus!
