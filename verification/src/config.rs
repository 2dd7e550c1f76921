//! Configuration of the bot: locations, chats and component settings, with their checks.

use vstd::prelude::*;
use vstd::string::*;
use crate::text::{nat_decimal, u64_to_text};

verus! {

/// Defines a named logical location of EV charging Parks.
#[derive(Clone, Debug)]
pub struct Location {
    /// User-defined location ID.
    pub id: String,
    /// User-defined location name.
    pub name: String,
    /// List of parks at this location.
    pub parks: Vec<Park>,
}

/// Defines a group of EV charging stations.
#[derive(Clone, Debug)]
pub struct Park {
    /// Park ID in FLO API.
    pub id: String,
    /// List of charging stations at this park.
    pub stations: Vec<Station>,
}

/// Defines an EV charging station.
#[derive(Clone, Debug)]
pub struct Station {
    /// Station ID in FLO API.
    pub id: String,
    /// User-defined alias for the station, e.g. "Back" or "Right".
    pub alias: String,
}

/// Defines a telegram chat.
#[derive(Clone, Debug)]
pub struct Chat {
    /// Chat ID in Telegram API.
    pub id: i64,
    /// List of locations accessible from this chat.
    pub locations: Vec<String>,
}

/// All stations of a location, park by park, in order.
pub open spec fn stations_of(parks: Seq<Park>) -> Seq<Station>
    decreases parks.len(),
{
    if parks.len() == 0 {
        Seq::empty()
    } else {
        stations_of(parks.drop_last()) + parks.last().stations@
    }
}

impl Location {
    /// Every station of this location, park by park.
    pub open spec fn all_stations_spec(self) -> Seq<Station> {
        stations_of(self.parks@)
    }

    /// The location holds a station with this ID.
    pub open spec fn has_station(self, station_id: Seq<char>) -> bool {
        exists|j: int, k: int|
            0 <= j < self.parks@.len() && 0 <= k < self.parks@[j].stations@.len()
                && #[trigger] self.parks@[j].stations@[k].id@ == station_id
    }

    /// Shortcut for getting a list of all Stations at this location.
    pub fn all_stations(&self) -> (r: Vec<&Station>)
        ensures
            r@.len() == self.all_stations_spec().len(),
            forall|k: int| 0 <= k < r@.len() ==> *r@[k] == self.all_stations_spec()[k],
    {
        let mut r: Vec<&Station> = Vec::new();
        let mut p: usize = 0;
        while p < self.parks.len()
            invariant
                p <= self.parks@.len(),
                r@.len() == stations_of(self.parks@.take(p as int)).len(),
                forall|k: int|
                    0 <= k < r@.len() ==> *r@[k] == stations_of(self.parks@.take(p as int))[k],
            decreases self.parks@.len() - p,
        {
            let park = &self.parks[p];
            let ghost before = r@;
            let mut s: usize = 0;
            while s < park.stations.len()
                invariant
                    p < self.parks@.len(),
                    *park == self.parks@[p as int],
                    s <= park.stations@.len(),
                    r@.len() == before.len() + s,
                    forall|k: int| 0 <= k < before.len() ==> r@[k] == before[k],
                    forall|k: int| 0 <= k < s ==> *r@[before.len() + k] == park.stations@[k],
                decreases park.stations@.len() - s,
            {
                r.push(&park.stations[s]);
                s = s + 1;
            }
            proof {
                let next = self.parks@.take(p + 1);
                assert(next.drop_last() =~= self.parks@.take(p as int));
                assert(next.last() == self.parks@[p as int]);
                let full = stations_of(next);
                assert(full == stations_of(self.parks@.take(p as int)) + park.stations@);
                assert forall|k: int| 0 <= k < r@.len() implies *r@[k] == full[k] by {
                    if k < before.len() {
                        assert(r@[k] == before[k]);
                    } else {
                        assert(*r@[before.len() + (k - before.len())] == park.stations@[k - before.len()]);
                    }
                }
            }
            p = p + 1;
        }
        assert(self.parks@.take(self.parks@.len() as int) =~= self.parks@);
        r
    }
}

/// Why a configuration value was refused.
#[derive(Clone, Copy, Debug, PartialEq, Eq, Structural)]
pub enum ValidationCode {
    /// A text or a list has a length out of its bounds.
    Length,
    /// A number is out of its bounds.
    Range,
    /// A chat ID is zero.
    ChatIdZero,
    /// A duration is zero.
    DurationZero,
    /// An API origin does not use HTTP or HTTPS.
    UrlInvalidProtocol,
    /// An API origin has a path other than "/", a query or a fragment.
    UrlTooSpecific,
    /// An API origin is not a URL.
    UrlInvalid,
    /// The maximum of a range is below its minimum.
    InvalidRange,
}

/// A refused configuration value: the path of the field and the reason.
#[derive(Clone, Debug)]
pub struct ValidationError {
    pub field: String,
    pub code: ValidationCode,
}

/// A refusal as plain values.
pub open spec fn error_view(e: ValidationError) -> (Seq<char>, ValidationCode) {
    (e.field@, e.code)
}

/// A list of refusals as plain values.
pub open spec fn errors_view(errs: Seq<ValidationError>) -> Seq<(Seq<char>, ValidationCode)> {
    errs.map_values(|e: ValidationError| error_view(e))
}

/// The refusal of a check that failed; nothing for a check that passed.
pub open spec fn check(ok: bool, path: Seq<char>, code: ValidationCode) -> Seq<(Seq<char>, ValidationCode)> {
    if ok { Seq::empty() } else { seq![(path, code)] }
}

/// The path of a field under `prefix` (the field name alone at the top).
pub open spec fn field_path(prefix: Seq<char>, name: Seq<char>) -> Seq<char> {
    if prefix.len() == 0 { name } else { prefix + "."@ + name }
}

/// The path of a list element.
pub open spec fn index_path(prefix: Seq<char>, i: nat) -> Seq<char> {
    prefix + "["@ + nat_decimal(i) + "]"@
}

fn make_field_path(prefix: &str, name: &str) -> (r: String)
    ensures
        r@ == field_path(prefix@, name@),
{
    if prefix.unicode_len() == 0 {
        String::from_str(name)
    } else {
        let mut r = String::from_str(prefix);
        r.append(".");
        r.append(name);
        r
    }
}

fn make_index_path(prefix: &str, i: usize) -> (r: String)
    ensures
        r@ == index_path(prefix@, i as nat),
{
    let mut r = String::from_str(prefix);
    r.append("[");
    let n = u64_to_text(i as u64);
    r.append(n.as_str());
    r.append("]");
    r
}

/// Appends a refusal when `ok` is false.
fn require(errs: &mut Vec<ValidationError>, ok: bool, prefix: &str, name: &str, code: ValidationCode)
    ensures
        errors_view(final(errs)@) == errors_view(old(errs)@) + check(ok, field_path(prefix@, name@), code),
{
    let ghost before = errors_view(errs@);
    if !ok {
        errs.push(ValidationError { field: make_field_path(prefix, name), code });
        assert(errors_view(errs@) =~= before + check(ok, field_path(prefix@, name@), code));
    } else {
        assert(errors_view(errs@) =~= before + check(ok, field_path(prefix@, name@), code));
    }
}

/// The outcome of a validation that found the given refusals.
pub open spec fn outcome(errs: Seq<(Seq<char>, ValidationCode)>) -> Result<(), Seq<(Seq<char>, ValidationCode)>> {
    if errs.len() == 0 { Ok(()) } else { Err(errs) }
}

/// The outcome of a validation as plain values.
pub open spec fn validation_view(r: Result<(), Vec<ValidationError>>) -> Result<(), Seq<(Seq<char>, ValidationCode)>> {
    match r {
        Ok(()) => Ok(()),
        Err(v) => Err(errors_view(v@)),
    }
}

fn finish(errs: Vec<ValidationError>) -> (r: Result<(), Vec<ValidationError>>)
    ensures
        validation_view(r) == outcome(errors_view(errs@)),
{
    if errs.len() == 0 {
        Ok(())
    } else {
        Err(errs)
    }
}

/// Refusals of a location's own fields. Its parks are not descended into.
pub open spec fn location_errors(l: Location, prefix: Seq<char>) -> Seq<(Seq<char>, ValidationCode)> {
    check(l.id@.len() >= 1, field_path(prefix, "id"@), ValidationCode::Length)
        + check(l.name@.len() >= 1, field_path(prefix, "name"@), ValidationCode::Length)
        + check(l.parks@.len() >= 1, field_path(prefix, "parks"@), ValidationCode::Length)
}

/// Refusals of a park's own fields. Its stations are not descended into.
pub open spec fn park_errors(p: Park, prefix: Seq<char>) -> Seq<(Seq<char>, ValidationCode)> {
    check(p.id@.len() == 36, field_path(prefix, "id"@), ValidationCode::Length)
        + check(p.stations@.len() >= 1, field_path(prefix, "stations"@), ValidationCode::Length)
}

/// Refusals of a station's fields.
pub open spec fn station_errors(s: Station, prefix: Seq<char>) -> Seq<(Seq<char>, ValidationCode)> {
    check(s.id@.len() == 36, field_path(prefix, "id"@), ValidationCode::Length)
        + check(s.alias@.len() >= 1, field_path(prefix, "alias"@), ValidationCode::Length)
}

/// Refusals of a chat's fields.
pub open spec fn chat_errors(c: Chat, prefix: Seq<char>) -> Seq<(Seq<char>, ValidationCode)> {
    check(c.id != 0, field_path(prefix, "id"@), ValidationCode::ChatIdZero)
        + check(c.locations@.len() >= 1, field_path(prefix, "locations"@), ValidationCode::Length)
}

impl Location {
    fn collect_errors(&self, prefix: &str, errs: &mut Vec<ValidationError>)
        ensures
            errors_view(final(errs)@) == errors_view(old(errs)@) + location_errors(*self, prefix@),
    {
        let ghost e0 = errors_view(errs@);
        require(errs, self.id.unicode_len() >= 1, prefix, "id", ValidationCode::Length);
        require(errs, self.name.unicode_len() >= 1, prefix, "name", ValidationCode::Length);
        require(errs, self.parks.len() >= 1, prefix, "parks", ValidationCode::Length);
        assert(errors_view(errs@) =~= e0 + location_errors(*self, prefix@));
    }

    /// Checks the location's own fields.
    pub fn validate(&self) -> (r: Result<(), Vec<ValidationError>>)
        ensures
            validation_view(r) == outcome(location_errors(*self, ""@)),
    {
        let mut errs: Vec<ValidationError> = Vec::new();
        assert(errors_view(errs@) =~= Seq::empty());
        self.collect_errors("", &mut errs);
        assert(errors_view(errs@) =~= location_errors(*self, ""@));
        finish(errs)
    }
}

impl Park {
    /// Checks the park's own fields.
    pub fn validate(&self) -> (r: Result<(), Vec<ValidationError>>)
        ensures
            validation_view(r) == outcome(park_errors(*self, ""@)),
    {
        let mut errs: Vec<ValidationError> = Vec::new();
        assert(errors_view(errs@) =~= Seq::empty());
        require(&mut errs, self.id.unicode_len() == 36, "", "id", ValidationCode::Length);
        require(&mut errs, self.stations.len() >= 1, "", "stations", ValidationCode::Length);
        assert(errors_view(errs@) =~= park_errors(*self, ""@));
        finish(errs)
    }
}

impl Station {
    /// Checks the station's fields.
    pub fn validate(&self) -> (r: Result<(), Vec<ValidationError>>)
        ensures
            validation_view(r) == outcome(station_errors(*self, ""@)),
    {
        let mut errs: Vec<ValidationError> = Vec::new();
        assert(errors_view(errs@) =~= Seq::empty());
        require(&mut errs, self.id.unicode_len() == 36, "", "id", ValidationCode::Length);
        require(&mut errs, self.alias.unicode_len() >= 1, "", "alias", ValidationCode::Length);
        assert(errors_view(errs@) =~= station_errors(*self, ""@));
        finish(errs)
    }
}

impl Chat {
    /// Validates that the integer is not equal to zero. IDs for group chats are negative.
    pub fn validate_id(n: i64) -> (r: Result<(), ValidationCode>)
        ensures
            r == if n != 0 { Ok::<(), ValidationCode>(()) } else { Err(ValidationCode::ChatIdZero) },
    {
        if n != 0 {
            Ok(())
        } else {
            Err(ValidationCode::ChatIdZero)
        }
    }

    fn collect_errors(&self, prefix: &str, errs: &mut Vec<ValidationError>)
        ensures
            errors_view(final(errs)@) == errors_view(old(errs)@) + chat_errors(*self, prefix@),
    {
        let ghost e0 = errors_view(errs@);
        require(errs, Chat::validate_id(self.id).is_ok(), prefix, "id", ValidationCode::ChatIdZero);
        require(errs, self.locations.len() >= 1, prefix, "locations", ValidationCode::Length);
        assert(errors_view(errs@) =~= e0 + chat_errors(*self, prefix@));
    }

    /// Checks the chat's fields.
    pub fn validate(&self) -> (r: Result<(), Vec<ValidationError>>)
        ensures
            validation_view(r) == outcome(chat_errors(*self, ""@)),
    {
        let mut errs: Vec<ValidationError> = Vec::new();
        assert(errors_view(errs@) =~= Seq::empty());
        self.collect_errors("", &mut errs);
        assert(errors_view(errs@) =~= chat_errors(*self, ""@));
        finish(errs)
    }
}

/// Defines settings related to interactions with Telegram API. Durations are in seconds.
#[derive(Clone, Debug)]
pub struct Telegram {
    /// A secret for interacting with Telegram API.
    pub api_token: String,
    /// Timeout for requests to Telegram API (except for long polling).
    pub http_timeout: u64,
    /// Output buffer for payloads to be delivered to Telegram API.
    pub output_buffer_size: usize,
    /// If specified, the bot will listen for webhooks to receive updates from Telegram API.
    pub webhook: Option<Webhook>,
    /// If specified, the bot will perform long-polling to receive updates from Telegram API.
    pub polling: Option<Polling>,
    /// Input buffer for updates to be processed by the bot.
    pub updates_buffer_size: usize,
}

impl Telegram {
    pub fn default_http_timeout() -> (r: u64)
        ensures
            r == 5,
    {
        5
    }

    pub fn default_output_buffer_size() -> (r: usize)
        ensures
            r == 100,
    {
        100
    }

    pub fn default_updates_buffer_size() -> (r: usize)
        ensures
            r == 100,
    {
        100
    }
}

/// Defines settings related to webhook server listening for updates from Telegram API.
#[derive(Clone, Debug)]
pub struct Webhook {
    /// Server will be listening for updates on this address.
    pub bind_addr: String,
    /// Server will be expecting this path to be used by Telegram API when delivering updates.
    pub path: String,
    /// Server will expect webhook requests to contain this token in the special auth header.
    pub secret_token: String,
    /// Timeout in seconds for adding the received update to the input buffer.
    pub accept_timeout: u64,
    /// If specified, the webhook server will also export Prometheus metrics at this path.
    pub metrics_path: Option<String>,
}

impl Webhook {
    pub fn default_bind_addr() -> (r: String)
        ensures
            r@ == "0.0.0.0:8000"@,
    {
        String::from_str("0.0.0.0:8000")
    }

    pub fn default_accept_timeout() -> (r: u64)
        ensures
            r == 5,
    {
        5
    }
}

/// Defines settings related to long-polling updates from Telegram API.
#[derive(Clone, Debug)]
pub struct Polling {
    /// After this duration the polling endpoint will time out to an empty successful response.
    pub duration_seconds: u16,
    /// Timeout in seconds for long polling requests.
    pub http_timeout: u64,
}

impl Polling {
    pub fn default_duration() -> (r: u16)
        ensures
            r == 60,
    {
        60
    }

    pub fn default_http_timeout() -> (r: u64)
        ensures
            r == 65,
    {
        65
    }
}

/// Defines a range of durations, in seconds.
#[derive(Clone, Copy, Debug)]
pub struct DurationMinMax {
    pub min: u64,
    pub max: u64,
}

/// Defines settings related to interactions with FLO API. Durations are in seconds.
#[derive(Clone, Debug)]
pub struct FLO {
    /// Timeout for requests to FLO API.
    pub http_timeout: u64,
    /// If specified, the bot will send requests to the specified HTTP origin.
    pub api_origin: Option<String>,
    /// Range for random intervals between calls to FLO API.
    pub poll_interval: DurationMinMax,
    /// If specified, the bot will put this string into "User-Agent" header for calls to FLO API.
    pub user_agent: Option<String>,
    /// Buffer size for park subscription requests.
    pub input_buffer_size: usize,
    /// Buffer size for station status changes to be processed by the bot.
    pub output_buffer_size: usize,
}

/// What `url::Url::parse` gives for the text: nothing when parsing fails, else the URL's scheme,
/// its path, and whether it has a query and a fragment.
pub uninterp spec fn url_parse_parts(input: Seq<char>) -> Option<(Seq<char>, Seq<char>, bool, bool)>;

/// URL parts as plain values.
pub open spec fn parts_view(parts: Option<(String, String, bool, bool)>) -> Option<(Seq<char>, Seq<char>, bool, bool)> {
    match parts {
        Some((scheme, path, query, fragment)) => Some((scheme@, path@, query, fragment)),
        None => None,
    }
}

/// Calls `url::Url::parse` and reads the parsed URL's `scheme()`, `path()`, `query()` and
/// `fragment()`. The contract names the result; the URL standard that the crate implements is
/// not restated here.
#[verifier::external_body]
fn parse_url_parts(input: &str) -> (r: Option<(String, String, bool, bool)>)
    ensures
        parts_view(r) == url_parse_parts(input@),
{
    match url::Url::parse(input) {
        Ok(u) => Some((u.scheme().to_string(), u.path().to_string(), u.query().is_some(), u.fragment().is_some())),
        Err(_) => None,
    }
}

/// Whether an API origin with the given parsed parts is accepted: it must parse, use HTTP or
/// HTTPS, and have the path "/" with neither query nor fragment.
pub open spec fn origin_check(parts: Option<(Seq<char>, Seq<char>, bool, bool)>) -> Result<(), ValidationCode> {
    match parts {
        None => Err(ValidationCode::UrlInvalid),
        Some((scheme, path, query, fragment)) => {
            if scheme != "https"@ && scheme != "http"@ {
                Err(ValidationCode::UrlInvalidProtocol)
            } else if path != "/"@ || query || fragment {
                Err(ValidationCode::UrlTooSpecific)
            } else {
                Ok(())
            }
        },
    }
}

/// Checks the parsed parts of an API origin.
pub fn check_origin_parts(parts: &Option<(String, String, bool, bool)>) -> (r: Result<(), ValidationCode>)
    ensures
        r == origin_check(parts_view(*parts)),
{
    match parts {
        None => Err(ValidationCode::UrlInvalid),
        Some((scheme, path, query, fragment)) => {
            let https = crate::text::text_eq(scheme.as_str(), "https");
            let http = crate::text::text_eq(scheme.as_str(), "http");
            if !https && !http {
                Err(ValidationCode::UrlInvalidProtocol)
            } else if !crate::text::text_eq(path.as_str(), "/") || *query || *fragment {
                Err(ValidationCode::UrlTooSpecific)
            } else {
                Ok(())
            }
        },
    }
}

/// Validates that a duration is greater than zero.
pub fn validate_duration(d: u64) -> (r: Result<(), ValidationCode>)
    ensures
        r == if d != 0 { Ok::<(), ValidationCode>(()) } else { Err(ValidationCode::DurationZero) },
{
    if d != 0 {
        Ok(())
    } else {
        Err(ValidationCode::DurationZero)
    }
}

impl FLO {
    pub fn default_http_timeout() -> (r: u64)
        ensures
            r == 5,
    {
        5
    }

    pub fn default_poll_interval() -> (r: DurationMinMax)
        ensures
            r.min == 40,
            r.max == 100,
    {
        DurationMinMax { min: 40, max: 100 }
    }

    pub fn default_input_buffer_size() -> (r: usize)
        ensures
            r == 100,
    {
        100
    }

    pub fn default_output_buffer_size() -> (r: usize)
        ensures
            r == 100,
    {
        100
    }

    /// Validates an API origin.
    pub fn validate_api_origin(origin: &str) -> (r: Result<(), ValidationCode>)
        ensures
            r == origin_check(url_parse_parts(origin@)),
    {
        let parts = parse_url_parts(origin);
        check_origin_parts(&parts)
    }

    /// Validates that the maximum of the poll interval is not below its minimum.
    pub fn validate_poll_interval(range: &DurationMinMax) -> (r: Result<(), ValidationCode>)
        ensures
            r == if range.max >= range.min { Ok::<(), ValidationCode>(()) } else { Err(ValidationCode::InvalidRange) },
    {
        if range.max >= range.min {
            Ok(())
        } else {
            Err(ValidationCode::InvalidRange)
        }
    }
}

impl Default for FLO {
    fn default() -> (f: FLO)
        ensures
            f.http_timeout == 5,
            f.api_origin is None,
            f.poll_interval.min == 40,
            f.poll_interval.max == 100,
            f.user_agent is None,
            f.input_buffer_size == 100,
            f.output_buffer_size == 100,
    {
        FLO {
            http_timeout: FLO::default_http_timeout(),
            api_origin: None,
            poll_interval: FLO::default_poll_interval(),
            user_agent: None,
            input_buffer_size: FLO::default_input_buffer_size(),
            output_buffer_size: FLO::default_output_buffer_size(),
        }
    }
}

/// Defines settings related to prometheus metrics exporter.
#[derive(Clone, Debug)]
pub struct MetricsServer {
    /// Metrics server will listen on this address.
    pub bind_addr: String,
    /// Metrics server will expect incoming requests to have this path.
    pub path: String,
}

impl MetricsServer {
    pub fn default_bind_addr() -> (r: String)
        ensures
            r@ == "0.0.0.0:9090"@,
    {
        String::from_str("0.0.0.0:9090")
    }

    pub fn default_path() -> (r: String)
        ensures
            r@ == "/metrics/"@,
    {
        String::from_str("/metrics/")
    }
}

/// Top-level configuration struct.
#[derive(Clone, Debug)]
pub struct BotConfig {
    /// Specifies locations that can be monitored by the bot.
    pub locations: Vec<Location>,
    /// Specifies Telegram chats that can be used to interact with the bot.
    pub chats: Vec<Chat>,
    /// Defines settings related to interactions with Telegram API.
    pub telegram: Telegram,
    /// Defines settings related to interactions with FLO API.
    pub flo: FLO,
    /// If specified, metrics server will be listening on a dedicated address.
    pub metrics_server: Option<MetricsServer>,
}

/// Refusals of an optional text that, when present, must not be empty.
pub open spec fn optional_text_errors(t: Option<String>, path: Seq<char>) -> Seq<(Seq<char>, ValidationCode)> {
    match t {
        Some(v) => check(v@.len() >= 1, path, ValidationCode::Length),
        None => Seq::empty(),
    }
}

pub open spec fn webhook_errors(w: Webhook, prefix: Seq<char>) -> Seq<(Seq<char>, ValidationCode)> {
    check(w.path@.len() >= 1, field_path(prefix, "path"@), ValidationCode::Length)
        + check(w.secret_token@.len() >= 1, field_path(prefix, "secret_token"@), ValidationCode::Length)
        + check(w.accept_timeout != 0, field_path(prefix, "accept_timeout"@), ValidationCode::DurationZero)
        + optional_text_errors(w.metrics_path, field_path(prefix, "metrics_path"@))
}

pub open spec fn polling_errors(p: Polling, prefix: Seq<char>) -> Seq<(Seq<char>, ValidationCode)> {
    check(p.duration_seconds >= 1, field_path(prefix, "duration_seconds"@), ValidationCode::Range)
        + check(p.http_timeout != 0, field_path(prefix, "http_timeout"@), ValidationCode::DurationZero)
}

pub open spec fn optional_webhook_errors(w: Option<Webhook>, path: Seq<char>) -> Seq<(Seq<char>, ValidationCode)> {
    match w {
        Some(w) => webhook_errors(w, path),
        None => Seq::empty(),
    }
}

pub open spec fn optional_polling_errors(p: Option<Polling>, path: Seq<char>) -> Seq<(Seq<char>, ValidationCode)> {
    match p {
        Some(p) => polling_errors(p, path),
        None => Seq::empty(),
    }
}

pub open spec fn origin_errors(o: Option<String>, path: Seq<char>) -> Seq<(Seq<char>, ValidationCode)> {
    match o {
        Some(o) => match origin_check(url_parse_parts(o@)) {
            Ok(()) => Seq::empty(),
            Err(code) => seq![(path, code)],
        },
        None => Seq::empty(),
    }
}

pub open spec fn optional_metrics_server_errors(m: Option<MetricsServer>, path: Seq<char>) -> Seq<(Seq<char>, ValidationCode)> {
    match m {
        Some(m) => metrics_server_errors(m, path),
        None => Seq::empty(),
    }
}

pub open spec fn telegram_head_errors(t: Telegram, prefix: Seq<char>) -> Seq<(Seq<char>, ValidationCode)> {
    check(t.api_token@.len() >= 37, field_path(prefix, "api_token"@), ValidationCode::Length)
        + check(t.http_timeout != 0, field_path(prefix, "http_timeout"@), ValidationCode::DurationZero)
        + check(t.output_buffer_size >= 1, field_path(prefix, "output_buffer_size"@), ValidationCode::Range)
}

pub open spec fn telegram_updates_errors(t: Telegram, prefix: Seq<char>) -> Seq<(Seq<char>, ValidationCode)> {
    optional_webhook_errors(t.webhook, field_path(prefix, "webhook"@))
        + optional_polling_errors(t.polling, field_path(prefix, "polling"@))
        + check(t.updates_buffer_size >= 1, field_path(prefix, "updates_buffer_size"@), ValidationCode::Range)
}

pub open spec fn telegram_errors(t: Telegram, prefix: Seq<char>) -> Seq<(Seq<char>, ValidationCode)> {
    telegram_head_errors(t, prefix) + telegram_updates_errors(t, prefix)
}

pub open spec fn duration_range_errors(r: DurationMinMax, prefix: Seq<char>) -> Seq<(Seq<char>, ValidationCode)> {
    check(r.min != 0, field_path(prefix, "min"@), ValidationCode::DurationZero)
        + check(r.max != 0, field_path(prefix, "max"@), ValidationCode::DurationZero)
}

pub open spec fn flo_origin_errors(f: FLO, prefix: Seq<char>) -> Seq<(Seq<char>, ValidationCode)> {
    check(f.http_timeout != 0, field_path(prefix, "http_timeout"@), ValidationCode::DurationZero)
        + origin_errors(f.api_origin, field_path(prefix, "api_origin"@))
}

pub open spec fn flo_interval_errors(f: FLO, prefix: Seq<char>) -> Seq<(Seq<char>, ValidationCode)> {
    duration_range_errors(f.poll_interval, field_path(prefix, "poll_interval"@))
        + check(f.poll_interval.max >= f.poll_interval.min, field_path(prefix, "poll_interval"@), ValidationCode::InvalidRange)
}

pub open spec fn flo_buffer_errors(f: FLO, prefix: Seq<char>) -> Seq<(Seq<char>, ValidationCode)> {
    optional_text_errors(f.user_agent, field_path(prefix, "user_agent"@))
        + check(f.input_buffer_size >= 1, field_path(prefix, "input_buffer_size"@), ValidationCode::Range)
        + check(f.output_buffer_size >= 1, field_path(prefix, "output_buffer_size"@), ValidationCode::Range)
}

pub open spec fn flo_errors(f: FLO, prefix: Seq<char>) -> Seq<(Seq<char>, ValidationCode)> {
    flo_origin_errors(f, prefix) + flo_interval_errors(f, prefix) + flo_buffer_errors(f, prefix)
}

pub open spec fn metrics_server_errors(m: MetricsServer, prefix: Seq<char>) -> Seq<(Seq<char>, ValidationCode)> {
    check(m.path@.len() >= 1, field_path(prefix, "path"@), ValidationCode::Length)
}

pub open spec fn locations_errors(locs: Seq<Location>, prefix: Seq<char>) -> Seq<(Seq<char>, ValidationCode)>
    decreases locs.len(),
{
    if locs.len() == 0 {
        Seq::empty()
    } else {
        locations_errors(locs.drop_last(), prefix) + location_errors(locs.last(), index_path(prefix, (locs.len() - 1) as nat))
    }
}

pub open spec fn chats_errors(chats: Seq<Chat>, prefix: Seq<char>) -> Seq<(Seq<char>, ValidationCode)>
    decreases chats.len(),
{
    if chats.len() == 0 {
        Seq::empty()
    } else {
        chats_errors(chats.drop_last(), prefix) + chat_errors(chats.last(), index_path(prefix, (chats.len() - 1) as nat))
    }
}

/// Every refusal of the configuration: each location's own fields, each chat, the Telegram
/// settings (with webhook and polling when present), the FLO settings and the metrics server.
pub open spec fn bot_config_errors(c: BotConfig) -> Seq<(Seq<char>, ValidationCode)> {
    locations_errors(c.locations@, "locations"@)
        + chats_errors(c.chats@, "chats"@)
        + telegram_errors(c.telegram, "telegram"@)
        + flo_errors(c.flo, "flo"@)
        + optional_metrics_server_errors(c.metrics_server, "metrics_server"@)
}

fn require_optional_text(errs: &mut Vec<ValidationError>, t: &Option<String>, prefix: &str, name: &str)
    ensures
        errors_view(final(errs)@) == errors_view(old(errs)@) + optional_text_errors(*t, field_path(prefix@, name@)),
{
    match t {
        Some(v) => require(errs, v.unicode_len() >= 1, prefix, name, ValidationCode::Length),
        None => {
            assert(errors_view(errs@) =~= errors_view(errs@) + Seq::<(Seq<char>, ValidationCode)>::empty());
        },
    }
}

impl Webhook {
    fn collect_errors(&self, prefix: &str, errs: &mut Vec<ValidationError>)
        ensures
            errors_view(final(errs)@) == errors_view(old(errs)@) + webhook_errors(*self, prefix@),
    {
        let ghost e0 = errors_view(errs@);
        require(errs, self.path.unicode_len() >= 1, prefix, "path", ValidationCode::Length);
        require(errs, self.secret_token.unicode_len() >= 1, prefix, "secret_token", ValidationCode::Length);
        require(errs, validate_duration(self.accept_timeout).is_ok(), prefix, "accept_timeout", ValidationCode::DurationZero);
        require_optional_text(errs, &self.metrics_path, prefix, "metrics_path");
        assert(errors_view(errs@) =~= e0 + webhook_errors(*self, prefix@));
    }
}

impl Polling {
    fn collect_errors(&self, prefix: &str, errs: &mut Vec<ValidationError>)
        ensures
            errors_view(final(errs)@) == errors_view(old(errs)@) + polling_errors(*self, prefix@),
    {
        let ghost e0 = errors_view(errs@);
        require(errs, self.duration_seconds >= 1, prefix, "duration_seconds", ValidationCode::Range);
        require(errs, validate_duration(self.http_timeout).is_ok(), prefix, "http_timeout", ValidationCode::DurationZero);
        assert(errors_view(errs@) =~= e0 + polling_errors(*self, prefix@));
    }
}

impl Telegram {
    fn collect_head_errors(&self, prefix: &str, errs: &mut Vec<ValidationError>)
        ensures
            errors_view(final(errs)@) == errors_view(old(errs)@) + telegram_head_errors(*self, prefix@),
    {
        let ghost e0 = errors_view(errs@);
        require(errs, self.api_token.unicode_len() >= 37, prefix, "api_token", ValidationCode::Length);
        let ghost e1 = errors_view(errs@);
        require(errs, validate_duration(self.http_timeout).is_ok(), prefix, "http_timeout", ValidationCode::DurationZero);
        let ghost e2 = errors_view(errs@);
        require(errs, self.output_buffer_size >= 1, prefix, "output_buffer_size", ValidationCode::Range);
        assert(errors_view(errs@) =~= e0 + telegram_head_errors(*self, prefix@));
    }

    fn collect_updates_errors(&self, prefix: &str, errs: &mut Vec<ValidationError>)
        ensures
            errors_view(final(errs)@) == errors_view(old(errs)@) + telegram_updates_errors(*self, prefix@),
    {
        let ghost e0 = errors_view(errs@);
        match &self.webhook {
            Some(w) => {
                let p = make_field_path(prefix, "webhook");
                w.collect_errors(p.as_str(), errs);
            },
            None => {},
        }
        let ghost e1 = errors_view(errs@);
        assert(e1 =~= e0 + optional_webhook_errors(self.webhook, field_path(prefix@, "webhook"@)));
        match &self.polling {
            Some(pl) => {
                let p = make_field_path(prefix, "polling");
                pl.collect_errors(p.as_str(), errs);
            },
            None => {},
        }
        let ghost e2 = errors_view(errs@);
        assert(e2 =~= e1 + optional_polling_errors(self.polling, field_path(prefix@, "polling"@)));
        require(errs, self.updates_buffer_size >= 1, prefix, "updates_buffer_size", ValidationCode::Range);
        assert(errors_view(errs@) =~= e0 + telegram_updates_errors(*self, prefix@));
    }

    fn collect_errors(&self, prefix: &str, errs: &mut Vec<ValidationError>)
        ensures
            errors_view(final(errs)@) == errors_view(old(errs)@) + telegram_errors(*self, prefix@),
    {
        let ghost e0 = errors_view(errs@);
        self.collect_head_errors(prefix, errs);
        self.collect_updates_errors(prefix, errs);
        assert(errors_view(errs@) =~= e0 + telegram_errors(*self, prefix@));
    }

    /// Checks the Telegram settings.
    pub fn validate(&self) -> (r: Result<(), Vec<ValidationError>>)
        ensures
            validation_view(r) == outcome(telegram_errors(*self, ""@)),
    {
        let mut errs: Vec<ValidationError> = Vec::new();
        assert(errors_view(errs@) =~= Seq::empty());
        self.collect_errors("", &mut errs);
        assert(errors_view(errs@) =~= telegram_errors(*self, ""@));
        finish(errs)
    }
}

impl FLO {
    fn collect_origin_errors(&self, prefix: &str, errs: &mut Vec<ValidationError>)
        ensures
            errors_view(final(errs)@) == errors_view(old(errs)@) + flo_origin_errors(*self, prefix@),
    {
        let ghost e0 = errors_view(errs@);
        require(errs, validate_duration(self.http_timeout).is_ok(), prefix, "http_timeout", ValidationCode::DurationZero);
        let ghost e1 = errors_view(errs@);
        match &self.api_origin {
            Some(o) => {
                match FLO::validate_api_origin(o.as_str()) {
                    Ok(()) => {},
                    Err(code) => {
                        errs.push(ValidationError { field: make_field_path(prefix, "api_origin"), code });
                    },
                }
            },
            None => {},
        }
        assert(errors_view(errs@) =~= e1 + origin_errors(self.api_origin, field_path(prefix@, "api_origin"@)));
        assert(errors_view(errs@) =~= e0 + flo_origin_errors(*self, prefix@));
    }

    fn collect_interval_errors(&self, prefix: &str, errs: &mut Vec<ValidationError>)
        ensures
            errors_view(final(errs)@) == errors_view(old(errs)@) + flo_interval_errors(*self, prefix@),
    {
        let ghost e0 = errors_view(errs@);
        let pi = make_field_path(prefix, "poll_interval");
        require(errs, validate_duration(self.poll_interval.min).is_ok(), pi.as_str(), "min", ValidationCode::DurationZero);
        require(errs, validate_duration(self.poll_interval.max).is_ok(), pi.as_str(), "max", ValidationCode::DurationZero);
        let ghost e1 = errors_view(errs@);
        assert(e1 =~= e0 + duration_range_errors(self.poll_interval, field_path(prefix@, "poll_interval"@)));
        let ghost piv = pi@;
        assert(piv == field_path(prefix@, "poll_interval"@));
        if FLO::validate_poll_interval(&self.poll_interval).is_err() {
            errs.push(ValidationError { field: pi, code: ValidationCode::InvalidRange });
        }
        assert(errors_view(errs@) =~= e1 + check(self.poll_interval.max >= self.poll_interval.min, piv, ValidationCode::InvalidRange));
        assert(errors_view(errs@) =~= e0 + flo_interval_errors(*self, prefix@));
    }

    fn collect_buffer_errors(&self, prefix: &str, errs: &mut Vec<ValidationError>)
        ensures
            errors_view(final(errs)@) == errors_view(old(errs)@) + flo_buffer_errors(*self, prefix@),
    {
        let ghost e0 = errors_view(errs@);
        require_optional_text(errs, &self.user_agent, prefix, "user_agent");
        require(errs, self.input_buffer_size >= 1, prefix, "input_buffer_size", ValidationCode::Range);
        require(errs, self.output_buffer_size >= 1, prefix, "output_buffer_size", ValidationCode::Range);
        assert(errors_view(errs@) =~= e0 + flo_buffer_errors(*self, prefix@));
    }

    fn collect_errors(&self, prefix: &str, errs: &mut Vec<ValidationError>)
        ensures
            errors_view(final(errs)@) == errors_view(old(errs)@) + flo_errors(*self, prefix@),
    {
        let ghost e0 = errors_view(errs@);
        self.collect_origin_errors(prefix, errs);
        self.collect_interval_errors(prefix, errs);
        self.collect_buffer_errors(prefix, errs);
        assert(errors_view(errs@) =~= e0 + flo_errors(*self, prefix@));
    }

    /// Checks the FLO settings.
    pub fn validate(&self) -> (r: Result<(), Vec<ValidationError>>)
        ensures
            validation_view(r) == outcome(flo_errors(*self, ""@)),
    {
        let mut errs: Vec<ValidationError> = Vec::new();
        assert(errors_view(errs@) =~= Seq::empty());
        self.collect_errors("", &mut errs);
        assert(errors_view(errs@) =~= flo_errors(*self, ""@));
        finish(errs)
    }
}

impl BotConfig {
    /// Checks the whole configuration and reports every refused value.
    pub fn validate(&self) -> (r: Result<(), Vec<ValidationError>>)
        ensures
            validation_view(r) == outcome(bot_config_errors(*self)),
            r is Ok <==> config_valid(*self),
            self.telegram.output_buffer_size == 0 ==> (r matches Err(v)
                && errors_view(v@).contains(("telegram.output_buffer_size"@, ValidationCode::Range))),
    {
        proof {
            law_validate_accepts_exactly_valid_configs(*self);
            if self.telegram.output_buffer_size == 0 {
                law_validate_refuses_empty_output_buffer(*self);
            }
        }
        let mut errs: Vec<ValidationError> = Vec::new();
        let mut i: usize = 0;
        while i < self.locations.len()
            invariant
                i <= self.locations@.len(),
                errors_view(errs@) == locations_errors(self.locations@.take(i as int), "locations"@),
            decreases self.locations@.len() - i,
        {
            proof {
                let next = self.locations@.take(i + 1);
                assert(next.drop_last() =~= self.locations@.take(i as int));
                assert(next.last() == self.locations@[i as int]);
            }
            let p = make_index_path("locations", i);
            self.locations[i].collect_errors(p.as_str(), &mut errs);
            i = i + 1;
        }
        assert(self.locations@.take(self.locations@.len() as int) =~= self.locations@);
        let ghost e1 = errors_view(errs@);
        let mut c: usize = 0;
        while c < self.chats.len()
            invariant
                c <= self.chats@.len(),
                errors_view(errs@) == e1 + chats_errors(self.chats@.take(c as int), "chats"@),
            decreases self.chats@.len() - c,
        {
            proof {
                let next = self.chats@.take(c + 1);
                assert(next.drop_last() =~= self.chats@.take(c as int));
                assert(next.last() == self.chats@[c as int]);
            }
            let p = make_index_path("chats", c);
            let ghost before = errors_view(errs@);
            self.chats[c].collect_errors(p.as_str(), &mut errs);
            assert(errors_view(errs@) =~= e1 + chats_errors(self.chats@.take(c + 1), "chats"@));
            c = c + 1;
        }
        assert(self.chats@.take(self.chats@.len() as int) =~= self.chats@);
        let ghost e2 = errors_view(errs@);
        self.telegram.collect_errors("telegram", &mut errs);
        let ghost e3 = errors_view(errs@);
        self.flo.collect_errors("flo", &mut errs);
        let ghost e4 = errors_view(errs@);
        match &self.metrics_server {
            Some(m) => require(&mut errs, m.path.unicode_len() >= 1, "metrics_server", "path", ValidationCode::Length),
            None => {},
        }
        proof {
            assert(errors_view(errs@) =~= e4 + optional_metrics_server_errors(self.metrics_server, "metrics_server"@));
        }
        assert(errors_view(errs@) =~= bot_config_errors(*self));
        finish(errs)
    }
}


/// A location's own fields are acceptable.
pub open spec fn location_valid(l: Location) -> bool {
    l.id@.len() >= 1 && l.name@.len() >= 1 && l.parks@.len() >= 1
}

/// A chat's fields are acceptable.
pub open spec fn chat_valid(c: Chat) -> bool {
    c.id != 0 && c.locations@.len() >= 1
}

/// The webhook settings are acceptable.
pub open spec fn webhook_valid(w: Webhook) -> bool {
    &&& w.path@.len() >= 1
    &&& w.secret_token@.len() >= 1
    &&& w.accept_timeout > 0
    &&& (w.metrics_path matches Some(m) ==> m@.len() >= 1)
}

/// The long polling settings are acceptable.
pub open spec fn polling_valid(p: Polling) -> bool {
    p.duration_seconds > 0 && p.http_timeout > 0
}

/// The Telegram settings are acceptable.
pub open spec fn telegram_valid(t: Telegram) -> bool {
    &&& t.api_token@.len() >= 37
    &&& t.http_timeout > 0
    &&& t.output_buffer_size > 0
    &&& (t.webhook matches Some(w) ==> webhook_valid(w))
    &&& (t.polling matches Some(p) ==> polling_valid(p))
    &&& t.updates_buffer_size > 0
}

/// The FLO settings are acceptable.
pub open spec fn flo_valid(f: FLO) -> bool {
    &&& f.http_timeout > 0
    &&& (f.api_origin matches Some(o) ==> origin_check(url_parse_parts(o@)) is Ok)
    &&& f.poll_interval.min > 0
    &&& f.poll_interval.max > 0
    &&& f.poll_interval.min <= f.poll_interval.max
    &&& (f.user_agent matches Some(u) ==> u@.len() >= 1)
    &&& f.input_buffer_size > 0
    &&& f.output_buffer_size > 0
}

/// Every value of the configuration is acceptable.
pub open spec fn config_valid(c: BotConfig) -> bool {
    &&& forall|i: int| 0 <= i < c.locations@.len() ==> location_valid(#[trigger] c.locations@[i])
    &&& forall|i: int| 0 <= i < c.chats@.len() ==> chat_valid(#[trigger] c.chats@[i])
    &&& telegram_valid(c.telegram)
    &&& flo_valid(c.flo)
    &&& (c.metrics_server matches Some(m) ==> m.path@.len() >= 1)
}

proof fn lemma_locations_errors_empty(locs: Seq<Location>, prefix: Seq<char>)
    ensures
        locations_errors(locs, prefix).len() == 0 <==> forall|i: int| 0 <= i < locs.len() ==> location_valid(#[trigger] locs[i]),
    decreases locs.len(),
{
    if locs.len() > 0 {
        let pre = locs.drop_last();
        lemma_locations_errors_empty(pre, prefix);
        if forall|i: int| 0 <= i < locs.len() ==> location_valid(#[trigger] locs[i]) {
            assert forall|i: int| 0 <= i < pre.len() implies location_valid(#[trigger] pre[i]) by {
                assert(pre[i] == locs[i]);
            }
            assert(location_valid(locs[locs.len() - 1]));
        }
        if locations_errors(locs, prefix).len() == 0 {
            assert forall|i: int| 0 <= i < locs.len() implies location_valid(#[trigger] locs[i]) by {
                if i < locs.len() - 1 {
                    assert(pre[i] == locs[i]);
                }
            }
        }
    }
}

proof fn lemma_chats_errors_empty(chats: Seq<Chat>, prefix: Seq<char>)
    ensures
        chats_errors(chats, prefix).len() == 0 <==> forall|i: int| 0 <= i < chats.len() ==> chat_valid(#[trigger] chats[i]),
    decreases chats.len(),
{
    if chats.len() > 0 {
        let pre = chats.drop_last();
        lemma_chats_errors_empty(pre, prefix);
        if forall|i: int| 0 <= i < chats.len() ==> chat_valid(#[trigger] chats[i]) {
            assert forall|i: int| 0 <= i < pre.len() implies chat_valid(#[trigger] pre[i]) by {
                assert(pre[i] == chats[i]);
            }
            assert(chat_valid(chats[chats.len() - 1]));
        }
        if chats_errors(chats, prefix).len() == 0 {
            assert forall|i: int| 0 <= i < chats.len() implies chat_valid(#[trigger] chats[i]) by {
                if i < chats.len() - 1 {
                    assert(pre[i] == chats[i]);
                }
            }
        }
    }
}

/// The configuration is accepted exactly when every value in it is acceptable: each location
/// has an ID, a name and a park, each chat has a non-zero ID and a location, the Telegram token
/// has at least 37 characters, timeouts are positive, buffers hold at least one item, optional
/// texts are not empty, the FLO origin is a bare HTTP(S) origin, and the poll interval is a
/// positive range.
pub proof fn law_validate_accepts_exactly_valid_configs(c: BotConfig)
    ensures
        outcome(bot_config_errors(c)) is Ok <==> config_valid(c),
{
    lemma_locations_errors_empty(c.locations@, "locations"@);
    lemma_chats_errors_empty(c.chats@, "chats"@);
    lemma_telegram_errors_empty(c.telegram, "telegram"@);
    lemma_flo_errors_empty(c.flo, "flo"@);
    let e = bot_config_errors(c);
    assert(e.len() == locations_errors(c.locations@, "locations"@).len() + chats_errors(c.chats@, "chats"@).len()
        + telegram_errors(c.telegram, "telegram"@).len() + flo_errors(c.flo, "flo"@).len()
        + optional_metrics_server_errors(c.metrics_server, "metrics_server"@).len());
}

proof fn lemma_telegram_errors_empty(t: Telegram, prefix: Seq<char>)
    ensures
        telegram_errors(t, prefix).len() == 0 <==> telegram_valid(t),
{
    assert(telegram_head_errors(t, prefix).len() == 0 <==> (t.api_token@.len() >= 37 && t.http_timeout > 0 && t.output_buffer_size > 0));
    assert(optional_webhook_errors(t.webhook, field_path(prefix, "webhook"@)).len() == 0 <==> (t.webhook matches Some(w) ==> webhook_valid(w)));
    assert(optional_polling_errors(t.polling, field_path(prefix, "polling"@)).len() == 0 <==> (t.polling matches Some(p) ==> polling_valid(p)));
}

proof fn lemma_flo_errors_empty(f: FLO, prefix: Seq<char>)
    ensures
        flo_errors(f, prefix).len() == 0 <==> flo_valid(f),
{
    assert(origin_errors(f.api_origin, field_path(prefix, "api_origin"@)).len() == 0
        <==> (f.api_origin matches Some(o) ==> origin_check(url_parse_parts(o@)) is Ok));
    assert(flo_origin_errors(f, prefix).len() == 0 <==> (f.http_timeout > 0
        && (f.api_origin matches Some(o) ==> origin_check(url_parse_parts(o@)) is Ok)));
    assert(flo_interval_errors(f, prefix).len() == 0 <==> (f.poll_interval.min > 0 && f.poll_interval.max > 0
        && f.poll_interval.min <= f.poll_interval.max));
    assert(flo_buffer_errors(f, prefix).len() == 0 <==> ((f.user_agent matches Some(u) ==> u@.len() >= 1)
        && f.input_buffer_size > 0 && f.output_buffer_size > 0));
}

/// A configuration whose Telegram output buffer holds no item is refused, and the refusal names
/// `telegram.output_buffer_size` as out of range.
pub proof fn law_validate_refuses_empty_output_buffer(c: BotConfig)
    requires
        c.telegram.output_buffer_size == 0,
    ensures
        outcome(bot_config_errors(c)) matches Err(errs)
            && errs.contains(("telegram.output_buffer_size"@, ValidationCode::Range)),
{
    reveal_strlit("telegram");
    reveal_strlit(".");
    reveal_strlit("output_buffer_size");
    reveal_strlit("telegram.output_buffer_size");
    let t = c.telegram;
    let path = field_path("telegram"@, "output_buffer_size"@);
    assert(path =~= "telegram.output_buffer_size"@);
    let a = check(t.api_token@.len() >= 37, field_path("telegram"@, "api_token"@), ValidationCode::Length);
    let b = check(t.http_timeout != 0, field_path("telegram"@, "http_timeout"@), ValidationCode::DurationZero);
    let head = telegram_head_errors(t, "telegram"@);
    assert(head[(a.len() + b.len()) as int] == (path, ValidationCode::Range));
    let te = telegram_errors(t, "telegram"@);
    assert(te[(a.len() + b.len()) as int] == (path, ValidationCode::Range));
    let pre = locations_errors(c.locations@, "locations"@) + chats_errors(c.chats@, "chats"@);
    let all = bot_config_errors(c);
    let k: int = (pre.len() + a.len() + b.len()) as int;
    assert(all[k] == (path, ValidationCode::Range));
    assert(all.len() > 0);
}

} // verus!
