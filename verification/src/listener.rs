//! The per-subscription listener: one streaming request per `(server,
//! topic)` pair, its NDJSON body split into lines and parsed, `since`
//! advanced so reconnects do not replay, and supervised reconnection with
//! jittered backoff. The machine here is pure: the surrounding application
//! (or the scripted client) performs the transport and feeds results in.
use vstd::prelude::*;

verus! {

use crate::credentials::{find_kv, Credential, Credentials};
use crate::http_client::{basic_auth_of, basic_auth_value, NullableClient, RequestInfo};
use crate::json::{json_str_field, json_u64_field, get_str_field, get_u64_field};
use crate::models::{
    clone_opt_string, message_matches, message_parses, min_message_parses, Message, MinMessage,
};
use crate::output_tracker::OutputTracker;
use crate::retry::{WaitExponentialRandom, RETRY_MAX_SECS, RETRY_MIN_SECS};
use crate::strutil::str_eq;
use crate::urls;
use crate::Error;

/// A connection that stayed up longer than this resets the backoff.
pub const UPTIME_RESET_SECS: u64 = 240;

/// The larger of two timestamps.
pub open spec fn max64(a: u64, b: u64) -> u64 {
    if a >= b {
        a
    } else {
        b
    }
}

// ---------------------------------------------------------------------------
// Wire events
// ---------------------------------------------------------------------------

/// One line of the stream, tagged by its `event` field.
#[derive(Clone, Debug)]
pub enum ServerEvent {
    Open { id: String, time: u64, expires: Option<u64>, topic: String },
    Message(Message),
    KeepAlive { id: String, time: u64, expires: Option<u64>, topic: String },
}

/// Whether a line parses as a server event: a known tag with its required
/// fields.
pub open spec fn server_event_parses(s: Seq<char>) -> bool {
    match json_str_field(s, "event"@) {
        Some(tag) => {
            if tag == "open"@ || tag == "keepalive"@ {
                json_str_field(s, "id"@) is Some && json_u64_field(s, "time"@) is Some
                    && json_str_field(s, "topic"@) is Some
            } else if tag == "message"@ {
                message_parses(s)
            } else {
                false
            }
        },
        None => false,
    }
}

/// The fields a parsed `ServerEvent` must carry.
pub open spec fn server_event_matches(s: Seq<char>, e: ServerEvent) -> bool {
    match e {
        ServerEvent::Open { id, time, expires, topic } => {
            &&& json_str_field(s, "event"@) == Some("open"@)
            &&& json_str_field(s, "id"@) == Some(id@)
            &&& json_u64_field(s, "time"@) == Some(time)
            &&& expires == json_u64_field(s, "expires"@)
            &&& json_str_field(s, "topic"@) == Some(topic@)
        },
        ServerEvent::Message(m) => {
            json_str_field(s, "event"@) == Some("message"@) && message_matches(s, m)
        },
        ServerEvent::KeepAlive { id, time, expires, topic } => {
            &&& json_str_field(s, "event"@) == Some("keepalive"@)
            &&& json_str_field(s, "id"@) == Some(id@)
            &&& json_u64_field(s, "time"@) == Some(time)
            &&& expires == json_u64_field(s, "expires"@)
            &&& json_str_field(s, "topic"@) == Some(topic@)
        },
    }
}

impl ServerEvent {
    /// Parse one line: dispatch on the `event` tag.
    pub fn parse(line: &str) -> (r: Option<ServerEvent>)
        ensures
            r is Some <==> server_event_parses(line@),
            r matches Some(e) ==> server_event_matches(line@, e),
    {
        let tag = get_str_field(line, "event")?;
        if str_eq(tag.as_str(), "open") || str_eq(tag.as_str(), "keepalive") {
            let id = get_str_field(line, "id")?;
            let time = get_u64_field(line, "time")?;
            let topic = get_str_field(line, "topic")?;
            let expires = get_u64_field(line, "expires");
            if str_eq(tag.as_str(), "open") {
                Some(ServerEvent::Open { id, time, expires, topic })
            } else {
                Some(ServerEvent::KeepAlive { id, time, expires, topic })
            }
        } else if str_eq(tag.as_str(), "message") {
            match Message::parse(line) {
                Some(m) => Some(ServerEvent::Message(m)),
                None => None,
            }
        } else {
            None
        }
    }
}

// ---------------------------------------------------------------------------
// Connection state and events
// ---------------------------------------------------------------------------

/// What the connection is doing, as consumers observe it.
#[derive(Clone, Debug)]
pub enum ConnectionState {
    Uninitialized,
    Connected,
    Reconnecting { retry_count: u64, delay_secs: u64, error: Option<String> },
}

impl ConnectionState {
    /// A field-for-field copy.
    pub fn duplicate(&self) -> (r: ConnectionState)
        ensures
            r == *self,
    {
        match self {
            ConnectionState::Uninitialized => ConnectionState::Uninitialized,
            ConnectionState::Connected => ConnectionState::Connected,
            ConnectionState::Reconnecting { retry_count, delay_secs, error } =>
                ConnectionState::Reconnecting {
                retry_count: *retry_count,
                delay_secs: *delay_secs,
                error: clone_opt_string(error),
            },
        }
    }
}

/// What a listener hands its subscription: a message, or a state change.
#[derive(Debug)]
pub enum ListenerEvent {
    Message(Message),
    ConnectionStateChanged(ConnectionState),
}

/// What one subscription listens to, and from when.
#[derive(Clone, Debug)]
pub struct ListenerConfig {
    pub endpoint: String,
    pub topic: String,
    pub since: u64,
}

impl ListenerConfig {
    /// The configuration a subscription's listener starts from: its server
    /// and topic, with the stream cursor at the row's read watermark, so a
    /// restored listener does not replay what was already read.
    pub fn for_subscription(sub: &crate::models::Subscription) -> (r: ListenerConfig)
        ensures
            r.endpoint == sub.server,
            r.topic == sub.topic,
            r.since == sub.read_until,
    {
        ListenerConfig {
            endpoint: sub.server.clone(),
            topic: sub.topic.clone(),
            since: sub.read_until,
        }
    }

    /// A field-for-field copy.
    pub fn duplicate(&self) -> (r: ListenerConfig)
        ensures
            r == *self,
    {
        ListenerConfig {
            endpoint: self.endpoint.clone(),
            topic: self.topic.clone(),
            since: self.since,
        }
    }
}

// ---------------------------------------------------------------------------
// NDJSON framing
// ---------------------------------------------------------------------------

/// The index of the first newline, or the length when there is none.
pub open spec fn first_nl(s: Seq<char>) -> int
    decreases s.len(),
{
    if s.len() == 0 {
        0
    } else if s[0] == '\n' {
        0
    } else {
        1 + first_nl(s.skip(1))
    }
}

/// A line without its trailing carriage return, if it has one.
pub open spec fn strip_cr(s: Seq<char>) -> Seq<char> {
    if s.len() > 0 && s.last() == '\r' {
        s.drop_last()
    } else {
        s
    }
}

/// The lines of an NDJSON body: split at every newline, carriage returns
/// stripped, no empty line after a final newline.
pub open spec fn split_lines_spec(s: Seq<char>) -> Seq<Seq<char>>
    decreases s.len(),
    via split_lines_spec_decreases
{
    if s.len() == 0 {
        Seq::<Seq<char>>::empty()
    } else {
        let i = first_nl(s);
        if i == s.len() {
            seq![strip_cr(s)]
        } else {
            seq![strip_cr(s.take(i))] + split_lines_spec(s.skip(i + 1))
        }
    }
}

#[via_fn]
proof fn split_lines_spec_decreases(s: Seq<char>) {
    lemma_first_nl(s);
}

/// `first_nl` points at the first newline: everything before differs from
/// it, and in range it is a newline.
pub proof fn lemma_first_nl(s: Seq<char>)
    ensures
        0 <= first_nl(s) <= s.len(),
        forall|j: int| 0 <= j < first_nl(s) ==> s[j] != '\n',
        first_nl(s) < s.len() ==> s[first_nl(s)] == '\n',
    decreases s.len(),
{
    if s.len() > 0 && s[0] != '\n' {
        lemma_first_nl(s.skip(1));
        assert forall|j: int| 0 <= j < first_nl(s) implies s[j] != '\n' by {
            if j > 0 {
                assert(s.skip(1)[j - 1] == s[j]);
            }
        }
        if first_nl(s) < s.len() {
            assert(s.skip(1)[first_nl(s) - 1] == s[first_nl(s)]);
        }
    }
}

/// When `k` is the first newline index (or the length), `first_nl` is `k`.
pub proof fn lemma_first_nl_at(s: Seq<char>, k: int)
    requires
        0 <= k <= s.len(),
        forall|j: int| 0 <= j < k ==> s[j] != '\n',
        k < s.len() ==> s[k] == '\n',
    ensures
        first_nl(s) == k,
    decreases s.len(),
{
    if s.len() > 0 && k > 0 {
        assert forall|j: int| 0 <= j < k - 1 implies s.skip(1)[j] != '\n' by {
            assert(s.skip(1)[j] == s[j + 1]);
        }
        if k - 1 < s.skip(1).len() {
            assert(s.skip(1)[k - 1] == s[k]);
        }
        lemma_first_nl_at(s.skip(1), k - 1);
    }
}

/// One line of the body: the given span, its trailing carriage return
/// stripped.
fn cut_line(s: &str, start: usize, end: usize) -> (r: String)
    requires
        start <= end,
        end <= s@.len(),
    ensures
        r@ == strip_cr(s@.subrange(start as int, end as int)),
{
    let mut e = end;
    if e > start && s.get_char(e - 1) as u32 == 13 {
        e = e - 1;
    }
    let piece = s.substring_char(start, e);
    proof {
        let span = s@.subrange(start as int, end as int);
        if end > start {
            assert(span.last() == s@[end - 1]);
            assert('\r' as u32 == 13);
            if s@[end - 1] as u32 == 13 {
                assert(s@[end - 1] == '\r');
                assert(s@.subrange(start as int, end - 1) =~= span.drop_last());
            } else {
                assert(s@[end - 1] != '\r');
            }
        }
        assert(piece@ =~= strip_cr(span));
    }
    piece.to_owned()
}

/// Split a body into its lines.
pub fn split_lines(s: &str) -> (r: Vec<String>)
    ensures
        r.deep_view() == split_lines_spec(s@),
{
    let n = s.unicode_len();
    let mut out: Vec<String> = Vec::new();
    let mut start: usize = 0;
    let mut j: usize = 0;
    proof {
        assert(s@.skip(0) =~= s@);
        assert(out.deep_view() + split_lines_spec(s@.skip(0)) =~= split_lines_spec(s@));
    }
    while j < n
        invariant
            start <= j <= n,
            n == s@.len(),
            forall|k: int| start <= k < j ==> s@[k] != '\n',
            out.deep_view() + split_lines_spec(s@.skip(start as int)) == split_lines_spec(s@),
        decreases n - j,
    {
        let c = s.get_char(j);
        if c as u32 == 10 {
            let line = cut_line(s, start, j);
            let ghost rest = s@.skip(start as int);
            proof {
                assert(s@[j as int] == '\n') by {
                    assert(s@[j as int] as u32 == 10 && '\n' as u32 == 10);
                }
                assert forall|k: int| 0 <= k < j - start implies rest[k] != '\n' by {
                    assert(rest[k] == s@[start + k]);
                }
                assert(rest[j - start] == s@[j as int]);
                lemma_first_nl_at(rest, j - start);
                assert(rest.take(j - start) =~= s@.subrange(start as int, j as int));
                assert(rest.skip(j - start + 1) =~= s@.skip(j + 1));
                assert(split_lines_spec(rest) =~= seq![strip_cr(rest.take(j - start))]
                    + split_lines_spec(rest.skip(j - start + 1)));
            }
            let ghost dv = out.deep_view();
            out.push(line);
            proof {
                assert(out.deep_view() =~= dv.push(strip_cr(s@.subrange(start as int, j as int))));
                assert(out.deep_view() + split_lines_spec(s@.skip(j + 1)) =~= split_lines_spec(
                    s@,
                ));
            }
            start = j + 1;
        }
        j = j + 1;
    }
    if start < n {
        let line = cut_line(s, start, n);
        let ghost rest = s@.skip(start as int);
        proof {
            assert forall|k: int| 0 <= k < rest.len() implies rest[k] != '\n' by {
                assert(rest[k] == s@[start + k]);
            }
            lemma_first_nl_at(rest, rest.len() as int);
            assert(rest.take(rest.len() as int) =~= rest);
            assert(rest =~= s@.subrange(start as int, n as int));
            assert(split_lines_spec(rest) =~= seq![strip_cr(rest)]);
        }
        let ghost dv = out.deep_view();
        out.push(line);
        proof {
            assert(out.deep_view() =~= dv.push(strip_cr(s@.subrange(start as int, n as int))));
            assert(out.deep_view() =~= split_lines_spec(s@));
        }
    } else {
        proof {
            assert(s@.skip(start as int).len() == 0);
            assert(out.deep_view() =~= split_lines_spec(s@));
        }
    }
    out
}

// ---------------------------------------------------------------------------
// Line processing as mathematics
// ---------------------------------------------------------------------------

/// A line the inner loop accepts: minimal fields present and a well-formed
/// server event.
pub open spec fn line_ok(l: Seq<char>) -> bool {
    min_message_parses(l) && server_event_parses(l)
}

/// The index of the first rejected line, or the length when all parse.
pub open spec fn first_bad(ls: Seq<Seq<char>>) -> int
    decreases ls.len(),
{
    if ls.len() == 0 {
        0
    } else if !line_ok(ls[0]) {
        0
    } else {
        1 + first_bad(ls.skip(1))
    }
}

/// When the first `k` lines parse and line `k` does not (or `k` is the
/// length), `first_bad` is `k`.
pub proof fn lemma_first_bad_at(ls: Seq<Seq<char>>, k: int)
    requires
        0 <= k <= ls.len(),
        forall|j: int| 0 <= j < k ==> line_ok(#[trigger] ls[j]),
        k < ls.len() ==> !line_ok(ls[k]),
    ensures
        first_bad(ls) == k,
    decreases ls.len(),
{
    if ls.len() > 0 && k > 0 {
        assert forall|j: int| 0 <= j < k - 1 implies line_ok(#[trigger] ls.skip(1)[j]) by {
            assert(ls.skip(1)[j] == ls[j + 1]);
        }
        if k - 1 < ls.skip(1).len() {
            assert(ls.skip(1)[k - 1] == ls[k]);
        }
        lemma_first_bad_at(ls.skip(1), k - 1);
    }
}

/// Whether a line is a message event.
pub open spec fn is_message_line(l: Seq<char>) -> bool {
    json_str_field(l, "event"@) == Some("message"@)
}

/// The message-event lines, in order.
pub open spec fn message_lines(ls: Seq<Seq<char>>) -> Seq<Seq<char>>
    decreases ls.len(),
{
    if ls.len() == 0 {
        Seq::<Seq<char>>::empty()
    } else {
        let rest = message_lines(ls.drop_last());
        if is_message_line(ls.last()) {
            rest.push(ls.last())
        } else {
            rest
        }
    }
}

/// How `since` moves over a body: each accepted line raises it to its
/// time; a line without the minimal fields stops processing before
/// raising it, one with them but no well-formed event stops after.
pub open spec fn advance_since(ls: Seq<Seq<char>>, start: u64) -> u64
    decreases ls.len(),
{
    if ls.len() == 0 {
        start
    } else {
        let l = ls[0];
        if !min_message_parses(l) {
            start
        } else {
            let s1 = max64(start, json_u64_field(l, "time"@).unwrap());
            if !server_event_parses(l) {
                s1
            } else {
                advance_since(ls.skip(1), s1)
            }
        }
    }
}

/// The cursor never moves backwards: whatever a body holds, processing it
/// leaves `since` at or above where it started, so a reconnect never asks
/// the server for anything before what was already seen.
pub proof fn lemma_advance_since_monotone(ls: Seq<Seq<char>>, start: u64)
    ensures
        advance_since(ls, start) >= start,
    decreases ls.len(),
{
    if ls.len() > 0 && min_message_parses(ls[0]) && server_event_parses(ls[0]) {
        lemma_advance_since_monotone(
            ls.skip(1),
            max64(start, json_u64_field(ls[0], "time"@).unwrap()),
        );
    }
}

/// One message as it arrived: the raw line and its parsed form.
#[derive(Debug)]
pub struct ReceivedLine {
    pub raw: String,
    pub message: Message,
}

/// Received messages correspond line by line to the given raw lines.
pub open spec fn received_match(rs: Seq<ReceivedLine>, ls: Seq<Seq<char>>) -> bool {
    rs.len() == ls.len() && (forall|i: int|
        0 <= i < rs.len() ==> (#[trigger] rs[i]).raw@ == ls[i] && message_matches(
            ls[i],
            rs[i].message,
        ))
}

// ---------------------------------------------------------------------------
// The listener machine
// ---------------------------------------------------------------------------

/// The credential stored for a server, as mathematics.
pub open spec fn stored_cred(creds: Credentials, server: Seq<char>) -> Option<
    (Seq<char>, Seq<char>),
> {
    let i = find_kv(creds.map_view(), server);
    if i >= 0 {
        Some(creds.map_view()[i].1)
    } else {
        None
    }
}

/// The headers of a streaming request: the NDJSON content type, chunked
/// transfer, and HTTP Basic authorization when a credential is stored.
pub open spec fn request_headers(cred: Option<(Seq<char>, Seq<char>)>) -> Seq<
    (Seq<char>, Seq<char>),
> {
    let base = seq![
        ("Content-Type"@, "application/x-ndjson"@),
        ("Transfer-Encoding"@, "chunked"@),
    ];
    match cred {
        None => base,
        Some(c) => base.push(("Authorization"@, basic_auth_of(c.0, c.1))),
    }
}

/// The whole streaming request for a configuration and a credential.
pub open spec fn expected_request(
    endpoint: Seq<char>,
    topic: Seq<char>,
    since: u64,
    cred: Option<(Seq<char>, Seq<char>)>,
) -> crate::http_client::RequestInfoV {
    crate::http_client::RequestInfoV {
        method: "GET"@,
        url: urls::topic_url_of(endpoint, topic, since),
        headers: request_headers(cred),
        body: None,
    }
}

/// How a scripted client changes when it serves one request: the queued
/// response leaves its queue, or the default is handed out.
pub open spec fn client_served(
    pre: NullableClient,
    post: NullableClient,
    url: Seq<char>,
    resp: crate::http_client::HttpResponse,
) -> bool {
    if pre.queue_of(url).len() > 0 {
        &&& resp == pre.queue_of(url)[0]
        &&& post.queue_of(url) == pre.queue_of(url).skip(1)
        &&& (forall|u: Seq<char>| u != url ==> #[trigger] post.queue_of(u) == pre.queue_of(u))
        &&& post.default_response == pre.default_response
    } else {
        post == pre && pre.default_response == Some(resp)
    }
}

/// How a tracker changes when one request is recorded: one more item when
/// enabled, nothing otherwise.
pub open spec fn tracker_recorded(
    pre: OutputTracker<RequestInfo>,
    post: OutputTracker<RequestInfo>,
    reqv: crate::http_client::RequestInfoV,
) -> bool {
    &&& post.is_enabled() == pre.is_enabled()
    &&& pre.is_enabled() ==> post.items_spec().len() == pre.items_spec().len() + 1 && (forall|
        i: int,
    |
        0 <= i < pre.items_spec().len() ==> post.items_spec()[i] == pre.items_spec()[i])
        && post.items_spec().last()@ == reqv
    &&& !pre.is_enabled() ==> post == pre
}

/// What one attempt produced: whether the connection was established, the
/// messages received in order, and how the attempt ended.
#[derive(Debug)]
pub struct AttemptOutcome {
    pub connected: bool,
    pub messages: Vec<ReceivedLine>,
    pub result: Result<(), Error>,
}

/// The listener's state between steps: its configuration (with the moving
/// `since` cursor), the observable connection state, and the backoff
/// policy.
#[derive(Debug)]
pub struct ListenerActor {
    pub config: ListenerConfig,
    pub state: ConnectionState,
    pub retry: WaitExponentialRandom,
}

impl ListenerActor {
    /// A freshly supervised listener: uninitialized until the first
    /// attempt completes, with the default backoff. The returned event is
    /// the initial state, which consumers observe.
    pub fn new(config: ListenerConfig) -> (r: (ListenerActor, ListenerEvent))
        ensures
            r.0.config == config,
            r.0.state is Uninitialized,
            r.0.retry.min_secs == RETRY_MIN_SECS,
            r.0.retry.max_secs == RETRY_MAX_SECS,
            r.0.retry.i == 0,
            r.0.retry.multiplier == 1,
            r.1 matches ListenerEvent::ConnectionStateChanged(s) && s is Uninitialized,
    {
        let retry = WaitExponentialRandom::builder().build();
        let actor = ListenerActor { config, state: ConnectionState::Uninitialized, retry };
        (actor, ListenerEvent::ConnectionStateChanged(ConnectionState::Uninitialized))
    }

    /// Build the streaming request: `GET {endpoint}/{topic}/json?since=n`
    /// with the NDJSON headers, and HTTP Basic authorization when a
    /// credential is given.
    pub fn topic_request(&self, cred: &Option<Credential>) -> (r: Result<RequestInfo, Error>)
        ensures
            r is Ok <==> urls::server_base_ok(self.config.endpoint@),
            r matches Ok(req) ==> req@ == expected_request(
                self.config.endpoint@,
                self.config.topic@,
                self.config.since,
                cred_view(*cred),
            ),
            r matches Err(e) ==> e matches Error::InvalidServer(_),
    {
        let url = match crate::models::Subscription::build_url(
            self.config.endpoint.as_str(),
            self.config.topic.as_str(),
            self.config.since,
        ) {
            Ok(u) => u,
            Err(e) => {
                return Err(e);
            },
        };
        let mut headers: Vec<(String, String)> = Vec::new();
        headers.push((String::from_str("Content-Type"), String::from_str("application/x-ndjson")));
        headers.push((String::from_str("Transfer-Encoding"), String::from_str("chunked")));
        match cred {
            Some(c) => {
                headers.push(
                    (
                        String::from_str("Authorization"),
                        basic_auth_value(c.username.as_str(), c.password.as_str()),
                    ),
                );
            },
            None => {},
        }
        let req = RequestInfo { method: String::from_str("GET"), url, headers, body: None };
        proof {
            assert(req@.headers =~= request_headers(cred_view(*cred)));
        }
        Ok(req)
    }

    /// Handle one line of the stream: advance `since` to the line's time
    /// once the minimal fields parse, then hand out the message if the
    /// line is a message event. `since` never moves backwards.
    pub fn handle_line(&mut self, line: &str) -> (r: Result<Option<Message>, Error>)
        ensures
            final(self).config.endpoint == old(self).config.endpoint,
            final(self).config.topic == old(self).config.topic,
            final(self).state == old(self).state,
            final(self).retry == old(self).retry,
            final(self).config.since >= old(self).config.since,
            !min_message_parses(line@) ==> (r matches Err(e) && (e matches Error::InvalidMinMessage(
                raw,
                _,
            ) && raw@ == line@)) && final(self).config.since == old(self).config.since,
            min_message_parses(line@) ==> final(self).config.since == max64(
                old(self).config.since,
                json_u64_field(line@, "time"@).unwrap(),
            ),
            min_message_parses(line@) && !server_event_parses(line@) ==> (r matches Err(e) && (
            e matches Error::InvalidMessage(raw, _) && raw@ == line@)),
            line_ok(line@) && is_message_line(line@) ==> (r matches Ok(m) && (m matches Some(msg)
                && message_matches(line@, msg))),
            line_ok(line@) && !is_message_line(line@) ==> (r matches Ok(m) && m is None),
    {
        let min = match MinMessage::parse(line) {
            Some(m) => m,
            None => {
                return Err(
                    Error::InvalidMinMessage(
                        line.to_owned(),
                        "the line lacks id, topic or time".to_owned(),
                    ),
                );
            },
        };
        if min.time > self.config.since {
            self.config.since = min.time;
        }
        match ServerEvent::parse(line) {
            None => Err(
                Error::InvalidMessage(
                    line.to_owned(),
                    "the line is not a well-formed server event".to_owned(),
                ),
            ),
            Some(ServerEvent::Message(msg)) => Ok(Some(msg)),
            Some(other) => {
                proof {
                    if is_message_line(line@) {
                        assert(server_event_matches(line@, other));
                        reveal_strlit("open");
                        reveal_strlit("keepalive");
                        reveal_strlit("message");
                        assert("open"@.len() == 4 && "keepalive"@.len() == 9 && "message"@.len()
                            == 7);
                        assert(false);
                    }
                }
                Ok(None)
            },
        }
    }

    /// Answer a state query: the current connection state, as the
    /// `GetState` command reports it.
    pub fn request_state(&self) -> (r: ConnectionState)
        ensures
            r == self.state,
    {
        self.state.duplicate()
    }

    /// Note a successful connection.
    pub fn on_connected(&mut self) -> (ev: ListenerEvent)
        ensures
            final(self).config == old(self).config,
            final(self).retry == old(self).retry,
            final(self).state is Connected,
            ev matches ListenerEvent::ConnectionStateChanged(s) && s is Connected,
    {
        self.state = ConnectionState::Connected;
        ListenerEvent::ConnectionStateChanged(ConnectionState::Connected)
    }

    /// Supervise a stream failure: reset the backoff after a long enough
    /// uptime, sample the next delay, move to `Reconnecting`, and hand the
    /// delay to the caller to sleep. The sampled delay falls in the
    /// backoff window of the attempt index in force after the reset.
    pub fn on_stream_error(&mut self, uptime_secs: u64, error: String) -> (out: (
        u64,
        ListenerEvent,
    ))
        ensures
            final(self).config == old(self).config,
            ({
                let eff = (WaitExponentialRandom {
                    i: if uptime_secs > UPTIME_RESET_SECS {
                        0u64
                    } else {
                        old(self).retry.i
                    },
                    ..old(self).retry
                });
                &&& eff.spec_min() <= out.0 <= eff.window_upper()
                &&& final(self).retry.i == (if eff.i < u64::MAX {
                    eff.i + 1
                } else {
                    u64::MAX as int
                })
                &&& final(self).retry.min_secs == eff.min_secs
                &&& final(self).retry.max_secs == eff.max_secs
                &&& final(self).retry.multiplier == eff.multiplier
                &&& final(self).state matches ConnectionState::Reconnecting {
                    retry_count,
                    delay_secs,
                    error: err,
                } && retry_count == eff.i && delay_secs == out.0 && err == Some(error)
            }),
            out.1 matches ListenerEvent::ConnectionStateChanged(s) && s == final(self).state,
    {
        if uptime_secs > UPTIME_RESET_SECS {
            self.retry.reset();
        }
        let delay = self.retry.next_delay();
        let count = self.retry.count();
        self.retry.advance();
        self.state = ConnectionState::Reconnecting {
            retry_count: count,
            delay_secs: delay,
            error: Some(error),
        };
        let ev = ListenerEvent::ConnectionStateChanged(self.state.duplicate());
        (delay, ev)
    }

    /// Handle a restart command: reconnect immediately, with a fresh
    /// backoff policy, announcing the transition so consumers see it.
    pub fn on_restart(&mut self) -> (ev: ListenerEvent)
        ensures
            final(self).config == old(self).config,
            final(self).retry.i == 0,
            final(self).retry.min_secs == RETRY_MIN_SECS,
            final(self).retry.max_secs == RETRY_MAX_SECS,
            final(self).retry.multiplier == 1,
            final(self).state matches ConnectionState::Reconnecting {
                retry_count,
                delay_secs,
                error,
            } && retry_count == 0 && delay_secs == 0 && error is None,
            ev matches ListenerEvent::ConnectionStateChanged(s) && s == final(self).state,
    {
        self.retry = WaitExponentialRandom::builder().build();
        self.state = ConnectionState::Reconnecting { retry_count: 0, delay_secs: 0, error: None };
        ListenerEvent::ConnectionStateChanged(self.state.duplicate())
    }

    /// One connection attempt against the scripted client: build and
    /// record the request, serve it, and on a 2xx response process every
    /// line until the first rejected one. A rejected line ends the
    /// attempt with the matching error; the supervisor then reconnects.
    pub fn attempt(
        &mut self,
        client: &mut NullableClient,
        creds: &Credentials,
        tracker: &mut OutputTracker<RequestInfo>,
    ) -> (out: AttemptOutcome)
        ensures
            final(self).config.endpoint == old(self).config.endpoint,
            final(self).config.topic == old(self).config.topic,
            final(self).config.since >= old(self).config.since,
            final(self).retry == old(self).retry,
            !urls::server_base_ok(old(self).config.endpoint@) ==> (out.result matches Err(e)
                && e matches Error::InvalidServer(_)) && !out.connected && out.messages@.len() == 0
                && *final(self) == *old(self) && *final(client) == *old(client) && *final(tracker)
                == *old(tracker),
            urls::server_base_ok(old(self).config.endpoint@) ==> ({
                let cred = stored_cred(*creds, old(self).config.endpoint@);
                let url = urls::topic_url_of(
                    old(self).config.endpoint@,
                    old(self).config.topic@,
                    old(self).config.since,
                );
                let reqv = expected_request(
                    old(self).config.endpoint@,
                    old(self).config.topic@,
                    old(self).config.since,
                    cred,
                );
                &&& tracker_recorded(*old(tracker), *final(tracker), reqv)
                &&& (old(client).queue_of(url).len() == 0 && old(client).default_response is None
                    ==> (out.result matches Err(e) && (e matches Error::Http(st) && st == 0))
                    && !out.connected && out.messages@.len() == 0 && *final(client) == *old(client)
                    && final(self).state == old(self).state && final(self).config.since == old(
                    self,
                ).config.since)
                &&& ((old(client).queue_of(url).len() > 0 || old(
                    client,
                ).default_response is Some) ==> ({
                    let resp = if old(client).queue_of(url).len() > 0 {
                        old(client).queue_of(url)[0]
                    } else {
                        old(client).default_response.unwrap()
                    };
                    &&& client_served(*old(client), *final(client), url, resp)
                    &&& (!(200 <= resp.status < 300) ==> (out.result matches Err(e) && (
                    e matches Error::Http(st) && st == resp.status)) && !out.connected
                        && out.messages@.len() == 0 && final(self).state == old(self).state
                        && final(self).config.since == old(self).config.since)
                    &&& (200 <= resp.status < 300 ==> ({
                        let lines = split_lines_spec(resp.body@);
                        let b = first_bad(lines);
                        &&& out.connected
                        &&& final(self).state is Connected
                        &&& final(self).config.since == advance_since(
                            lines,
                            old(self).config.since,
                        )
                        &&& received_match(out.messages@, message_lines(lines.take(b)))
                        &&& (b == lines.len() ==> out.result is Ok)
                        &&& (b < lines.len() && min_message_parses(lines[b]) ==> (
                        out.result matches Err(e) && (e matches Error::InvalidMessage(raw, _)
                            && raw@ == lines[b])))
                        &&& (b < lines.len() && !min_message_parses(lines[b]) ==> (
                        out.result matches Err(e) && (e matches Error::InvalidMinMessage(raw, _)
                            && raw@ == lines[b])))
                    }))
                }))
            }),
    {
        let cred = creds.get(self.config.endpoint.as_str());
        let req = match self.topic_request(&cred) {
            Ok(r) => r,
            Err(e) => {
                return AttemptOutcome { connected: false, messages: Vec::new(), result: Err(e) };
            },
        };
        tracker.push(req.duplicate());
        let resp = match client.execute(&req) {
            Some(r) => r,
            None => {
                return AttemptOutcome {
                    connected: false,
                    messages: Vec::new(),
                    result: Err(Error::Http(0)),
                };
            },
        };
        if !resp.is_success() {
            return AttemptOutcome {
                connected: false,
                messages: Vec::new(),
                result: Err(Error::Http(resp.status)),
            };
        }
        self.state = ConnectionState::Connected;
        let ghost s0 = old(self).config.since;
        let ghost cred_v = stored_cred(*creds, old(self).config.endpoint@);
        let ghost urlv = urls::topic_url_of(
            old(self).config.endpoint@,
            old(self).config.topic@,
            s0,
        );
        let ghost respv = resp;
        let ghost lsp = split_lines_spec(resp.body@);
        let lines = split_lines(resp.body.as_str());
        let mut messages: Vec<ReceivedLine> = Vec::new();
        let mut k: usize = 0;
        proof {
            assert(lsp.skip(0) =~= lsp);
            assert(message_lines(lsp.take(0)) =~= Seq::<Seq<char>>::empty());
        }
        while k < lines.len()
            invariant
                k <= lines@.len(),
                lines.deep_view() == lsp,
                lines.deep_view().len() == lines@.len(),
                forall|j: int| 0 <= j < k ==> line_ok(#[trigger] lsp[j]),
                self.config.endpoint == old(self).config.endpoint,
                self.config.topic == old(self).config.topic,
                s0 == old(self).config.since,
                self.config.since >= s0,
                self.state is Connected,
                self.retry == old(self).retry,
                urls::server_base_ok(old(self).config.endpoint@),
                cred_v == stored_cred(*creds, old(self).config.endpoint@),
                urlv == urls::topic_url_of(
                    old(self).config.endpoint@,
                    old(self).config.topic@,
                    s0,
                ),
                tracker_recorded(
                    *old(tracker),
                    *tracker,
                    expected_request(
                        old(self).config.endpoint@,
                        old(self).config.topic@,
                        s0,
                        cred_v,
                    ),
                ),
                client_served(*old(client), *client, urlv, respv),
                old(client).queue_of(urlv).len() > 0 || old(client).default_response is Some,
                respv == (if old(client).queue_of(urlv).len() > 0 {
                    old(client).queue_of(urlv)[0]
                } else {
                    old(client).default_response.unwrap()
                }),
                200 <= respv.status < 300,
                lsp == split_lines_spec(respv.body@),
                advance_since(lsp, s0) == advance_since(lsp.skip(k as int), self.config.since),
                received_match(messages@, message_lines(lsp.take(k as int))),
            decreases lines@.len() - k,
        {
            proof {
                assert(lsp[k as int] == lines@[k as int]@);
                assert(lsp.skip(k as int)[0] == lsp[k as int]);
                assert(lsp.skip(k as int).skip(1) =~= lsp.skip(k + 1));
                assert(lsp.take(k + 1).drop_last() =~= lsp.take(k as int));
                assert(lsp.take(k + 1).last() == lsp[k as int]);
            }
            let line = &lines[k];
            let ghost since_before = self.config.since;
            match self.handle_line(line.as_str()) {
                Ok(Some(msg)) => {
                    let ghost prev = messages@;
                    messages.push(ReceivedLine { raw: line.clone(), message: msg });
                    proof {
                        assert(message_lines(lsp.take(k + 1)) =~= message_lines(
                            lsp.take(k as int),
                        ).push(lsp[k as int]));
                        assert forall|i: int|
                            0 <= i < messages@.len() implies (#[trigger] messages@[i]).raw@
                            == message_lines(lsp.take(k + 1))[i] && message_matches(
                            message_lines(lsp.take(k + 1))[i],
                            messages@[i].message,
                        ) by {
                            if i < prev.len() {
                                assert(messages@[i] == prev[i]);
                            }
                        }
                    }
                },
                Ok(None) => {
                    proof {
                        assert(message_lines(lsp.take(k + 1)) =~= message_lines(lsp.take(k as int)));
                    }
                },
                Err(e) => {
                    proof {
                        lemma_first_bad_at(lsp, k as int);
                        assert(advance_since(lsp.skip(k as int), since_before)
                            == self.config.since);
                    }
                    return AttemptOutcome { connected: true, messages, result: Err(e) };
                },
            }
            k = k + 1;
        }
        proof {
            assert(lsp.skip(lsp.len() as int).len() == 0);
            assert(lsp.take(lsp.len() as int) =~= lsp);
            lemma_first_bad_at(lsp, lsp.len() as int);
        }
        AttemptOutcome { connected: true, messages, result: Ok(()) }
    }
}

impl ListenerActor {
    /// One whole refresh, as a network-change or an explicit restart
    /// triggers it: the restart command, then the next attempt. The
    /// observable state passes through `Reconnecting` once, and — given a
    /// healthy server, one with a successful response ready — through
    /// `Connected` once; every message of the response is handed out with
    /// the outcome, so nothing buffered is lost.
    pub fn refresh_cycle(
        &mut self,
        client: &mut NullableClient,
        creds: &Credentials,
        tracker: &mut OutputTracker<RequestInfo>,
    ) -> (out: (ListenerEvent, AttemptOutcome))
        ensures
            out.0 matches ListenerEvent::ConnectionStateChanged(s) && (
            s matches ConnectionState::Reconnecting { .. }),
            urls::server_base_ok(old(self).config.endpoint@) ==> ({
                let url = urls::topic_url_of(
                    old(self).config.endpoint@,
                    old(self).config.topic@,
                    old(self).config.since,
                );
                let healthy = old(client).queue_of(url).len() > 0 || old(
                    client,
                ).default_response is Some;
                healthy ==> ({
                    let resp = if old(client).queue_of(url).len() > 0 {
                        old(client).queue_of(url)[0]
                    } else {
                        old(client).default_response.unwrap()
                    };
                    200 <= resp.status < 300 ==> {
                        &&& out.1.connected
                        &&& final(self).state is Connected
                        &&& received_match(
                            out.1.messages@,
                            message_lines(
                                split_lines_spec(resp.body@).take(
                                    first_bad(split_lines_spec(resp.body@)),
                                ),
                            ),
                        )
                    }
                })
            }),
    {
        let ev = self.on_restart();
        let outcome = self.attempt(client, creds, tracker);
        (ev, outcome)
    }
}

/// The credential view used in request contracts.
pub open spec fn cred_view(cred: Option<Credential>) -> Option<(Seq<char>, Seq<char>)> {
    match cred {
        Some(c) => Some((c.username@, c.password@)),
        None => None,
    }
}

} // verus!
