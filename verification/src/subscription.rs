//! The subscription actor's logic for one `(server, topic)` pair: persist
//! each incoming message with de-duplication, notify the host unless
//! muted, fan the event out, replay history on attach, publish, and keep
//! the read watermark. The mailbox and task around this logic live in the
//! surrounding application.
use vstd::prelude::*;

verus! {

use crate::credentials::Credentials;
use crate::http_client::{NullableClient, RequestInfo, RequestInfoV};
use crate::json::{json_str_field, json_u64_field};
use crate::listener::{
    client_served, stored_cred, tracker_recorded, ConnectionState, ListenerEvent, ReceivedLine,
};
use crate::message_repo::{find_sub, has_msg, kept, listed, msg_inserted, Db};
use crate::models::{
    message_matches, message_parses, min_message_parses, Action, EmojiMap, Message, MinMessage,
    Notification, Subscription,
};
use crate::output_tracker::OutputTracker;
use crate::Error;

/// A field-for-field copy of an action list; equal in its deep view.
pub fn clone_actions(v: &Vec<Action>) -> (r: Vec<Action>)
    ensures
        r.deep_view() == v.deep_view(),
{
    let mut out: Vec<Action> = Vec::new();
    let mut i: usize = 0;
    while i < v.len()
        invariant
            i <= v@.len(),
            out@.len() == i,
            forall|j: int| 0 <= j < i ==> (#[trigger] out@[j])@ == v@[j]@,
        decreases v@.len() - i,
    {
        out.push(v[i].duplicate());
        i = i + 1;
    }
    proof {
        assert(out.deep_view() =~= v.deep_view());
    }
    out
}

/// What handling one message produced: a host notification unless muted
/// or duplicated, and the event to fan out to observers.
#[derive(Debug)]
pub struct MessageOutcome {
    pub notification: Option<Notification>,
    pub fanout: Option<ListenerEvent>,
}

/// What the notification for a message must say: the decorated title, the
/// decorated body or nothing, and the message's actions.
pub open spec fn notification_matches(
    n: Notification,
    msg: Message,
    model: Subscription,
    entries: Seq<(String, String)>,
) -> bool {
    &&& n.title@ == msg.spec_notification_title(model, entries)
    &&& n.body@ == (match msg.spec_display_message(entries) {
        Some(b) => b,
        None => Seq::<char>::empty(),
    })
    &&& n.actions.deep_view() == msg.actions.deep_view()
}

/// The actor's state: the subscription it owns.
#[derive(Debug)]
pub struct SubscriptionActor {
    pub model: Subscription,
}

impl SubscriptionActor {
    pub fn new(model: Subscription) -> (r: SubscriptionActor)
        ensures
            r.model == model,
    {
        SubscriptionActor { model }
    }

    /// A copy of the owned subscription.
    pub fn model(&self) -> (r: Subscription)
        ensures
            r == self.model,
    {
        self.model.duplicate()
    }

    /// Handle one incoming message: store the raw line; a duplicate
    /// `(server, id)` suppresses everything; otherwise notify the host
    /// (unless the subscription is muted) and fan the message out.
    pub fn handle_message(
        &self,
        db: &mut Db,
        emojis: &EmojiMap,
        received: ReceivedLine,
    ) -> (out: MessageOutcome)
        requires
            old(db).wf(),
            old(db).servers@.len() < 0x7fff_ffff_ffff_ffff,
            min_message_parses(received.raw@),
        ensures
            final(db).wf(),
            final(db).subscriptions == old(db).subscriptions,
            Db::servers_interned(old(db).servers@, final(db).servers@, self.model.server@),
            ({
                let id = json_str_field(received.raw@, "id"@).unwrap();
                &&& (has_msg(old(db).messages@, self.model.server@, id) ==> out.notification
                    is None && out.fanout is None && final(db).messages == old(db).messages)
                &&& (!has_msg(old(db).messages@, self.model.server@, id) ==> {
                    &&& msg_inserted(
                        old(db).messages@,
                        final(db).messages@,
                        self.model.server@,
                        received.raw@,
                    )
                    &&& (self.model.muted ==> out.notification is None)
                    &&& (!self.model.muted ==> (out.notification matches Some(n)
                        && notification_matches(n, received.message, self.model, emojis.entries@)))
                    &&& out.fanout matches Some(ev) && (ev matches ListenerEvent::Message(m) && m
                        == received.message)
                })
            }),
    {
        let ReceivedLine { raw, message } = received;
        match db.insert_message(self.model.server.as_str(), raw.as_str()) {
            Err(e) => {
                if matches!(e, Error::DuplicateMessage) {
                    return MessageOutcome { notification: None, fanout: None };
                }
            },
            Ok(()) => {},
        }
        let notification = if !self.model.muted {
            let title = message.notification_title(&self.model, emojis);
            let body = match message.display_message(emojis) {
                Some(b) => b,
                None => String::new(),
            };
            let actions = clone_actions(&message.actions);
            Some(Notification { title, body, actions })
        } else {
            None
        };
        MessageOutcome { notification, fanout: Some(ListenerEvent::Message(message)) }
    }

    /// Feed one raw line as it came off a stream: when it carries the
    /// minimal fields and parses as a message it is handled, otherwise it
    /// is handed back unchanged. This is the whole-line entry; callers
    /// that already hold a parsed message use `handle_message`.
    pub fn deliver_line(&self, db: &mut Db, emojis: &EmojiMap, line: String) -> (r: Result<
        MessageOutcome,
        String,
    >)
        requires
            old(db).wf(),
            old(db).servers@.len() < 0x7fff_ffff_ffff_ffff,
        ensures
            final(db).wf(),
            final(db).subscriptions == old(db).subscriptions,
            !(min_message_parses(line@) && message_parses(line@)) ==> (r matches Err(l) && l@
                == line@) && *final(db) == *old(db),
            min_message_parses(line@) && message_parses(line@) ==> Db::servers_interned(
                old(db).servers@,
                final(db).servers@,
                self.model.server@,
            ),
            min_message_parses(line@) && message_parses(line@) ==> (r matches Ok(out) && ({
                let id = json_str_field(line@, "id"@).unwrap();
                &&& (has_msg(old(db).messages@, self.model.server@, id) ==> out.notification
                    is None && out.fanout is None && final(db).messages == old(db).messages)
                &&& (!has_msg(old(db).messages@, self.model.server@, id) ==> {
                    &&& msg_inserted(
                        old(db).messages@,
                        final(db).messages@,
                        self.model.server@,
                        line@,
                    )
                    &&& (self.model.muted ==> out.notification is None)
                    &&& (out.fanout matches Some(ev) && (ev matches ListenerEvent::Message(m)
                        && message_matches(line@, m)))
                })
            })),
    {
        if MinMessage::parse(line.as_str()).is_none() {
            return Err(line);
        }
        match Message::parse(line.as_str()) {
            None => Err(line),
            Some(message) => Ok(
                self.handle_message(db, emojis, ReceivedLine { raw: line, message }),
            ),
        }
    }

    /// Merge updated subscription fields: the key is immutable; the display
    /// name, flags, symbolic icon and read watermark take the new values.
    /// Persist the merge, and keep the merged model only when the row was
    /// updated.
    pub fn update_info(&mut self, db: &mut Db, new_model: Subscription) -> (r: Result<(), Error>)
        requires
            old(db).wf(),
            old(db).servers@.len() < 0x7fff_ffff_ffff_ffff,
        ensures
            final(db).wf(),
            final(db).messages == old(db).messages,
            final(self).model.server == old(self).model.server,
            final(self).model.topic == old(self).model.topic,
            ({
                let merged = (Subscription {
                    server: old(self).model.server,
                    topic: old(self).model.topic,
                    ..new_model
                });
                let i = find_sub(
                    old(db).subscriptions@,
                    old(self).model.server@,
                    old(self).model.topic@,
                );
                &&& (i == -1 ==> (r matches Err(e) && e matches Error::SubscriptionNotFound(_))
                    && final(db).subscriptions == old(db).subscriptions && final(self).model == old(self).model)
                &&& (i >= 0 ==> r is Ok && final(self).model == merged && final(db).subscriptions@
                    == old(db).subscriptions@.update(
                    i,
                    (Subscription {
                        display_name: merged.display_name,
                        reserved: merged.reserved,
                        muted: merged.muted,
                        archived: merged.archived,
                        symbolic_icon: merged.symbolic_icon,
                        read_until: merged.read_until,
                        ..old(db).subscriptions@[i]
                    }),
                ))
            }),
    {
        let merged = Subscription {
            server: self.model.server.clone(),
            topic: self.model.topic.clone(),
            display_name: new_model.display_name,
            muted: new_model.muted,
            archived: new_model.archived,
            reserved: new_model.reserved,
            symbolic_icon: new_model.symbolic_icon,
            read_until: new_model.read_until,
        };
        match db.update_subscription(merged.duplicate()) {
            Ok(()) => {
                self.model = merged;
                Ok(())
            },
            Err(e) => Err(e),
        }
    }

    /// The publish request: `POST {server}` with the message body, HTTP
    /// Basic authorization attached when a credential is stored.
    pub fn publish_request(&self, creds: &Credentials, body: String) -> (r: RequestInfo)
        ensures
            r@ == (RequestInfoV {
                method: "POST"@,
                url: self.model.server@,
                headers: publish_headers(stored_cred(*creds, self.model.server@)),
                body: Some(body@),
            }),
    {
        let mut headers: Vec<(String, String)> = Vec::new();
        match creds.get(self.model.server.as_str()) {
            Some(c) => {
                headers.push(
                    (
                        String::from_str("Authorization"),
                        crate::http_client::basic_auth_value(
                            c.username.as_str(),
                            c.password.as_str(),
                        ),
                    ),
                );
            },
            None => {},
        }
        let req = RequestInfo {
            method: String::from_str("POST"),
            url: self.model.server.clone(),
            headers,
            body: Some(body),
        };
        proof {
            assert(req@.headers =~= publish_headers(stored_cred(*creds, self.model.server@)));
        }
        req
    }

    /// Publish a message body to the server through the scripted client:
    /// record the request, send it, and fail on anything but a 2xx.
    pub fn publish(
        &self,
        client: &mut NullableClient,
        creds: &Credentials,
        tracker: &mut OutputTracker<RequestInfo>,
        msg: String,
    ) -> (r: Result<(), Error>)
        ensures
            ({
                let url = self.model.server@;
                let reqv = (RequestInfoV {
                    method: "POST"@,
                    url,
                    headers: publish_headers(stored_cred(*creds, url)),
                    body: Some(msg@),
                });
                &&& tracker_recorded(*old(tracker), *final(tracker), reqv)
                &&& (old(client).queue_of(url).len() == 0 && old(client).default_response is None
                    ==> (r matches Err(e) && (e matches Error::Http(st) && st == 0)) && *final(client) == *old(client))
                &&& ((old(client).queue_of(url).len() > 0 || old(client).default_response is Some) ==> ({
                    let resp = if old(client).queue_of(url).len() > 0 {
                        old(client).queue_of(url)[0]
                    } else {
                        old(client).default_response.unwrap()
                    };
                    &&& client_served(*old(client), *final(client), url, resp)
                    &&& (200 <= resp.status < 300 ==> r is Ok)
                    &&& (!(200 <= resp.status < 300) ==> (r matches Err(e) && (
                    e matches Error::Http(st) && st == resp.status)))
                }))
            }),
    {
        let req = self.publish_request(creds, msg);
        tracker.push(req.duplicate());
        let resp = match client.execute(&req) {
            Some(r) => r,
            None => {
                return Err(Error::Http(0));
            },
        };
        if resp.is_success() {
            Ok(())
        } else {
            Err(Error::Http(resp.status))
        }
    }

    /// The replay an attaching observer receives: every stored message of
    /// the topic (oldest first, unreadable rows skipped), then the current
    /// connection state.
    pub fn attach(&self, db: &Db, state: ConnectionState) -> (replay: Vec<ListenerEvent>)
        ensures
            ({
                let raws = if find_sub(db.subscriptions@, self.model.server@, self.model.topic@)
                    >= 0 {
                    listed(db.messages@, self.model.server@, self.model.topic@, 0)
                } else {
                    Seq::<Seq<char>>::empty()
                };
                let good = parsed_lines(raws);
                &&& replay@.len() == good.len() + 1
                &&& (forall|i: int|
                    0 <= i < good.len() ==> ((#[trigger] replay@[i])
                        matches ListenerEvent::Message(m) && message_matches(good[i], m)))
                &&& replay@.last() matches ListenerEvent::ConnectionStateChanged(s) && s == state
            }),
    {
        let mut replay: Vec<ListenerEvent> = Vec::new();
        let rows = match db.list_messages(self.model.server.as_str(), self.model.topic.as_str(), 0)
        {
            Ok(rows) => rows,
            Err(_) => Vec::new(),
        };
        let ghost raws = rows.deep_view();
        let mut i: usize = 0;
        proof {
            assert(parsed_lines(raws.take(0)) =~= Seq::<Seq<char>>::empty());
        }
        while i < rows.len()
            invariant
                i <= rows@.len(),
                rows.deep_view() == raws,
                raws.len() == rows@.len(),
                replay@.len() == parsed_lines(raws.take(i as int)).len(),
                forall|j: int|
                    0 <= j < replay@.len() ==> ((#[trigger] replay@[j])
                        matches ListenerEvent::Message(m) && message_matches(
                        parsed_lines(raws.take(i as int))[j],
                        m,
                    )),
            decreases rows@.len() - i,
        {
            proof {
                assert(raws[i as int] == rows@[i as int]@);
                assert(raws.take(i + 1).drop_last() =~= raws.take(i as int));
                assert(raws.take(i + 1).last() == raws[i as int]);
            }
            match Message::parse(rows[i].as_str()) {
                Some(m) => {
                    replay.push(ListenerEvent::Message(m));
                },
                None => {},
            }
            proof {
                assert(forall|j: int|
                    0 <= j < parsed_lines(raws.take(i as int)).len() ==> parsed_lines(
                        raws.take(i + 1),
                    )[j] == parsed_lines(raws.take(i as int))[j]);
            }
            i = i + 1;
        }
        proof {
            assert(raws.take(raws.len() as int) =~= raws);
        }
        replay.push(ListenerEvent::ConnectionStateChanged(state));
        replay
    }

    /// Drop every stored message of the topic.
    pub fn clear_notifications(&self, db: &mut Db) -> (r: Result<(), Error>)
        requires
            old(db).wf(),
            old(db).servers@.len() < 0x7fff_ffff_ffff_ffff,
        ensures
            final(db).wf(),
            final(db).subscriptions == old(db).subscriptions,
            final(db).messages@ == kept(old(db).messages@, self.model.server@, self.model.topic@),
            r is Ok <==> kept(old(db).messages@, self.model.server@, self.model.topic@).len()
                != old(db).messages@.len(),
    {
        db.delete_messages(self.model.server.as_str(), self.model.topic.as_str())
    }

    /// Persist a new read watermark.
    pub fn update_read_until(&self, db: &mut Db, timestamp: u64) -> (r: Result<(), Error>)
        requires
            old(db).wf(),
            old(db).servers@.len() < 0x7fff_ffff_ffff_ffff,
        ensures
            final(db).wf(),
            final(db).messages == old(db).messages,
            ({
                let i = find_sub(old(db).subscriptions@, self.model.server@, self.model.topic@);
                &&& (i == -1 ==> (r matches Err(e) && e matches Error::SubscriptionNotFound(_))
                    && final(db).subscriptions == old(db).subscriptions)
                &&& (i >= 0 ==> r is Ok && final(db).subscriptions@ == old(db).subscriptions@.update(
                    i,
                    (Subscription { read_until: timestamp, ..old(db).subscriptions@[i] }),
                ))
            }),
    {
        db.update_read_until(self.model.server.as_str(), self.model.topic.as_str(), timestamp)
    }
}

/// The headers of a publish request: only the authorization, when a
/// credential is stored.
pub open spec fn publish_headers(cred: Option<(Seq<char>, Seq<char>)>) -> Seq<
    (Seq<char>, Seq<char>),
> {
    match cred {
        None => Seq::<(Seq<char>, Seq<char>)>::empty(),
        Some(c) => seq![
            ("Authorization"@, crate::http_client::basic_auth_of(c.0, c.1)),
        ],
    }
}

/// The lines that parse as full messages, in order; the replay skips the
/// rest.
pub open spec fn parsed_lines(raws: Seq<Seq<char>>) -> Seq<Seq<char>>
    decreases raws.len(),
{
    if raws.len() == 0 {
        Seq::<Seq<char>>::empty()
    } else {
        let rest = parsed_lines(raws.drop_last());
        if message_parses(raws.last()) {
            rest.push(raws.last())
        } else {
            rest
        }
    }
}

// ---------------------------------------------------------------------------
// The read watermark
// ---------------------------------------------------------------------------

/// The unread indicator: one when the newest stored message is past the
/// watermark, zero otherwise. It is a single bit, not a count.
pub open spec fn unread_spec(last_message_time: Option<u64>, read_until: u64) -> u32 {
    match last_message_time {
        Some(t) => if t > read_until {
            1u32
        } else {
            0u32
        },
        None => 0u32,
    }
}

/// Compute the unread indicator.
pub fn unread_count(last_message_time: Option<u64>, read_until: u64) -> (c: u32)
    ensures
        c == unread_spec(last_message_time, read_until),
{
    match last_message_time {
        Some(t) => {
            if t > read_until {
                1
            } else {
                0
            }
        },
        None => 0,
    }
}

/// The watermark after flagging everything read: the newest message time
/// when it advances the watermark, else the watermark as it was.
pub open spec fn flagged_watermark(last_message_time: Option<u64>, read_until: u64) -> u64 {
    match last_message_time {
        Some(t) => if t > read_until {
            t
        } else {
            read_until
        },
        None => read_until,
    }
}

/// The new watermark to persist when flagging everything read, when it
/// advances; nothing needs persisting otherwise.
pub fn flag_all_as_read(last_message_time: Option<u64>, read_until: u64) -> (r: Option<u64>)
    ensures
        r matches Some(v) ==> v == flagged_watermark(last_message_time, read_until) && v
            > read_until,
        r is None <==> flagged_watermark(last_message_time, read_until) == read_until,
{
    match last_message_time {
        Some(t) => {
            if t > read_until {
                Some(t)
            } else {
                None
            }
        },
        None => None,
    }
}

/// After flagging everything read, the unread indicator is zero, and it
/// stays zero until a message with a time past the new watermark is
/// observed — then, and only then, it turns one.
pub proof fn lemma_flag_clears_unread(last_message_time: Option<u64>, read_until: u64)
    ensures
        unread_spec(last_message_time, flagged_watermark(last_message_time, read_until)) == 0,
        forall|t: u64|
            t <= flagged_watermark(last_message_time, read_until) ==> unread_spec(
                Some(t),
                flagged_watermark(last_message_time, read_until),
            ) == 0,
        forall|t: u64|
            t > flagged_watermark(last_message_time, read_until) ==> unread_spec(
                Some(t),
                flagged_watermark(last_message_time, read_until),
            ) == 1,
{
}

/// For every unique `(server, id)`, at most one notification and one
/// fan-out: once a line's row is stored, any further line carrying the
/// same id meets the duplicate condition under which `handle_message`
/// yields neither a notification nor a fan-out event.
pub proof fn lemma_duplicate_id_is_suppressed(
    pre: Seq<crate::message_repo::StoredMessage>,
    post: Seq<crate::message_repo::StoredMessage>,
    server: Seq<char>,
    raw_first: Seq<char>,
    raw_second: Seq<char>,
)
    requires
        min_message_parses(raw_first),
        min_message_parses(raw_second),
        json_str_field(raw_first, "id"@) == json_str_field(raw_second, "id"@),
        msg_inserted(pre, post, server, raw_first),
    ensures
        has_msg(post, server, json_str_field(raw_second, "id"@).unwrap()),
{
    let k = crate::message_repo::insert_pos(pre, json_u64_field(raw_first, "time"@).unwrap());
    crate::message_repo::lemma_insert_pos_range(pre, json_u64_field(raw_first, "time"@).unwrap());
    assert(0 <= k < post.len());
    assert(post[k].server@ == server && post[k].id@ == json_str_field(
        raw_second,
        "id"@,
    ).unwrap());
}

} // verus!
