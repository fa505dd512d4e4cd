//! Subscription actor scenarios: publish recording, mute semantics,
//! attach replay, and the read watermark.
use ntfy_daemon::credentials::{Credential, Credentials};
use ntfy_daemon::http_client::{HttpResponse, NullableClient};
use ntfy_daemon::listener::{ConnectionState, ListenerEvent, ReceivedLine};
use ntfy_daemon::message_repo::Db;
use ntfy_daemon::models::{EmojiMap, Message, Subscription};
use ntfy_daemon::output_tracker::OutputTracker;
use ntfy_daemon::subscription::{flag_all_as_read, unread_count, SubscriptionActor};

fn model(muted: bool) -> Subscription {
    Subscription {
        server: "http://localhost:8000".to_string(),
        topic: "test_topic".to_string(),
        display_name: String::new(),
        muted,
        archived: false,
        reserved: false,
        symbolic_icon: None,
        read_until: 0,
    }
}

fn received(raw: &str) -> ReceivedLine {
    ReceivedLine {
        raw: raw.to_string(),
        message: Message::parse(raw).unwrap(),
    }
}

#[test]
fn publish_records_post_with_body_and_auth() {
    let actor = SubscriptionActor::new(model(false));
    let mut client = NullableClient::builder()
        .default_response(HttpResponse::new(200, String::new()))
        .build();
    let mut creds = Credentials::new();
    creds.insert("http://localhost:8000", "user", "pass").unwrap();
    let mut tracker = OutputTracker::new();
    tracker.enable();

    let body = "{\"topic\":\"test_topic\",\"message\":\"hello\"}".to_string();
    let result = actor.publish(&mut client, &creds, &mut tracker, body);
    assert!(result.is_ok());

    let items = tracker.items();
    assert_eq!(items.len(), 1);
    assert_eq!(items[0].method, "POST");
    assert_eq!(items[0].url, "http://localhost:8000");
    assert!(items[0].body.as_ref().unwrap().contains("\"message\":\"hello\""));
    assert_eq!(
        items[0].headers[0],
        (
            "Authorization".to_string(),
            "Basic dXNlcjpwYXNz".to_string()
        )
    );
}

#[test]
fn publish_fails_on_non_success_status() {
    let actor = SubscriptionActor::new(model(false));
    let mut client = NullableClient::builder()
        .default_response(HttpResponse::new(403, String::new()))
        .build();
    let creds = Credentials::new();
    let mut tracker = OutputTracker::new();
    let result = actor.publish(&mut client, &creds, &mut tracker, "{}".to_string());
    assert!(matches!(result, Err(ntfy_daemon::Error::Http(403))));
}

#[test]
fn mute_suppresses_notification_but_not_storage() {
    let actor = SubscriptionActor::new(model(true));
    let mut db = Db::new();
    let emojis = EmojiMap::new(vec![]);
    let line = "{\"id\":\"m1\",\"time\":5,\"event\":\"message\",\"topic\":\"test_topic\",\"message\":\"psst\"}";

    let outcome = actor.handle_message(&mut db, &emojis, received(line));
    assert_eq!(db.messages.len(), 1);
    assert!(outcome.notification.is_none());
    assert!(matches!(outcome.fanout, Some(ListenerEvent::Message(_))));
}

#[test]
fn unmuted_message_notifies_with_decorated_title() {
    let actor = SubscriptionActor::new(model(false));
    let mut db = Db::new();
    let emojis = EmojiMap::new(vec![("tada".to_string(), "\u{1F389}".to_string())]);
    let line = "{\"id\":\"m2\",\"time\":6,\"event\":\"message\",\"topic\":\"test_topic\",\"title\":\"Done\",\"message\":\"ok\",\"tags\":[\"tada\"]}";

    let outcome = actor.handle_message(&mut db, &emojis, received(line));
    let n = outcome.notification.unwrap();
    assert_eq!(n.title, "\u{1F389} Done");
    assert_eq!(n.body, "ok");
}

#[test]
fn notification_title_falls_back_to_display_name_then_topic() {
    let emojis = EmojiMap::new(vec![]);
    let line = "{\"id\":\"m3\",\"time\":7,\"event\":\"message\",\"topic\":\"kitchen\",\"message\":\"beep\"}";
    let msg = Message::parse(line).unwrap();

    let mut named = model(false);
    named.display_name = "Kitchen alerts".to_string();
    assert_eq!(msg.notification_title(&named, &emojis), "Kitchen alerts");

    let unnamed = model(false);
    assert_eq!(msg.notification_title(&unnamed, &emojis), "kitchen");
}

#[test]
fn attach_replays_history_in_time_order_then_state() {
    let mut db = Db::new();
    let sub = model(false);
    db.insert_subscription(sub.duplicate()).unwrap();
    // inserted out of order: replay must come back sorted by time
    for (id, t) in [("b", 2u64), ("a", 1u64), ("c", 3u64)] {
        let line = format!(
            "{{\"id\":\"{}\",\"time\":{},\"event\":\"message\",\"topic\":\"test_topic\",\"message\":\"x\"}}",
            id, t
        );
        db.insert_message("http://localhost:8000", &line).unwrap();
    }
    let actor = SubscriptionActor::new(sub);
    let replay = actor.attach(&db, ConnectionState::Connected);
    assert_eq!(replay.len(), 4);
    let times: Vec<u64> = replay[..3]
        .iter()
        .map(|ev| match ev {
            ListenerEvent::Message(m) => m.time,
            _ => panic!("expected a message event"),
        })
        .collect();
    assert_eq!(times, vec![1, 2, 3]);
    assert!(matches!(
        replay[3],
        ListenerEvent::ConnectionStateChanged(ConnectionState::Connected)
    ));
}

#[test]
fn update_info_keeps_the_key_immutable() {
    let mut db = Db::new();
    db.insert_subscription(model(false)).unwrap();
    let mut actor = SubscriptionActor::new(model(false));

    let mut new_model = model(false);
    new_model.server = "http://elsewhere".to_string();
    new_model.topic = "other".to_string();
    new_model.display_name = "renamed".to_string();
    new_model.muted = true;
    new_model.symbolic_icon = Some("bell-symbolic".to_string());

    actor.update_info(&mut db, new_model).unwrap();
    let m = actor.model();
    assert_eq!(m.server, "http://localhost:8000");
    assert_eq!(m.topic, "test_topic");
    assert_eq!(m.display_name, "renamed");
    assert!(m.muted);
    // the persisted row took the new values too, the symbolic icon included
    assert_eq!(db.subscriptions[0].display_name, "renamed");
    assert_eq!(
        db.subscriptions[0].symbolic_icon,
        Some("bell-symbolic".to_string())
    );
    assert_eq!(db.subscriptions[0].server, "http://localhost:8000");
}

#[test]
fn flag_all_as_read_clears_unread_until_newer_message() {
    // no messages yet: nothing to flag, nothing unread
    assert_eq!(flag_all_as_read(None, 0), None);
    assert_eq!(unread_count(None, 0), 0);

    // a message at time 42 is unread until flagged
    assert_eq!(unread_count(Some(42), 0), 1);
    let new_watermark = flag_all_as_read(Some(42), 0).unwrap();
    assert_eq!(new_watermark, 42);
    assert_eq!(unread_count(Some(42), new_watermark), 0);

    // an older or equal message stays read; a newer one turns unread again
    assert_eq!(unread_count(Some(41), new_watermark), 0);
    assert_eq!(unread_count(Some(43), new_watermark), 1);

    // flagging again with no newer message changes nothing
    assert_eq!(flag_all_as_read(Some(42), new_watermark), None);
}

#[test]
fn clear_notifications_deletes_rows_and_errors_when_empty() {
    let mut db = Db::new();
    let sub = model(false);
    db.insert_subscription(sub.duplicate()).unwrap();
    let line = "{\"id\":\"z\",\"time\":1,\"event\":\"message\",\"topic\":\"test_topic\"}";
    db.insert_message("http://localhost:8000", line).unwrap();

    let actor = SubscriptionActor::new(sub);
    assert!(actor.clear_notifications(&mut db).is_ok());
    assert!(db.messages.is_empty());
    // nothing left to delete: the repository reports the miss
    assert!(matches!(
        actor.clear_notifications(&mut db),
        Err(ntfy_daemon::Error::SubscriptionNotFound(_))
    ));
}

#[test]
fn deliver_line_hands_back_what_cannot_be_handled() {
    let actor = SubscriptionActor::new(model(false));
    let mut db = Db::new();
    let emojis = EmojiMap::new(vec![]);

    let good = "{\"id\":\"d1\",\"time\":3,\"event\":\"message\",\"topic\":\"test_topic\"}";
    let outcome = actor
        .deliver_line(&mut db, &emojis, good.to_string())
        .unwrap();
    assert!(outcome.fanout.is_some());
    assert_eq!(db.messages.len(), 1);

    // a line without the minimal fields comes back unchanged
    let bad = "{\"id\":\"d2\"}".to_string();
    let returned = actor.deliver_line(&mut db, &emojis, bad.clone()).unwrap_err();
    assert_eq!(returned, bad);
    assert_eq!(db.messages.len(), 1);
}
