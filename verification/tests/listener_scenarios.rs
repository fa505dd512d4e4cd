//! Streaming scenarios: reconnection on errors and malformed lines,
//! de-duplication across reconnects, and the refresh cycle.
use ntfy_daemon::credentials::Credentials;
use ntfy_daemon::http_client::NullableClient;
use ntfy_daemon::listener::{
    split_lines, ConnectionState, ListenerActor, ListenerConfig, ListenerEvent,
};
use ntfy_daemon::message_repo::Db;
use ntfy_daemon::models::{EmojiMap, Subscription};
use ntfy_daemon::output_tracker::OutputTracker;
use ntfy_daemon::subscription::SubscriptionActor;
use ntfy_daemon::Error;

fn config(since: u64) -> ListenerConfig {
    ListenerConfig {
        endpoint: "http://localhost".to_string(),
        topic: "test".to_string(),
        since,
    }
}

const OPEN_LINE: &str = "{\"id\":\"SLiKI64DOt\",\"time\":1635528757,\"event\":\"open\",\"topic\":\"mytopic\"}";

#[test]
fn test_listener_reconnects_on_http_status_500() {
    let url = Subscription::build_url("http://localhost", "test", 0).unwrap();
    assert_eq!(url, "http://localhost/test/json?since=0");
    let mut client = NullableClient::builder()
        .text_response(url.clone(), 500, "failed".to_string())
        .json_response(url, 200, format!("{}\n", OPEN_LINE))
        .build();
    let creds = Credentials::new_nullable(vec![]).unwrap();
    let mut tracker = OutputTracker::new();

    let (mut listener, first_event) = ListenerActor::new(config(0));
    let mut events = vec![first_event];

    let outcome = listener.attempt(&mut client, &creds, &mut tracker);
    assert!(!outcome.connected);
    assert!(outcome.messages.is_empty());
    assert!(matches!(outcome.result, Err(Error::Http(500))));

    let (_delay, reconnecting) = listener.on_stream_error(0, "status 500".to_string());
    events.push(reconnecting);

    let outcome = listener.attempt(&mut client, &creds, &mut tracker);
    assert!(outcome.connected);
    assert!(outcome.messages.is_empty());
    assert!(outcome.result.is_ok());
    events.push(ListenerEvent::ConnectionStateChanged(listener.state.duplicate()));

    assert!(matches!(
        &events[..],
        &[
            ListenerEvent::ConnectionStateChanged(ConnectionState::Uninitialized),
            ListenerEvent::ConnectionStateChanged(ConnectionState::Reconnecting { .. }),
            ListenerEvent::ConnectionStateChanged(ConnectionState::Connected),
        ]
    ));
    // the open event advanced the cursor
    assert_eq!(listener.config.since, 1635528757);
}

#[test]
fn test_listener_reconnects_on_invalid_message() {
    let url = Subscription::build_url("http://localhost", "test", 0).unwrap();
    let mut client = NullableClient::builder()
        .text_response(url.clone(), 200, "invalid message".to_string())
        .json_response(url, 200, format!("{}\n", OPEN_LINE))
        .build();
    let creds = Credentials::new_nullable(vec![]).unwrap();
    let mut tracker = OutputTracker::new();

    let (mut listener, first_event) = ListenerActor::new(config(0));
    assert!(matches!(
        first_event,
        ListenerEvent::ConnectionStateChanged(ConnectionState::Uninitialized)
    ));

    let outcome = listener.attempt(&mut client, &creds, &mut tracker);
    assert!(matches!(outcome.result, Err(Error::InvalidMinMessage(raw, _)) if raw == "invalid message"));
    // the minimal fields did not parse, so the cursor did not move
    assert_eq!(listener.config.since, 0);

    let (_delay, reconnecting) = listener.on_stream_error(0, "invalid line".to_string());
    assert!(matches!(
        reconnecting,
        ListenerEvent::ConnectionStateChanged(ConnectionState::Reconnecting { .. })
    ));

    let outcome = listener.attempt(&mut client, &creds, &mut tracker);
    assert!(outcome.connected);
    assert!(outcome.result.is_ok());
    assert!(matches!(listener.state, ConnectionState::Connected));
}

#[test]
fn dedup_across_reconnects_keeps_one_row() {
    let line = "{\"id\":\"A\",\"time\":10,\"event\":\"message\",\"topic\":\"t\",\"message\":\"hi\"}";
    let url0 = Subscription::build_url("http://localhost", "t", 0).unwrap();
    let url10 = Subscription::build_url("http://localhost", "t", 10).unwrap();
    let mut client = NullableClient::builder()
        .text_response(url0, 200, format!("{}\n", line))
        .text_response(url10, 200, format!("{}\n", line))
        .build();
    let creds = Credentials::new_nullable(vec![]).unwrap();
    let mut tracker = OutputTracker::new();

    let mut listener = ListenerActor::new(ListenerConfig {
        endpoint: "http://localhost".to_string(),
        topic: "t".to_string(),
        since: 0,
    })
    .0;

    let model = Subscription {
        server: "http://localhost".to_string(),
        topic: "t".to_string(),
        display_name: String::new(),
        muted: false,
        archived: false,
        reserved: false,
        symbolic_icon: None,
        read_until: 0,
    };
    let actor = SubscriptionActor::new(model);
    let mut db = Db::new();
    let emojis = EmojiMap::new(vec![]);

    let mut fanned_out = 0;
    for _ in 0..2 {
        let outcome = listener.attempt(&mut client, &creds, &mut tracker);
        assert!(outcome.connected);
        for received in outcome.messages {
            let handled = actor.handle_message(&mut db, &emojis, received);
            if handled.fanout.is_some() {
                fanned_out += 1;
            }
        }
    }
    // the same (server, id) arrived twice: one row, one fan-out
    assert_eq!(db.messages.len(), 1);
    assert_eq!(fanned_out, 1);
    assert_eq!(listener.config.since, 10);
}

#[test]
fn refresh_passes_through_reconnecting_then_connected() {
    let url = Subscription::build_url("http://localhost", "test", 0).unwrap();
    let mut client = NullableClient::builder()
        .json_response(url, 200, format!("{}\n", OPEN_LINE))
        .build();
    let creds = Credentials::new_nullable(vec![]).unwrap();
    let mut tracker = OutputTracker::new();
    let (mut listener, _) = ListenerActor::new(config(0));

    let (reconnecting, outcome) = listener.refresh_cycle(&mut client, &creds, &mut tracker);
    assert!(matches!(
        reconnecting,
        ListenerEvent::ConnectionStateChanged(ConnectionState::Reconnecting {
            retry_count: 0,
            delay_secs: 0,
            error: None,
        })
    ));
    assert!(outcome.connected);
    assert!(outcome.messages.is_empty());
    assert!(matches!(listener.state, ConnectionState::Connected));
}

#[test]
fn split_lines_frames_ndjson() {
    let lines = split_lines("a\nb\r\nc");
    assert_eq!(lines, vec!["a".to_string(), "b".to_string(), "c".to_string()]);
    let lines = split_lines("one\n");
    assert_eq!(lines, vec!["one".to_string()]);
    let lines = split_lines("");
    assert!(lines.is_empty());
}

#[test]
fn malformed_event_with_minimal_fields_still_advances_since() {
    let url = Subscription::build_url("http://localhost", "test", 0).unwrap();
    // the minimal fields parse, but the event tag is unknown
    let line = "{\"id\":\"A\",\"time\":50,\"event\":\"mystery\",\"topic\":\"t\"}";
    let mut client = NullableClient::builder()
        .text_response(url, 200, format!("{}\n", line))
        .build();
    let creds = Credentials::new_nullable(vec![]).unwrap();
    let mut tracker = OutputTracker::new();
    let (mut listener, _) = ListenerActor::new(config(0));

    let outcome = listener.attempt(&mut client, &creds, &mut tracker);
    assert!(matches!(outcome.result, Err(Error::InvalidMessage(raw, _)) if raw == line));
    // the cursor advanced before the full parse failed
    assert_eq!(listener.config.since, 50);
}
