//! The coordinator: subscribe, unsubscribe, accounts, refresh targets and
//! restoring watched topics.
use ntfy_daemon::credentials::Credentials;
use ntfy_daemon::http_client::{HttpResponse, NullableClient};
use ntfy_daemon::listener::{ConnectionState, ListenerActor, ListenerConfig, ListenerEvent};
use ntfy_daemon::message_repo::Db;
use ntfy_daemon::models::{EmojiMap, Subscription};
use ntfy_daemon::ntfy::NtfyActor;
use ntfy_daemon::output_tracker::OutputTracker;
use ntfy_daemon::subscription::SubscriptionActor;
use ntfy_daemon::Error;

fn actor() -> NtfyActor {
    NtfyActor::new(Db::new(), Credentials::new())
}

#[test]
fn subscribe_validates_persists_and_watches_once() {
    let mut ntfy = actor();
    let sub = ntfy.handle_subscribe("http://localhost:8000", "test_topic").unwrap();
    assert_eq!(sub.server, "http://localhost:8000");
    assert_eq!(sub.topic, "test_topic");
    assert_eq!(ntfy.watching.len(), 1);
    assert_eq!(ntfy.db.subscriptions.len(), 1);

    // the repository refuses the duplicate; still a single listener
    assert!(ntfy.handle_subscribe("http://localhost:8000", "test_topic").is_err());
    assert_eq!(ntfy.watching.len(), 1);

    // a bad topic never reaches the repository
    let errs = ntfy.handle_subscribe("http://localhost:8000", "bad topic").unwrap_err();
    assert!(matches!(errs[0], Error::InvalidTopic(_)));
    assert_eq!(ntfy.db.subscriptions.len(), 1);
}

#[test]
fn unsubscribe_removes_watch_and_row() {
    let mut ntfy = actor();
    ntfy.handle_subscribe("http://localhost:8000", "one").unwrap();
    ntfy.handle_subscribe("http://localhost:8000", "two").unwrap();
    assert!(ntfy.handle_unsubscribe("http://localhost:8000", "one").is_ok());
    assert_eq!(ntfy.watching.len(), 1);
    assert_eq!(ntfy.db.subscriptions.len(), 1);
    // the watch entry goes even when the repository has no row
    assert!(matches!(
        ntfy.handle_unsubscribe("http://localhost:8000", "one"),
        Err(Error::SubscriptionNotFound(_))
    ));
}

#[test]
fn accounts_are_probed_then_stored() {
    let mut ntfy = actor();
    let req = NtfyActor::auth_probe_request("http://localhost:8000", "u", "p").unwrap();
    assert_eq!(req.url, "http://localhost:8000/stats/auth");
    assert_eq!(req.method, "GET");
    assert_eq!(req.headers[0].0, "Authorization");

    // a rejected probe stores nothing
    assert!(matches!(
        ntfy.handle_add_account("http://localhost:8000", "u", "p", 401),
        Err(Error::Http(401))
    ));
    assert!(ntfy.list_accounts().is_empty());

    ntfy.handle_subscribe("http://localhost:8000", "inbox").unwrap();
    let to_refresh = ntfy.handle_add_account("http://localhost:8000", "u", "p", 200).unwrap();
    // every live listener must be restarted to pick the new account up
    assert_eq!(to_refresh.len(), 1);
    assert_eq!(to_refresh[0].topic, "inbox");
    let accounts = ntfy.list_accounts();
    assert_eq!(accounts.len(), 1);
    assert_eq!(accounts[0].server, "http://localhost:8000");
    assert_eq!(accounts[0].username, "u");

    ntfy.handle_remove_account("http://localhost:8000").unwrap();
    assert!(ntfy.list_accounts().is_empty());
}

#[test]
fn refresh_targets_name_every_listener() {
    let mut ntfy = actor();
    ntfy.handle_subscribe("http://localhost:8000", "one").unwrap();
    ntfy.handle_subscribe("http://localhost:8000", "two").unwrap();
    let targets = ntfy.refresh_targets();
    assert_eq!(targets.len(), 2);
    assert_eq!(targets[0].topic, "one");
    assert_eq!(targets[1].topic, "two");
}

#[test]
fn watch_subscribed_restores_without_doubling() {
    let mut ntfy = actor();
    ntfy.db
        .insert_subscription(Subscription {
            server: "http://localhost:8000".to_string(),
            topic: "stored".to_string(),
            display_name: String::new(),
            muted: false,
            archived: false,
            reserved: false,
            symbolic_icon: None,
            read_until: 0,
        })
        .unwrap();
    ntfy.handle_subscribe("http://localhost:8000", "live").unwrap();

    let restored = ntfy.handle_watch_subscribed().unwrap();
    assert_eq!(restored.len(), 2);
    assert_eq!(ntfy.watching.len(), 2);

    // a restored listener resumes at the row's read watermark
    ntfy.db.update_read_until("http://localhost:8000", "stored", 77).unwrap();
    let rows = ntfy.handle_watch_subscribed().unwrap();
    let stored_row = rows.iter().find(|s| s.topic == "stored").unwrap();
    let config = ListenerConfig::for_subscription(stored_row);
    assert_eq!(config.endpoint, "http://localhost:8000");
    assert_eq!(config.topic, "stored");
    assert_eq!(config.since, 77);

    // running the restoration again starts no second listener
    ntfy.handle_watch_subscribed().unwrap();
    assert_eq!(ntfy.watching.len(), 2);
}

#[test]
fn test_subscribe_and_publish() {
    let mut ntfy = actor();
    let server = "http://localhost:8000";
    let topic = "test_topic";

    let sub = ntfy.handle_subscribe(server, topic).unwrap();
    let subscription_actor = SubscriptionActor::new(sub.duplicate());

    // publish succeeds against a healthy server
    let mut client = NullableClient::builder()
        .default_response(HttpResponse::new(200, String::new()))
        .build();
    let mut tracker = OutputTracker::new();
    let message = format!("{{\"topic\":\"{}\"}}", topic);
    let result = subscription_actor.publish(&mut client, &ntfy.credentials, &mut tracker, message);
    assert!(result.is_ok());

    // the published message comes back on the stream and is stored
    let line = format!(
        "{{\"id\":\"pub1\",\"time\":1,\"event\":\"message\",\"topic\":\"{}\"}}",
        topic
    );
    let url = Subscription::build_url(server, topic, 0).unwrap();
    let mut stream_client = NullableClient::builder()
        .text_response(url, 200, format!("{}\n", line))
        .build();
    let (mut listener, _) = ListenerActor::new(ListenerConfig {
        endpoint: server.to_string(),
        topic: topic.to_string(),
        since: 0,
    });
    let outcome = listener.attempt(&mut stream_client, &ntfy.credentials, &mut tracker);
    let emojis = EmojiMap::new(vec![]);
    for received in outcome.messages {
        subscription_actor.handle_message(&mut ntfy.db, &emojis, received);
    }

    let events = subscription_actor.attach(&ntfy.db, ConnectionState::Connected);
    assert!(events.iter().any(|event| match event {
        ListenerEvent::Message(msg) => msg.topic == topic,
        _ => false,
    }));
}
