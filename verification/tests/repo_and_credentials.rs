//! The message repository's de-duplication, ordering and errors, and the
//! credential store's one-account-per-server rule.
use ntfy_daemon::credentials::{Credential, Credentials, KeyringItem, NullableKeyring};
use ntfy_daemon::message_repo::Db;
use ntfy_daemon::models::Subscription;
use ntfy_daemon::Error;

fn sub(server: &str, topic: &str, display_name: &str) -> Subscription {
    Subscription {
        server: server.to_string(),
        topic: topic.to_string(),
        display_name: display_name.to_string(),
        muted: false,
        archived: false,
        reserved: false,
        symbolic_icon: None,
        read_until: 0,
    }
}

fn msg_line(id: &str, topic: &str, time: u64) -> String {
    format!(
        "{{\"id\":\"{}\",\"time\":{},\"event\":\"message\",\"topic\":\"{}\"}}",
        id, time, topic
    )
}

#[test]
fn insert_message_deduplicates_on_server_and_id() {
    let mut db = Db::new();
    assert!(db.insert_message("s1", &msg_line("A", "t", 5)).is_ok());
    assert!(matches!(
        db.insert_message("s1", &msg_line("A", "t", 9)),
        Err(Error::DuplicateMessage)
    ));
    // the same id on another server is a different message
    assert!(db.insert_message("s2", &msg_line("A", "t", 5)).is_ok());
    assert_eq!(db.messages.len(), 2);
    // a blob without the minimal fields is a storage error
    assert!(matches!(
        db.insert_message("s1", "{\"id\":\"B\"}"),
        Err(Error::Db(_))
    ));
}

#[test]
fn list_messages_filters_and_orders_by_time() {
    let mut db = Db::new();
    db.insert_subscription(sub("s", "t", "")).unwrap();
    for (id, t) in [("c", 30u64), ("a", 10u64), ("b", 20u64), ("x", 15u64)] {
        db.insert_message("s", &msg_line(id, "t", t)).unwrap();
    }
    // a row of another topic never shows up
    db.insert_message("s", &msg_line("o", "other", 12)).unwrap();

    let rows = db.list_messages("s", "t", 15).unwrap();
    assert_eq!(rows.len(), 3);
    assert!(rows[0].contains("\"x\""));
    assert!(rows[1].contains("\"b\""));
    assert!(rows[2].contains("\"c\""));

    // without a subscription row the listing joins to nothing
    let none = db.list_messages("s", "unsubscribed", 0).unwrap();
    assert!(none.is_empty());
}

#[test]
fn equal_times_keep_arrival_order() {
    let mut db = Db::new();
    db.insert_subscription(sub("s", "t", "")).unwrap();
    db.insert_message("s", &msg_line("first", "t", 7)).unwrap();
    db.insert_message("s", &msg_line("second", "t", 7)).unwrap();
    let rows = db.list_messages("s", "t", 0).unwrap();
    assert!(rows[0].contains("first"));
    assert!(rows[1].contains("second"));
}

#[test]
fn subscriptions_are_unique_and_listed_in_order() {
    let mut db = Db::new();
    db.insert_subscription(sub("https://b", "zulu", "")).unwrap();
    db.insert_subscription(sub("https://a", "topic2", "beta")).unwrap();
    db.insert_subscription(sub("https://a", "topic1", "alpha")).unwrap();
    assert!(matches!(
        db.insert_subscription(sub("https://b", "zulu", "again")),
        Err(Error::Db(_))
    ));

    let listed = db.list_subscriptions().unwrap();
    let keys: Vec<(String, String)> = listed
        .iter()
        .map(|s| (s.server.clone(), s.topic.clone()))
        .collect();
    assert_eq!(
        keys,
        vec![
            ("https://a".to_string(), "topic1".to_string()),
            ("https://a".to_string(), "topic2".to_string()),
            ("https://b".to_string(), "zulu".to_string()),
        ]
    );
}

#[test]
fn update_and_remove_report_missing_rows() {
    let mut db = Db::new();
    assert!(matches!(
        db.update_read_until("s", "t", 9),
        Err(Error::SubscriptionNotFound(_))
    ));
    assert!(matches!(
        db.remove_subscription("s", "t"),
        Err(Error::SubscriptionNotFound(_))
    ));
    db.insert_subscription(sub("s", "t", "")).unwrap();
    assert!(db.update_read_until("s", "t", 9).is_ok());
    assert_eq!(db.subscriptions[0].read_until, 9);
    let mut updated = sub("s", "t", "new name");
    updated.muted = true;
    assert!(db.update_subscription(updated).is_ok());
    assert_eq!(db.subscriptions[0].display_name, "new name");
    assert!(db.subscriptions[0].muted);
    assert!(db.remove_subscription("s", "t").is_ok());
    assert!(db.subscriptions.is_empty());
}

#[test]
fn server_ids_are_stable() {
    let mut db = Db::new();
    let a = db.get_or_insert_server("https://a");
    let b = db.get_or_insert_server("https://b");
    assert_eq!(db.get_or_insert_server("https://a"), a);
    assert_eq!(db.get_or_insert_server("https://b"), b);
    assert_ne!(a, b);
}

#[test]
fn one_account_per_server() {
    let mut creds = Credentials::new();
    creds.insert("https://s", "alice", "pw1").unwrap();
    // the same username updates the password
    creds.insert("https://s", "alice", "pw2").unwrap();
    assert_eq!(creds.get("https://s").unwrap().password, "pw2");
    // another username for the same server is refused
    assert!(matches!(
        creds.insert("https://s", "bob", "pw3"),
        Err(Error::SingleAccountPerServer)
    ));
    // other servers are independent
    creds.insert("https://other", "bob", "pw3").unwrap();
    assert_eq!(creds.list_all().len(), 2);

    creds.delete("https://s").unwrap();
    assert!(creds.get("https://s").is_none());
    assert!(matches!(
        creds.delete("https://s"),
        Err(Error::AccountNotFound)
    ));
}

#[test]
fn load_rebuilds_the_map_from_keyring_items() {
    let item = KeyringItem::new(
        vec![
            ("type".to_string(), "password".to_string()),
            ("username".to_string(), "alice".to_string()),
            ("server".to_string(), "https://s".to_string()),
        ],
        b"secret-pw".to_vec(),
    );
    let keyring = NullableKeyring::new(vec![item]);
    let mut creds = Credentials::new();
    creds.load(keyring.search_items()).unwrap();
    let c = creds.get("https://s").unwrap();
    assert_eq!(c.username, "alice");
    assert_eq!(c.password, "secret-pw");

    // an item without the key attributes stops the load
    let bad = KeyringItem::new(vec![], vec![]);
    assert!(creds.load(vec![bad]).is_err());
}

#[test]
fn nullable_keyring_builds_one_item_per_server() {
    let pair = (
        "https://s".to_string(),
        Credential { username: "alice".to_string(), password: "pw".to_string() },
    );
    let keyring = NullableKeyring::with_credentials(vec![pair.clone()]);
    let items = keyring.search_items();
    assert_eq!(items.len(), 1);
    assert_eq!(items[0].attribute("type").unwrap(), "password");
    assert_eq!(items[0].attribute("username").unwrap(), "alice");
    assert_eq!(items[0].attribute("server").unwrap(), "https://s");
    assert_eq!(items[0].secret, b"pw".to_vec());

    // the scripted store keys the map by the real server
    let creds = Credentials::new_nullable(vec![pair]).unwrap();
    let c = creds.get("https://s").unwrap();
    assert_eq!(c.username, "alice");
    assert_eq!(c.password, "pw");

    let empty = Credentials::new_nullable(vec![]).unwrap();
    assert!(empty.list_all().is_empty());
}

#[test]
fn load_rejects_a_secret_that_is_not_utf8() {
    let item = KeyringItem::new(
        vec![
            ("username".to_string(), "alice".to_string()),
            ("server".to_string(), "https://s".to_string()),
        ],
        vec![0xff, 0xfe, 0xfd],
    );
    let mut creds = Credentials::new();
    assert!(matches!(creds.load(vec![item]), Err(Error::Db(_))));
}
