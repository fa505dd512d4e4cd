//! Topic validation, the subscription builder, wire-message parsing, and
//! the small value types.
use ntfy_daemon::listener::ServerEvent;
use ntfy_daemon::models::{
    validate_topic, Action, Attachment, Message, MinMessage, Status, Subscription,
    SubscriptionBuilder,
};
use ntfy_daemon::Error;

#[test]
fn validate_topic_accepts_the_grammar() {
    assert!(validate_topic("test").is_ok());
    assert!(validate_topic("a_b-C9").is_ok());
    assert!(validate_topic(&"x".repeat(64)).is_ok());
}

#[test]
fn validate_topic_rejects_outside_the_grammar() {
    assert!(matches!(validate_topic(""), Err(Error::InvalidTopic(t)) if t.is_empty()));
    assert!(validate_topic(&"x".repeat(65)).is_err());
    assert!(validate_topic("has space").is_err());
    assert!(validate_topic("sl/ash").is_err());
    assert!(validate_topic("caf\u{e9}").is_err());
}

#[test]
fn builder_defaults_and_validation() {
    let sub = SubscriptionBuilder::new("mytopic".to_string()).build().unwrap();
    assert_eq!(sub.server, "https://ntfy.sh");
    assert_eq!(sub.topic, "mytopic");
    assert_eq!(sub.read_until, 0);
    assert!(!sub.muted && !sub.archived && !sub.reserved);
    assert!(sub.symbolic_icon.is_none());

    let bad = SubscriptionBuilder::new("bad topic".to_string())
        .server("not a url".to_string())
        .build();
    let errs = bad.unwrap_err();
    assert_eq!(errs.len(), 2);
    assert!(matches!(errs[0], Error::InvalidTopic(_)));
    assert!(matches!(errs[1], Error::InvalidServer(_)));
}

#[test]
fn build_url_appends_segments_and_since() {
    let url = Subscription::build_url("https://ntfy.sh", "alerts", 42).unwrap();
    assert_eq!(url, "https://ntfy.sh/alerts/json?since=42");
    let auth = Subscription::build_auth_url("https://ntfy.sh", "stats").unwrap();
    assert_eq!(auth, "https://ntfy.sh/stats/auth");
    assert!(Subscription::build_url("mailto:x@y", "t", 0).is_err());
}

#[test]
fn min_message_needs_all_three_fields() {
    let m = MinMessage::parse("{\"id\":\"A\",\"topic\":\"t\",\"time\":7}").unwrap();
    assert_eq!(m.id, "A");
    assert_eq!(m.topic, "t");
    assert_eq!(m.time, 7);
    assert!(MinMessage::parse("{\"id\":\"A\",\"topic\":\"t\"}").is_none());
    assert!(MinMessage::parse("not json").is_none());
}

#[test]
fn message_parse_fills_defaults_and_nested_values() {
    let mut line = String::new();
    line.push_str("{\"id\":\"A\",\"topic\":\"t\",\"time\":9,\"title\":\"T\",\"message\":\"hello\",");
    line.push_str("\"tags\":[\"warning\"],\"priority\":4,");
    line.push_str("\"attachment\":{\"name\":\"pic.jpg\",\"url\":\"https://x/pic.jpg\",\"size\":123},");
    line.push_str("\"actions\":[{\"action\":\"view\",\"label\":\"Open\",\"url\":\"https://x\"},");
    line.push_str("{\"action\":\"http\",\"label\":\"Ping\",\"url\":\"https://y\"}]}");
    let line = line.as_str();
    let m = Message::parse(line).unwrap();
    assert_eq!(m.id, "A");
    assert_eq!(m.time, 9);
    assert_eq!(m.tags, vec!["warning".to_string()]);
    assert_eq!(m.priority, Some(4));
    let att = m.attachment.unwrap();
    assert_eq!(att.name, "pic.jpg");
    assert_eq!(att.size, Some(123));
    assert!(att.is_image());
    assert_eq!(m.actions.len(), 2);
    match &m.actions[1] {
        Action::Http { method, body, clear, .. } => {
            assert_eq!(method, "POST");
            assert_eq!(body, "");
            assert!(!clear);
        },
        _ => panic!("expected an http action"),
    }

    // absent time defaults to zero; a broken action rejects the line
    let bare = Message::parse("{\"id\":\"B\",\"topic\":\"t\"}").unwrap();
    assert_eq!(bare.time, 0);
    assert!(bare.tags.is_empty() && bare.actions.is_empty());
    assert!(Message::parse("{\"id\":\"C\",\"topic\":\"t\",\"actions\":[{\"action\":\"dance\"}]}").is_none());
}

#[test]
fn server_event_dispatches_on_the_tag() {
    let open = ServerEvent::parse(
        "{\"id\":\"X\",\"time\":3,\"event\":\"open\",\"topic\":\"t\"}",
    )
    .unwrap();
    assert!(matches!(open, ServerEvent::Open { .. }));
    let keep = ServerEvent::parse(
        "{\"id\":\"X\",\"time\":3,\"event\":\"keepalive\",\"topic\":\"t\"}",
    )
    .unwrap();
    assert!(matches!(keep, ServerEvent::KeepAlive { .. }));
    let msg = ServerEvent::parse(
        "{\"id\":\"X\",\"time\":3,\"event\":\"message\",\"topic\":\"t\"}",
    )
    .unwrap();
    assert!(matches!(msg, ServerEvent::Message(_)));
    assert!(ServerEvent::parse("{\"event\":\"mystery\"}").is_none());
}

#[test]
fn attachment_image_detection_uses_the_extension() {
    let att = |name: &str| Attachment {
        name: name.to_string(),
        url: "https://x".to_string(),
        atype: None,
        size: None,
        expires: None,
    };
    assert!(att("photo.png").is_image());
    assert!(att("archive.tar.gif").is_image());
    assert!(!att("notes.txt").is_image());
    // without a dot the whole name is the extension
    assert!(att("jpeg").is_image());
    assert!(!att("photo.PNG").is_image());
}

#[test]
fn status_converts_through_bytes() {
    assert_eq!(Status::from(0u8), Status::Down);
    assert_eq!(Status::from(1u8), Status::Degraded);
    assert_eq!(Status::from(2u8), Status::Up);
    assert_eq!(Status::from(9u8), Status::Down);
    assert_eq!(u8::from(Status::Up), 2);
    assert_eq!(Status::default(), Status::Down);
}

#[test]
fn display_message_decorates_only_without_title() {
    let emojis = ntfy_daemon::models::EmojiMap::new(vec![(
        "warning".to_string(),
        "\u{26A0}".to_string(),
    )]);
    let with_title = Message::parse(
        "{\"id\":\"A\",\"topic\":\"t\",\"title\":\"T\",\"message\":\"m\",\"tags\":[\"warning\"]}",
    )
    .unwrap();
    assert_eq!(with_title.display_title(&emojis).unwrap(), "\u{26A0} T");
    assert_eq!(with_title.display_message(&emojis).unwrap(), "m");

    let without_title = Message::parse(
        "{\"id\":\"A\",\"topic\":\"t\",\"message\":\"m\",\"tags\":[\"warning\"]}",
    )
    .unwrap();
    assert!(without_title.display_title(&emojis).is_none());
    assert_eq!(without_title.display_message(&emojis).unwrap(), "\u{26A0} m");
}
