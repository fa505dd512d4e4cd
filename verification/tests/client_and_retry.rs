//! The scripted HTTP client's FIFO queues, the request tracker, base64,
//! and the backoff policy.
use ntfy_daemon::base64::b64_encode;
use ntfy_daemon::listener::{ConnectionState, ListenerActor, ListenerConfig};
use ntfy_daemon::http_client::{basic_auth_value, HttpResponse, NullableClient, RequestInfo};
use ntfy_daemon::output_tracker::OutputTracker;
use ntfy_daemon::retry::WaitExponentialRandom;

fn get(url: &str) -> RequestInfo {
    RequestInfo {
        method: "GET".to_string(),
        url: url.to_string(),
        headers: vec![],
        body: None,
    }
}

#[test]
fn test_nullable_with_builder() {
    let mut client = NullableClient::builder()
        .text_response("https://api.example.com/topic".to_string(), 200, "ok".to_string())
        .json_response(
            "https://api.example.com/json".to_string(),
            200,
            "{\"status\":\"success\"}".to_string(),
        )
        .default_response(HttpResponse::new(404, "not found".to_string()))
        .build();
    let mut tracker = OutputTracker::new();
    tracker.enable();

    let req = get("https://api.example.com/topic");
    tracker.push(req.duplicate());
    let response = client.execute(&req).unwrap();
    assert_eq!(response.status, 200);
    assert_eq!(response.body, "ok");

    let req = get("https://api.example.com/json");
    tracker.push(req.duplicate());
    let response = client.execute(&req).unwrap();
    assert_eq!(response.status, 200);
    assert_eq!(response.body, "{\"status\":\"success\"}");

    let req = get("https://api.example.com/unknown");
    tracker.push(req.duplicate());
    let response = client.execute(&req).unwrap();
    assert_eq!(response.status, 404);
    assert_eq!(response.body, "not found");

    assert_eq!(tracker.items().len(), 3);
}

#[test]
fn test_sequence_of_responses() {
    let mut client = NullableClient::builder()
        .responses(
            "https://api.example.com/sequence".to_string(),
            vec![
                HttpResponse::new(200, "first".to_string()),
                HttpResponse::new(200, "second".to_string()),
            ],
        )
        .build();

    let req = get("https://api.example.com/sequence");
    assert_eq!(client.execute(&req).unwrap().body, "first");
    assert_eq!(client.execute(&req).unwrap().body, "second");
    // no more responses and no default: the exchange fails
    assert!(client.execute(&req).is_none());
}

#[test]
fn tracker_records_only_when_enabled() {
    let mut tracker: OutputTracker<RequestInfo> = OutputTracker::new();
    tracker.push(get("https://ignored"));
    assert!(tracker.items().is_empty());
    tracker.enable();
    tracker.push(get("https://kept"));
    assert_eq!(tracker.items().len(), 1);
    assert_eq!(tracker.items()[0].url, "https://kept");
}

#[test]
fn base64_encodes_all_padding_shapes() {
    assert_eq!(b64_encode(b""), "");
    assert_eq!(b64_encode(b"f"), "Zg==");
    assert_eq!(b64_encode(b"fo"), "Zm8=");
    assert_eq!(b64_encode(b"foo"), "Zm9v");
    assert_eq!(b64_encode(b"foobar"), "Zm9vYmFy");
    assert_eq!(basic_auth_value("user", "pass"), "Basic dXNlcjpwYXNz");
}

#[test]
fn retry_delays_stay_inside_the_window() {
    // the defaults: one second up to five minutes, starting at index zero
    let default_policy = WaitExponentialRandom::builder().build();
    assert_eq!(default_policy.min_secs, 1);
    assert_eq!(default_policy.max_secs, 300);
    assert_eq!(default_policy.count(), 0);
    assert_eq!(default_policy.next_delay(), 1);

    // a pinned window gives a pinned delay
    let fixed = WaitExponentialRandom::builder().min(5).max(5).build();
    assert_eq!(fixed.next_delay(), 5);

    let mut retry = WaitExponentialRandom::builder().min(1).max(300).build();
    for attempt in 0u32..6 {
        assert_eq!(retry.count(), u64::from(attempt));
        let delay = retry.next_delay();
        let window = std::cmp::min(300, 1u64 << attempt);
        assert!(delay >= 1);
        assert!(delay <= std::cmp::max(1, window));
        retry.advance();
    }
    retry.reset();
    assert_eq!(retry.count(), 0);
    // at index zero the window is one second exactly
    assert_eq!(retry.next_delay(), 1);
}

#[test]
fn long_uptime_resets_the_backoff() {
    let (mut listener, _) = ListenerActor::new(ListenerConfig {
        endpoint: "http://localhost".to_string(),
        topic: "t".to_string(),
        since: 0,
    });
    // two quick failures widen the backoff index
    let (d0, _) = listener.on_stream_error(0, "down".to_string());
    assert!((1..=1).contains(&d0));
    let (d1, _) = listener.on_stream_error(0, "down".to_string());
    assert!((1..=2).contains(&d1));
    assert!(matches!(
        listener.state,
        ConnectionState::Reconnecting { retry_count: 1, .. }
    ));
    // a long uptime samples the next delay at index zero again
    let (d2, _) = listener.on_stream_error(241, "down".to_string());
    assert_eq!(d2, 1);
    assert!(matches!(
        listener.state,
        ConnectionState::Reconnecting { retry_count: 0, .. }
    ));
    // a short uptime does not reset
    let (_d3, _) = listener.on_stream_error(240, "down".to_string());
    assert!(matches!(
        listener.state,
        ConnectionState::Reconnecting { retry_count: 1, .. }
    ));
}
