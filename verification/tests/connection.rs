use herdr_client::connection::{
    decide_line, decide_request, default_socket_directory, deliver, encode_message, exchange,
    hello, receive, request_id_of, socket_file_name, Admitted, Connection, ConnectionEvent,
    ConnectionState, Delivery, ExchangeOutcome, Message, Received, SnapshotEnvelope, Step,
    EXCHANGE_TIMEOUT_SECS, WRITE_TIMEOUT_SECS,
};
use herdr_client::frontend_api::{
    error, success, Request, RequestBody, MAX_REQUEST_BYTES, PROTOCOL,
};
use serde_json::Value;

fn request(protocol: u32, body: RequestBody) -> Request {
    Request {
        protocol,
        id: 9,
        body,
    }
}

fn text(value: &Value) -> String {
    String::from_utf8(encode_message(value).unwrap()).unwrap()
}

#[test]
fn the_limits_are_those_of_the_protocol() {
    assert_eq!(PROTOCOL, 7);
    assert_eq!(MAX_REQUEST_BYTES, 1024 * 1024);
    assert_eq!(EXCHANGE_TIMEOUT_SECS, 65);
    assert_eq!(WRITE_TIMEOUT_SECS, 2);
}

#[test]
fn sockets_are_named_after_user_and_client() {
    assert_eq!(default_socket_directory(0), "/tmp/herdr-clients-0");
    assert_eq!(default_socket_directory(1000), "/tmp/herdr-clients-1000");
    assert_eq!(
        default_socket_directory(u32::MAX),
        "/tmp/herdr-clients-4294967295"
    );
    assert_eq!(socket_file_name("abc"), "abc.sock");
}

#[test]
fn a_connection_opens_with_hello() {
    assert_eq!(
        text(&hello("me")),
        "{\"client_id\":\"me\",\"protocol\":7,\"type\":\"hello\"}\n"
    );
}

#[test]
fn a_message_is_one_line() {
    assert_eq!(text(&Value::Null), "null\n");
    assert_eq!(text(&Value::from("a\nb\u{e9}")), "\"a\\nb\u{e9}\"\n");
    let line = text(&error(None, "x\n", "y\r\n"));
    assert_eq!(line.matches('\n').count(), 1);
    assert!(line.ends_with('\n'));
}

#[test]
fn snapshots_travel_in_an_envelope() {
    let snapshot = Value::from(vec![1u64, 2]);
    let message = SnapshotEnvelope::new(4, &snapshot).to_value();
    let entries = message.as_object().unwrap();
    assert_eq!(entries.len(), 3);
    assert_eq!(entries["type"], "snapshot");
    assert_eq!(entries["id"], 4);
    assert_eq!(entries["snapshot"], snapshot);
}

#[test]
fn an_envelope_is_written_with_its_fields_in_order() {
    let snapshot = Value::from(vec![Value::from("a\nb"), Value::Null]);
    let line = SnapshotEnvelope::new(120, &snapshot).encode().unwrap();
    assert_eq!(
        String::from_utf8(line.clone()).unwrap(),
        "{\"type\":\"snapshot\",\"id\":120,\"snapshot\":[\"a\\nb\",null]}\n"
    );
    assert_eq!(
        serde_json::from_slice::<Value>(&line).unwrap(),
        SnapshotEnvelope::new(120, &snapshot).to_value()
    );
}

#[test]
fn lines_over_one_mib_are_refused() {
    assert!(matches!(receive(&[]), Received::Closed));
    assert!(matches!(receive(b"\n"), Received::Line));
    assert!(matches!(
        receive(&vec![b' '; MAX_REQUEST_BYTES]),
        Received::Line
    ));
    let Received::TooLarge(response) = receive(&vec![b' '; MAX_REQUEST_BYTES + 1]) else {
        panic!("expected a refusal");
    };
    assert_eq!(
        response,
        error(None, "request_too_large", "request exceeds one MiB")
    );
}

#[test]
fn a_line_that_is_no_request_is_answered_under_its_id() {
    assert_eq!(request_id_of(b"{\"id\":12,\"type\":\"nope\"}\n"), Some(12));
    assert_eq!(request_id_of(b"{\"id\":18446744073709551615}"), Some(u64::MAX));
    for line in [
        &b"{\"id\":-1}"[..],
        b"{\"id\":\"12\"}",
        b"{\"id\":1.5}",
        b"{}",
        b"[12]",
        b"not json",
        b"{\"id\":12",
        b"\xff",
    ] {
        assert_eq!(request_id_of(line), None);
    }
    let Admitted::Answer(response) = decide_line(b"{\"id\":12}", None) else {
        panic!("expected an answer");
    };
    assert_eq!(
        response,
        error(Some(12), "invalid_request", "invalid frontend request")
    );
    let Admitted::Answer(response) = decide_request(None, None) else {
        panic!("expected an answer");
    };
    assert_eq!(response["id"], Value::Null);
}

#[test]
fn other_protocols_are_refused() {
    for protocol in [0, 6, 8] {
        let parsed = Some(request(protocol, RequestBody::Snapshot));
        let Admitted::Answer(response) = decide_line(b"{\"id\":1}", parsed) else {
            panic!("expected an answer");
        };
        assert_eq!(
            response,
            error(Some(9), "unsupported_protocol", "expected frontend protocol 7")
        );
    }
}

#[test]
fn subscriptions_become_a_snapshot_request() {
    let parsed = Some(request(PROTOCOL, RequestBody::Subscribe));
    let Admitted::Subscribe { id, snapshot } = decide_line(b"{}", parsed) else {
        panic!("expected a subscription");
    };
    assert_eq!(id, 9);
    assert_eq!(snapshot.id, 9);
    assert_eq!(snapshot.protocol, PROTOCOL);
    assert!(matches!(snapshot.body, RequestBody::Snapshot));
}

#[test]
fn other_requests_are_exchanged() {
    for (body, snapshot) in [
        (RequestBody::Snapshot, true),
        (
            RequestBody::Input {
                text: Some("x".into()),
                keys: None,
            },
            false,
        ),
    ] {
        let parsed = Some(request(PROTOCOL, body));
        let Admitted::Exchange {
            request,
            wants_snapshot,
        } = decide_line(b"{}", parsed)
        else {
            panic!("expected an exchange");
        };
        assert_eq!(request.id, 9);
        assert_eq!(wants_snapshot, snapshot);
    }
}

#[test]
fn every_end_of_an_exchange_has_its_response() {
    let reply = success(3, Value::from("done"));
    assert_eq!(exchange(3, ExchangeOutcome::Replied(reply.clone())), reply);
    for (outcome, code, message) in [
        (
            ExchangeOutcome::Dropped,
            "client_unavailable",
            "client dropped the reply; mutation outcome is unknown; do not replay",
        ),
        (
            ExchangeOutcome::TimedOut,
            "timeout",
            "client reply timed out; mutation outcome is unknown; do not replay",
        ),
        (
            ExchangeOutcome::QueueFull,
            "busy",
            "client event queue is full",
        ),
        (
            ExchangeOutcome::QueueClosed,
            "client_unavailable",
            "client event loop is unavailable; request was not submitted",
        ),
    ] {
        assert_eq!(exchange(3, outcome), error(Some(3), code, message));
    }
}

#[test]
fn only_a_snapshot_request_with_a_result_delivers_the_snapshot() {
    let reply = success(1, Value::Null);
    assert!(matches!(deliver(true, reply.clone()), Delivery::Snapshot));
    assert!(matches!(deliver(false, reply.clone()), Delivery::Response(value) if value == reply));
    let refusal = error(Some(1), "busy", "later");
    assert!(
        matches!(deliver(true, refusal.clone()), Delivery::Response(value) if value == refusal)
    );
}

fn line(parsed: Option<Request>) -> ConnectionEvent {
    ConnectionEvent::Line {
        line: b"{\"id\":5}\n".to_vec(),
        parsed,
    }
}

fn replied() -> ConnectionEvent {
    ConnectionEvent::Ended(ExchangeOutcome::Replied(success(9, Value::Null)))
}

/// The message of a step that asks for nothing.
fn written(step: Step) -> Value {
    assert!(step.ask.is_none());
    match step.write {
        Some(Message::Data(value)) => value,
        other => panic!("expected a message, got {other:?}"),
    }
}

fn snapshot_written(step: Step) -> u64 {
    assert!(step.ask.is_none());
    match step.write {
        Some(Message::Snapshot { id }) => id,
        other => panic!("expected a snapshot, got {other:?}"),
    }
}

fn idle(step: Step) -> bool {
    step.write.is_none() && step.ask.is_none()
}

/// A connection that has been greeted.
fn opened() -> Connection {
    let mut connection = Connection::new("me".into());
    assert_eq!(connection.state, ConnectionState::Opening);
    assert!(idle(connection.step(line(None))));
    assert_eq!(written(connection.step(ConnectionEvent::Opened)), hello("me"));
    assert_eq!(connection.state, ConnectionState::Reading);
    connection
}

#[test]
fn a_connection_answers_each_line_once() {
    let mut connection = opened();
    assert_eq!(
        written(connection.step(line(None))),
        error(Some(5), "invalid_request", "invalid frontend request")
    );
    let other = request(6, RequestBody::Snapshot);
    assert_eq!(
        written(connection.step(line(Some(other))))["error"]["code"],
        "unsupported_protocol"
    );
    assert_eq!(connection.state, ConnectionState::Reading);

    let input = RequestBody::Input {
        text: Some("x".into()),
        keys: None,
    };
    let step = connection.step(line(Some(request(PROTOCOL, input))));
    assert!(step.write.is_none());
    assert_eq!(step.ask.unwrap().id, 9);
    assert_eq!(
        connection.state,
        ConnectionState::Asking {
            id: 9,
            wants_snapshot: false
        }
    );
    // Nothing is read while the exchange lasts.
    assert!(idle(connection.step(line(None))));
    assert_eq!(written(connection.step(replied())), success(9, Value::Null));
    assert_eq!(connection.state, ConnectionState::Reading);
}

#[test]
fn a_snapshot_request_is_answered_with_the_published_snapshot() {
    let mut connection = opened();
    connection.step(line(Some(request(PROTOCOL, RequestBody::Snapshot))));
    assert_eq!(snapshot_written(connection.step(replied())), 9);
    connection.step(line(Some(request(PROTOCOL, RequestBody::Snapshot))));
    assert_eq!(
        written(connection.step(ConnectionEvent::Ended(ExchangeOutcome::QueueFull)))["error"]
            ["code"],
        "busy"
    );
    assert_eq!(connection.state, ConnectionState::Reading);
}

#[test]
fn a_connection_ends_with_its_consumer_or_an_oversized_line() {
    let mut connection = opened();
    let end = ConnectionEvent::Line {
        line: vec![],
        parsed: None,
    };
    assert!(idle(connection.step(end)));
    assert_eq!(connection.state, ConnectionState::Closed);
    assert!(idle(connection.step(line(None))));

    let mut connection = opened();
    let oversized = ConnectionEvent::Line {
        line: vec![b' '; MAX_REQUEST_BYTES + 1],
        parsed: None,
    };
    assert_eq!(
        written(connection.step(oversized))["error"]["code"],
        "request_too_large"
    );
    assert_eq!(connection.state, ConnectionState::Closed);
}

#[test]
fn a_subscription_pushes_snapshots_until_it_is_interrupted() {
    let subscribed = || {
        let mut connection = opened();
        let step = connection.step(line(Some(request(PROTOCOL, RequestBody::Subscribe))));
        assert!(step.write.is_none());
        assert!(matches!(step.ask.unwrap().body, RequestBody::Snapshot));
        assert_eq!(connection.state, ConnectionState::Subscribing { id: 9 });
        connection
    };
    let mut connection = subscribed();
    assert!(idle(connection.step(ConnectionEvent::Published)));
    assert_eq!(snapshot_written(connection.step(replied())), 9);
    assert_eq!(connection.state, ConnectionState::Pushing { id: 9 });
    for _ in 0..2 {
        assert_eq!(
            snapshot_written(connection.step(ConnectionEvent::Published)),
            9
        );
    }
    assert!(idle(connection.step(line(None))));
    assert!(idle(connection.step(ConnectionEvent::Interrupted)));
    assert_eq!(connection.state, ConnectionState::Closed);

    let mut connection = subscribed();
    assert!(idle(connection.step(ConnectionEvent::Interrupted)));
    assert_eq!(connection.state, ConnectionState::Closed);

    let mut connection = subscribed();
    snapshot_written(connection.step(replied()));
    assert!(idle(connection.step(ConnectionEvent::PublisherGone)));
    assert_eq!(connection.state, ConnectionState::Closed);

    let mut connection = subscribed();
    assert_eq!(
        written(connection.step(ConnectionEvent::Ended(ExchangeOutcome::TimedOut)))["error"]
            ["code"],
        "timeout"
    );
    assert_eq!(connection.state, ConnectionState::Closed);
}
