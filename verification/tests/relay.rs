// The relay seen through its connections: every test opens connections on a shared state,
// hands them frames, and reads what arrives in their outbound queues as JSON values.

use std::time::{Duration, Instant};

use phantasma_link_relay::admission::PeerIp;
use phantasma_link_relay::config::RelayConfig;
use phantasma_link_relay::conn::{
    intake, write_next, CloseReason, Connection, Inbound, Intake, Outbound, Report, Step, Write,
    OUTBOUND_QUEUE,
};
use phantasma_link_relay::hub::FrameSender;
use phantasma_link_relay::protocol::ClientFrame;
use phantasma_link_relay::AppState;
use serde_json::Value;
use tokio::sync::mpsc;

const LOCALHOST: PeerIp = PeerIp::V4(0x7f00_0001);

struct Client {
    conn: Connection,
    out_tx: FrameSender,
    out_rx: mpsc::Receiver<String>,
}

fn json(text: &str) -> Value {
    serde_json::from_str(text).expect("json")
}

fn connect(relay: &mut AppState) -> Client {
    let conn_id = relay.open_connection(LOCALHOST).expect("connection accepted");
    let (out_tx, out_rx) = mpsc::channel(OUTBOUND_QUEUE);
    Client {
        conn: Connection::new(conn_id, &relay.config),
        out_tx,
        out_rx,
    }
}

/// Hands the connection one frame; the reply goes to its own queue.
fn send(relay: &mut AppState, client: &mut Client, frame: Option<ClientFrame>) -> Step {
    let step = client.conn.handle(&mut relay.hub, &client.out_tx, frame);
    if let Some(reply) = &step.reply {
        client.out_tx.try_send(reply.clone()).expect("room for the reply");
    }
    step
}

fn subscribe(topic: &str) -> Option<ClientFrame> {
    Some(ClientFrame::Subscribe { topic: topic.to_string() })
}

fn unsubscribe(topic: &str) -> Option<ClientFrame> {
    Some(ClientFrame::Unsubscribe { topic: topic.to_string() })
}

fn publish(topic: &str, id: Option<&str>, payload: &str) -> Option<ClientFrame> {
    Some(ClientFrame::Publish {
        topic: topic.to_string(),
        id: id.map(str::to_string),
        payload: json(payload),
    })
}

fn recv_json(client: &mut Client) -> Value {
    json(&client.out_rx.try_recv().expect("a frame is waiting"))
}

fn is_silent(client: &mut Client) -> bool {
    client.out_rx.try_recv().is_err()
}

#[test]
fn publish_reaches_other_subscribers_with_ack() {
    let mut relay = AppState::new(RelayConfig::default());
    let mut wallet = connect(&mut relay);
    let mut dapp = connect(&mut relay);

    send(&mut relay, &mut wallet, subscribe("t-1"));
    send(&mut relay, &mut dapp, subscribe("t-1"));

    let frame = publish("t-1", Some("m1"), r#"{"nonce": "AA", "ct": "BB"}"#);
    send(&mut relay, &mut dapp, frame);
    assert_eq!(
        recv_json(&mut dapp),
        json(r#"{"op": "ack", "topic": "t-1", "id": "m1"}"#)
    );
    assert_eq!(
        recv_json(&mut wallet),
        json(r#"{"op": "deliver", "topic": "t-1", "id": "m1", "payload": {"nonce": "AA", "ct": "BB"}}"#)
    );

    let frame = publish("t-1", None, r#""reply""#);
    send(&mut relay, &mut wallet, frame);
    assert_eq!(recv_json(&mut wallet), json(r#"{"op": "ack", "topic": "t-1"}"#));
    assert_eq!(
        recv_json(&mut dapp),
        json(r#"{"op": "deliver", "topic": "t-1", "payload": "reply"}"#)
    );
    assert!(is_silent(&mut wallet));
    assert!(is_silent(&mut dapp));
}

#[test]
fn mailbox_holds_for_late_subscriber() {
    let mut relay = AppState::new(RelayConfig::default());
    let mut dapp = connect(&mut relay);
    let frame = publish("t-wake", Some("w1"), r#""sealed-request""#);
    send(&mut relay, &mut dapp, frame);
    assert_eq!(
        recv_json(&mut dapp),
        json(r#"{"op": "ack", "topic": "t-wake", "id": "w1"}"#)
    );

    let mut wallet = connect(&mut relay);
    send(&mut relay, &mut wallet, subscribe("t-wake"));
    assert_eq!(
        recv_json(&mut wallet),
        json(r#"{"op": "deliver", "topic": "t-wake", "id": "w1", "payload": "sealed-request"}"#)
    );
}

#[test]
fn mailbox_entries_expire_after_ttl() {
    let config = RelayConfig { mailbox_ttl_secs: 1, ..RelayConfig::default() };
    let mut relay = AppState::new(config);
    let mut dapp = connect(&mut relay);
    let frame = publish("t-ttl", None, r#""stale""#);
    send(&mut relay, &mut dapp, frame);
    assert_eq!(recv_json(&mut dapp), json(r#"{"op": "ack", "topic": "t-ttl"}"#));

    let start = Instant::now();
    while start.elapsed() < Duration::from_millis(1200) {}

    let mut wallet = connect(&mut relay);
    send(&mut relay, &mut wallet, subscribe("t-ttl"));
    let frame = publish("t-ttl", None, r#""fresh""#);
    send(&mut relay, &mut dapp, frame);
    assert_eq!(
        recv_json(&mut wallet),
        json(r#"{"op": "deliver", "topic": "t-ttl", "payload": "fresh"}"#)
    );
    assert!(is_silent(&mut wallet));
}

#[test]
fn unsubscribe_stops_delivery() {
    let mut relay = AppState::new(RelayConfig::default());
    let mut a = connect(&mut relay);
    let mut b = connect(&mut relay);

    send(&mut relay, &mut a, subscribe("t-x"));
    send(&mut relay, &mut a, subscribe("t-y"));
    send(&mut relay, &mut a, unsubscribe("t-x"));
    send(&mut relay, &mut a, publish("t-sync", None, "0"));
    assert_eq!(recv_json(&mut a), json(r#"{"op": "ack", "topic": "t-sync"}"#));

    send(&mut relay, &mut b, publish("t-x", None, "1"));
    send(&mut relay, &mut b, publish("t-y", None, "2"));
    assert_eq!(
        recv_json(&mut a),
        json(r#"{"op": "deliver", "topic": "t-y", "payload": 2}"#)
    );
    assert!(is_silent(&mut a));
}

#[test]
fn topic_limit_is_enforced() {
    let config = RelayConfig { max_topics_per_conn: 2, ..RelayConfig::default() };
    let mut relay = AppState::new(config);
    let mut client = connect(&mut relay);
    send(&mut relay, &mut client, subscribe("t-1"));
    send(&mut relay, &mut client, subscribe("t-2"));
    let step = send(&mut relay, &mut client, subscribe("t-3"));
    assert!(!step.close);
    let error = recv_json(&mut client);
    assert_eq!(error["op"], "error");
    assert_eq!(error["code"], "topic_limit");

    // The connection stays usable for the topics it has, and for others once one is free.
    assert_eq!(client.conn.topic_count(), 2);
    assert_eq!(relay.hub.topic_count(), 2);
    send(&mut relay, &mut client, unsubscribe("t-1"));
    assert!(send(&mut relay, &mut client, subscribe("t-3")).reply.is_none());
    assert_eq!(client.conn.topic_count(), 2);
}

#[test]
fn oversized_frames_are_rejected() {
    let config = RelayConfig { frame_cap_bytes: 4096, ..RelayConfig::default() };
    let mut relay = AppState::new(config);
    let client = connect(&mut relay);
    let big = "x".repeat(5000);
    let text = format!(r#"{{"op":"publish","topic":"t","payload":"{big}"}}"#);
    let step = client.conn.screen(&text, true).expect("refused");
    assert!(step.close);
    let error = json(&step.reply.expect("answered"));
    assert_eq!(error["op"], "error");
    assert_eq!(error["code"], "frame_too_large");

    // The cap counts bytes, and a frame of exactly that size is accepted.
    assert!(client.conn.screen(&"x".repeat(4096), true).is_none());
    assert!(client.conn.screen(&"x".repeat(4097), true).is_some());
    assert!(client.conn.screen(&"é".repeat(2048), true).is_none());
    assert!(client.conn.screen(&"é".repeat(2049), true).is_some());
}

#[test]
fn malformed_frames_get_an_error_and_close() {
    let mut relay = AppState::new(RelayConfig::default());
    let mut client = connect(&mut relay);
    let text = match intake(Inbound::Text("not json at all".to_string())) {
        Intake::Frame(text) => text,
        _ => panic!("a text is treated as a frame"),
    };
    assert!(client.conn.screen(&text, true).is_none());
    assert!(serde_json::from_str::<Value>(&text).is_err());
    let step = send(&mut relay, &mut client, None);
    assert!(step.close);
    let error = recv_json(&mut client);
    assert_eq!(error["op"], "error");
    assert_eq!(error["code"], "bad_frame");
    assert_eq!(error["message"], "Frame is not a valid relay message");

    // The relay closes after a protocol violation: the queue is drained and closed.
    client.conn.finish(&mut relay.hub);
    drop(client.out_tx);
    assert_eq!(
        client.out_rx.try_recv(),
        Err(mpsc::error::TryRecvError::Disconnected)
    );
    assert!(matches!(write_next(Outbound::QueueClosed, 30), Write::Close));
}

#[test]
fn server_pings_idle_connections() {
    let config = RelayConfig { keepalive_ping_secs: 1, ..RelayConfig::default() };
    assert_eq!(config.ping_period_secs(), 1);
    assert!(matches!(
        write_next(Outbound::Tick, config.keepalive_ping_secs),
        Write::Ping
    ));
    let disabled = RelayConfig { keepalive_ping_secs: 0, ..RelayConfig::default() };
    assert_eq!(disabled.ping_period_secs(), 1);
    assert!(matches!(
        write_next(Outbound::Tick, disabled.keepalive_ping_secs),
        Write::Nothing
    ));
    assert_eq!(RelayConfig::default().ping_period_secs(), 30);
}

#[test]
fn per_ip_connection_cap_is_enforced() {
    let config = RelayConfig { max_conns_per_ip: 2, ..RelayConfig::default() };
    let mut relay = AppState::new(config);
    assert_eq!(relay.open_connection(LOCALHOST), Some(1));
    assert_eq!(relay.open_connection(LOCALHOST), Some(2));
    assert_eq!(
        relay.open_connection(LOCALHOST),
        None,
        "third connection from one IP must be refused"
    );
    // Another address is not affected, not even the mapped form of the same one.
    assert_eq!(
        relay.open_connection(PeerIp::V6(0xffff_7f00_0001)),
        Some(3)
    );
    // A connection that ends makes room for another.
    relay.close_connection(LOCALHOST);
    assert_eq!(relay.open_connection(LOCALHOST), Some(4));
    assert_eq!(relay.open_connection(LOCALHOST), None);
}

#[test]
fn connection_counts_come_and_go() {
    let mut relay = AppState::new(RelayConfig::default());
    let v6 = PeerIp::V6(1);
    assert_eq!(relay.conns_per_ip.connections(v6), 0);
    relay.open_connection(v6);
    relay.open_connection(v6);
    assert_eq!(relay.conns_per_ip.connections(v6), 2);
    relay.close_connection(v6);
    assert_eq!(relay.conns_per_ip.connections(v6), 1);
    relay.close_connection(v6);
    relay.close_connection(v6);
    assert_eq!(relay.conns_per_ip.connections(v6), 0);
    let config = RelayConfig { max_conns_per_ip: 0, ..RelayConfig::default() };
    assert_eq!(AppState::new(config).open_connection(v6), None);
}

#[test]
fn counts_and_numbers_keep_up_over_a_run() {
    let config = RelayConfig { max_conns_per_ip: 2, ..RelayConfig::default() };
    let mut relay = AppState::new(config);
    let other = PeerIp::V6(7);
    let mut numbers = Vec::new();
    for round in 0..5 {
        numbers.extend(relay.open_connection(LOCALHOST));
        numbers.extend(relay.open_connection(other));
        numbers.extend(relay.open_connection(LOCALHOST));
        // Each address holds as many as it has open, refused or not.
        assert_eq!(relay.conns_per_ip.connections(LOCALHOST), 2);
        assert_eq!(relay.conns_per_ip.connections(other), if round == 0 { 1 } else { 2 });
        relay.close_connection(LOCALHOST);
        assert_eq!(relay.conns_per_ip.connections(LOCALHOST), 1);
    }
    assert_eq!(numbers, [1, 2, 3, 4, 5, 6, 7, 8]);
    // Where no connection is allowed, an address that asked still holds none.
    let config = RelayConfig { max_conns_per_ip: 0, ..RelayConfig::default() };
    let mut closed = AppState::new(config);
    assert_eq!(closed.open_connection(other), None);
    assert_eq!(closed.conns_per_ip.connections(other), 0);
    assert_eq!(closed.next_conn_id, 1);
}

#[test]
fn connection_numbers_wrap_after_the_last() {
    let mut relay = AppState::new(RelayConfig::default());
    relay.next_conn_id = u64::MAX;
    assert_eq!(relay.open_connection(LOCALHOST), Some(u64::MAX));
    assert_eq!(relay.open_connection(LOCALHOST), Some(0));
}

#[test]
fn rate_abuse_is_answered_before_the_size() {
    let config = RelayConfig { frame_cap_bytes: 4, ..RelayConfig::default() };
    let mut relay = AppState::new(config);
    let client = connect(&mut relay);
    assert_eq!(
        client.conn.screen("too long", false).and_then(|step| step.reply).expect("refused"),
        r#"{"op":"error","code":"rate_limited","message":"Inbound frame rate exceeded"}"#
    );
    assert_eq!(
        client.conn.screen("too long", true).and_then(|step| step.reply).expect("refused"),
        r#"{"op":"error","code":"frame_too_large","message":"Frame exceeds the relay frame cap"}"#
    );
}

#[test]
fn invalid_topics_close_the_connection() {
    let mut relay = AppState::new(RelayConfig::default());
    let mut client = connect(&mut relay);
    let step = send(&mut relay, &mut client, subscribe("two words"));
    assert!(step.close);
    assert_eq!(
        recv_json(&mut client),
        json(r#"{"op": "error", "code": "bad_topic", "message": "Invalid topic"}"#)
    );
    let step = send(&mut relay, &mut client, publish("", Some("m7"), "null"));
    assert!(step.close);
    assert_eq!(
        recv_json(&mut client),
        json(r#"{"op": "error", "code": "bad_topic", "message": "Invalid topic", "id": "m7"}"#)
    );
    assert_eq!(relay.hub.topic_count(), 0);
    // An unsubscribe is not held against the topic rules.
    let step = send(&mut relay, &mut client, unsubscribe("two words"));
    assert!(!step.close && step.reply.is_none());
}

#[test]
fn subscribing_twice_changes_nothing() {
    let mut relay = AppState::new(RelayConfig::default());
    let mut client = connect(&mut relay);
    send(&mut relay, &mut client, subscribe("t"));
    // The publisher is the only subscriber, so its frame is held.
    let step = send(&mut relay, &mut client, publish("t", None, "1"));
    assert!(matches!(step.report, Report::Published { delivered: 0, .. }));
    assert_eq!(recv_json(&mut client), json(r#"{"op": "ack", "topic": "t"}"#));
    let step = send(&mut relay, &mut client, subscribe("t"));
    assert!(!step.close && step.reply.is_none());
    assert!(matches!(step.report, Report::Nothing));
    assert_eq!(client.conn.topic_count(), 1);
    assert!(is_silent(&mut client));
}

#[test]
fn a_report_tells_size_and_reach() {
    let mut relay = AppState::new(RelayConfig::default());
    let mut a = connect(&mut relay);
    let mut b = connect(&mut relay);
    let step = send(&mut relay, &mut a, subscribe("t"));
    assert!(matches!(step.report, Report::Subscribed { topic } if topic == "t"));
    let step = send(&mut relay, &mut b, publish("t", None, r#""é""#));
    let frame = a.out_rx.try_recv().expect("delivered");
    match step.report {
        Report::Published { topic, bytes, delivered } => {
            assert_eq!((topic.as_str(), bytes, delivered), ("t", frame.len(), 1));
        }
        _ => panic!("a publish is reported"),
    }
    let step = send(&mut relay, &mut a, unsubscribe("t"));
    assert!(matches!(step.report, Report::Unsubscribed { topic } if topic == "t"));
}

#[test]
fn a_closed_connection_leaves_no_trace() {
    let mut relay = AppState::new(RelayConfig::default());
    let mut a = connect(&mut relay);
    let mut b = connect(&mut relay);
    send(&mut relay, &mut a, subscribe("t-1"));
    send(&mut relay, &mut a, subscribe("t-2"));
    send(&mut relay, &mut b, subscribe("t-2"));
    assert_eq!(relay.hub.topic_count(), 2);
    a.conn.finish(&mut relay.hub);
    assert_eq!(relay.hub.topic_count(), 1);
    let mut c = connect(&mut relay);
    let step = send(&mut relay, &mut c, publish("t-2", None, "1"));
    assert!(matches!(step.report, Report::Published { delivered: 1, .. }));
    assert!(is_silent(&mut a));
    assert_eq!(
        recv_json(&mut b),
        json(r#"{"op": "deliver", "topic": "t-2", "payload": 1}"#)
    );
}

#[test]
fn a_stalled_reader_is_ended() {
    let mut relay = AppState::new(RelayConfig::default());
    let mut stalled = connect(&mut relay);
    let mut reader = connect(&mut relay);
    let mut publisher = connect(&mut relay);
    send(&mut relay, &mut stalled, subscribe("t"));
    send(&mut relay, &mut stalled, subscribe("other"));
    send(&mut relay, &mut reader, subscribe("t"));
    for i in 0..OUTBOUND_QUEUE {
        let step = send(&mut relay, &mut publisher, publish("t", None, "1"));
        assert!(step.ended.is_empty(), "frame {i} has room");
        recv_json(&mut publisher);
        recv_json(&mut reader);
    }
    // The queue is full now, so the connection that does not read it is ended.
    let step = send(&mut relay, &mut publisher, publish("t", None, "2"));
    assert_eq!(step.ended, [1]);
    assert!(matches!(step.report, Report::Published { delivered: 1, .. }));
    assert!(!step.close);
    assert_eq!(relay.hub.topic_count(), 1);
    assert_eq!(
        recv_json(&mut reader),
        json(r#"{"op": "deliver", "topic": "t", "payload": 2}"#)
    );
    let mut queued = 0;
    while !is_silent(&mut stalled) {
        queued += 1;
    }
    assert_eq!(queued, OUTBOUND_QUEUE);
    stalled.conn.finish(&mut relay.hub);
    let step = send(&mut relay, &mut publisher, publish("other", None, "3"));
    assert!(matches!(step.report, Report::Published { delivered: 0, .. }));
    assert!(step.ended.is_empty());
    assert!(is_silent(&mut stalled));
}

#[test]
fn payloads_are_carried_unread() {
    let mut relay = AppState::new(RelayConfig::default());
    let mut a = connect(&mut relay);
    let mut b = connect(&mut relay);
    send(&mut relay, &mut a, subscribe("t"));
    for payload in ["null", "[1,2.5,\"\\u0000\"]", r#"{"op":"error","topic":"x"}"#] {
        send(&mut relay, &mut b, publish("t", None, payload));
        assert_eq!(recv_json(&mut b), json(r#"{"op": "ack", "topic": "t"}"#));
        assert_eq!(recv_json(&mut a)["payload"], json(payload));
    }
}

#[test]
fn socket_outcomes_are_sorted() {
    assert!(matches!(intake(Inbound::Idle), Intake::Finish(CloseReason::IdleTimeout)));
    assert!(matches!(intake(Inbound::Ended), Intake::Finish(CloseReason::PeerClosed)));
    assert!(matches!(intake(Inbound::Failed), Intake::Finish(CloseReason::WsError)));
    assert!(matches!(intake(Inbound::Close), Intake::Finish(CloseReason::CloseFrame)));
    assert!(matches!(intake(Inbound::Stalled), Intake::Finish(CloseReason::SlowConsumer)));
    assert!(matches!(intake(Inbound::Ping), Intake::Skip));
    assert!(matches!(intake(Inbound::Pong), Intake::Skip));
    assert!(matches!(intake(Inbound::Binary), Intake::Skip));
    assert!(matches!(intake(Inbound::Text("x".to_string())), Intake::Frame(text) if text == "x"));
    assert_eq!(CloseReason::PeerClosed.as_str(), "peer_closed");
    assert_eq!(CloseReason::IdleTimeout.as_str(), "idle_timeout");
    assert_eq!(CloseReason::WsError.as_str(), "ws_error");
    assert_eq!(CloseReason::CloseFrame.as_str(), "close_frame");
    assert_eq!(CloseReason::SlowConsumer.as_str(), "slow_consumer");
    assert!(!CloseReason::SlowConsumer.drains());
    assert!(CloseReason::IdleTimeout.drains());
}

#[test]
fn the_writer_drains_and_closes() {
    assert!(matches!(
        write_next(Outbound::Frame("x".to_string()), 0),
        Write::Text(text) if text == "x"
    ));
    assert!(matches!(write_next(Outbound::QueueClosed, 30), Write::Close));
}

#[test]
fn defaults_are_safe() {
    let config = RelayConfig::default();
    assert_eq!(config.bind, "localhost:7200");
    assert_eq!(config.frame_cap_bytes, 1_048_576);
    assert_eq!(config.mailbox_ttl_secs, 300);
    assert_eq!(config.mailbox_max_frames, 64);
    assert_eq!(config.max_topics_per_conn, 8);
    assert_eq!(config.max_conns_per_ip, 32);
    assert_eq!(config.idle_timeout_secs, 900);
    assert_eq!(config.keepalive_ping_secs, 30);
    assert_eq!(config.mailbox_ttl_nanos(), 300_000_000_000);
    assert_eq!(config.transport_cap_bytes(), 1_049_600);
}
