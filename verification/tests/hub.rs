// The hub seen from outside, with times given by the test.

use phantasma_link_relay::clock::Clock;
use phantasma_link_relay::hub::Hub;
use phantasma_link_relay::sender::send_all;
use phantasma_link_relay::topic::TopicState;
use tokio::sync::mpsc;

fn drain(rx: &mut mpsc::Receiver<String>) -> Vec<String> {
    let mut frames = Vec::new();
    while let Ok(frame) = rx.try_recv() {
        frames.push(frame);
    }
    frames
}

#[test]
fn late_subscriber_gets_the_live_backlog_in_order() {
    let mut hub = Hub::new(100, 8);
    assert_eq!(hub.publish_at("t", 1, "a".to_string(), 0), 0);
    assert_eq!(hub.publish_at("t", 1, "b".to_string(), 10), 0);
    assert_eq!(hub.publish_at("t", 1, "c".to_string(), 20), 0);
    let (tx, mut rx) = mpsc::channel(8);
    // At 100 the first frame has just expired.
    hub.subscribe_at("t", 2, tx, 100);
    assert_eq!(drain(&mut rx), ["b", "c"]);
    // The mailbox is empty now: the next subscriber gets nothing.
    let (tx, mut late) = mpsc::channel(8);
    hub.subscribe_at("t", 3, tx, 100);
    assert!(drain(&mut late).is_empty());
}

#[test]
fn mailbox_drops_the_oldest_when_full() {
    let mut hub = Hub::new(100, 2);
    for frame in ["a", "b", "c", "d"] {
        hub.publish_at("t", 1, frame.to_string(), 0);
    }
    let (tx, mut rx) = mpsc::channel(8);
    hub.subscribe_at("t", 2, tx, 1);
    assert_eq!(drain(&mut rx), ["c", "d"]);
}

#[test]
fn mailbox_of_depth_zero_holds_nothing() {
    let mut hub = Hub::new(100, 0);
    assert_eq!(hub.publish_at("t", 1, "a".to_string(), 0), 0);
    // A topic with nobody and nothing in it is forgotten.
    assert_eq!(hub.topic_count(), 0);
    let (tx, mut rx) = mpsc::channel(8);
    hub.subscribe_at("t", 2, tx, 1);
    assert!(drain(&mut rx).is_empty());
    assert_eq!(hub.publish_at("t", 1, "b".to_string(), 2), 1);
    assert_eq!(drain(&mut rx), ["b"]);
    // The last subscriber goes, and the topic with it.
    drop(rx);
    assert_eq!(hub.publish_at("t", 1, "c".to_string(), 3), 0);
    assert_eq!(hub.topic_count(), 0);
}

#[test]
fn stalled_readers_are_ended_on_every_topic() {
    let mut hub = Hub::new(100, 8);
    let (slow_tx, mut slow) = mpsc::channel(1);
    let (fast_tx, mut fast) = mpsc::channel(8);
    for topic in ["t", "u", "v"] {
        hub.subscribe_at(topic, 1, slow_tx.clone(), 0);
    }
    drop(slow_tx);
    hub.subscribe_at("t", 2, fast_tx.clone(), 0);
    hub.subscribe_at("u", 2, fast_tx, 0);
    assert!(hub.end_stalled().is_empty());
    assert_eq!(hub.topic_count(), 3);
    assert_eq!(hub.publish_at("t", 9, "a".to_string(), 0), 2);
    assert!(hub.end_stalled().is_empty());
    assert_eq!(hub.publish_at("t", 9, "b".to_string(), 0), 1);
    // It is off that topic, and still on the others until it is ended.
    assert_eq!(hub.topic_count(), 3);
    assert_eq!(hub.end_stalled(), [1]);
    assert_eq!(hub.topic_count(), 2);
    assert!(hub.end_stalled().is_empty());
    assert_eq!(hub.publish_at("u", 9, "c".to_string(), 0), 1);
    assert_eq!(drain(&mut fast), ["a", "b", "c"]);
    // Every handle on its queue is gone.
    assert_eq!(slow.try_recv(), Ok("a".to_string()));
    assert_eq!(slow.try_recv(), Err(mpsc::error::TryRecvError::Disconnected));
}

#[test]
fn sweeps_cannot_be_seen() {
    let run = |sweeps: bool| {
        let mut hub = Hub::new(10, 2);
        let mut counts = Vec::new();
        for at in 0..40u128 {
            if sweeps {
                hub.prune_at(at);
            }
            let topic = if at % 3 == 0 { "a" } else { "b" };
            counts.push(hub.publish_at(topic, 1, format!("{at}"), at));
        }
        let mut seen = Vec::new();
        for (conn_id, topic) in [(2, "a"), (3, "b"), (4, "a")] {
            if sweeps {
                hub.prune_at(45);
            }
            let (tx, mut rx) = mpsc::channel(8);
            hub.subscribe_at(topic, conn_id, tx, 46);
            counts.push(hub.publish_at(topic, 1, "x".to_string(), 46));
            seen.push(drain(&mut rx));
        }
        (counts, seen)
    };
    assert_eq!(run(true), run(false));
    assert_eq!(run(true).1[0], ["39", "x"]);
    assert_eq!(run(true).1[1], ["37", "38", "x"]);
}

#[test]
fn slow_consumers_are_dropped() {
    let mut hub = Hub::new(100, 8);
    let (slow_tx, mut slow) = mpsc::channel(1);
    let (fast_tx, mut fast) = mpsc::channel(8);
    hub.subscribe_at("t", 1, slow_tx, 0);
    hub.subscribe_at("t", 2, fast_tx, 0);
    assert_eq!(hub.publish_at("t", 9, "a".to_string(), 0), 2);
    // The slow queue is full, so its subscriber is dropped.
    assert_eq!(hub.publish_at("t", 9, "b".to_string(), 0), 1);
    assert_eq!(drain(&mut slow), ["a"]);
    // Reading does not bring it back.
    assert_eq!(hub.publish_at("t", 9, "c".to_string(), 0), 1);
    assert!(drain(&mut slow).is_empty());
    assert_eq!(drain(&mut fast), ["a", "b", "c"]);
}

#[test]
fn dead_queues_are_dropped_and_the_frame_is_held() {
    let mut hub = Hub::new(100, 8);
    let (tx, rx) = mpsc::channel(8);
    hub.subscribe_at("t", 1, tx, 0);
    drop(rx);
    assert_eq!(hub.publish_at("t", 9, "a".to_string(), 0), 0);
    let (tx, mut rx) = mpsc::channel(8);
    hub.subscribe_at("t", 2, tx, 1);
    assert_eq!(drain(&mut rx), ["a"]);
}

#[test]
fn publisher_is_not_served() {
    let mut hub = Hub::new(100, 8);
    let (tx, mut rx) = mpsc::channel(8);
    hub.subscribe_at("t", 1, tx, 0);
    assert_eq!(hub.publish_at("t", 1, "a".to_string(), 0), 0);
    assert!(drain(&mut rx).is_empty());
    // It stays subscribed.
    assert_eq!(hub.publish_at("t", 2, "b".to_string(), 0), 1);
    assert_eq!(drain(&mut rx), ["b"]);
}

#[test]
fn subscribing_again_replaces_the_handle() {
    let mut hub = Hub::new(100, 8);
    let (first_tx, mut first) = mpsc::channel(8);
    let (second_tx, mut second) = mpsc::channel(8);
    hub.subscribe_at("t", 1, first_tx, 0);
    hub.subscribe_at("t", 1, second_tx, 0);
    assert_eq!(hub.publish_at("t", 2, "a".to_string(), 0), 1);
    assert!(drain(&mut first).is_empty());
    assert_eq!(drain(&mut second), ["a"]);
}

#[test]
fn a_full_queue_loses_backlog_but_joins() {
    let mut hub = Hub::new(100, 8);
    for frame in ["a", "b", "c"] {
        hub.publish_at("t", 1, frame.to_string(), 0);
    }
    let (tx, mut rx) = mpsc::channel(2);
    hub.subscribe_at("t", 2, tx, 1);
    assert_eq!(drain(&mut rx), ["a", "b"]);
    assert_eq!(hub.publish_at("t", 1, "d".to_string(), 2), 1);
    assert_eq!(drain(&mut rx), ["d"]);
}

#[test]
fn vacant_topics_are_forgotten() {
    let mut hub = Hub::new(100, 8);
    let (tx, _rx) = mpsc::channel(8);
    for topic in ["a", "b", "c"] {
        hub.subscribe_at(topic, 1, tx.clone(), 0);
    }
    hub.publish_at("d", 1, "x".to_string(), 0);
    assert_eq!(hub.topic_count(), 4);
    hub.unsubscribe("a", 1);
    assert_eq!(hub.topic_count(), 3);
    // Neither a stranger nor an unknown topic changes anything.
    hub.unsubscribe("b", 7);
    hub.unsubscribe("nowhere", 1);
    assert_eq!(hub.topic_count(), 3);
    // A topic with a held frame stays.
    hub.unsubscribe("d", 1);
    assert_eq!(hub.topic_count(), 3);
    hub.drop_connection(1, &["b".to_string(), "c".to_string(), "b".to_string()]);
    assert_eq!(hub.topic_count(), 1);
}

#[test]
fn sweep_takes_what_has_expired_and_nothing_else() {
    let mut hub = Hub::new(100, 8);
    let (tx, mut rx) = mpsc::channel(8);
    hub.subscribe_at("listened", 1, tx, 0);
    hub.publish_at("stale", 2, "a".to_string(), 0);
    hub.publish_at("mixed", 2, "b".to_string(), 0);
    hub.publish_at("mixed", 2, "c".to_string(), 50);
    hub.publish_at("fresh", 2, "d".to_string(), 60);
    assert_eq!(hub.topic_count(), 4);
    hub.prune_at(99);
    assert_eq!(hub.topic_count(), 4);
    hub.prune_at(100);
    assert_eq!(hub.topic_count(), 3);
    let (tx, mut mixed) = mpsc::channel(8);
    hub.subscribe_at("mixed", 3, tx, 100);
    assert_eq!(drain(&mut mixed), ["c"]);
    assert_eq!(hub.publish_at("listened", 2, "e".to_string(), 100), 1);
    assert_eq!(drain(&mut rx), ["e"]);
    hub.prune_at(1_000);
    assert_eq!(hub.topic_count(), 2);
}

#[test]
fn the_clock_runs() {
    // A time to live of zero has always passed, a long one has not.
    let mut hub = Hub::new(0, 8);
    hub.publish("t", 1, "a".to_string());
    hub.prune();
    assert_eq!(hub.topic_count(), 0);
    let mut hub = Hub::new(3_600_000_000_000, 8);
    hub.publish("t", 1, "a".to_string());
    hub.prune();
    assert_eq!(hub.topic_count(), 1);
    let (tx, mut rx) = mpsc::channel(8);
    hub.subscribe("t", 2, tx);
    assert_eq!(drain(&mut rx), ["a"]);
}

#[test]
fn time_does_not_run_backwards() {
    let mut clock = Clock::start();
    assert_eq!(clock.advance(5), 5);
    assert_eq!(clock.advance(3), 5);
    assert_eq!(clock.advance(8), 8);
    let mut clock = Clock::start();
    let first = clock.now();
    while clock.now() == first {}
    assert!(clock.now() > first);
}

#[test]
fn a_topic_draws_conclusions_from_refusals() {
    let mut topic = TopicState::new();
    assert!(topic.is_vacant());
    let (tx, mut rx) = mpsc::channel(8);
    for conn_id in [1, 2, 3] {
        topic.enroll(conn_id, tx.clone());
    }
    let frame = "a".to_string();
    assert!(topic.offer(1, &frame).is_empty());
    assert_eq!(drain(&mut rx), ["a", "a"]);
    // The publisher is not dropped, even if it is named among those that refused.
    assert_eq!(topic.settle(1, frame.clone(), &vec![1, 3], 0, 8), 1);
    assert!(topic.take_backlog(100, 0).is_empty());
    assert_eq!(topic.settle(1, frame.clone(), &vec![2], 0, 8), 0);
    assert_eq!(topic.take_backlog(100, 99), ["a"]);
    assert_eq!(topic.settle(1, frame, &vec![], 0, 8), 0);
    topic.prune(100, 100);
    assert!(!topic.is_vacant());
    topic.leave(1);
    assert!(topic.is_vacant());
}

#[test]
fn frames_are_tried_in_turn() {
    let (mut tx, mut rx) = mpsc::channel(2);
    send_all(&mut tx, vec!["a".to_string(), "b".to_string(), "c".to_string()]);
    assert_eq!(drain(&mut rx), ["a", "b"]);
}
