//! What a connection may hold, and what it leaves behind.

use vstd::prelude::*;

use crate::conn::{id_text, write_for, ConnModel, Outbound, Report, Write};
use crate::laws::effects::{law_leave_takes_one_off, law_prune_takes_only_the_expired};
use crate::laws::frames::{
    law_a_publish_frame_reaches_every_other, law_a_subscribe_frame_subscribes,
    law_an_unsubscribe_frame_unsubscribes,
};
use crate::laws::mailbox::law_prune_takes_the_expired;
use crate::model::{
    all_tried, lemma_ended_topic, lemma_leave_topic, lemma_publish_topic, link_of, live_frames,
    publishes, publishes_and_ends, HubModel, Link,
};
use crate::protocol::{deliver_json, json_text, valid_topic, ClientFrame};
use crate::sender::FrameSender;
use crate::seqs::lemma_filter_no_duplicates;

verus! {

/// The connection is subscribed on the hub to nothing but the topics on its own list, and
/// through nothing but its own queue.
pub open spec fn at_home(hub: HubModel, conn: ConnModel, queue: int) -> bool {
    forall|t: Seq<char>| #[trigger]
        hub.subscribed(t, conn.conn_id) ==> conn.subscribed.contains(t) && hub.topic(
            t,
        ).subscribers[conn.conn_id].queue == queue
}

/// Whatever frame it sends, a connection stays at home.
pub proof fn law_frames_keep_a_connection_at_home(
    conn: ConnModel,
    frame: Option<ClientFrame>,
    queue: int,
    pre: HubModel,
    post: HubModel,
    report: Report,
    ended: Set<u64>,
    now: nat,
)
    requires
        at_home(pre, conn, queue),
        conn.routes(frame, queue, pre, post, report, ended, now),
    ensures
        at_home(post, conn.after(frame), queue),
{
    let after = conn.after(frame);
    assert forall|t: Seq<char>| #[trigger]
        post.subscribed(t, conn.conn_id) implies after.subscribed.contains(t) && post.topic(
        t,
    ).subscribers[conn.conn_id].queue == queue by {
        match frame {
            Some(ClientFrame::Subscribe { topic }) if conn.admits(topic@) => {
                let link = Link::fresh(queue);
                let accepted = choose|accepted: Seq<bool>|
                    {
                        &&& accepted.len() == live_frames(
                            pre.topic(topic@).mailbox,
                            pre.ttl,
                            now,
                        ).len()
                        &&& post == #[trigger] pre.subscribe(
                            topic@,
                            conn.conn_id,
                            link,
                            accepted,
                            now,
                        )
                    };
                if t == topic@ {
                    assert(after.subscribed[conn.subscribed.len() as int] == t);
                } else {
                    assert(pre.subscribed(t, conn.conn_id));
                    let i = choose|i: int|
                        0 <= i < conn.subscribed.len() && conn.subscribed[i] == t;
                    assert(after.subscribed[i] == t);
                }
            },
            Some(ClientFrame::Unsubscribe { topic }) => {
                assert(t != topic@);
                assert(pre.subscribed(t, conn.conn_id));
                let i = choose|i: int| 0 <= i < conn.subscribed.len() && conn.subscribed[i] == t;
                conn.subscribed.lemma_filter_contains(|u: Seq<char>| u != topic@, i);
            },
            Some(ClientFrame::Publish { topic, id, payload }) if valid_topic(topic@) => {
                let frame_text = deliver_json(
                    topic@,
                    id_text(id),
                    json_text(payload),
                );
                let delivered = report->Published_delivered as nat;
                lemma_publish_adds_nobody(
                    pre,
                    post,
                    topic@,
                    conn.conn_id,
                    frame_text,
                    delivered,
                    ended,
                    now,
                    t,
                    conn.conn_id,
                );
            },
            _ => {
                assert(pre.subscribed(t, conn.conn_id));
            },
        }
    }
}

/// Whoever is subscribed after a publish was subscribed before, through the same queue.
proof fn lemma_publish_adds_nobody(
    pre: HubModel,
    post: HubModel,
    topic: Seq<char>,
    from_conn: u64,
    frame: Seq<char>,
    delivered: nat,
    ended: Set<u64>,
    now: nat,
    t: Seq<char>,
    c: u64,
)
    requires
        publishes_and_ends(pre, post, topic, from_conn, frame, delivered, ended, now),
        post.subscribed(t, c),
    ensures
        pre.subscribed(t, c),
        post.topic(t).subscribers[c].queue == pre.topic(t).subscribers[c].queue,
{
    let mid = choose|mid: HubModel|
        {
            &&& publishes(pre, mid, topic, from_conn, frame, delivered, now)
            &&& ended == mid.stalled
            &&& post == #[trigger] mid.ended()
        };
    let refused = choose|refused: Set<u64>|
        {
            &&& refused.subset_of(pre.topic(topic).others(from_conn))
            &&& all_tried(pre.topic(topic).offered(from_conn, frame, refused))
            &&& delivered == pre.topic(topic).delivered(from_conn, refused)
            &&& mid == #[trigger] pre.publish(topic, from_conn, frame, refused, now)
        };
    lemma_ended_topic(mid, t);
    lemma_publish_topic(pre, topic, from_conn, frame, refused, now, t);
}

/// A publish serves every other subscriber of the topic, or ends it: one that is not ended
/// took the frame, as the newest through its link, and stays subscribed. One that is ended
/// was tried and refused, now or before, and is subscribed to nothing any more.
pub proof fn law_publish_serves_or_ends(
    conn: ConnModel,
    topic: String,
    id: Option<String>,
    payload: serde_json::Value,
    queue: int,
    pre: HubModel,
    post: HubModel,
    report: Report,
    ended: Set<u64>,
    now: nat,
    c: u64,
)
    requires
        valid_topic(topic@),
        conn.routes(
            Some(ClientFrame::Publish { topic, id, payload }),
            queue,
            pre,
            post,
            report,
            ended,
            now,
        ),
        pre.subscribed(topic@, c),
        c != conn.conn_id,
    ensures
        ({
            let frame = deliver_json(topic@, id_text(id), json_text(payload));
            let link = pre.topic(topic@).subscribers[c];
            &&& !ended.contains(c) ==> post.subscribed(topic@, c) && post.topic(
                topic@,
            ).subscribers[c] == link.and(frame, true)
            &&& ended.contains(c) ==> forall|t: Seq<char>| !#[trigger] post.subscribed(t, c)
            &&& ended.contains(c) ==> pre.stalled.contains(c) || exists|sender: FrameSender|
                #[trigger] link_of(sender) == link.and(frame, false)
        }),
{
    let frame = deliver_json(topic@, id_text(id), json_text(payload));
    let delivered = report->Published_delivered as nat;
    let mid = choose|mid: HubModel|
        {
            &&& publishes(pre, mid, topic@, conn.conn_id, frame, delivered, now)
            &&& ended == mid.stalled
            &&& post == #[trigger] mid.ended()
        };
    let refused = choose|refused: Set<u64>|
        {
            &&& refused.subset_of(pre.topic(topic@).others(conn.conn_id))
            &&& all_tried(pre.topic(topic@).offered(conn.conn_id, frame, refused))
            &&& delivered == pre.topic(topic@).delivered(conn.conn_id, refused)
            &&& mid == #[trigger] pre.publish(topic@, conn.conn_id, frame, refused, now)
        };
    let tried = pre.topic(topic@).offered(conn.conn_id, frame, refused);
    assert(tried.subscribers.contains_key(c));
    lemma_publish_topic(pre, topic@, conn.conn_id, frame, refused, now, topic@);
    lemma_ended_topic(mid, topic@);
    assert forall|t: Seq<char>| ended.contains(c) implies !#[trigger] post.subscribed(t, c) by {
        lemma_ended_topic(mid, t);
    }
}

/// Whatever frame another connection sends, a connection stays at home.
pub proof fn law_others_keep_a_connection_at_home(
    conn: ConnModel,
    queue: int,
    other: ConnModel,
    frame: Option<ClientFrame>,
    other_queue: int,
    pre: HubModel,
    post: HubModel,
    report: Report,
    ended: Set<u64>,
    now: nat,
)
    requires
        other.conn_id != conn.conn_id,
        at_home(pre, conn, queue),
        other.routes(frame, other_queue, pre, post, report, ended, now),
    ensures
        at_home(post, conn, queue),
{
    assert forall|t: Seq<char>| #[trigger]
        post.subscribed(t, conn.conn_id) implies pre.subscribed(t, conn.conn_id) && post.topic(
        t,
    ).subscribers[conn.conn_id].queue == pre.topic(t).subscribers[conn.conn_id].queue by {
        match frame {
            Some(ClientFrame::Subscribe { topic }) if other.admits(topic@) => {
                let link = Link::fresh(other_queue);
                let accepted = choose|accepted: Seq<bool>|
                    {
                        &&& accepted.len() == live_frames(
                            pre.topic(topic@).mailbox,
                            pre.ttl,
                            now,
                        ).len()
                        &&& post == #[trigger] pre.subscribe(
                            topic@,
                            other.conn_id,
                            link,
                            accepted,
                            now,
                        )
                    };
            },
            Some(ClientFrame::Publish { topic, id, payload }) if valid_topic(topic@) => {
                let frame_text = deliver_json(
                    topic@,
                    id_text(id),
                    json_text(payload),
                );
                let delivered = report->Published_delivered as nat;
                lemma_publish_adds_nobody(
                    pre,
                    post,
                    topic@,
                    other.conn_id,
                    frame_text,
                    delivered,
                    ended,
                    now,
                    t,
                    conn.conn_id,
                );
            },
            _ => {},
        }
    }
}

/// The sweep, and another connection's end, leave a connection at home.
pub proof fn law_upkeep_keeps_a_connection_at_home(
    conn: ConnModel,
    queue: int,
    hub: HubModel,
    now: nat,
    names: Set<Seq<char>>,
    conn_id: u64,
)
    requires
        at_home(hub, conn, queue),
    ensures
        at_home(hub.prune(now), conn, queue),
        at_home(hub.leave(names, conn_id), conn, queue),
{
    assert forall|t: Seq<char>| #[trigger]
        hub.prune(now).subscribed(t, conn.conn_id) implies hub.subscribed(t, conn.conn_id)
        && hub.prune(now).topic(t).subscribers[conn.conn_id] == hub.topic(t).subscribers[conn.conn_id] by {
        law_prune_takes_the_expired(hub, t, now);
    }
    assert forall|t: Seq<char>| #[trigger]
        hub.leave(names, conn_id).subscribed(t, conn.conn_id) implies hub.subscribed(
        t,
        conn.conn_id,
    ) && hub.leave(names, conn_id).topic(t).subscribers[conn.conn_id] == hub.topic(
        t,
    ).subscribers[conn.conn_id] by {}
}

/// A connection that was at home and has left its topics is subscribed to nothing: no
/// trace of a closed connection stays on the hub.
pub proof fn law_closed_connection_is_gone(conn: ConnModel, queue: int, hub: HubModel)
    requires
        at_home(hub, conn, queue),
    ensures
        forall|t: Seq<char>|
            !(#[trigger] hub.leave(conn.subscribed.to_set(), conn.conn_id).subscribed(
                t,
                conn.conn_id,
            )),
{
    assert forall|t: Seq<char>|
        !(#[trigger] hub.leave(conn.subscribed.to_set(), conn.conn_id).subscribed(
            t,
            conn.conn_id,
        )) by {
        if hub.subscribed(t, conn.conn_id) {
            assert(conn.subscribed.to_set().contains(t));
        }
    }
}

/// What may happen while a connection is open.
pub enum Event {
    /// The connection sent a frame (`None`: a text that is no relay message).
    Frame { frame: Option<ClientFrame>, report: Report, ended: Set<u64>, now: nat },
    /// Another connection did.
    OtherFrame {
        other: ConnModel,
        other_queue: int,
        frame: Option<ClientFrame>,
        report: Report,
        ended: Set<u64>,
        now: nat,
    },
    /// Another connection's loop ended.
    OtherEnd { other: ConnModel },
    /// The hub was swept.
    Sweep { now: nat },
}

/// What the event can make of the hub and of the connection whose queue is `queue`.
pub open spec fn happens(
    event: Event,
    queue: int,
    pre: (HubModel, ConnModel),
    post: (HubModel, ConnModel),
) -> bool {
    match event {
        Event::Frame { frame, report, ended, now } => {
            &&& pre.1.routes(frame, queue, pre.0, post.0, report, ended, now)
            &&& post.1 == pre.1.after(frame)
        },
        Event::OtherFrame { other, other_queue, frame, report, ended, now } => {
            &&& other.conn_id != pre.1.conn_id
            &&& other.routes(frame, other_queue, pre.0, post.0, report, ended, now)
            &&& post.1 == pre.1
        },
        Event::OtherEnd { other } => {
            &&& other.conn_id != pre.1.conn_id
            &&& post.0 == pre.0.leave(other.subscribed.to_set(), other.conn_id)
            &&& post.1 == pre.1
        },
        Event::Sweep { now } => post.0 == pre.0.prune(now) && post.1 == pre.1,
    }
}

/// The states that the events lead through, the first one included.
pub open spec fn passes_through(
    events: Seq<Event>,
    queue: int,
    states: Seq<(HubModel, ConnModel)>,
) -> bool {
    &&& states.len() == events.len() + 1
    &&& forall|i: int|
        0 <= i < events.len() ==> happens(#[trigger] events[i], queue, states[i], states[i + 1])
}

/// Along any run that begins at home, the connection stays at home.
proof fn lemma_run_stays_at_home(
    events: Seq<Event>,
    queue: int,
    states: Seq<(HubModel, ConnModel)>,
    n: int,
)
    requires
        passes_through(events, queue, states),
        at_home(states[0].0, states[0].1, queue),
        0 <= n < states.len(),
    ensures
        at_home(states[n].0, states[n].1, queue),
        states[n].1.conn_id == states[0].1.conn_id,
    decreases n,
{
    if n > 0 {
        lemma_run_stays_at_home(events, queue, states, n - 1);
        let pre = states[n - 1];
        let post = states[n];
        assert(happens(events[n - 1], queue, pre, post));
        match events[n - 1] {
            Event::Frame { frame, report, ended, now } => {
                law_frames_keep_a_connection_at_home(
                    pre.1,
                    frame,
                    queue,
                    pre.0,
                    post.0,
                    report,
                    ended,
                    now,
                );
            },
            Event::OtherFrame { other, other_queue, frame, report, ended, now } => {
                law_others_keep_a_connection_at_home(
                    pre.1,
                    queue,
                    other,
                    frame,
                    other_queue,
                    pre.0,
                    post.0,
                    report,
                    ended,
                    now,
                );
            },
            Event::OtherEnd { other } => {
                law_upkeep_keeps_a_connection_at_home(
                    pre.1,
                    queue,
                    pre.0,
                    0,
                    other.subscribed.to_set(),
                    other.conn_id,
                );
            },
            Event::Sweep { now } => {
                law_upkeep_keeps_a_connection_at_home(
                    pre.1,
                    queue,
                    pre.0,
                    now,
                    Set::empty(),
                    0,
                );
            },
        }
    }
}

/// Whatever happened while a connection was open, whatever it sent and for whatever reason
/// its loop ended: a connection that the hub did not know before is, once it has been
/// taken out, subscribed to nothing. Nobody else is taken off a topic by that, and every
/// held frame stays.
pub proof fn law_closed_connection_leaves_nothing(
    events: Seq<Event>,
    queue: int,
    states: Seq<(HubModel, ConnModel)>,
)
    requires
        passes_through(events, queue, states),
        forall|t: Seq<char>| !#[trigger] states[0].0.subscribed(t, states[0].1.conn_id),
    ensures
        ({
            let conn_id = states[0].1.conn_id;
            let (hub, conn) = states.last();
            let after = hub.leave(conn.subscribed.to_set(), conn_id);
            &&& conn.conn_id == conn_id
            &&& forall|t: Seq<char>| !#[trigger] after.subscribed(t, conn_id)
            &&& forall|t: Seq<char>| (#[trigger] after.topic(t)).mailbox == hub.topic(t).mailbox
            &&& forall|t: Seq<char>|
                (#[trigger] after.topic(t)).subscribers == hub.topic(t).subscribers.remove(conn_id)
        }),
{
    let conn_id = states[0].1.conn_id;
    let (hub, conn) = states.last();
    let names = conn.subscribed.to_set();
    lemma_run_stays_at_home(events, queue, states, states.len() - 1);
    law_closed_connection_is_gone(conn, queue, hub);
    assert forall|t: Seq<char>|
        (#[trigger] hub.leave(names, conn_id).topic(t)).mailbox == hub.topic(t).mailbox && hub.leave(
            names,
            conn_id,
        ).topic(t).subscribers == hub.topic(t).subscribers.remove(conn_id) by {
        lemma_leave_topic(hub, names, conn_id, t);
        if !names.contains(t) {
            assert(!hub.subscribed(t, conn_id));
            assert(hub.topic(t).subscribers.remove(conn_id) =~= hub.topic(t).subscribers);
        }
    }
}

/// Who is ended over the event.
pub open spec fn ended_over(event: Event) -> Set<u64> {
    match event {
        Event::Frame { ended, .. } => ended,
        Event::OtherFrame { ended, .. } => ended,
        _ => Set::empty(),
    }
}

/// A frame of a connection leaves another connection, if it is not ended over it, with
/// exactly the subscriptions that it had.
proof fn lemma_frame_spares_others(
    sender: ConnModel,
    frame: Option<ClientFrame>,
    queue: int,
    pre: HubModel,
    post: HubModel,
    report: Report,
    ended: Set<u64>,
    now: nat,
    c: u64,
    t: Seq<char>,
)
    requires
        sender.routes(frame, queue, pre, post, report, ended, now),
        c != sender.conn_id,
        !ended.contains(c),
    ensures
        post.subscribed(t, c) <==> pre.subscribed(t, c),
{
    match frame {
        Some(ClientFrame::Subscribe { topic }) => {
            law_a_subscribe_frame_subscribes(
                sender,
                topic,
                queue,
                pre,
                post,
                report,
                ended,
                now,
            );
        },
        Some(ClientFrame::Unsubscribe { topic }) => {
            law_an_unsubscribe_frame_unsubscribes(
                sender,
                topic,
                queue,
                pre,
                post,
                report,
                ended,
                now,
            );
        },
        Some(ClientFrame::Publish { topic, id, payload }) => {
            if valid_topic(topic@) {
                law_a_publish_frame_reaches_every_other(
                    sender,
                    topic,
                    id,
                    payload,
                    queue,
                    pre,
                    post,
                    report,
                    ended,
                    now,
                );
            }
        },
        None => {},
    }
}

/// A frame of a connection, if it is not ended over it, changes its subscriptions on the
/// hub as it changes its list.
proof fn lemma_frame_keeps_the_list(
    conn: ConnModel,
    frame: Option<ClientFrame>,
    queue: int,
    pre: HubModel,
    post: HubModel,
    report: Report,
    ended: Set<u64>,
    now: nat,
    t: Seq<char>,
)
    requires
        conn.routes(frame, queue, pre, post, report, ended, now),
        !ended.contains(conn.conn_id),
        pre.subscribed(t, conn.conn_id) <==> conn.subscribed.contains(t),
    ensures
        post.subscribed(t, conn.conn_id) <==> conn.after(frame).subscribed.contains(t),
{
    match frame {
        Some(ClientFrame::Subscribe { topic }) => {
            law_a_subscribe_frame_subscribes(conn, topic, queue, pre, post, report, ended, now);
            let after = conn.after(frame).subscribed;
            if after == conn.subscribed.push(topic@) {
                assert(after[conn.subscribed.len() as int] == topic@);
                if conn.subscribed.contains(t) {
                    let i = choose|i: int|
                        0 <= i < conn.subscribed.len() && conn.subscribed[i] == t;
                    assert(after[i] == t);
                }
            }
        },
        Some(ClientFrame::Unsubscribe { topic }) => {
            law_an_unsubscribe_frame_unsubscribes(
                conn,
                topic,
                queue,
                pre,
                post,
                report,
                ended,
                now,
            );
        },
        Some(ClientFrame::Publish { topic, id, payload }) => {
            if valid_topic(topic@) {
                law_a_publish_frame_reaches_every_other(
                    conn,
                    topic,
                    id,
                    payload,
                    queue,
                    pre,
                    post,
                    report,
                    ended,
                    now,
                );
            }
        },
        None => {},
    }
}

/// Along any run that begins with a connection that the hub does not know and whose list is
/// empty, the connection is subscribed on the hub to exactly the topics on its list, as long
/// as it is not ended: nothing that it sends, nothing that others do and no sweep takes it
/// off a topic behind its back.
pub proof fn law_subscriptions_are_those_on_the_list(
    events: Seq<Event>,
    queue: int,
    states: Seq<(HubModel, ConnModel)>,
    n: int,
)
    requires
        passes_through(events, queue, states),
        states[0].1.subscribed.len() == 0,
        forall|t: Seq<char>| !#[trigger] states[0].0.subscribed(t, states[0].1.conn_id),
        0 <= n < states.len(),
        forall|i: int|
            0 <= i < n ==> !ended_over(#[trigger] events[i]).contains(states[0].1.conn_id),
    ensures
        states[n].1.conn_id == states[0].1.conn_id,
        forall|t: Seq<char>| #[trigger]
            states[n].0.subscribed(t, states[0].1.conn_id)
                <==> states[n].1.subscribed.contains(t),
    decreases n,
{
    if n > 0 {
        law_subscriptions_are_those_on_the_list(events, queue, states, n - 1);
        let pre = states[n - 1];
        let post = states[n];
        let conn_id = pre.1.conn_id;
        assert(happens(events[n - 1], queue, pre, post));
        assert(!ended_over(events[n - 1]).contains(conn_id));
        assert forall|t: Seq<char>| #[trigger]
            post.0.subscribed(t, conn_id) <==> post.1.subscribed.contains(t) by {
            assert(pre.0.subscribed(t, conn_id) <==> pre.1.subscribed.contains(t));
            match events[n - 1] {
                Event::Frame { frame, report, ended, now } => {
                    lemma_frame_keeps_the_list(
                        pre.1,
                        frame,
                        queue,
                        pre.0,
                        post.0,
                        report,
                        ended,
                        now,
                        t,
                    );
                },
                Event::OtherFrame { other, other_queue, frame, report, ended, now } => {
                    lemma_frame_spares_others(
                        other,
                        frame,
                        other_queue,
                        pre.0,
                        post.0,
                        report,
                        ended,
                        now,
                        conn_id,
                        t,
                    );
                },
                Event::OtherEnd { other } => {
                    law_leave_takes_one_off(pre.0, other.subscribed.to_set(), other.conn_id);
                },
                Event::Sweep { now } => {
                    law_prune_takes_only_the_expired(pre.0, now, t);
                },
            }
        }
    }
}

/// The writer puts every frame that it takes from the queue on the socket, in the order of
/// the queue; and once the queue is closed and drained it writes a close frame, the only
/// one, and last of all.
pub proof fn law_writer_drains_and_closes(outbounds: Seq<Outbound>, keepalive_ping_secs: u64)
    requires
        outbounds.len() > 0,
        outbounds.last() is QueueClosed,
        forall|i: int|
            0 <= i < outbounds.len() - 1 ==> !(#[trigger] outbounds[i] is QueueClosed),
    ensures
        ({
            let writes = outbounds.map_values(|o: Outbound| write_for(o, keepalive_ping_secs));
            &&& writes.len() == outbounds.len()
            &&& forall|i: int|
                0 <= i < writes.len() ==> {
                    &&& #[trigger] outbounds[i] matches Outbound::Frame(text) ==> writes[i]
                        == Write::Text(text)
                    &&& writes[i] matches Write::Text(text) ==> outbounds[i] == Outbound::Frame(
                        text,
                    )
                    &&& writes[i] is Close <==> i == writes.len() - 1
                }
        }),
{
}

/// No frame makes a connection hold more topics than it may, or one of them twice.
pub proof fn law_topic_limit_holds(conn: ConnModel, frame: Option<ClientFrame>)
    requires
        conn.inv(),
    ensures
        conn.after(frame).inv(),
{
    match frame {
        Some(ClientFrame::Unsubscribe { topic }) => {
            let pred = |t: Seq<char>| t != topic@;
            conn.subscribed.lemma_filter_len(pred);
            lemma_filter_no_duplicates(conn.subscribed, pred);
        },
        _ => {},
    }
}

/// A frame that is answered with an error, whether or not the connection is closed over
/// it, changes neither the connection nor the hub; and every frame over which it is closed
/// is answered.
pub proof fn law_refused_frame_changes_nothing(
    conn: ConnModel,
    frame: Option<ClientFrame>,
    queue: int,
    pre: HubModel,
    post: HubModel,
    report: Report,
    ended: Set<u64>,
    now: nat,
)
    requires
        conn.routes(frame, queue, pre, post, report, ended, now),
        conn.closes(frame) || (frame matches Some(ClientFrame::Subscribe { topic })
            && conn.reply(frame) is Some),
    ensures
        conn.after(frame) == conn,
        post == pre,
        conn.reply(frame) is Some,
{
}

/// The relay does not look inside a payload: two publishes that differ in nothing else get
/// the same answer and leave the connection in the same state.
pub proof fn law_payload_is_not_read(
    conn: ConnModel,
    topic: String,
    id: Option<String>,
    payload: serde_json::Value,
    other_payload: serde_json::Value,
)
    ensures
        ({
            let frame = Some(ClientFrame::Publish { topic, id, payload });
            let other = Some(ClientFrame::Publish { topic, id, payload: other_payload });
            &&& conn.reply(frame) == conn.reply(other)
            &&& conn.closes(frame) == conn.closes(other)
            &&& conn.after(frame) == conn.after(other)
        }),
{
}

/// Subscribing to too many topics is answered, but does not close the connection; nor does
/// subscribing twice, which is not even answered and changes nothing.
pub proof fn law_topic_limit_does_not_close(conn: ConnModel, topic: String)
    requires
        valid_topic(topic@),
    ensures
        ({
            let frame = Some(ClientFrame::Subscribe { topic });
            &&& !conn.closes(frame)
            &&& conn.subscribed.contains(topic@) ==> conn.reply(frame) is None && conn.after(frame)
                == conn
            &&& !conn.subscribed.contains(topic@) ==> (conn.reply(frame) is Some
                <==> conn.subscribed.len() >= conn.max_topics)
        }),
{
}

} // verus!
