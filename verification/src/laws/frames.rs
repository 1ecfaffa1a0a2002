//! What a connection's frames do, said of the connection, the hub and the answers.

use vstd::prelude::*;

use crate::config::{SWEEP_INTERVAL_SECS, TRANSPORT_SLACK_BYTES};
use crate::conn::{
    id_text, write_for, CloseReason, ConnModel, Outbound, Report, Write, OUTBOUND_QUEUE,
};
use crate::laws::effects::{
    law_ending_takes_off_the_stalled, law_leave_takes_one_off, law_publish_for_given_answers,
    law_publish_goes_by_the_answers, law_publish_then_end, law_subscribe_adds_one_and_flushes,
};
use crate::model::{publishes, HubModel, Link};
use crate::protocol::{
    ack_json, deliver_json, error_json, json_string, json_text, opt_text, valid_topic,
    ClientFrame, ServerFrame, MAX_TOPIC_BYTES,
};
use crate::sender::{attempts, queue_of, FrameSender};
use crate::seqs::lemma_filter_no_duplicates;

verus! {

// ---- words ----

/// A topic is accepted exactly if it is not empty, takes no more than 128 bytes of UTF-8,
/// and has none of Unicode's white space characters in it.
pub proof fn law_topics_are_bounded_and_free_of_space(topic: Seq<char>)
    ensures
        valid_topic(topic) <==> {
            &&& topic.len() > 0
            &&& vstd::utf8::encode_utf8(topic).len() <= 128
            &&& forall|i: int|
                0 <= i < topic.len() ==> {
                    let c = (#[trigger] topic[i]) as int;
                    !(0x9 <= c <= 0xd || c == 0x20 || c == 0x85 || c == 0xa0 || c == 0x1680
                        || 0x2000 <= c <= 0x200a || c == 0x2028 || c == 0x2029 || c == 0x202f
                        || c == 0x205f || c == 0x3000)
                }
        },
{
}

/// The fixed limits of the relay: how many frames an outbound queue holds, how far above the
/// frame cap the transport cuts off, and how many seconds lie between two sweeps.
pub proof fn law_fixed_limits()
    ensures
        OUTBOUND_QUEUE == 256,
        TRANSPORT_SLACK_BYTES == 1024,
        SWEEP_INTERVAL_SECS == 30,
        MAX_TOPIC_BYTES == 128,
{
}

/// An optional string has the text of the string, or none.
pub proof fn law_optional_texts(id: Option<String>, s: Option<&str>)
    ensures
        id matches Some(text) ==> id_text(id) == Some(text@),
        id is None ==> id_text(id) is None,
        s matches Some(text) ==> opt_text(s) == Some(text@),
        s is None ==> opt_text(s) is None,
{
}

/// How the texts of the frames are put together: from the name of the operation, the
/// members as JSON strings, the id exactly if there is one, and the payload as it is.
pub proof fn law_texts_of_the_frames(
    topic: Seq<char>,
    code: Seq<char>,
    message: Seq<char>,
    id: Seq<char>,
    payload: Seq<char>,
)
    ensures
        deliver_json(topic, None, payload) == "{\"op\":\"deliver\",\"topic\":"@ + json_string(topic)
            + ",\"payload\":"@ + payload + "}"@,
        deliver_json(topic, Some(id), payload) == "{\"op\":\"deliver\",\"topic\":"@ + json_string(
            topic,
        ) + ",\"id\":"@ + json_string(id) + ",\"payload\":"@ + payload + "}"@,
        ack_json(topic, None) == "{\"op\":\"ack\",\"topic\":"@ + json_string(topic) + "}"@,
        ack_json(topic, Some(id)) == "{\"op\":\"ack\",\"topic\":"@ + json_string(topic)
            + ",\"id\":"@ + json_string(id) + "}"@,
        error_json(code, message, None) == "{\"op\":\"error\",\"code\":"@ + json_string(code)
            + ",\"message\":"@ + json_string(message) + "}"@,
        error_json(code, message, Some(id)) == "{\"op\":\"error\",\"code\":"@ + json_string(code)
            + ",\"message\":"@ + json_string(message) + ",\"id\":"@ + json_string(id) + "}"@,
{
    assert(deliver_json(topic, None, payload) =~= "{\"op\":\"deliver\",\"topic\":"@ + json_string(
        topic,
    ) + ",\"payload\":"@ + payload + "}"@);
    assert(deliver_json(topic, Some(id), payload) =~= "{\"op\":\"deliver\",\"topic\":"@ + json_string(
        topic,
    ) + ",\"id\":"@ + json_string(id) + ",\"payload\":"@ + payload + "}"@);
    assert(ack_json(topic, None) =~= "{\"op\":\"ack\",\"topic\":"@ + json_string(topic) + "}"@);
    assert(ack_json(topic, Some(id)) =~= "{\"op\":\"ack\",\"topic\":"@ + json_string(topic)
        + ",\"id\":"@ + json_string(id) + "}"@);
    assert(error_json(code, message, None) =~= "{\"op\":\"error\",\"code\":"@ + json_string(code)
        + ",\"message\":"@ + json_string(message) + "}"@);
    assert(error_json(code, message, Some(id)) =~= "{\"op\":\"error\",\"code\":"@ + json_string(code)
        + ",\"message\":"@ + json_string(message) + ",\"id\":"@ + json_string(id) + "}"@);
}

/// A frame's text is made of what the frame holds, all of it: its topic or its code and
/// message, its id, and the JSON text of its payload.
pub proof fn law_a_frame_says_what_it_holds(frame: ServerFrame)
    ensures
        match frame {
            ServerFrame::Deliver { topic, id: Some(id), payload } => frame.json()
                == "{\"op\":\"deliver\",\"topic\":"@ + json_string(topic@) + ",\"id\":"@
                + json_string(id@) + ",\"payload\":"@ + json_text(*payload) + "}"@,
            ServerFrame::Deliver { topic, id: None, payload } => frame.json()
                == "{\"op\":\"deliver\",\"topic\":"@ + json_string(topic@) + ",\"payload\":"@
                + json_text(*payload) + "}"@,
            ServerFrame::Ack { topic, id: Some(id) } => frame.json()
                == "{\"op\":\"ack\",\"topic\":"@ + json_string(topic@) + ",\"id\":"@ + json_string(
                id@,
            ) + "}"@,
            ServerFrame::Ack { topic, id: None } => frame.json() == "{\"op\":\"ack\",\"topic\":"@
                + json_string(topic@) + "}"@,
            ServerFrame::Error { code, message, id: Some(id) } => frame.json()
                == "{\"op\":\"error\",\"code\":"@ + json_string(code@) + ",\"message\":"@
                + json_string(message@) + ",\"id\":"@ + json_string(id@) + "}"@,
            ServerFrame::Error { code, message, id: None } => frame.json()
                == "{\"op\":\"error\",\"code\":"@ + json_string(code@) + ",\"message\":"@
                + json_string(message@) + "}"@,
        },
{
    match frame {
        ServerFrame::Deliver { topic, id, payload } => {
            law_texts_of_the_frames(
                topic@,
                Seq::empty(),
                Seq::empty(),
                opt_text(id)->0,
                json_text(*payload),
            );
        },
        ServerFrame::Ack { topic, id } => {
            law_texts_of_the_frames(
                topic@,
                Seq::empty(),
                Seq::empty(),
                opt_text(id)->0,
                Seq::empty(),
            );
        },
        ServerFrame::Error { code, message, id } => {
            law_texts_of_the_frames(
                Seq::empty(),
                code@,
                message@,
                opt_text(id)->0,
                Seq::empty(),
            );
        },
    }
}

/// Each reason has its word, and no two have the same.
pub proof fn law_reasons_have_their_words(reason: CloseReason, other: CloseReason)
    ensures
        reason.word() == match reason {
            CloseReason::PeerClosed => "peer_closed"@,
            CloseReason::IdleTimeout => "idle_timeout"@,
            CloseReason::WsError => "ws_error"@,
            CloseReason::CloseFrame => "close_frame"@,
            CloseReason::SlowConsumer => "slow_consumer"@,
        },
        reason.word() == other.word() ==> reason == other,
{
    reveal_strlit("peer_closed");
    reveal_strlit("idle_timeout");
    reveal_strlit("ws_error");
    reveal_strlit("close_frame");
    reveal_strlit("slow_consumer");
    assert("peer_closed"@[0] == 'p' && "idle_timeout"@[0] == 'i' && "ws_error"@[0] == 'w'
        && "close_frame"@[0] == 'c' && "slow_consumer"@[0] == 's');
}

/// The writer writes a frame as it is, closes once the queue is closed, and pings on every
/// tick exactly if pings are enabled.
pub proof fn law_the_writer_writes_what_it_gets(text: String, keepalive_ping_secs: u64)
    ensures
        write_for(Outbound::Frame(text), keepalive_ping_secs) == Write::Text(text),
        write_for(Outbound::QueueClosed, keepalive_ping_secs) is Close,
        keepalive_ping_secs > 0 ==> write_for(Outbound::Tick, keepalive_ping_secs) is Ping,
        keepalive_ping_secs == 0 ==> write_for(Outbound::Tick, keepalive_ping_secs) is Nothing,
{
}

// ---- before a text is read ----

/// A text is refused exactly if it is beyond the rate or, in bytes of UTF-8, above the frame
/// cap; what exceeds the rate is answered so, whatever its size.
pub proof fn law_what_is_refused_unread(conn: ConnModel, text: Seq<char>, within_rate: bool)
    ensures
        conn.refusal(text, within_rate) is None <==> within_rate && vstd::utf8::encode_utf8(
            text,
        ).len() <= conn.frame_cap,
        !within_rate ==> conn.refusal(text, within_rate) == Some(
            "{\"op\":\"error\",\"code\":"@ + json_string("rate_limited"@) + ",\"message\":"@
                + json_string("Inbound frame rate exceeded"@) + "}"@,
        ),
        within_rate && vstd::utf8::encode_utf8(text).len() > conn.frame_cap ==> conn.refusal(
            text,
            within_rate,
        ) == Some(
            "{\"op\":\"error\",\"code\":"@ + json_string("frame_too_large"@) + ",\"message\":"@
                + json_string("Frame exceeds the relay frame cap"@) + "}"@,
        ),
{
    let none = Seq::<char>::empty();
    law_texts_of_the_frames(
        none,
        "rate_limited"@,
        "Inbound frame rate exceeded"@,
        none,
        none,
    );
    law_texts_of_the_frames(
        none,
        "frame_too_large"@,
        "Frame exceeds the relay frame cap"@,
        none,
        none,
    );
}

// ---- what is no frame ----

/// A text that is no relay message is answered with an error, closes the connection, and
/// changes nothing.
pub proof fn law_a_bad_frame_closes(
    conn: ConnModel,
    queue: int,
    pre: HubModel,
    post: HubModel,
    report: Report,
    ended: Set<u64>,
    now: nat,
)
    requires
        conn.routes(None, queue, pre, post, report, ended, now),
    ensures
        conn.reply(None) == Some(
            "{\"op\":\"error\",\"code\":"@ + json_string("bad_frame"@) + ",\"message\":"@
                + json_string("Frame is not a valid relay message"@) + "}"@,
        ),
        conn.closes(None),
        conn.after(None) == conn,
        post == pre,
        report is Nothing,
        forall|c: u64| !#[trigger] ended.contains(c),
{
    let none = Seq::<char>::empty();
    law_texts_of_the_frames(
        none,
        "bad_frame"@,
        "Frame is not a valid relay message"@,
        none,
        none,
    );
}

// ---- subscribe ----

/// A subscribe frame takes effect exactly if the topic is valid, is not on the connection's
/// list yet, and there is room on the list. Then the topic goes to the end of the list, and
/// the connection is subscribed to it on the hub, through its own queue, with the live
/// backlog tried on it; every other connection is subscribed exactly as before, on every
/// topic. Otherwise nothing changes.
pub proof fn law_a_subscribe_frame_subscribes(
    conn: ConnModel,
    topic: String,
    queue: int,
    pre: HubModel,
    post: HubModel,
    report: Report,
    ended: Set<u64>,
    now: nat,
)
    requires
        conn.routes(
            Some(ClientFrame::Subscribe { topic }),
            queue,
            pre,
            post,
            report,
            ended,
            now,
        ),
    ensures
        ({
            let after = conn.after(Some(ClientFrame::Subscribe { topic }));
            let effective = valid_topic(topic@) && !conn.subscribed.contains(topic@)
                && conn.subscribed.len() < conn.max_topics;
            let mailbox = pre.topic(topic@).mailbox;
            let joined = post.topic(topic@).subscribers[conn.conn_id];
            &&& !effective ==> after == conn && post == pre && report is Nothing
            &&& effective ==> {
                &&& after.subscribed == conn.subscribed.push(topic@)
                &&& after.conn_id == conn.conn_id
                &&& after.frame_cap == conn.frame_cap
                &&& after.max_topics == conn.max_topics
                &&& report matches Report::Subscribed { topic: told } && told@ == topic@
                &&& post.subscribed(topic@, conn.conn_id)
                &&& joined.queue == queue
                &&& exists|at: Seq<int>|
                    {
                        &&& #[trigger] at.len() == joined.tried.len()
                        &&& forall|k: int|
                            0 <= k < at.len() ==> {
                                &&& 0 <= #[trigger] at[k] < mailbox.len()
                                &&& now < mailbox[at[k]].held_at + pre.ttl
                                &&& joined.tried[k].0 == mailbox[at[k]].frame
                            }
                        &&& forall|k: int, l: int|
                            0 <= k < l < at.len() ==> #[trigger] at[k] < #[trigger] at[l]
                        &&& forall|i: int|
                            0 <= i < mailbox.len() && now < (#[trigger] mailbox[i]).held_at
                                + pre.ttl ==> at.contains(i)
                    }
                &&& post.topic(topic@).mailbox.len() == 0
                &&& post.ttl == pre.ttl && post.depth == pre.depth && post.stalled == pre.stalled
            }
            &&& forall|t: Seq<char>, c: u64|
                !(t == topic@ && c == conn.conn_id) ==> (#[trigger] post.subscribed(t, c)
                    <==> pre.subscribed(t, c))
            &&& forall|t: Seq<char>, c: u64|
                !(t == topic@ && c == conn.conn_id) && #[trigger] pre.subscribed(t, c)
                    ==> post.topic(t).subscribers[c] == pre.topic(t).subscribers[c]
            &&& forall|t: Seq<char>|
                t != topic@ ==> (#[trigger] post.topic(t)).mailbox == pre.topic(t).mailbox
            &&& forall|c: u64| !#[trigger] ended.contains(c)
        }),
{
    if valid_topic(topic@) && !conn.subscribed.contains(topic@) && conn.subscribed.len()
        < conn.max_topics {
        let link = Link::fresh(queue);
        law_subscribe_adds_one_and_flushes(pre, post, topic@, conn.conn_id, link, now);
        let mailbox = pre.topic(topic@).mailbox;
        let joined = post.topic(topic@).subscribers[conn.conn_id];
        let at = choose|at: Seq<int>|
            {
                &&& #[trigger] at.len() + link.tried.len() == joined.tried.len()
                &&& forall|k: int|
                    0 <= k < at.len() ==> {
                        &&& 0 <= #[trigger] at[k] < mailbox.len()
                        &&& now < mailbox[at[k]].held_at + pre.ttl
                        &&& joined.tried[link.tried.len() + k].0 == mailbox[at[k]].frame
                    }
                &&& forall|k: int, l: int|
                    0 <= k < l < at.len() ==> #[trigger] at[k] < #[trigger] at[l]
                &&& forall|i: int|
                    0 <= i < mailbox.len() && now < (#[trigger] mailbox[i]).held_at + pre.ttl
                        ==> at.contains(i)
            };
        assert(at.len() == joined.tried.len());
        assert forall|t: Seq<char>, c: u64|
            !(t == topic@ && c == conn.conn_id) implies (#[trigger] post.subscribed(t, c)
            <==> pre.subscribed(t, c)) by {
            if t != topic@ {
                assert(post.topic(t) == pre.topic(t));
            }
        }
    }
}

/// A subscribe frame is answered only where it is refused: an invalid topic, which closes
/// the connection, or a new topic beyond the limit, which does not.
pub proof fn law_a_subscribe_frame_is_answered(conn: ConnModel, topic: String)
    ensures
        ({
            let frame = Some(ClientFrame::Subscribe { topic });
            &&& conn.closes(frame) <==> !valid_topic(topic@)
            &&& !valid_topic(topic@) ==> conn.reply(frame) == Some(
                "{\"op\":\"error\",\"code\":"@ + json_string("bad_topic"@) + ",\"message\":"@
                    + json_string("Invalid topic"@) + "}"@,
            )
            &&& valid_topic(topic@) && !conn.subscribed.contains(topic@) && conn.subscribed.len()
                >= conn.max_topics ==> conn.reply(frame) == Some(
                "{\"op\":\"error\",\"code\":"@ + json_string("topic_limit"@) + ",\"message\":"@
                    + json_string("Too many topics on one connection"@) + "}"@,
            )
            &&& valid_topic(topic@) && (conn.subscribed.contains(topic@) || conn.subscribed.len()
                < conn.max_topics) ==> conn.reply(frame) is None
        }),
{
    let none = Seq::<char>::empty();
    law_texts_of_the_frames(none, "bad_topic"@, "Invalid topic"@, none, none);
    law_texts_of_the_frames(
        none,
        "topic_limit"@,
        "Too many topics on one connection"@,
        none,
        none,
    );
}

// ---- unsubscribe ----

/// After an unsubscribe frame the connection is not subscribed to the topic on the hub, and
/// the topic is not on its list, whatever else is. Its other topics stay on the list; on
/// the hub everybody else, and the connection on every other topic, is subscribed exactly
/// as before, and every held frame stays. It is neither answered nor closed over.
pub proof fn law_an_unsubscribe_frame_unsubscribes(
    conn: ConnModel,
    topic: String,
    queue: int,
    pre: HubModel,
    post: HubModel,
    report: Report,
    ended: Set<u64>,
    now: nat,
)
    requires
        conn.routes(
            Some(ClientFrame::Unsubscribe { topic }),
            queue,
            pre,
            post,
            report,
            ended,
            now,
        ),
    ensures
        ({
            let frame = Some(ClientFrame::Unsubscribe { topic });
            let after = conn.after(frame);
            &&& !post.subscribed(topic@, conn.conn_id)
            &&& !after.subscribed.contains(topic@)
            &&& forall|t: Seq<char>|
                t != topic@ ==> (#[trigger] after.subscribed.contains(t)
                    <==> conn.subscribed.contains(t))
            &&& conn.subscribed.no_duplicates() ==> after.subscribed.no_duplicates()
            &&& !conn.subscribed.contains(topic@) ==> after.subscribed == conn.subscribed
            &&& conn.subscribed.no_duplicates() && conn.subscribed.contains(topic@)
                ==> after.subscribed.len() == conn.subscribed.len() - 1
            &&& after.conn_id == conn.conn_id
            &&& after.frame_cap == conn.frame_cap
            &&& after.max_topics == conn.max_topics
            &&& conn.reply(frame) is None
            &&& !conn.closes(frame)
            &&& report matches Report::Unsubscribed { topic: told } && told@ == topic@
            &&& forall|t: Seq<char>, c: u64|
                !(t == topic@ && c == conn.conn_id) ==> (#[trigger] post.subscribed(t, c)
                    <==> pre.subscribed(t, c))
            &&& forall|t: Seq<char>, c: u64|
                !(t == topic@ && c == conn.conn_id) && #[trigger] pre.subscribed(t, c)
                    ==> post.topic(t).subscribers[c] == pre.topic(t).subscribers[c]
            &&& forall|t: Seq<char>| (#[trigger] post.topic(t)).mailbox == pre.topic(t).mailbox
            &&& post.ttl == pre.ttl && post.depth == pre.depth && post.stalled == pre.stalled
            &&& forall|c: u64| !#[trigger] ended.contains(c)
        }),
{
    let frame = Some(ClientFrame::Unsubscribe { topic });
    let after = conn.after(frame);
    law_leave_takes_one_off(pre, set![topic@], conn.conn_id);
    let pred = |t: Seq<char>| t != topic@;
    lemma_forgotten(conn.subscribed, pred, topic@);
    assert(after.subscribed == conn.subscribed.filter(pred));
    assert forall|t: Seq<char>, c: u64|
        !(t == topic@ && c == conn.conn_id) implies (#[trigger] post.subscribed(t, c)
        <==> pre.subscribed(t, c)) by {}
    assert forall|t: Seq<char>, c: u64|
        !(t == topic@ && c == conn.conn_id) && #[trigger] pre.subscribed(t, c) implies post.topic(
        t,
    ).subscribers[c] == pre.topic(t).subscribers[c] by {
        assert(post.subscribed(t, c));
    }
}

/// Taking one text out of a list.
proof fn lemma_forgotten(
    list: Seq<Seq<char>>,
    pred: spec_fn(Seq<char>) -> bool,
    topic: Seq<char>,
)
    requires
        forall|t: Seq<char>| #[trigger] pred(t) <==> t != topic,
    ensures
        ({
            let kept = list.filter(pred);
            &&& !kept.contains(topic)
            &&& forall|t: Seq<char>|
                t != topic ==> (#[trigger] kept.contains(t) <==> list.contains(t))
            &&& list.no_duplicates() ==> kept.no_duplicates()
            &&& !list.contains(topic) ==> kept == list
            &&& list.no_duplicates() && list.contains(topic) ==> kept.len() == list.len() - 1
        }),
    decreases list.len(),
{
    reveal(Seq::filter);
    let kept = list.filter(pred);
    if list.no_duplicates() {
        lemma_filter_no_duplicates(list, pred);
    }
    if kept.contains(topic) {
        let i = choose|i: int| 0 <= i < kept.len() && kept[i] == topic;
        list.lemma_filter_pred(pred, i);
    }
    assert forall|t: Seq<char>| t != topic implies (#[trigger] kept.contains(t)
        <==> list.contains(t)) by {
        if list.contains(t) {
            let i = choose|i: int| 0 <= i < list.len() && list[i] == t;
            list.lemma_filter_contains(pred, i);
        }
        if kept.contains(t) {
            list.lemma_filter_contains_rev(pred, t);
        }
    }
    if list.len() > 0 {
        let before = list.drop_last();
        lemma_forgotten(before, pred, topic);
        assert(list =~= before.push(list.last()));
        if list.last() == topic {
            assert(list.contains(topic));
            if list.no_duplicates() {
                assert(!before.contains(topic)) by {
                    if before.contains(topic) {
                        let i = choose|i: int| 0 <= i < before.len() && before[i] == topic;
                        assert(list[i] == list[list.len() - 1]);
                    }
                }
            }
        } else if list.contains(topic) {
            let i = choose|i: int| 0 <= i < list.len() && list[i] == topic;
            assert(before[i] == topic);
        } else {
            assert(!before.contains(topic)) by {
                if before.contains(topic) {
                    let i = choose|i: int| 0 <= i < before.len() && before[i] == topic;
                    assert(list[i] == topic);
                }
            }
        }
    }
}

// ---- publish ----

/// A publish frame on a valid topic reaches every other subscriber, and never the publisher:
/// whoever is not ended over it was tried with the deliver frame and took it, and stays
/// subscribed. Whoever refused it, or had refused one before, is ended: off every topic.
/// The publisher's own subscriptions, on this topic and on every other, stay as they were,
/// through the same links, unless it is itself among those that are ended; and so does its
/// list.
pub proof fn law_a_publish_frame_reaches_every_other(
    conn: ConnModel,
    topic: String,
    id: Option<String>,
    payload: serde_json::Value,
    queue: int,
    pre: HubModel,
    post: HubModel,
    report: Report,
    ended: Set<u64>,
    now: nat,
)
    requires
        valid_topic(topic@),
        conn.routes(
            Some(ClientFrame::Publish { topic, id, payload }),
            queue,
            pre,
            post,
            report,
            ended,
            now,
        ),
    ensures
        ({
            let text = "{\"op\":\"deliver\",\"topic\":"@ + json_string(topic@) + (match id {
                Some(told) => ",\"id\":"@ + json_string(told@),
                None => Seq::<char>::empty(),
            }) + ",\"payload\":"@ + json_text(payload) + "}"@;
            let before = pre.topic(topic@);
            &&& conn.after(Some(ClientFrame::Publish { topic, id, payload })) == conn
            &&& post.ttl == pre.ttl && post.depth == pre.depth
            &&& forall|c: u64| !#[trigger] post.stalled.contains(c)
            &&& forall|t: Seq<char>, c: u64| #[trigger]
                post.subscribed(t, c) <==> pre.subscribed(t, c) && !ended.contains(c)
            &&& forall|t: Seq<char>, c: u64|
                (t != topic@ || c == conn.conn_id) && #[trigger] post.subscribed(t, c)
                    ==> post.topic(t).subscribers[c] == pre.topic(t).subscribers[c]
            &&& forall|c: u64|
                c != conn.conn_id && #[trigger] post.subscribed(topic@, c) ==> {
                    let link = post.topic(topic@).subscribers[c];
                    &&& link.queue == before.subscribers[c].queue
                    &&& link.tried == before.subscribers[c].tried.push((text, true))
                }
            &&& forall|c: u64| #[trigger]
                ended.contains(c) ==> pre.stalled.contains(c) || {
                    &&& c != conn.conn_id
                    &&& pre.subscribed(topic@, c)
                    &&& exists|sender: FrameSender|
                        queue_of(sender) == before.subscribers[c].queue && #[trigger] attempts(
                            sender,
                        ) == before.subscribers[c].tried.push((text, false))
                }
            &&& forall|c: u64| #[trigger] pre.stalled.contains(c) ==> ended.contains(c)
            &&& forall|t: Seq<char>|
                t != topic@ ==> (#[trigger] post.topic(t)).mailbox == pre.topic(t).mailbox
            &&& report matches Report::Published { topic: told, bytes, .. } && told@ == topic@
                && bytes == vstd::utf8::encode_utf8(text).len()
        }),
{
    let text = deliver_json(topic@, id_text(id), json_text(payload));
    law_texts_of_the_frames(
        topic@,
        Seq::empty(),
        Seq::empty(),
        id_text(id)->0,
        json_text(payload),
    );
    assert(text =~= "{\"op\":\"deliver\",\"topic\":"@ + json_string(topic@) + (match id {
        Some(told) => ",\"id\":"@ + json_string(told@),
        None => Seq::<char>::empty(),
    }) + ",\"payload\":"@ + json_text(payload) + "}"@);
    let delivered = report->Published_delivered as nat;
    law_publish_then_end(pre, post, topic@, conn.conn_id, text, delivered, ended, now);
    let mid = choose|mid: HubModel|
        {
            &&& publishes(pre, mid, topic@, conn.conn_id, text, delivered, now)
            &&& post == #[trigger] mid.ended()
            &&& forall|c: u64| #[trigger] ended.contains(c) <==> mid.stalled.contains(c)
        };
    law_publish_goes_by_the_answers(pre, mid, topic@, conn.conn_id, text, delivered, now);
    let refused = lemma_refused(pre, mid, topic@, conn.conn_id, text, delivered, now);
    law_publish_for_given_answers(pre, topic@, conn.conn_id, text, refused, now);
    law_ending_takes_off_the_stalled(mid);
    assert forall|t: Seq<char>, c: u64| #[trigger]
        post.subscribed(t, c) <==> pre.subscribed(t, c) && !ended.contains(c) by {
        assert(mid.subscribed(t, c) <==> mid.topic(t).subscribers.contains_key(c));
        if t != topic@ {
            assert(mid.topic(t) == pre.topic(t));
        } else {
            assert(mid.topic(t).subscribers.contains_key(c) <==> pre.topic(
                t,
            ).subscribers.contains_key(c) && (c == conn.conn_id || !refused.contains(c)));
        }
    }
    assert forall|t: Seq<char>, c: u64|
        (t != topic@ || c == conn.conn_id) && #[trigger] post.subscribed(t, c) implies post.topic(
        t,
    ).subscribers[c] == pre.topic(t).subscribers[c] by {
        assert(mid.subscribed(t, c));
        if t != topic@ {
            assert(mid.topic(t) == pre.topic(t));
        }
    }
    assert forall|c: u64| c != conn.conn_id && #[trigger] post.subscribed(topic@, c) implies {
        let link = post.topic(topic@).subscribers[c];
        &&& link.queue == pre.topic(topic@).subscribers[c].queue
        &&& link.tried == pre.topic(topic@).subscribers[c].tried.push((text, true))
    } by {
        assert(mid.subscribed(topic@, c));
        assert(mid.topic(topic@).subscribers.contains_key(c));
    }
    assert forall|t: Seq<char>| t != topic@ implies (#[trigger] post.topic(t)).mailbox == pre.topic(
        t,
    ).mailbox by {
        assert(mid.topic(t) == pre.topic(t));
    }
}

/// The connections that refused, as `law_publish_goes_by_the_answers` has them.
proof fn lemma_refused(
    pre: HubModel,
    mid: HubModel,
    topic: Seq<char>,
    from_conn: u64,
    frame: Seq<char>,
    delivered: nat,
    now: nat,
) -> (refused: Set<u64>)
    requires
        publishes(pre, mid, topic, from_conn, frame, delivered, now),
    ensures
        mid == pre.publish(topic, from_conn, frame, refused, now),
        delivered == Set::new(
            |c: u64|
                pre.topic(topic).subscribers.contains_key(c) && c != from_conn
                    && !refused.contains(c),
        ).len(),
        forall|c: u64| #[trigger]
            refused.contains(c) ==> {
                &&& pre.topic(topic).subscribers.contains_key(c)
                &&& c != from_conn
                &&& exists|sender: FrameSender|
                    queue_of(sender) == pre.topic(topic).subscribers[c].queue
                        && #[trigger] attempts(sender) == pre.topic(
                        topic,
                    ).subscribers[c].tried.push((frame, false))
            },
{
    law_publish_goes_by_the_answers(pre, mid, topic, from_conn, frame, delivered, now);
    choose|refused: Set<u64>|
        {
            let before = pre.topic(topic).subscribers;
            &&& mid == #[trigger] pre.publish(topic, from_conn, frame, refused, now)
            &&& delivered == Set::new(
                |c: u64| before.contains_key(c) && c != from_conn && !refused.contains(c),
            ).len()
            &&& forall|c: u64| #[trigger]
                refused.contains(c) ==> {
                    &&& before.contains_key(c)
                    &&& c != from_conn
                    &&& exists|sender: FrameSender|
                        queue_of(sender) == before[c].queue && #[trigger] attempts(sender)
                            == before[c].tried.push((frame, false))
                }
            &&& forall|c: u64| #[trigger]
                before.contains_key(c) && c != from_conn && !refused.contains(c) ==> exists|
                    sender: FrameSender,
                |
                    queue_of(sender) == before[c].queue && #[trigger] attempts(sender)
                        == before[c].tried.push((frame, true))
        }
}

/// What a publish frame came to is told as it was, where nobody was stalled before: the
/// number of subscribers, the publisher apart, that are not ended over it. If there are
/// none, the frame is held, as the newest of what the mailbox keeps; if there is one, the
/// mailbox stays as it was.
pub proof fn law_a_publish_frame_is_delivered_or_held(
    conn: ConnModel,
    topic: String,
    id: Option<String>,
    payload: serde_json::Value,
    queue: int,
    pre: HubModel,
    post: HubModel,
    report: Report,
    ended: Set<u64>,
    now: nat,
)
    requires
        valid_topic(topic@),
        pre.topic(topic@).subscribers.dom().finite(),
        forall|c: u64| !#[trigger] pre.stalled.contains(c),
        conn.routes(
            Some(ClientFrame::Publish { topic, id, payload }),
            queue,
            pre,
            post,
            report,
            ended,
            now,
        ),
    ensures
        ({
            let text = "{\"op\":\"deliver\",\"topic\":"@ + json_string(topic@) + (match id {
                Some(told) => ",\"id\":"@ + json_string(told@),
                None => Seq::<char>::empty(),
            }) + ",\"payload\":"@ + json_text(payload) + "}"@;
            let before = pre.topic(topic@).mailbox;
            let after = post.topic(topic@).mailbox;
            let took = Set::new(
                |c: u64|
                    pre.subscribed(topic@, c) && c != conn.conn_id && !ended.contains(c),
            );
            let lost = if before.len() + 1 <= pre.depth {
                0
            } else {
                before.len() + 1 - pre.depth
            };
            &&& report matches Report::Published { delivered, .. } && delivered == took.len()
            &&& took.len() > 0 ==> after == before
            &&& took.len() == 0 ==> after.len() == before.len() + 1 - lost
            &&& took.len() == 0 ==> forall|i: int|
                lost <= i < before.len() ==> after[i - lost] == #[trigger] before[i]
            &&& took.len() == 0 && pre.depth > 0 ==> after.last().held_at == now
                && after.last().frame == text
        }),
{
    let text = deliver_json(topic@, id_text(id), json_text(payload));
    law_texts_of_the_frames(
        topic@,
        Seq::empty(),
        Seq::empty(),
        id_text(id)->0,
        json_text(payload),
    );
    assert(text =~= "{\"op\":\"deliver\",\"topic\":"@ + json_string(topic@) + (match id {
        Some(told) => ",\"id\":"@ + json_string(told@),
        None => Seq::<char>::empty(),
    }) + ",\"payload\":"@ + json_text(payload) + "}"@);
    let delivered = report->Published_delivered as nat;
    law_publish_then_end(pre, post, topic@, conn.conn_id, text, delivered, ended, now);
    let mid = choose|mid: HubModel|
        {
            &&& publishes(pre, mid, topic@, conn.conn_id, text, delivered, now)
            &&& post == #[trigger] mid.ended()
            &&& forall|c: u64| #[trigger] ended.contains(c) <==> mid.stalled.contains(c)
        };
    let refused = lemma_refused(pre, mid, topic@, conn.conn_id, text, delivered, now);
    law_publish_for_given_answers(pre, topic@, conn.conn_id, text, refused, now);
    law_ending_takes_off_the_stalled(mid);
    let before = pre.topic(topic@);
    let took = Set::new(
        |c: u64| pre.subscribed(topic@, c) && c != conn.conn_id && !ended.contains(c),
    );
    assert forall|c: u64| #[trigger] ended.contains(c) <==> refused.contains(c) by {
        assert(mid.stalled.contains(c) <==> pre.stalled.contains(c) || refused.contains(c));
    }
    assert(took =~= Set::new(
        |c: u64|
            before.subscribers.contains_key(c) && c != conn.conn_id && !refused.contains(c),
    ));
    vstd::set_lib::lemma_set_subset_finite(before.subscribers.dom(), took);
    assert(post.topic(topic@).mailbox == mid.topic(topic@).mailbox);
    if took.len() > 0 {
        let c = took.choose();
        assert(took.contains(c));
        assert(before.subscribers.contains_key(c));
    } else {
        assert(took =~= Set::empty());
        assert forall|c: u64|
            c != conn.conn_id && !refused.contains(c) implies !#[trigger] before.subscribers.contains_key(
            c,
        ) by {
            assert(!took.contains(c));
        }
    }
}

/// A publish frame is always answered: on a valid topic with an ack that names the topic,
/// on any other with an error that closes the connection; either carries the frame's id, if
/// it has one. On an invalid topic nothing changes.
pub proof fn law_a_publish_frame_is_answered(
    conn: ConnModel,
    topic: String,
    id: Option<String>,
    payload: serde_json::Value,
    queue: int,
    pre: HubModel,
    post: HubModel,
    report: Report,
    ended: Set<u64>,
    now: nat,
)
    requires
        conn.routes(
            Some(ClientFrame::Publish { topic, id, payload }),
            queue,
            pre,
            post,
            report,
            ended,
            now,
        ),
    ensures
        ({
            let frame = Some(ClientFrame::Publish { topic, id, payload });
            let id_part = match id {
                Some(told) => ",\"id\":"@ + json_string(told@),
                None => Seq::<char>::empty(),
            };
            &&& conn.closes(frame) <==> !valid_topic(topic@)
            &&& valid_topic(topic@) ==> conn.reply(frame) == Some(
                "{\"op\":\"ack\",\"topic\":"@ + json_string(topic@) + id_part + "}"@,
            )
            &&& !valid_topic(topic@) ==> conn.reply(frame) == Some(
                "{\"op\":\"error\",\"code\":"@ + json_string("bad_topic"@) + ",\"message\":"@
                    + json_string("Invalid topic"@) + id_part + "}"@,
            )
            &&& !valid_topic(topic@) ==> conn.after(frame) == conn && post == pre
                && report is Nothing && forall|c: u64| !#[trigger] ended.contains(c)
        }),
{
    let id_part = match id {
        Some(told) => ",\"id\":"@ + json_string(told@),
        None => Seq::<char>::empty(),
    };
    law_texts_of_the_frames(
        topic@,
        "bad_topic"@,
        "Invalid topic"@,
        id_text(id)->0,
        Seq::empty(),
    );
    assert(ack_json(topic@, id_text(id)) =~= "{\"op\":\"ack\",\"topic\":"@ + json_string(topic@)
        + id_part + "}"@);
    assert(error_json("bad_topic"@, "Invalid topic"@, id_text(id))
        =~= "{\"op\":\"error\",\"code\":"@ + json_string("bad_topic"@) + ",\"message\":"@
        + json_string("Invalid topic"@) + id_part + "}"@);
}

} // verus!
