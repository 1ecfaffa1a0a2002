//! What each operation of the hub does, said of who is subscribed, through what, and of
//! what is held.

use vstd::prelude::*;

use crate::laws::mailbox::law_prune_takes_the_expired;
use crate::model::{
    all_tried, lemma_ended_topic, lemma_leave_topic, lemma_publish_topic, link_of, live_frames,
    publishes, publishes_and_ends, subscribes, texts, Held, HubModel, Link, TopicModel,
};
use crate::sender::{attempts, queue_of, FrameSender};
use crate::seqs::lemma_filter_picks;

verus! {

// ---- handles, links, texts ----

/// A link tells which queue the handle feeds, and what was tried through it.
pub proof fn law_a_link_is_its_handles(sender: FrameSender)
    ensures
        link_of(sender).queue == queue_of(sender),
        link_of(sender).tried == attempts(sender),
{
}

/// Trying frames through a link adds each of them, with its answer, to what was tried, in
/// order, and changes nothing else.
pub proof fn law_trying_adds_up(
    link: Link,
    queue: int,
    frame: Seq<char>,
    answer: bool,
    frames: Seq<Seq<char>>,
    answers: Seq<bool>,
)
    ensures
        link.and(frame, answer).queue == link.queue,
        link.and(frame, answer).tried == link.tried.push((frame, answer)),
        link.and_those(frames, answers).queue == link.queue,
        link.and_those(frames, answers).tried.len() == link.tried.len() + frames.len(),
        forall|k: int|
            0 <= k < link.tried.len() ==> #[trigger] link.and_those(frames, answers).tried[k]
                == link.tried[k],
        forall|k: int|
            link.tried.len() <= k < link.tried.len() + frames.len() ==> #[trigger] link.and_those(
                frames,
                answers,
            ).tried[k] == (frames[k - link.tried.len()], answers[k - link.tried.len()]),
        Link::fresh(queue).queue == queue,
        Link::fresh(queue).tried.len() == 0,
{
}

/// The texts of strings are theirs, one for one.
pub proof fn law_texts_are_the_strings(strings: Seq<String>)
    ensures
        texts(strings).len() == strings.len(),
        forall|i: int| 0 <= i < strings.len() ==> #[trigger] texts(strings)[i] == strings[i]@,
{
}

// ---- topics ----

/// A topic that the hub does not know has nobody and nothing in it.
pub proof fn law_unknown_topics_are_vacant(hub: HubModel, topic: Seq<char>, conn_id: u64)
    ensures
        hub.topics.contains_key(topic) ==> hub.topic(topic) == hub.topics[topic],
        !hub.topics.contains_key(topic) ==> !hub.topic(topic).subscribers.contains_key(conn_id)
            && hub.topic(topic).mailbox.len() == 0,
        hub.subscribed(topic, conn_id) <==> hub.topics.contains_key(topic)
            && hub.topics[topic].subscribers.contains_key(conn_id),
{
}

/// Vacant means that nobody is subscribed and nothing is held.
pub proof fn law_vacant_means_nobody_and_nothing(topic: TopicModel)
    ensures
        topic.is_vacant() <==> topic.mailbox.len() == 0 && forall|c: u64|
            !#[trigger] topic.subscribers.contains_key(c),
        TopicModel::vacant().mailbox.len() == 0,
        forall|c: u64| !#[trigger] TopicModel::vacant().subscribers.contains_key(c),
{
    if forall|c: u64| !#[trigger] topic.subscribers.contains_key(c) {
        assert(topic.subscribers.dom() =~= Set::<u64>::empty());
    }
    if topic.subscribers.dom() == Set::<u64>::empty() {
        assert forall|c: u64| !#[trigger] topic.subscribers.contains_key(c) by {
            assert(!topic.subscribers.dom().contains(c));
        }
    }
}

/// Joining a topic adds the connection next to the subscribers that are there: whoever else
/// was subscribed still is, through the same link, and nobody else is new. The mailbox is
/// emptied.
pub proof fn law_joining_spares_the_others(topic: TopicModel, conn_id: u64, link: Link)
    ensures
        ({
            let after = topic.joined(conn_id, link);
            &&& after.subscribers.contains_key(conn_id)
            &&& after.subscribers[conn_id] == link
            &&& forall|c: u64|
                c != conn_id ==> (#[trigger] after.subscribers.contains_key(c)
                    <==> topic.subscribers.contains_key(c))
            &&& forall|c: u64|
                c != conn_id && #[trigger] topic.subscribers.contains_key(c)
                    ==> after.subscribers[c] == topic.subscribers[c]
            &&& after.mailbox.len() == 0
        }),
{
}

/// Leaving a topic takes off those that leave, and nobody else; nothing that is held is
/// lost.
pub proof fn law_leaving_spares_the_others(topic: TopicModel, conn_id: u64, gone: Set<u64>)
    ensures
        ({
            let left = topic.left(conn_id);
            let without = topic.without(gone);
            &&& forall|c: u64| #[trigger]
                left.subscribers.contains_key(c) <==> c != conn_id
                    && topic.subscribers.contains_key(c)
            &&& forall|c: u64| #[trigger]
                left.subscribers.contains_key(c) ==> left.subscribers[c] == topic.subscribers[c]
            &&& left.mailbox == topic.mailbox
            &&& forall|c: u64| #[trigger]
                without.subscribers.contains_key(c) <==> !gone.contains(c)
                    && topic.subscribers.contains_key(c)
            &&& forall|c: u64| #[trigger]
                without.subscribers.contains_key(c) ==> without.subscribers[c]
                    == topic.subscribers[c]
            &&& without.mailbox == topic.mailbox
        }),
{
}

/// Offering a frame tries it, once, on every subscriber but the publisher, whose link stays
/// as it was. Nobody comes or goes by that, and nothing is held or dropped.
pub proof fn law_offering_tries_every_other(
    topic: TopicModel,
    from_conn: u64,
    frame: Seq<char>,
    refused: Set<u64>,
)
    ensures
        ({
            let after = topic.offered(from_conn, frame, refused);
            &&& after.mailbox == topic.mailbox
            &&& forall|c: u64| #[trigger]
                after.subscribers.contains_key(c) <==> topic.subscribers.contains_key(c)
            &&& forall|c: u64| #[trigger]
                topic.subscribers.contains_key(c) && c != from_conn ==> {
                    &&& after.subscribers[c].queue == topic.subscribers[c].queue
                    &&& after.subscribers[c].tried == topic.subscribers[c].tried.push(
                        (frame, !refused.contains(c)),
                    )
                }
            &&& topic.subscribers.contains_key(from_conn) ==> after.subscribers[from_conn]
                == topic.subscribers[from_conn]
        }),
{
}

/// A frame is for every subscriber but the publisher, and was delivered to as many of them
/// as did not refuse it.
pub proof fn law_delivered_counts_who_took_it(
    topic: TopicModel,
    from_conn: u64,
    refused: Set<u64>,
)
    ensures
        forall|c: u64| #[trigger]
            topic.others(from_conn).contains(c) <==> topic.subscribers.contains_key(c) && c
                != from_conn,
        topic.delivered(from_conn, refused) == Set::new(
            |c: u64|
                topic.subscribers.contains_key(c) && c != from_conn && !refused.contains(c),
        ).len(),
{
    assert(topic.others(from_conn).difference(refused) =~= Set::new(
        |c: u64| topic.subscribers.contains_key(c) && c != from_conn && !refused.contains(c),
    ));
}

/// Settling a publish drops exactly the others that refused, and leaves the links of all
/// the rest, the publisher's own among them, as they were. A frame that somebody took is
/// not held. One that nobody took goes to the back of the mailbox, with the time; of what
/// is held then the newest stay, as many as the depth allows, in their order. (Any number
/// of subscribers there really is, is finite.)
pub proof fn law_settling_drops_and_holds(
    topic: TopicModel,
    from_conn: u64,
    frame: Seq<char>,
    refused: Set<u64>,
    now: nat,
    depth: nat,
)
    ensures
        ({
            let finite = topic.subscribers.dom().finite();
            let after = topic.settled(from_conn, frame, refused, now, depth);
            let taken = exists|c: u64|
                c != from_conn && !refused.contains(c) && #[trigger] topic.subscribers.contains_key(
                    c,
                );
            let lost = if topic.mailbox.len() + 1 <= depth {
                0
            } else {
                topic.mailbox.len() + 1 - depth
            };
            &&& forall|c: u64| #[trigger]
                after.subscribers.contains_key(c) <==> topic.subscribers.contains_key(c) && (c
                    == from_conn || !refused.contains(c))
            &&& forall|c: u64| #[trigger]
                after.subscribers.contains_key(c) ==> after.subscribers[c]
                    == topic.subscribers[c]
            &&& finite && taken ==> after.mailbox == topic.mailbox
            &&& !taken ==> after.mailbox.len() == topic.mailbox.len() + 1 - lost
            &&& !taken ==> forall|i: int|
                lost <= i < topic.mailbox.len() ==> after.mailbox[i - lost]
                    == #[trigger] topic.mailbox[i]
            &&& !taken && depth > 0 ==> after.mailbox.last() == (Held { held_at: now, frame })
        }),
{
    let others = topic.others(from_conn);
    let takers = others.difference(refused);
    if topic.subscribers.dom().finite() {
        vstd::set_lib::lemma_set_subset_finite(topic.subscribers.dom(), takers);
    }
    if exists|c: u64|
        c != from_conn && !refused.contains(c) && #[trigger] topic.subscribers.contains_key(c) {
        let c = choose|c: u64|
            c != from_conn && !refused.contains(c) && #[trigger] topic.subscribers.contains_key(c);
        assert(takers.contains(c));
        if topic.subscribers.dom().finite() {
            assert(takers.len() > 0);
        }
    } else {
        assert(takers =~= Set::<u64>::empty());
    }
}

// ---- what is live ----

/// A frame is live until its time to live is over.
pub proof fn law_live_until_the_time_is_over(held: Held, ttl: nat, now: nat)
    ensures
        held.live(ttl, now) <==> now < held.held_at + ttl,
{
}

/// The live backlog is all of it: every held frame whose time is not over is in it, exactly
/// once, in the order in which they are held, and no other frame is.
pub proof fn law_the_whole_backlog_is_live(mailbox: Seq<Held>, ttl: nat, now: nat)
    ensures
        exists|at: Seq<int>|
            {
                &&& #[trigger] at.len() == live_frames(mailbox, ttl, now).len()
                &&& forall|k: int|
                    0 <= k < at.len() ==> {
                        &&& 0 <= #[trigger] at[k] < mailbox.len()
                        &&& now < mailbox[at[k]].held_at + ttl
                        &&& live_frames(mailbox, ttl, now)[k] == mailbox[at[k]].frame
                    }
                &&& forall|k: int, l: int|
                    0 <= k < l < at.len() ==> #[trigger] at[k] < #[trigger] at[l]
                &&& forall|i: int|
                    0 <= i < mailbox.len() && now < (#[trigger] mailbox[i]).held_at + ttl
                        ==> at.contains(i)
            },
{
    let pred = |held: Held| held.live(ttl, now);
    let at = lemma_filter_picks(mailbox, pred);
    assert(at.len() == live_frames(mailbox, ttl, now).len());
    assert forall|i: int|
        0 <= i < mailbox.len() && now < (#[trigger] mailbox[i]).held_at
            + ttl implies at.contains(i) by {
        assert(pred(mailbox[i]));
    }
}

/// Pruning a topic keeps every entry whose time is not over, once and in order, drops the
/// others, and touches no subscriber.
pub proof fn law_pruning_keeps_what_is_live(topic: TopicModel, ttl: nat, now: nat)
    ensures
        topic.pruned(ttl, now).subscribers == topic.subscribers,
        exists|at: Seq<int>|
            {
                &&& #[trigger] at.len() == topic.pruned(ttl, now).mailbox.len()
                &&& forall|k: int|
                    0 <= k < at.len() ==> {
                        &&& 0 <= #[trigger] at[k] < topic.mailbox.len()
                        &&& now < topic.mailbox[at[k]].held_at + ttl
                        &&& topic.pruned(ttl, now).mailbox[k] == topic.mailbox[at[k]]
                    }
                &&& forall|k: int, l: int|
                    0 <= k < l < at.len() ==> #[trigger] at[k] < #[trigger] at[l]
                &&& forall|i: int|
                    0 <= i < topic.mailbox.len() && now < (#[trigger] topic.mailbox[i]).held_at
                        + ttl ==> at.contains(i)
            },
{
    let pred = |held: Held| held.live(ttl, now);
    let at = lemma_filter_picks(topic.mailbox, pred);
    assert(at.len() == topic.pruned(ttl, now).mailbox.len());
    assert forall|i: int|
        0 <= i < topic.mailbox.len() && now < (#[trigger] topic.mailbox[i]).held_at
            + ttl implies at.contains(i) by {
        assert(pred(topic.mailbox[i]));
    }
}

// ---- the hub ----

/// A subscribe adds the connection to the topic, and takes nobody else off it: every other
/// connection is subscribed exactly as before, through the same link. The new subscriber is
/// tried with every held frame that is live, each exactly once, oldest first, after
/// whatever was tried through its handle before; after that nothing is held there. No other
/// topic is touched.
pub proof fn law_subscribe_adds_one_and_flushes(
    pre: HubModel,
    post: HubModel,
    topic: Seq<char>,
    conn_id: u64,
    link: Link,
    now: nat,
)
    requires
        subscribes(pre, post, topic, conn_id, link, now),
    ensures
        post.ttl == pre.ttl,
        post.depth == pre.depth,
        post.stalled == pre.stalled,
        forall|t: Seq<char>| t != topic ==> #[trigger] post.topic(t) == pre.topic(t),
        forall|t: Seq<char>| #[trigger]
            post.topics.contains_key(t) <==> t == topic || pre.topics.contains_key(t),
        forall|c: u64|
            c != conn_id ==> (#[trigger] post.subscribed(topic, c) <==> pre.subscribed(topic, c)),
        forall|c: u64|
            c != conn_id && #[trigger] pre.subscribed(topic, c) ==> post.topic(
                topic,
            ).subscribers[c] == pre.topic(topic).subscribers[c],
        post.subscribed(topic, conn_id),
        post.topic(topic).mailbox.len() == 0,
        ({
            let mailbox = pre.topic(topic).mailbox;
            let joined = post.topic(topic).subscribers[conn_id];
            &&& joined.queue == link.queue
            &&& joined.tried.len() >= link.tried.len()
            &&& joined.tried.take(link.tried.len() as int) == link.tried
            &&& exists|at: Seq<int>|
                {
                    &&& #[trigger] at.len() + link.tried.len() == joined.tried.len()
                    &&& forall|k: int|
                        0 <= k < at.len() ==> {
                            &&& 0 <= #[trigger] at[k] < mailbox.len()
                            &&& now < mailbox[at[k]].held_at + pre.ttl
                            &&& joined.tried[link.tried.len() + k].0 == mailbox[at[k]].frame
                        }
                    &&& forall|k: int, l: int|
                        0 <= k < l < at.len() ==> #[trigger] at[k] < #[trigger] at[l]
                    &&& forall|i: int|
                        0 <= i < mailbox.len() && now < (#[trigger] mailbox[i]).held_at + pre.ttl
                            ==> at.contains(i)
                }
        }),
{
    let accepted = choose|accepted: Seq<bool>|
        {
            &&& accepted.len() == live_frames(pre.topic(topic).mailbox, pre.ttl, now).len()
            &&& post == #[trigger] pre.subscribe(topic, conn_id, link, accepted, now)
        };
    law_subscribe_for_given_answers(pre, topic, conn_id, link, accepted, now);
}

/// The same of a subscribe for given answers of the new subscriber's queue, each of which
/// stands beside the frame that it was the answer to.
pub proof fn law_subscribe_for_given_answers(
    pre: HubModel,
    topic: Seq<char>,
    conn_id: u64,
    link: Link,
    accepted: Seq<bool>,
    now: nat,
)
    ensures
        ({
            let post = pre.subscribe(topic, conn_id, link, accepted, now);
            let mailbox = pre.topic(topic).mailbox;
            let joined = post.topic(topic).subscribers[conn_id];
            &&& post.ttl == pre.ttl
            &&& post.depth == pre.depth
            &&& post.stalled == pre.stalled
            &&& forall|t: Seq<char>| t != topic ==> #[trigger] post.topic(t) == pre.topic(t)
            &&& forall|t: Seq<char>| #[trigger]
                post.topics.contains_key(t) <==> t == topic || pre.topics.contains_key(t)
            &&& forall|c: u64|
                c != conn_id ==> (#[trigger] post.subscribed(topic, c) <==> pre.subscribed(
                    topic,
                    c,
                ))
            &&& forall|c: u64|
                c != conn_id && #[trigger] pre.subscribed(topic, c) ==> post.topic(
                    topic,
                ).subscribers[c] == pre.topic(topic).subscribers[c]
            &&& post.subscribed(topic, conn_id)
            &&& post.topic(topic).mailbox.len() == 0
            &&& joined.queue == link.queue
            &&& joined.tried.len() >= link.tried.len()
            &&& joined.tried.take(link.tried.len() as int) == link.tried
            &&& exists|at: Seq<int>|
                {
                    &&& #[trigger] at.len() + link.tried.len() == joined.tried.len()
                    &&& forall|k: int|
                        0 <= k < at.len() ==> {
                            &&& 0 <= #[trigger] at[k] < mailbox.len()
                            &&& now < mailbox[at[k]].held_at + pre.ttl
                            &&& joined.tried[link.tried.len() + k] == (
                                mailbox[at[k]].frame,
                                accepted[k],
                            )
                        }
                    &&& forall|k: int, l: int|
                        0 <= k < l < at.len() ==> #[trigger] at[k] < #[trigger] at[l]
                    &&& forall|i: int|
                        0 <= i < mailbox.len() && now < (#[trigger] mailbox[i]).held_at + pre.ttl
                            ==> at.contains(i)
                }
        }),
{
    let post = pre.subscribe(topic, conn_id, link, accepted, now);
    let mailbox = pre.topic(topic).mailbox;
    let joined = post.topic(topic).subscribers[conn_id];
    let backlog = live_frames(mailbox, pre.ttl, now);
    let pred = |held: Held| held.live(pre.ttl, now);
    let at = lemma_filter_picks(mailbox, pred);
    assert(joined == link.and_those(backlog, accepted));
    assert(joined.tried.take(link.tried.len() as int) =~= link.tried);
    assert(at.len() + link.tried.len() == joined.tried.len());
    assert forall|k: int| 0 <= k < at.len() implies {
        &&& 0 <= #[trigger] at[k] < mailbox.len()
        &&& now < mailbox[at[k]].held_at + pre.ttl
        &&& joined.tried[link.tried.len() + k] == (mailbox[at[k]].frame, accepted[k])
    } by {
        assert(backlog[k] == mailbox[at[k]].frame);
    }
    assert forall|i: int|
        0 <= i < mailbox.len() && now < (#[trigger] mailbox[i]).held_at
            + pre.ttl implies at.contains(i) by {
        assert(pred(mailbox[i]));
    }
}

/// A publish tries its frame on every other subscriber of the topic. Those that took it
/// stay, with the frame as the newest through their link; those that refused it go, and
/// count as stalled. The publisher stays exactly as it was, and nobody joins. Where nobody
/// took the frame it is held, with the time, the newest of what is held staying as far as
/// the depth allows; otherwise what is held stays as it is. No other topic is touched.
pub proof fn law_publish_for_given_answers(
    pre: HubModel,
    topic: Seq<char>,
    from_conn: u64,
    frame: Seq<char>,
    refused: Set<u64>,
    now: nat,
)
    ensures
        ({
            let finite = pre.topic(topic).subscribers.dom().finite();
            let post = pre.publish(topic, from_conn, frame, refused, now);
            let before = pre.topic(topic);
            let after = post.topic(topic);
            let taken = exists|c: u64|
                c != from_conn && !refused.contains(c)
                    && #[trigger] before.subscribers.contains_key(c);
            let lost = if before.mailbox.len() + 1 <= pre.depth {
                0
            } else {
                before.mailbox.len() + 1 - pre.depth
            };
            &&& post.ttl == pre.ttl
            &&& post.depth == pre.depth
            &&& forall|c: u64| #[trigger]
                post.stalled.contains(c) <==> pre.stalled.contains(c) || refused.contains(c)
            &&& forall|t: Seq<char>| t != topic ==> #[trigger] post.topic(t) == pre.topic(t)
            &&& forall|t: Seq<char>|
                t != topic ==> (#[trigger] post.topics.contains_key(t)
                    <==> pre.topics.contains_key(t))
            &&& post.topics.contains_key(topic) <==> after.mailbox.len() > 0 || exists|c: u64|
                #[trigger] after.subscribers.contains_key(c)
            &&& forall|c: u64| #[trigger]
                after.subscribers.contains_key(c) <==> before.subscribers.contains_key(c) && (c
                    == from_conn || !refused.contains(c))
            &&& forall|c: u64| #[trigger]
                after.subscribers.contains_key(c) && c != from_conn ==> {
                    &&& after.subscribers[c].queue == before.subscribers[c].queue
                    &&& after.subscribers[c].tried == before.subscribers[c].tried.push(
                        (frame, true),
                    )
                }
            &&& before.subscribers.contains_key(from_conn) ==> after.subscribers[from_conn]
                == before.subscribers[from_conn]
            &&& finite && taken ==> after.mailbox == before.mailbox
            &&& !taken ==> after.mailbox.len() == before.mailbox.len() + 1 - lost
            &&& !taken ==> forall|i: int|
                lost <= i < before.mailbox.len() ==> after.mailbox[i - lost]
                    == #[trigger] before.mailbox[i]
            &&& !taken && pre.depth > 0 ==> after.mailbox.last() == (Held { held_at: now, frame })
        }),
{
    let before = pre.topic(topic);
    let tried = before.offered(from_conn, frame, refused);
    let post = pre.publish(topic, from_conn, frame, refused, now);
    let after = post.topic(topic);
    assert(tried.subscribers.dom() =~= before.subscribers.dom());
    law_settling_drops_and_holds(tried, from_conn, frame, refused, now, pre.depth);
    lemma_publish_topic(pre, topic, from_conn, frame, refused, now, topic);
    assert forall|t: Seq<char>| t != topic implies #[trigger] post.topic(t) == pre.topic(t) by {
        lemma_publish_topic(pre, topic, from_conn, frame, refused, now, t);
    }
    law_vacant_means_nobody_and_nothing(after);
    let taken = exists|c: u64|
        c != from_conn && !refused.contains(c) && #[trigger] before.subscribers.contains_key(c);
    if taken {
        let c = choose|c: u64|
            c != from_conn && !refused.contains(c) && #[trigger] before.subscribers.contains_key(c);
        assert(tried.subscribers.contains_key(c));
    }
    if exists|c: u64|
        c != from_conn && !refused.contains(c) && #[trigger] tried.subscribers.contains_key(c) {
        let c = choose|c: u64|
            c != from_conn && !refused.contains(c) && #[trigger] tried.subscribers.contains_key(c);
        assert(before.subscribers.contains_key(c));
    }
}

/// What a publish did, it did for answers that the queues gave: whoever refused is another
/// subscriber, through whose handle the frame was tried last, without going in; and the
/// number that is returned is that of the others, which took it.
pub proof fn law_publish_goes_by_the_answers(
    pre: HubModel,
    post: HubModel,
    topic: Seq<char>,
    from_conn: u64,
    frame: Seq<char>,
    delivered: nat,
    now: nat,
)
    requires
        publishes(pre, post, topic, from_conn, frame, delivered, now),
    ensures
        exists|refused: Set<u64>|
            {
                let before = pre.topic(topic).subscribers;
                &&& post == #[trigger] pre.publish(topic, from_conn, frame, refused, now)
                &&& delivered == Set::new(
                    |c: u64|
                        before.contains_key(c) && c != from_conn && !refused.contains(c),
                ).len()
                &&& forall|c: u64| #[trigger]
                    refused.contains(c) ==> {
                        &&& before.contains_key(c)
                        &&& c != from_conn
                        &&& exists|sender: FrameSender|
                            queue_of(sender) == before[c].queue && #[trigger] attempts(sender)
                                == before[c].tried.push((frame, false))
                    }
                &&& forall|c: u64| #[trigger]
                    before.contains_key(c) && c != from_conn && !refused.contains(c)
                        ==> exists|sender: FrameSender|
                        queue_of(sender) == before[c].queue && #[trigger] attempts(sender)
                            == before[c].tried.push((frame, true))
            },
{
    let refused = choose|refused: Set<u64>|
        {
            &&& refused.subset_of(pre.topic(topic).others(from_conn))
            &&& all_tried(pre.topic(topic).offered(from_conn, frame, refused))
            &&& delivered == pre.topic(topic).delivered(from_conn, refused)
            &&& post == #[trigger] pre.publish(topic, from_conn, frame, refused, now)
        };
    let before = pre.topic(topic).subscribers;
    let tried = pre.topic(topic).offered(from_conn, frame, refused);
    law_delivered_counts_who_took_it(pre.topic(topic), from_conn, refused);
    assert forall|c: u64| #[trigger] before.contains_key(c) && c != from_conn implies exists|
        sender: FrameSender,
    |
        queue_of(sender) == before[c].queue && #[trigger] attempts(sender) == before[c].tried.push(
            (frame, !refused.contains(c)),
        ) by {
        assert(tried.subscribers.contains_key(c));
        let sender = choose|sender: FrameSender| #[trigger]
            link_of(sender) == tried.subscribers[c];
        assert(attempts(sender) == before[c].tried.push((frame, !refused.contains(c))));
    }
    assert forall|c: u64| #[trigger] refused.contains(c) implies before.contains_key(c) && c
        != from_conn by {
        assert(pre.topic(topic).others(from_conn).contains(c));
    }
}

/// Leaving topics takes the connection off each of them, and nobody else off any; nothing
/// that is held is lost. What is left without anybody and anything is forgotten.
pub proof fn law_leave_takes_one_off(pre: HubModel, names: Set<Seq<char>>, conn_id: u64)
    ensures
        ({
            let post = pre.leave(names, conn_id);
            &&& post.ttl == pre.ttl
            &&& post.depth == pre.depth
            &&& post.stalled == pre.stalled
            &&& forall|t: Seq<char>, c: u64| #[trigger]
                post.subscribed(t, c) <==> pre.subscribed(t, c) && !(c == conn_id
                    && names.contains(t))
            &&& forall|t: Seq<char>, c: u64| #[trigger]
                post.subscribed(t, c) ==> post.topic(t).subscribers[c] == pre.topic(
                    t,
                ).subscribers[c]
            &&& forall|t: Seq<char>| (#[trigger] post.topic(t)).mailbox == pre.topic(t).mailbox
            &&& forall|t: Seq<char>| #[trigger]
                post.topics.contains_key(t) <==> pre.topics.contains_key(t) && (!names.contains(t)
                    || post.topic(t).mailbox.len() > 0 || exists|c: u64| #[trigger]
                    post.subscribed(t, c))
        }),
{
    let post = pre.leave(names, conn_id);
    assert forall|t: Seq<char>, c: u64| #[trigger]
        post.subscribed(t, c) <==> pre.subscribed(t, c) && !(c == conn_id && names.contains(t)) by {
        lemma_leave_topic(pre, names, conn_id, t);
    }
    assert forall|t: Seq<char>, c: u64| #[trigger] post.subscribed(t, c) implies post.topic(
        t,
    ).subscribers[c] == pre.topic(t).subscribers[c] by {
        lemma_leave_topic(pre, names, conn_id, t);
    }
    assert forall|t: Seq<char>| (#[trigger] post.topic(t)).mailbox == pre.topic(t).mailbox by {
        lemma_leave_topic(pre, names, conn_id, t);
    }
    assert forall|t: Seq<char>| #[trigger]
        post.topics.contains_key(t) <==> pre.topics.contains_key(t) && (!names.contains(t)
            || post.topic(t).mailbox.len() > 0 || exists|c: u64| #[trigger]
            post.subscribed(t, c)) by {
        lemma_leave_topic(pre, names, conn_id, t);
        law_vacant_means_nobody_and_nothing(pre.topic(t).left(conn_id));
        assert forall|c: u64| #[trigger]
            pre.topic(t).left(conn_id).subscribers.contains_key(c) && names.contains(
                t,
            ) implies post.subscribed(t, c) by {}
    }
}

/// A sweep takes nobody off a topic. It keeps every held frame whose time is not over, once
/// and in order, and no other.
pub proof fn law_prune_takes_only_the_expired(pre: HubModel, now: nat, t: Seq<char>)
    ensures
        ({
            let post = pre.prune(now);
            let before = pre.topic(t).mailbox;
            let after = post.topic(t).mailbox;
            &&& post.ttl == pre.ttl
            &&& post.depth == pre.depth
            &&& post.stalled == pre.stalled
            &&& post.topic(t).subscribers == pre.topic(t).subscribers
            &&& post.topics.contains_key(t) <==> pre.topics.contains_key(t) && (after.len() > 0
                || exists|c: u64| #[trigger] post.subscribed(t, c))
            &&& exists|at: Seq<int>|
                {
                    &&& #[trigger] at.len() == after.len()
                    &&& forall|k: int|
                        0 <= k < at.len() ==> {
                            &&& 0 <= #[trigger] at[k] < before.len()
                            &&& now < before[at[k]].held_at + pre.ttl
                            &&& after[k] == before[at[k]]
                        }
                    &&& forall|k: int, l: int|
                        0 <= k < l < at.len() ==> #[trigger] at[k] < #[trigger] at[l]
                    &&& forall|i: int|
                        0 <= i < before.len() && now < (#[trigger] before[i]).held_at + pre.ttl
                            ==> at.contains(i)
                }
        }),
{
    law_prune_takes_the_expired(pre, t, now);
    law_pruning_keeps_what_is_live(pre.topic(t), pre.ttl, now);
    law_vacant_means_nobody_and_nothing(pre.topic(t).pruned(pre.ttl, now));
    assert forall|c: u64| #[trigger]
        pre.topic(t).pruned(pre.ttl, now).subscribers.contains_key(c) implies pre.prune(
        now,
    ).subscribed(t, c) by {}
}

/// Ending the stalled connections takes each of them off every topic, and nobody else off
/// any; nothing that is held is lost, and nobody counts as stalled any more.
pub proof fn law_ending_takes_off_the_stalled(pre: HubModel)
    ensures
        ({
            let post = pre.ended();
            &&& post.ttl == pre.ttl
            &&& post.depth == pre.depth
            &&& forall|c: u64| !#[trigger] post.stalled.contains(c)
            &&& forall|t: Seq<char>, c: u64| #[trigger]
                post.subscribed(t, c) <==> pre.subscribed(t, c) && !pre.stalled.contains(c)
            &&& forall|t: Seq<char>, c: u64| #[trigger]
                post.subscribed(t, c) ==> post.topic(t).subscribers[c] == pre.topic(
                    t,
                ).subscribers[c]
            &&& forall|t: Seq<char>| (#[trigger] post.topic(t)).mailbox == pre.topic(t).mailbox
            &&& forall|t: Seq<char>| #[trigger]
                post.topics.contains_key(t) <==> pre.topics.contains_key(t) && (post.topic(
                    t,
                ).mailbox.len() > 0 || exists|c: u64| #[trigger] post.subscribed(t, c))
        }),
{
    let post = pre.ended();
    assert forall|t: Seq<char>, c: u64| #[trigger]
        post.subscribed(t, c) <==> pre.subscribed(t, c) && !pre.stalled.contains(c) by {
        lemma_ended_topic(pre, t);
    }
    assert forall|t: Seq<char>, c: u64| #[trigger] post.subscribed(t, c) implies post.topic(
        t,
    ).subscribers[c] == pre.topic(t).subscribers[c] by {
        lemma_ended_topic(pre, t);
    }
    assert forall|t: Seq<char>| (#[trigger] post.topic(t)).mailbox == pre.topic(t).mailbox by {
        lemma_ended_topic(pre, t);
    }
    assert forall|t: Seq<char>| #[trigger]
        post.topics.contains_key(t) <==> pre.topics.contains_key(t) && (post.topic(
            t,
        ).mailbox.len() > 0 || exists|c: u64| #[trigger] post.subscribed(t, c)) by {
        lemma_ended_topic(pre, t);
        law_vacant_means_nobody_and_nothing(pre.topic(t).without(pre.stalled));
        assert forall|c: u64| #[trigger]
            pre.topic(t).without(pre.stalled).subscribers.contains_key(
                c,
            ) implies post.subscribed(t, c) by {}
    }
}

/// Publishing and ending in one: it is a publish, and then those are ended, and handed out,
/// that are stalled after it.
pub proof fn law_publish_then_end(
    pre: HubModel,
    post: HubModel,
    topic: Seq<char>,
    from_conn: u64,
    frame: Seq<char>,
    delivered: nat,
    ended: Set<u64>,
    now: nat,
)
    requires
        publishes_and_ends(pre, post, topic, from_conn, frame, delivered, ended, now),
    ensures
        exists|mid: HubModel|
            {
                &&& publishes(pre, mid, topic, from_conn, frame, delivered, now)
                &&& post == #[trigger] mid.ended()
                &&& forall|c: u64| #[trigger] ended.contains(c) <==> mid.stalled.contains(c)
            },
{
    let mid = choose|mid: HubModel|
        {
            &&& publishes(pre, mid, topic, from_conn, frame, delivered, now)
            &&& ended == mid.stalled
            &&& post == #[trigger] mid.ended()
        };
    assert(post == mid.ended());
}

} // verus!
