//! Who is handed a frame, and who is not.

use vstd::prelude::*;

use crate::model::{hold, publishes, Held, HubModel, Link};

verus! {

/// A publish reaches every other subscriber of the topic: each of them either took the
/// frame, as the newest through its link, or refused it and is subscribed no more. The
/// publisher keeps its subscription, and is not handed its own frame. Nobody joins.
pub proof fn law_publish_reaches_others(
    hub: HubModel,
    topic: Seq<char>,
    from_conn: u64,
    frame: Seq<char>,
    refused: Set<u64>,
    now: nat,
)
    requires
        refused.subset_of(hub.topic(topic).others(from_conn)),
    ensures
        ({
            let before = hub.topic(topic).subscribers;
            let after = hub.publish(topic, from_conn, frame, refused, now).topic(
                topic,
            ).subscribers;
            forall|c: u64|
                {
                    &&& #[trigger] after.contains_key(c) <==> before.contains_key(c)
                        && !refused.contains(c)
                    &&& after.contains_key(c) && c != from_conn ==> after[c] == before[c].and(
                        frame,
                        true,
                    )
                    &&& after.contains_key(c) && c == from_conn ==> after[c] == before[c]
                }
        }),
{
}

/// Frames reach a subscriber in the order in which they were published: one that takes
/// two frames in a row has the first before the second, and nothing between them.
pub proof fn law_frames_arrive_in_order(
    hub: HubModel,
    topic: Seq<char>,
    subscriber: u64,
    first_conn: u64,
    first: Seq<char>,
    first_refused: Set<u64>,
    first_now: nat,
    second_conn: u64,
    second: Seq<char>,
    second_refused: Set<u64>,
    second_now: nat,
)
    requires
        hub.subscribed(topic, subscriber),
        subscriber != first_conn,
        subscriber != second_conn,
        !first_refused.contains(subscriber),
        !second_refused.contains(subscriber),
    ensures
        ({
            let after = hub.publish(topic, first_conn, first, first_refused, first_now).publish(
                topic,
                second_conn,
                second,
                second_refused,
                second_now,
            );
            &&& after.subscribed(topic, subscriber)
            &&& after.topic(topic).subscribers[subscriber] == hub.topic(
                topic,
            ).subscribers[subscriber].and(first, true).and(second, true)
        }),
{
}

/// Each of the other subscribers took the frame or refused it, and a frame is held exactly
/// where nobody took it; it is then the newest in the mailbox, unless mailboxes hold
/// nothing at all.
pub proof fn law_publish_delivers_or_holds(
    hub: HubModel,
    topic: Seq<char>,
    from_conn: u64,
    frame: Seq<char>,
    refused: Set<u64>,
    now: nat,
)
    requires
        hub.inv(),
        refused.subset_of(hub.topic(topic).others(from_conn)),
    ensures
        ({
            let pre = hub.topic(topic);
            let post = hub.publish(topic, from_conn, frame, refused, now).topic(topic);
            let delivered = pre.delivered(from_conn, refused);
            &&& delivered + refused.len() == pre.others(from_conn).len()
            &&& delivered > 0 ==> post.mailbox == pre.mailbox
            &&& delivered == 0 ==> post.mailbox == hold(
                pre.mailbox,
                Held { held_at: now, frame },
                hub.depth,
            )
            &&& delivered == 0 && hub.depth > 0 ==> post.mailbox.last() == (Held {
                held_at: now,
                frame,
            })
        }),
{
    let pre = hub.topic(topic);
    let others = pre.others(from_conn);
    assert(pre.subscribers.dom().finite());
    vstd::set_lib::lemma_set_subset_finite(others, refused);
    vstd::set_lib::lemma_set_subset_finite(others, others.difference(refused));
    vstd::set_lib::lemma_set_disjoint_lens(others.difference(refused), refused);
    assert(others.difference(refused) + refused =~= others);
    assert(pre.offered(from_conn, frame, refused).others(from_conn) =~= others);
    let post = hub.publish(topic, from_conn, frame, refused, now).topic(topic);
    assert(post.mailbox =~= pre.published(from_conn, frame, refused, now, hub.depth).mailbox);
}

/// With nobody else subscribed there is nobody to refuse: the frame is held, whatever
/// happens.
pub proof fn law_publish_to_nobody_is_held(
    pre: HubModel,
    post: HubModel,
    topic: Seq<char>,
    from_conn: u64,
    frame: Seq<char>,
    delivered: nat,
    now: nat,
)
    requires
        publishes(pre, post, topic, from_conn, frame, delivered, now),
        pre.topic(topic).others(from_conn) == Set::<u64>::empty(),
    ensures
        delivered == 0,
        post.topic(topic).mailbox == hold(
            pre.topic(topic).mailbox,
            Held { held_at: now, frame },
            pre.depth,
        ),
{
    let refused = choose|refused: Set<u64>|
        {
            &&& refused.subset_of(pre.topic(topic).others(from_conn))
            &&& delivered == pre.topic(topic).delivered(from_conn, refused)
            &&& post == #[trigger] pre.publish(topic, from_conn, frame, refused, now)
        };
    assert(pre.topic(topic).others(from_conn).difference(refused) =~= Set::<u64>::empty());
    let mid = pre.topic(topic).offered(from_conn, frame, refused);
    assert(mid.others(from_conn) =~= pre.topic(topic).others(from_conn));
    assert(post.topic(topic).mailbox == hold(
        pre.topic(topic).mailbox,
        Held { held_at: now, frame },
        pre.depth,
    ));
}

/// What happens on one topic leaves every other topic as it was.
pub proof fn law_topics_are_independent(
    hub: HubModel,
    topic: Seq<char>,
    other: Seq<char>,
    conn_id: u64,
    link: Link,
    accepted: Seq<bool>,
    frame: Seq<char>,
    refused: Set<u64>,
    now: nat,
)
    requires
        other != topic,
    ensures
        hub.subscribe(topic, conn_id, link, accepted, now).topic(other) == hub.topic(other),
        hub.publish(topic, conn_id, frame, refused, now).topic(other) == hub.topic(other),
        hub.leave(set![topic], conn_id).topic(other) == hub.topic(other),
{
}

/// Unsubscribing stops delivery on that topic: the connection is not among its subscribers
/// any more, and no publish puts it back.
pub proof fn law_unsubscribe_stops_delivery(
    hub: HubModel,
    topic: Seq<char>,
    conn_id: u64,
    from_conn: u64,
    frame: Seq<char>,
    refused: Set<u64>,
    now: nat,
)
    ensures
        ({
            let gone = hub.leave(set![topic], conn_id);
            &&& !gone.subscribed(topic, conn_id)
            &&& !gone.publish(topic, from_conn, frame, refused, now).subscribed(topic, conn_id)
        }),
{
}

/// Unsubscribing takes nobody else off the topic, and loses no frame that is held.
pub proof fn law_unsubscribe_spares_the_rest(
    hub: HubModel,
    topic: Seq<char>,
    conn_id: u64,
    other: u64,
)
    requires
        other != conn_id,
    ensures
        ({
            let before = hub.topic(topic);
            let after = hub.leave(set![topic], conn_id).topic(topic);
            &&& after.subscribers.contains_key(other) <==> before.subscribers.contains_key(other)
            &&& after.subscribers.contains_key(other) ==> after.subscribers[other]
                == before.subscribers[other]
            &&& after.mailbox == before.mailbox
        }),
{
    let before = hub.topic(topic);
    let after = hub.leave(set![topic], conn_id).topic(topic);
    if hub.topics.contains_key(topic) && before.left(conn_id).is_vacant() {
        assert(!before.left(conn_id).subscribers.dom().contains(other));
        assert(after.mailbox =~= before.mailbox);
    }
}

} // verus!
