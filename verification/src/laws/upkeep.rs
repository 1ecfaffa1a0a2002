//! What every reachable hub keeps, every operation keeps.

use vstd::prelude::*;

use crate::model::{live_entries, Held, HubModel, Link, TopicModel};

verus! {

/// Pruning never makes a mailbox longer.
proof fn lemma_live_no_longer(topic: TopicModel, ttl: nat, now: nat)
    ensures
        live_entries(topic.mailbox, ttl, now).len() <= topic.mailbox.len(),
{
    topic.mailbox.lemma_filter_len(|held: Held| held.live(ttl, now));
}

/// Subscribing keeps what every reachable hub keeps.
pub proof fn law_subscribe_keeps_inv(
    hub: HubModel,
    topic: Seq<char>,
    conn_id: u64,
    link: Link,
    accepted: Seq<bool>,
    now: nat,
)
    requires
        hub.inv(),
    ensures
        hub.subscribe(topic, conn_id, link, accepted, now).inv(),
{
    let post = hub.subscribe(topic, conn_id, link, accepted, now);
    assert forall|t: Seq<char>| #[trigger] post.topics.contains_key(t) implies {
        &&& post.topics[t].subscribers.dom().finite()
        &&& !post.topics[t].is_vacant()
        &&& post.topics[t].mailbox.len() <= post.depth
    } by {
        if t == topic {
            assert(post.topics[t].subscribers.dom().contains(conn_id));
        } else {
            assert(hub.topics.contains_key(t));
        }
    }
}

/// Publishing keeps what every reachable hub keeps.
pub proof fn law_publish_keeps_inv(
    hub: HubModel,
    topic: Seq<char>,
    from_conn: u64,
    frame: Seq<char>,
    refused: Set<u64>,
    now: nat,
)
    requires
        hub.inv(),
    ensures
        hub.publish(topic, from_conn, frame, refused, now).inv(),
{
    let pre = hub.topic(topic);
    let mid = pre.offered(from_conn, frame, refused);
    let post = hub.publish(topic, from_conn, frame, refused, now);
    assert(pre.subscribers.dom().finite());
    assert(mid.subscribers.dom() =~= pre.subscribers.dom());
    let takers = mid.others(from_conn).difference(refused);
    assert(takers.subset_of(mid.subscribers.dom()));
    vstd::set_lib::lemma_set_subset_finite(mid.subscribers.dom(), takers);
    assert forall|t: Seq<char>| #[trigger] post.topics.contains_key(t) implies {
        &&& post.topics[t].subscribers.dom().finite()
        &&& !post.topics[t].is_vacant()
        &&& post.topics[t].mailbox.len() <= post.depth
    } by {
        if t == topic {
            let after = post.topics[t];
            assert(after.subscribers.dom().subset_of(mid.subscribers.dom()));
            vstd::set_lib::lemma_set_subset_finite(mid.subscribers.dom(), after.subscribers.dom());
            if takers.len() != 0 {
                let c = takers.choose();
                assert(takers.contains(c));
                assert(after.subscribers.dom().contains(c));
            }
        } else {
            assert(hub.topics.contains_key(t));
        }
    }
}

/// Leaving topics keeps what every reachable hub keeps.
pub proof fn law_leave_keeps_inv(hub: HubModel, names: Set<Seq<char>>, conn_id: u64)
    requires
        hub.inv(),
    ensures
        hub.leave(names, conn_id).inv(),
{
    let post = hub.leave(names, conn_id);
    assert forall|t: Seq<char>| #[trigger] post.topics.contains_key(t) implies {
        &&& post.topics[t].subscribers.dom().finite()
        &&& !post.topics[t].is_vacant()
        &&& post.topics[t].mailbox.len() <= post.depth
    } by {
        assert(hub.topics.contains_key(t));
    }
}

/// Ending the stalled connections keeps what every reachable hub keeps.
pub proof fn law_end_keeps_inv(hub: HubModel)
    requires
        hub.inv(),
    ensures
        hub.ended().inv(),
{
    let post = hub.ended();
    assert forall|t: Seq<char>| #[trigger] post.topics.contains_key(t) implies {
        &&& post.topics[t].subscribers.dom().finite()
        &&& !post.topics[t].is_vacant()
        &&& post.topics[t].mailbox.len() <= post.depth
    } by {
        assert(hub.topics.contains_key(t));
        let before = hub.topics[t].subscribers.dom();
        let after = post.topics[t].subscribers.dom();
        assert(after.subset_of(before));
        vstd::set_lib::lemma_set_subset_finite(before, after);
    }
}

/// A sweep keeps what every reachable hub keeps.
pub proof fn law_prune_keeps_inv(hub: HubModel, now: nat)
    requires
        hub.inv(),
    ensures
        hub.prune(now).inv(),
{
    let post = hub.prune(now);
    assert forall|t: Seq<char>| #[trigger] post.topics.contains_key(t) implies {
        &&& post.topics[t].subscribers.dom().finite()
        &&& !post.topics[t].is_vacant()
        &&& post.topics[t].mailbox.len() <= post.depth
    } by {
        assert(hub.topics.contains_key(t));
        lemma_live_no_longer(hub.topics[t], hub.ttl, now);
    }
}

} // verus!
