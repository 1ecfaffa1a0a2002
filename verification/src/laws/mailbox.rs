//! What is held for late subscribers, and for how long.

use vstd::prelude::*;

use crate::model::{
    hold, lemma_publish_topic, live_entries, live_frames, newest, Held, HubModel, Link,
};
use crate::seqs::{lemma_filter_push, lemma_filter_twice};

verus! {

/// A frame that nobody took is there for whoever subscribes before its time to live is
/// over, unless mailboxes hold nothing at all: it is the last that is tried on the new
/// subscriber.
pub proof fn law_late_subscriber_gets_the_frame(
    hub: HubModel,
    topic: Seq<char>,
    from_conn: u64,
    frame: Seq<char>,
    refused: Set<u64>,
    published_at: nat,
    conn_id: u64,
    link: Link,
    accepted: Seq<bool>,
    now: nat,
)
    requires
        hub.depth > 0,
        hub.topic(topic).delivered(from_conn, refused) == 0,
        now < published_at + hub.ttl,
        ({
            let held = hub.publish(topic, from_conn, frame, refused, published_at);
            accepted.len() == live_frames(held.topic(topic).mailbox, hub.ttl, now).len()
        }),
    ensures
        ({
            let held = hub.publish(topic, from_conn, frame, refused, published_at);
            let backlog = live_frames(held.topic(topic).mailbox, hub.ttl, now);
            let joined = held.subscribe(topic, conn_id, link, accepted, now);
            &&& backlog.len() > 0
            &&& backlog.last() == frame
            &&& joined.subscribed(topic, conn_id)
            &&& joined.topic(topic).mailbox.len() == 0
            &&& joined.topic(topic).subscribers[conn_id].tried.last() == (frame, accepted.last())
        }),
{
    let pre = hub.topic(topic);
    let mid = pre.offered(from_conn, frame, refused);
    assert(mid.others(from_conn) =~= pre.others(from_conn));
    let held = hub.publish(topic, from_conn, frame, refused, published_at);
    let mailbox = held.topic(topic).mailbox;
    let entry = Held { held_at: published_at, frame };
    let pred = |held: Held| held.live(hub.ttl, now);
    let front = mailbox.drop_last();
    assert(mailbox =~= front.push(entry));
    lemma_filter_push(front, pred, entry);
    let backlog = live_frames(mailbox, hub.ttl, now);
    assert(live_entries(mailbox, hub.ttl, now).last() == entry);
    assert(backlog.last() == frame);
}

/// A new subscriber is handed the backlog in order, after whatever was tried through its
/// handle before, and nothing in it has expired: each frame is that of an entry which is
/// still live.
pub proof fn law_expired_frames_are_not_delivered(
    hub: HubModel,
    topic: Seq<char>,
    conn_id: u64,
    link: Link,
    accepted: Seq<bool>,
    now: nat,
    k: int,
)
    requires
        0 <= k < live_frames(hub.topic(topic).mailbox, hub.ttl, now).len(),
    ensures
        ({
            let mailbox = hub.topic(topic).mailbox;
            let joined = hub.subscribe(topic, conn_id, link, accepted, now);
            let (frame, _) = joined.topic(topic).subscribers[conn_id].tried[link.tried.len() + k];
            &&& frame == live_frames(mailbox, hub.ttl, now)[k]
            &&& exists|i: int|
                0 <= i < mailbox.len() && (#[trigger] mailbox[i]).frame == frame && now
                    < mailbox[i].held_at + hub.ttl
        }),
{
    let mailbox = hub.topic(topic).mailbox;
    let pred = |held: Held| held.live(hub.ttl, now);
    let live = live_entries(mailbox, hub.ttl, now);
    mailbox.lemma_filter_pred(pred, k);
    assert(live.contains(live[k]));
    mailbox.lemma_filter_contains_rev(pred, live[k]);
    let i = choose|i: int| 0 <= i < mailbox.len() && mailbox[i] == live[k];
    assert(mailbox[i].frame == live_frames(mailbox, hub.ttl, now)[k]);
}

/// The mailbox after `entries` were held in turn.
pub open spec fn hold_all(mailbox: Seq<Held>, entries: Seq<Held>, depth: nat) -> Seq<Held>
    decreases entries.len(),
{
    if entries.len() == 0 {
        mailbox
    } else {
        hold(hold_all(mailbox, entries.drop_last(), depth), entries.last(), depth)
    }
}

/// A mailbox keeps the newest frames: after any number of frames were held it holds the
/// last of them, as many as its depth, in their order.
pub proof fn law_mailbox_keeps_the_newest(entries: Seq<Held>, depth: nat)
    ensures
        hold_all(Seq::empty(), entries, depth) == newest(entries, depth),
    decreases entries.len(),
{
    if entries.len() > 0 {
        let before = entries.drop_last();
        law_mailbox_keeps_the_newest(before, depth);
        assert(newest(newest(before, depth).push(entries.last()), depth) =~= newest(
            entries,
            depth,
        ));
    } else {
        assert(hold_all(Seq::empty(), entries, depth) =~= entries);
    }
}

/// A publish that nobody took and that finds the mailbox full costs exactly its oldest
/// frame; the others keep their order, and the new one comes last.
pub proof fn law_full_mailbox_loses_its_oldest(
    hub: HubModel,
    topic: Seq<char>,
    from_conn: u64,
    frame: Seq<char>,
    refused: Set<u64>,
    now: nat,
)
    requires
        hub.depth > 0,
        hub.topic(topic).mailbox.len() == hub.depth,
        hub.topic(topic).delivered(from_conn, refused) == 0,
    ensures
        hub.publish(topic, from_conn, frame, refused, now).topic(topic).mailbox == hub.topic(
            topic,
        ).mailbox.drop_first().push(Held { held_at: now, frame }),
{
    let pre = hub.topic(topic);
    let entry = Held { held_at: now, frame };
    lemma_publish_topic(hub, topic, from_conn, frame, refused, now, topic);
    assert(pre.offered(from_conn, frame, refused).others(from_conn) =~= pre.others(from_conn));
    assert(hold(pre.mailbox, entry, hub.depth) =~= pre.mailbox.drop_first().push(entry));
}

/// A sweep takes exactly the expired frames: on every topic the subscribers stay, and so
/// do the entries that are live.
pub proof fn law_prune_takes_the_expired(hub: HubModel, topic: Seq<char>, now: nat)
    ensures
        hub.prune(now).topic(topic) == hub.topic(topic).pruned(hub.ttl, now),
{
    let before = hub.topic(topic);
    let after = hub.prune(now).topic(topic);
    reveal(Seq::filter);
    if hub.topics.contains_key(topic) && before.pruned(hub.ttl, now).is_vacant() {
        assert(after.subscribers =~= before.subscribers);
        assert(after.mailbox =~= before.pruned(hub.ttl, now).mailbox);
    }
    assert(after =~= before.pruned(hub.ttl, now));
}

/// No subscriber can tell that a sweep took place: one that joins later is handed the same
/// backlog, and the topic is the same after it joined.
pub proof fn law_prune_is_unobservable(
    hub: HubModel,
    swept_at: nat,
    topic: Seq<char>,
    conn_id: u64,
    link: Link,
    accepted: Seq<bool>,
    now: nat,
)
    requires
        swept_at <= now,
    ensures
        live_frames(hub.prune(swept_at).topic(topic).mailbox, hub.ttl, now) == live_frames(
            hub.topic(topic).mailbox,
            hub.ttl,
            now,
        ),
        hub.prune(swept_at).subscribe(topic, conn_id, link, accepted, now).topic(topic)
            == hub.subscribe(topic, conn_id, link, accepted, now).topic(topic),
{
    law_prune_takes_the_expired(hub, topic, swept_at);
    lemma_filter_twice(
        hub.topic(topic).mailbox,
        |held: Held| held.live(hub.ttl, swept_at),
        |held: Held| held.live(hub.ttl, now),
    );
}

} // verus!
