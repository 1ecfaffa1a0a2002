//! Sweeps reclaim memory, and nothing else.

use vstd::prelude::*;

use crate::laws::mailbox::law_prune_takes_the_expired;
use crate::model::{
    hold, lemma_ended_topic, lemma_leave_topic, lemma_publish_topic, live_entries, live_frames,
    newest, Held, HubModel, Link, TopicModel,
};

verus! {

/// One operation on the hub, with what the queues answered and the time it was done at.
pub enum Op {
    Subscribe { topic: Seq<char>, conn_id: u64, link: Link, accepted: Seq<bool>, at: nat },
    Unsubscribe { topic: Seq<char>, conn_id: u64 },
    Publish { topic: Seq<char>, from_conn: u64, frame: Seq<char>, refused: Set<u64>, at: nat },
    DropConnection { conn_id: u64, names: Set<Seq<char>> },
    EndStalled,
    Prune { at: nat },
}

/// What an operation shows to clients: the number that a publish returns, and the frames
/// that were tried on each connection, in order.
#[verifier::ext_equal]
pub struct Outcome {
    pub delivered: nat,
    pub tried: Map<u64, Seq<Seq<char>>>,
}

impl Op {
    /// The time of the operation; `before` where it does not ask for the time.
    pub open spec fn time(self, before: nat) -> nat {
        match self {
            Op::Subscribe { at, .. } => at,
            Op::Publish { at, .. } => at,
            Op::Prune { at } => at,
            _ => before,
        }
    }

    /// The hub after the operation.
    pub open spec fn after(self, hub: HubModel) -> HubModel {
        match self {
            Op::Subscribe { topic, conn_id, link, accepted, at } => hub.subscribe(
                topic,
                conn_id,
                link,
                accepted,
                at,
            ),
            Op::Unsubscribe { topic, conn_id } => hub.leave(set![topic], conn_id),
            Op::Publish { topic, from_conn, frame, refused, at } => hub.publish(
                topic,
                from_conn,
                frame,
                refused,
                at,
            ),
            Op::DropConnection { conn_id, names } => hub.leave(names, conn_id),
            Op::EndStalled => hub.ended(),
            Op::Prune { at } => hub.prune(at),
        }
    }

    /// What the operation shows to clients.
    pub open spec fn outcome(self, hub: HubModel) -> Outcome {
        match self {
            Op::Subscribe { topic, conn_id, at, .. } => Outcome {
                delivered: 0,
                tried: map![conn_id => live_frames(hub.topic(topic).mailbox, hub.ttl, at)],
            },
            Op::Publish { topic, from_conn, frame, refused, .. } => Outcome {
                delivered: hub.topic(topic).delivered(from_conn, refused),
                tried: Map::new(
                    |c: u64| hub.topic(topic).others(from_conn).contains(c),
                    |c: u64| seq![frame],
                ),
            },
            _ => Outcome { delivered: 0, tried: Map::empty() },
        }
    }
}

/// The hub after the operations.
pub open spec fn after_all(hub: HubModel, ops: Seq<Op>) -> HubModel
    decreases ops.len(),
{
    if ops.len() == 0 {
        hub
    } else {
        ops.last().after(after_all(hub, ops.drop_last()))
    }
}

/// What the operations show to clients, one outcome for each of them but the sweeps.
pub open spec fn outcomes(hub: HubModel, ops: Seq<Op>) -> Seq<Outcome>
    decreases ops.len(),
{
    if ops.len() == 0 {
        Seq::empty()
    } else if ops.last() is Prune {
        outcomes(hub, ops.drop_last())
    } else {
        outcomes(hub, ops.drop_last()).push(
            ops.last().outcome(after_all(hub, ops.drop_last())),
        )
    }
}

/// The operations that are no sweeps.
pub open spec fn without_sweeps(ops: Seq<Op>) -> Seq<Op> {
    ops.filter(|op: Op| !(op is Prune))
}

/// The time of the last operation, where the first one is done at `start` or later.
pub open spec fn latest(ops: Seq<Op>, start: nat) -> nat
    decreases ops.len(),
{
    if ops.len() == 0 {
        start
    } else {
        ops.last().time(latest(ops.drop_last(), start))
    }
}

/// Time does not run backwards along the operations.
pub open spec fn in_time(ops: Seq<Op>, start: nat) -> bool
    decreases ops.len(),
{
    ops.len() > 0 ==> {
        let before = latest(ops.drop_last(), start);
        in_time(ops.drop_last(), start) && before <= ops.last().time(before)
    }
}

/// The entries were put in the mailbox one after the other, the last of them by `now`.
pub open spec fn put_in_turn(mailbox: Seq<Held>, now: nat) -> bool {
    &&& forall|i: int, j: int|
        0 <= i <= j < mailbox.len() ==> (#[trigger] mailbox[i]).held_at <= (
        #[trigger] mailbox[j]).held_at
    &&& forall|i: int| 0 <= i < mailbox.len() ==> (#[trigger] mailbox[i]).held_at <= now
}

/// On every topic, what is held was put there in turn.
pub open spec fn timely(hub: HubModel, now: nat) -> bool {
    forall|t: Seq<char>| put_in_turn((#[trigger] hub.topic(t)).mailbox, now)
}

/// `less` is the mailbox without some of its oldest entries, all of them expired.
spec fn reclaimed(mailbox: Seq<Held>, less: Seq<Held>, ttl: nat, now: nat) -> bool {
    exists|k: int| #[trigger] reclaimed_by(mailbox, less, ttl, now, k)
}

spec fn reclaimed_by(mailbox: Seq<Held>, less: Seq<Held>, ttl: nat, now: nat, k: int) -> bool {
    &&& 0 <= k <= mailbox.len()
    &&& less == mailbox.skip(k)
    &&& forall|i: int| 0 <= i < k ==> !(#[trigger] mailbox[i]).live(ttl, now)
}

/// The two hubs differ in nothing but expired frames, which `swept` may lack.
spec fn alike(hub: HubModel, swept: HubModel, now: nat) -> bool {
    &&& swept.ttl == hub.ttl
    &&& swept.depth == hub.depth
    &&& swept.stalled == hub.stalled
    &&& forall|t: Seq<char>| alike_on(hub, swept, now, t)
}

spec fn alike_on(hub: HubModel, swept: HubModel, now: nat, t: Seq<char>) -> bool {
    &&& swept.topic(t).subscribers == hub.topic(t).subscribers
    &&& reclaimed(hub.topic(t).mailbox, swept.topic(t).mailbox, hub.ttl, now)
}

/// What has expired stays expired.
proof fn lemma_reclaimed_later(
    mailbox: Seq<Held>,
    less: Seq<Held>,
    ttl: nat,
    now: nat,
    later: nat,
)
    requires
        reclaimed(mailbox, less, ttl, now),
        now <= later,
    ensures
        reclaimed(mailbox, less, ttl, later),
{
    let k = choose|k: int| #[trigger] reclaimed_by(mailbox, less, ttl, now, k);
    assert(reclaimed_by(mailbox, less, ttl, later, k));
}

/// What was reclaimed is not missed: the live entries are the same.
proof fn lemma_reclaimed_live(mailbox: Seq<Held>, less: Seq<Held>, ttl: nat, now: nat)
    requires
        reclaimed(mailbox, less, ttl, now),
    ensures
        live_entries(less, ttl, now) == live_entries(mailbox, ttl, now),
{
    let k = choose|k: int| #[trigger] reclaimed_by(mailbox, less, ttl, now, k);
    let pred = |held: Held| held.live(ttl, now);
    let dead = mailbox.take(k);
    assert(mailbox =~= dead + less);
    Seq::filter_distributes_over_add(dead, less, pred);
    dead.lemma_all_neg_filter_empty(pred);
    assert(dead.filter(pred) + less.filter(pred) =~= less.filter(pred));
}

/// In a mailbox that was filled in turn, the expired entries are the oldest.
proof fn lemma_expired_first(mailbox: Seq<Held>, ttl: nat, now: nat, late: nat)
    requires
        put_in_turn(mailbox, late),
    ensures
        reclaimed(mailbox, live_entries(mailbox, ttl, now), ttl, now),
    decreases mailbox.len(),
{
    reveal(Seq::filter);
    let pred = |held: Held| held.live(ttl, now);
    if mailbox.len() == 0 {
        assert(mailbox.filter(pred) =~= mailbox.skip(0));
        assert(reclaimed_by(mailbox, live_entries(mailbox, ttl, now), ttl, now, 0));
    } else {
        let before = mailbox.drop_last();
        lemma_expired_first(before, ttl, now, late);
        let k = choose|k: int| #[trigger]
            reclaimed_by(before, live_entries(before, ttl, now), ttl, now, k);
        if pred(mailbox.last()) {
            assert(mailbox.filter(pred) =~= mailbox.skip(k));
            assert forall|i: int| 0 <= i < k implies !(#[trigger] mailbox[i]).live(ttl, now) by {
                assert(before[i] == mailbox[i]);
            }
            assert(reclaimed_by(mailbox, live_entries(mailbox, ttl, now), ttl, now, k));
        } else {
            if k < before.len() {
                let kept = before.filter(pred);
                assert(kept[0] == before[k]);
                before.lemma_filter_pred(pred, 0);
                assert(mailbox[k].held_at <= mailbox[mailbox.len() - 1].held_at);
            }
            assert(mailbox.filter(pred) =~= mailbox.skip(mailbox.len() as int));
            assert(reclaimed_by(
                mailbox,
                live_entries(mailbox, ttl, now),
                ttl,
                now,
                mailbox.len() as int,
            ));
        }
    }
}

/// Sweeping what was reclaimed already reclaims a little more.
proof fn lemma_reclaimed_twice(
    mailbox: Seq<Held>,
    less: Seq<Held>,
    least: Seq<Held>,
    ttl: nat,
    now: nat,
)
    requires
        reclaimed(mailbox, less, ttl, now),
        reclaimed(less, least, ttl, now),
    ensures
        reclaimed(mailbox, least, ttl, now),
{
    let k = choose|k: int| #[trigger] reclaimed_by(mailbox, less, ttl, now, k);
    let l = choose|l: int| #[trigger] reclaimed_by(less, least, ttl, now, l);
    assert(least =~= mailbox.skip(k + l));
    assert forall|i: int| 0 <= i < k + l implies !(#[trigger] mailbox[i]).live(ttl, now) by {
        if i >= k {
            assert(less[i - k] == mailbox[i]);
        }
    }
    assert(reclaimed_by(mailbox, least, ttl, now, k + l));
}

/// Holding one more frame: the room that a sweep has made is not missed either.
proof fn lemma_reclaimed_hold(
    mailbox: Seq<Held>,
    less: Seq<Held>,
    entry: Held,
    depth: nat,
    ttl: nat,
    now: nat,
)
    requires
        reclaimed(mailbox, less, ttl, now),
    ensures
        reclaimed(hold(mailbox, entry, depth), hold(less, entry, depth), ttl, now),
{
    let k = choose|k: int| #[trigger] reclaimed_by(mailbox, less, ttl, now, k);
    let all = mailbox.push(entry);
    let fewer = less.push(entry);
    assert(fewer =~= all.skip(k));
    let held = newest(all, depth);
    let kept = newest(fewer, depth);
    let lost = all.len() - held.len();
    if fewer.len() <= depth {
        assert(kept =~= held.skip(k - lost));
        assert forall|i: int| 0 <= i < k - lost implies !(#[trigger] held[i]).live(ttl, now) by {
            assert(held[i] == mailbox[i + lost]);
        }
        assert(reclaimed_by(held, kept, ttl, now, k - lost));
    } else {
        assert(kept =~= held.skip(0));
        assert(reclaimed_by(held, kept, ttl, now, 0));
    }
}

proof fn lemma_put_in_turn_hold(
    mailbox: Seq<Held>,
    frame: Seq<char>,
    depth: nat,
    now: nat,
    at: nat,
)
    requires
        put_in_turn(mailbox, now),
        now <= at,
    ensures
        put_in_turn(hold(mailbox, Held { held_at: at, frame }, depth), at),
{
    let all = mailbox.push(Held { held_at: at, frame });
    let held = newest(all, depth);
    let lost = all.len() - held.len();
    assert forall|i: int| 0 <= i < held.len() implies #[trigger] held[i] == all[i + lost] by {}
}

/// The mailbox of a topic after an operation that is no sweep.
proof fn lemma_op_topic(hub: HubModel, op: Op, t: Seq<char>)
    requires
        !(op is Prune),
    ensures
        op.after(hub).topic(t) == match op {
            Op::Subscribe { topic, conn_id, link, accepted, at } if t == topic => hub.topic(
                t,
            ).joined(
                conn_id,
                link.and_those(live_frames(hub.topic(t).mailbox, hub.ttl, at), accepted),
            ),
            Op::Unsubscribe { topic, conn_id } if t == topic => hub.topic(t).left(conn_id),
            Op::Publish { topic, from_conn, frame, refused, at } if t == topic => hub.topic(
                t,
            ).published(from_conn, frame, refused, at, hub.depth),
            Op::DropConnection { conn_id, names } if names.contains(t) => hub.topic(t).left(
                conn_id,
            ),
            Op::EndStalled => hub.topic(t).without(hub.stalled),
            _ => hub.topic(t),
        },
{
    match op {
        Op::Unsubscribe { topic, conn_id } => {
            lemma_leave_topic(hub, set![topic], conn_id, t);
        },
        Op::Publish { topic, from_conn, frame, refused, at } => {
            lemma_publish_topic(hub, topic, from_conn, frame, refused, at, t);
        },
        Op::DropConnection { conn_id, names } => {
            lemma_leave_topic(hub, names, conn_id, t);
        },
        Op::EndStalled => {
            lemma_ended_topic(hub, t);
        },
        _ => {},
    }
}

/// No operation puts a mailbox out of turn.
proof fn lemma_op_timely(hub: HubModel, op: Op, now: nat)
    requires
        now <= op.time(now),
        timely(hub, now),
    ensures
        timely(op.after(hub), op.time(now)),
{
    let at = op.time(now);
    assert forall|t: Seq<char>| put_in_turn((#[trigger] op.after(hub).topic(t)).mailbox, at) by {
        let mailbox = hub.topic(t).mailbox;
        assert(put_in_turn(mailbox, now));
        if op is Prune {
            law_prune_takes_the_expired(hub, t, at);
            lemma_expired_first(mailbox, hub.ttl, at, now);
            let live = live_entries(mailbox, hub.ttl, at);
            let k = choose|k: int| #[trigger] reclaimed_by(mailbox, live, hub.ttl, at, k);
            assert forall|i: int| 0 <= i < live.len() implies #[trigger] live[i] == mailbox[i
                + k] by {}
        } else {
            lemma_op_topic(hub, op, t);
            match op {
                Op::Publish { topic, frame, .. } if t == topic => {
                    lemma_put_in_turn_hold(mailbox, frame, hub.depth, now, at);
                },
                _ => {},
            }
        }
    }
}

/// Along any run in which time does not run backwards, each mailbox stays ordered by the
/// time at which its frames were held, and none of them was held later than the last
/// operation. A run from a hub without topics begins so.
pub proof fn law_mailboxes_stay_in_turn(hub: HubModel, ops: Seq<Op>, start: nat)
    requires
        timely(hub, start),
        in_time(ops, start),
    ensures
        timely(after_all(hub, ops), latest(ops, start)),
    decreases ops.len(),
{
    if ops.len() > 0 {
        let before = ops.drop_last();
        law_mailboxes_stay_in_turn(hub, before, start);
        lemma_op_timely(after_all(hub, before), ops.last(), latest(before, start));
    }
}

/// An operation shows the same on hubs that are alike, and leaves them alike.
proof fn lemma_op_alike(hub: HubModel, swept: HubModel, op: Op, now: nat)
    requires
        !(op is Prune),
        now <= op.time(now),
        alike(hub, swept, now),
        timely(hub, now),
    ensures
        op.outcome(swept) == op.outcome(hub),
        alike(op.after(hub), op.after(swept), op.time(now)),
        timely(op.after(hub), op.time(now)),
{
    let at = op.time(now);
    assert forall|t: Seq<char>| alike_on(op.after(hub), op.after(swept), at, t) by {
        lemma_op_topic(hub, op, t);
        lemma_op_topic(swept, op, t);
        assert(alike_on(hub, swept, now, t));
        let before = hub.topic(t);
        let less = swept.topic(t);
        lemma_reclaimed_later(before.mailbox, less.mailbox, hub.ttl, now, at);
        lemma_reclaimed_live(before.mailbox, less.mailbox, hub.ttl, at);
        match op {
            Op::Subscribe { topic, .. } if t == topic => {
                assert(reclaimed_by(
                    Seq::<Held>::empty(),
                    Seq::<Held>::empty().skip(0),
                    hub.ttl,
                    at,
                    0,
                ));
                assert(Seq::<Held>::empty().skip(0) =~= Seq::<Held>::empty());
            },
            Op::Publish { topic, from_conn, frame, refused, at: published } if t == topic => {
                let tried = before.offered(from_conn, frame, refused);
                assert(less.offered(from_conn, frame, refused).subscribers =~= tried.subscribers);
                lemma_reclaimed_hold(
                    before.mailbox,
                    less.mailbox,
                    Held { held_at: at, frame },
                    hub.depth,
                    hub.ttl,
                    at,
                );
            },
            _ => {},
        }
    }
    lemma_op_timely(hub, op, now);
    match op {
        Op::Subscribe { topic, .. } => {
            assert(alike_on(hub, swept, now, topic));
            let mailbox = hub.topic(topic).mailbox;
            lemma_reclaimed_later(mailbox, swept.topic(topic).mailbox, hub.ttl, now, at);
            lemma_reclaimed_live(mailbox, swept.topic(topic).mailbox, hub.ttl, at);
        },
        Op::Publish { topic, .. } => {
            assert(alike_on(hub, swept, now, topic));
        },
        _ => {},
    }
    assert(op.outcome(swept) =~= op.outcome(hub));
}

/// A sweep of one of two hubs that are alike leaves them alike.
proof fn lemma_sweep_alike(hub: HubModel, swept: HubModel, now: nat, at: nat)
    requires
        now <= at,
        alike(hub, swept, now),
        timely(hub, now),
    ensures
        alike(hub, swept.prune(at), at),
        timely(hub, at),
{
    assert forall|t: Seq<char>| alike_on(hub, swept.prune(at), at, t) by {
        law_prune_takes_the_expired(swept, t, at);
        assert(alike_on(hub, swept, now, t));
        let mailbox = hub.topic(t).mailbox;
        let less = swept.topic(t).mailbox;
        assert(put_in_turn(mailbox, now));
        let k = choose|k: int| #[trigger] reclaimed_by(mailbox, less, hub.ttl, now, k);
        assert(put_in_turn(less, now)) by {
            assert forall|i: int| 0 <= i < less.len() implies #[trigger] less[i] == mailbox[i
                + k] by {}
        }
        lemma_reclaimed_later(mailbox, less, hub.ttl, now, at);
        lemma_expired_first(less, hub.ttl, at, now);
        lemma_reclaimed_twice(
            mailbox,
            less,
            live_entries(less, hub.ttl, at),
            hub.ttl,
            at,
        );
    }
    assert forall|t: Seq<char>| put_in_turn((#[trigger] hub.topic(t)).mailbox, at) by {
        assert(put_in_turn(hub.topic(t).mailbox, now));
    }
}

proof fn lemma_runs_alike(hub: HubModel, ops: Seq<Op>, start: nat)
    requires
        timely(hub, start),
        in_time(ops, start),
    ensures
        outcomes(hub, ops) == outcomes(hub, without_sweeps(ops)),
        alike(
            after_all(hub, without_sweeps(ops)),
            after_all(hub, ops),
            latest(ops, start),
        ),
        timely(after_all(hub, without_sweeps(ops)), latest(ops, start)),
    decreases ops.len(),
{
    reveal(Seq::filter);
    if ops.len() == 0 {
        assert forall|t: Seq<char>| alike_on(hub, hub, start, t) by {
            let mailbox = hub.topic(t).mailbox;
            assert(mailbox =~= mailbox.skip(0));
            assert(reclaimed_by(mailbox, mailbox, hub.ttl, start, 0));
        }
    } else {
        let before = ops.drop_last();
        let op = ops.last();
        let now = latest(before, start);
        lemma_runs_alike(hub, before, start);
        let plain = after_all(hub, without_sweeps(before));
        let swept = after_all(hub, before);
        if op is Prune {
            lemma_sweep_alike(plain, swept, now, op.time(now));
        } else {
            lemma_op_alike(plain, swept, op, now);
            assert(without_sweeps(ops).drop_last() =~= without_sweeps(before));
        }
    }
}

/// Sweeping cannot be seen. Take any run of subscribes, unsubscribes, publishes, ends of
/// connections and sweeps along which time does not run backwards, and the same run
/// without its sweeps, with the queues answering alike: every publish returns the same
/// number, every connection is tried with the same frames in the same order, and in the
/// end the same connections are subscribed, through links that went through the same.
pub proof fn law_sweeps_are_unobservable(hub: HubModel, ops: Seq<Op>, start: nat)
    requires
        timely(hub, start),
        in_time(ops, start),
    ensures
        outcomes(hub, ops) == outcomes(hub, without_sweeps(ops)),
        forall|t: Seq<char>|
            (#[trigger] after_all(hub, ops).topic(t)).subscribers == after_all(
                hub,
                without_sweeps(ops),
            ).topic(t).subscribers,
{
    lemma_runs_alike(hub, ops, start);
    let plain = after_all(hub, without_sweeps(ops));
    let swept = after_all(hub, ops);
    assert forall|t: Seq<char>| (#[trigger] swept.topic(t)).subscribers == plain.topic(
        t,
    ).subscribers by {
        assert(alike_on(plain, swept, latest(ops, start), t));
    }
}

/// Every run begins timely: a hub without topics holds nothing.
pub proof fn law_empty_hub_is_timely(hub: HubModel, now: nat)
    requires
        hub.topics == Map::<Seq<char>, TopicModel>::empty(),
    ensures
        timely(hub, now),
{
}

} // verus!
