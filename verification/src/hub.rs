//! Topic hub: the relay's whole brain. Routes a publish to every other subscriber of the
//! topic, and when nobody is listening holds the frame in a per-topic mailbox up to the
//! time to live, so that a client that is woken up can fetch a request published moments
//! before it connected. The hub is deliberately dumb: no crypto, no payload inspection.

use vstd::hash_map::StringHashMap;
use vstd::prelude::*;

use crate::clock::Clock;
use crate::laws::upkeep::{
    law_end_keeps_inv, law_leave_keeps_inv, law_prune_keeps_inv, law_publish_keeps_inv,
    law_subscribe_keeps_inv,
};
use crate::model::{
    all_tried, link_of, live_frames, publishes, subscribes, texts, HubModel, TopicModel,
};
pub use crate::sender::FrameSender;
use crate::sender::send_all;
use crate::topic::TopicState;

verus! {

struct Slot {
    name: String,
    state: TopicState,
}

/// The topics, each in a slot of its own, and where the slot of each topic is.
pub struct Hub {
    index: StringHashMap<usize>,
    slots: Vec<Slot>,
    mailbox_ttl: u128,
    mailbox_max: usize,
    /// The connections that refused a frame and have not been ended since.
    stalled: Vec<u64>,
    clock: Clock,
}

impl Hub {
    /// What the hub holds.
    pub closed spec fn view(&self) -> HubModel {
        HubModel {
            topics: Map::new(
                |t: Seq<char>| self.index@.contains_key(t),
                |t: Seq<char>| self.slots@[self.index@[t] as int].state@,
            ),
            ttl: self.mailbox_ttl as nat,
            depth: self.mailbox_max as nat,
            stalled: self.stalled@.to_set(),
        }
    }

    /// The time, in nanoseconds since the hub was made, of the last operation that went by
    /// the hub's clock.
    pub closed spec fn time(&self) -> nat {
        self.clock@
    }

    /// `reading` is a number of nanoseconds that the monotonic clock gave as the time passed
    /// since the hub was made.
    pub closed spec fn reads(&self, reading: u128) -> bool {
        self.clock.reads(reading)
    }

    /// The index and the slots agree.
    spec fn indexed(&self) -> bool {
        &&& forall|i: int|
            0 <= i < self.slots@.len() ==> {
                let slot = #[trigger] self.slots@[i];
                &&& slot.state.inv()
                &&& self.index@.contains_key(slot.name@)
                &&& self.index@[slot.name@] == i
            }
        &&& forall|t: Seq<char>| #[trigger]
            self.index@.contains_key(t) ==> {
                &&& self.index@[t] < self.slots@.len()
                &&& self.slots@[self.index@[t] as int].name@ == t
            }
    }

    /// What every hub keeps.
    pub closed spec fn inv(&self) -> bool {
        self.indexed() && self@.inv()
    }

    /// What a hub keeps, its model keeps.
    pub proof fn lemma_inv(&self)
        requires
            self.inv(),
        ensures
            self@.inv(),
    {
    }

    /// A hub without topics. A frame is held for `mailbox_ttl` nanoseconds, and at most
    /// `mailbox_max` frames per topic.
    pub fn new(mailbox_ttl: u128, mailbox_max: usize) -> (hub: Hub)
        ensures
            hub.inv(),
            hub@ == (HubModel {
                topics: Map::empty(),
                ttl: mailbox_ttl as nat,
                depth: mailbox_max as nat,
                stalled: Set::empty(),
            }),
            hub.time() == 0,
    {
        let hub = Hub {
            index: StringHashMap::new(),
            slots: Vec::new(),
            mailbox_ttl,
            mailbox_max,
            stalled: Vec::new(),
            clock: Clock::start(),
        };
        assert(hub@.topics =~= Map::empty());
        assert(hub@.stalled =~= Set::empty());
        hub
    }

    /// The topic's slot, made where the hub does not know the topic.
    fn slot_of(&mut self, topic: &str) -> (i: usize)
        requires
            old(self).indexed(),
        ensures
            final(self).indexed(),
            i < final(self).slots@.len(),
            final(self).slots@[i as int].name@ == topic@,
            final(self).slots@[i as int].state@ == old(self)@.topic(topic@),
            final(self)@ == old(self)@.with(
                topic@,
                old(self)@.topic(topic@),
            ),
            final(self).clock == old(self).clock,
    {
        match self.index.get(topic) {
            Some(i) => {
                assert(self@ =~= old(self)@.with(
                    topic@,
                    old(self)@.topic(topic@),
                ));
                *i
            },
            None => {
                let i = self.slots.len();
                self.slots.push(Slot { name: topic.to_owned(), state: TopicState::new() });
                self.index.insert(topic.to_owned(), i);
                proof {
                    assert forall|j: int| 0 <= j < self.slots@.len() implies {
                        let slot = #[trigger] self.slots@[j];
                        &&& slot.state.inv()
                        &&& self.index@.contains_key(slot.name@)
                        &&& self.index@[slot.name@] == j
                    } by {
                        if j < i {
                            assert(self.slots@[j] == old(self).slots@[j]);
                        }
                    }
                    assert(self@.topics =~= old(self)@.topics.insert(
                        topic@,
                        TopicModel::vacant(),
                    ));
                }
                i
            },
        }
    }

    /// Changing the state in one slot changes that topic in the model.
    proof fn lemma_slot_changed(pre: &Hub, post: &Hub, i: int)
        requires
            pre.indexed(),
            0 <= i < pre.slots@.len(),
            post.index == pre.index,
            post.mailbox_ttl == pre.mailbox_ttl,
            post.mailbox_max == pre.mailbox_max,
            post.stalled == pre.stalled,
            post.slots@.len() == pre.slots@.len(),
            post.slots@[i].name == pre.slots@[i].name,
            post.slots@[i].state.inv(),
            forall|j: int|
                0 <= j < pre.slots@.len() && j != i ==> #[trigger] post.slots@[j]
                    == pre.slots@[j],
        ensures
            post.indexed(),
            post@ == pre@.with(pre.slots@[i].name@, post.slots@[i].state@),
    {
        assert forall|j: int| 0 <= j < post.slots@.len() implies {
            let slot = #[trigger] post.slots@[j];
            &&& slot.state.inv()
            &&& post.index@.contains_key(slot.name@)
            &&& post.index@[slot.name@] == j
        } by {
            assert(pre.slots@[j].state.inv());
        }
        assert(post@.topics =~= pre@.topics.insert(
            pre.slots@[i].name@,
            post.slots@[i].state@,
        ));
    }

    /// Registers a subscriber and immediately flushes to it the backlog that is unexpired
    /// at `now`.
    pub fn subscribe_at(&mut self, topic: &str, conn_id: u64, sender: FrameSender, now: u128)
        requires
            old(self).inv(),
        ensures
            final(self).inv(),
            exists|accepted: Seq<bool>|
                {
                    &&& accepted.len() == live_frames(
                        old(self)@.topic(topic@).mailbox,
                        old(self)@.ttl,
                        now as nat,
                    ).len()
                    &&& final(self)@ == #[trigger] old(self)@.subscribe(
                        topic@,
                        conn_id,
                        link_of(sender),
                        accepted,
                        now as nat,
                    )
                },
            final(self).time() == old(self).time(),
            forall|r: u128| #[trigger] final(self).reads(r) == old(self).reads(r),
    {
        let ghost pre = self@;
        let i = self.slot_of(topic);
        let ghost mid = *self;
        let mut sender = sender;
        let ghost link = link_of(sender);
        let frames = self.slots[i].state.take_backlog(self.mailbox_ttl, now);
        let ghost backlog = texts(frames@);
        send_all(&mut sender, frames);
        let ghost accepted = choose|accepted: Seq<bool>|
            {
                &&& accepted.len() == backlog.len()
                &&& link_of(sender) == #[trigger] link.and_those(backlog, accepted)
            };
        self.slots[i].state.enroll(conn_id, sender);
        proof {
            Self::lemma_slot_changed(&mid, self, i as int);
            law_subscribe_keeps_inv(pre, topic@, conn_id, link, accepted, now as nat);
            assert(self@ =~= pre.subscribe(topic@, conn_id, link, accepted, now as nat));
        }
    }

    /// Registers a subscriber and immediately flushes any unexpired mailbox backlog to it
    /// (the wake-up flow: the publish happens before the client finishes connecting).
    /// A frame of the backlog that the new subscriber's queue will not take is lost.
    pub fn subscribe(&mut self, topic: &str, conn_id: u64, sender: FrameSender)
        requires
            old(self).inv(),
        ensures
            final(self).inv(),
            old(self).time() <= final(self).time(),
            exists|reading: u128| #[trigger]
                old(self).reads(reading) && final(self).time() == if old(self).time() < reading {
                    reading as nat
                } else {
                    old(self).time()
                },
            forall|r: u128| #[trigger] final(self).reads(r) == old(self).reads(r),
            subscribes(
                old(self)@,
                final(self)@,
                topic@,
                conn_id,
                link_of(sender),
                final(self).time(),
            ),
    {
        let now = self.clock.now();
        proof {
            lemma_reads(old(self), now as nat);
        }
        self.subscribe_at(topic, conn_id, sender, now);
    }

    /// Empties slot `i` and gives its place to the last slot.
    fn remove_slot(&mut self, i: usize)
        requires
            old(self).indexed(),
            i < old(self).slots@.len(),
        ensures
            final(self).indexed(),
            final(self).slots@ == old(self).slots@.update(
                i as int,
                old(self).slots@.last(),
            ).drop_last(),
            final(self)@ == (HubModel {
                topics: old(self)@.topics.remove(old(self).slots@[i as int].name@),
                ..old(self)@
            }),
            final(self).clock == old(self).clock,
    {
        let slot = self.slots.swap_remove(i);
        self.index.remove(slot.name.as_str());
        if i < self.slots.len() {
            let moved = self.slots[i].name.clone();
            self.index.insert(moved, i);
        }
        proof {
            let all = old(self).slots@;
            let name = slot.name@;
            let last = all.len() - 1;
            assert forall|j: int| 0 <= j < self.slots@.len() implies {
                let slot = #[trigger] self.slots@[j];
                &&& slot.state.inv()
                &&& self.index@.contains_key(slot.name@)
                &&& self.index@[slot.name@] == j
            } by {
                let from = if j == i {
                    last
                } else {
                    j
                };
                assert(self.slots@[j] == all[from]);
            }
            assert forall|t: Seq<char>| #[trigger] self.index@.contains_key(t) implies {
                &&& self.index@[t] < self.slots@.len()
                &&& self.slots@[self.index@[t] as int].name@ == t
            } by {
                assert(old(self).index@.contains_key(t));
                if old(self).index@[t] == last {
                    assert(all[last].name@ == t);
                }
                assert(all[old(self).index@[t] as int].name@ == t);
                assert(all[i as int].name@ == name);
            }
            assert forall|t: Seq<char>| #[trigger]
                old(self)@.topics.contains_key(t) && t != name implies self@.topics[t]
                == old(self)@.topics[t] && self@.topics.contains_key(t) by {
                assert(old(self).index@.contains_key(t));
                assert(all[old(self).index@[t] as int].name@ == t);
            }
            assert(self@.topics =~= old(self)@.topics.remove(name));
        }
    }

    /// Takes the connection off the topic. A topic without subscribers and without held
    /// frames is forgotten.
    pub fn unsubscribe(&mut self, topic: &str, conn_id: u64)
        requires
            old(self).inv(),
        ensures
            final(self).inv(),
            final(self)@ == old(self)@.leave(set![topic@], conn_id),
            final(self).time() == old(self).time(),
            forall|r: u128| #[trigger] final(self).reads(r) == old(self).reads(r),
    {
        let ghost pre = self@;
        let found: Option<usize> = match self.index.get(topic) {
            Some(i) => Some(*i),
            None => None,
        };
        if let Some(i) = found {
            let ghost before = *self;
            self.slots[i].state.leave(conn_id);
            proof {
                Self::lemma_slot_changed(&before, self, i as int);
            }
            if self.slots[i].state.is_vacant() {
                self.remove_slot(i);
            }
        }
        proof {
            law_leave_keeps_inv(pre, set![topic@], conn_id);
            assert(self@ =~= pre.leave(set![topic@], conn_id)) by {
                assert(self@.topics =~= pre.leave(set![topic@], conn_id).topics);
            }
        }
    }

    /// Routes one already-serialized `deliver` frame, and holds it as of `now` where
    /// nobody took it.
    pub fn publish_at(
        &mut self,
        topic: &str,
        from_conn: u64,
        deliver_frame: String,
        now: u128,
    ) -> (delivered: usize)
        requires
            old(self).inv(),
        ensures
            final(self).inv(),
            exists|refused: Set<u64>|
                {
                    &&& refused.subset_of(old(self)@.topic(topic@).others(from_conn))
                    &&& all_tried(
                        old(self)@.topic(topic@).offered(from_conn, deliver_frame@, refused),
                    )
                    &&& delivered == old(self)@.topic(topic@).delivered(from_conn, refused)
                    &&& final(self)@ == #[trigger] old(self)@.publish(
                        topic@,
                        from_conn,
                        deliver_frame@,
                        refused,
                        now as nat,
                    )
                },
            final(self).time() == old(self).time(),
            forall|r: u128| #[trigger] final(self).reads(r) == old(self).reads(r),
    {
        let ghost pre = self@;
        let ghost frame = deliver_frame@;
        let i = self.slot_of(topic);
        let ghost mid = *self;
        let depth = self.mailbox_max;
        let mut refusing = self.slots[i].state.offer(from_conn, &deliver_frame);
        proof {
            self.slots@[i as int].state.lemma_all_tried();
        }
        let delivered = self.slots[i].state.settle(
            from_conn,
            deliver_frame,
            &refusing,
            now,
            depth,
        );
        let ghost settled = *self;
        let ghost refused = refusing@.to_set();
        if self.slots[i].state.is_vacant() {
            self.remove_slot(i);
        }
        let ghost stalled = self.stalled@;
        let ghost ids = refusing@;
        self.stalled.append(&mut refusing);
        proof {
            let state = pre.topic(topic@);
            Self::lemma_slot_changed(&mid, &settled, i as int);
            lemma_to_set_of_both(stalled, ids);
            assert(state.offered(from_conn, frame, refused).others(from_conn) =~= state.others(
                from_conn,
            ));
            law_publish_keeps_inv(pre, topic@, from_conn, frame, refused, now as nat);
            assert(self@ =~= pre.publish(topic@, from_conn, frame, refused, now as nat));
        }
        delivered
    }

    /// Routes one already-serialized `deliver` frame to every subscriber of the topic
    /// except the publisher itself. Slow consumers (full queue) and dead queues are
    /// dropped from the topic, and count as stalled until they are ended. Returns the
    /// number of subscribers that took it; 0 means that it went to the mailbox, unless
    /// mailboxes hold nothing.
    pub fn publish(&mut self, topic: &str, from_conn: u64, deliver_frame: String) -> (delivered:
        usize)
        requires
            old(self).inv(),
        ensures
            final(self).inv(),
            old(self).time() <= final(self).time(),
            exists|reading: u128| #[trigger]
                old(self).reads(reading) && final(self).time() == if old(self).time() < reading {
                    reading as nat
                } else {
                    old(self).time()
                },
            forall|r: u128| #[trigger] final(self).reads(r) == old(self).reads(r),
            publishes(
                old(self)@,
                final(self)@,
                topic@,
                from_conn,
                deliver_frame@,
                delivered as nat,
                final(self).time(),
            ),
    {
        let now = self.clock.now();
        proof {
            lemma_reads(old(self), now as nat);
        }
        self.publish_at(topic, from_conn, deliver_frame, now)
    }

    /// Removes a closed connection from every topic it was subscribed to.
    pub fn drop_connection(&mut self, conn_id: u64, topics_of_conn: &[String])
        requires
            old(self).inv(),
        ensures
            final(self).inv(),
            final(self)@ == old(self)@.leave(
                texts(topics_of_conn@).to_set(),
                conn_id,
            ),
            final(self).time() == old(self).time(),
            forall|r: u128| #[trigger] final(self).reads(r) == old(self).reads(r),
    {
        let ghost pre = self@;
        let ghost names = texts(topics_of_conn@);
        assert(self@ =~= pre.leave(names.take(0).to_set(), conn_id)) by {
            assert(names.take(0).to_set() =~= Set::empty());
            assert(self@.topics =~= pre.leave(Set::empty(), conn_id).topics);
        }
        let mut i: usize = 0;
        while i < topics_of_conn.len()
            invariant
                self.inv(),
                self.time() == old(self).time(),
                forall|r: u128| #[trigger] self.reads(r) == old(self).reads(r),
                i <= topics_of_conn@.len(),
                names == texts(topics_of_conn@),
                self@ == pre.leave(names.take(i as int).to_set(), conn_id),
            decreases topics_of_conn.len() - i,
        {
            self.unsubscribe(topics_of_conn[i].as_str(), conn_id);
            proof {
                let before = names.take(i as int);
                let name = names[i as int];
                assert(names.take(i + 1) =~= before.push(name));
                broadcast use vstd::seq_lib::group_seq_properties;
                assert(before.push(name).to_set() =~= before.to_set().insert(name));
                lemma_leave_one_more(pre, before.to_set(), name, conn_id);
            }
            i = i + 1;
        }
        assert(names.take(i as int) =~= names);
    }

    /// Drops the frames that are expired at `now`, and forgets the topics that hold nobody
    /// and nothing after that.
    pub fn prune_at(&mut self, now: u128)
        requires
            old(self).inv(),
        ensures
            final(self).inv(),
            final(self)@ == old(self)@.prune(now as nat),
            final(self).time() == old(self).time(),
            forall|r: u128| #[trigger] final(self).reads(r) == old(self).reads(r),
    {
        let ghost pre = *self;
        let ghost change = |state: TopicModel| state.pruned(pre@.ttl, now as nat);
        let mut i: usize = self.slots.len();
        while i > 0
            invariant
                change == (|state: TopicModel| state.pruned(pre@.ttl, now as nat)),
                pre.indexed(),
                self.indexed(),
                i <= self.slots@.len() <= pre.slots@.len(),
                self.mailbox_ttl == pre.mailbox_ttl,
                self.mailbox_max == pre.mailbox_max,
                self.clock == pre.clock,
                forall|j: int| 0 <= j < i ==> #[trigger] self.slots@[j] == pre.slots@[j],
                self@.stalled == pre@.stalled,
                self@.topics == swept(pre@, pre.slots@, i as int, change),
            decreases i,
        {
            i = i - 1;
            let ghost before = *self;
            let ttl = self.mailbox_ttl;
            self.slots[i].state.prune(ttl, now);
            proof {
                Self::lemma_slot_changed(&before, self, i as int);
            }
            if self.slots[i].state.is_vacant() {
                self.remove_slot(i);
            }
            proof {
                let name = pre.slots@[i as int].name@;
                assert(before.slots@[i as int] == pre.slots@[i as int]);
                assert(self@.topics =~= swept(pre@, pre.slots@, i as int, change));
            }
        }
        proof {
            law_prune_keeps_inv(pre@, now as nat);
            assert(self@.topics =~= pre@.prune(now as nat).topics);
        }
    }

    /// Periodic sweep: expires mailbox entries and forgets empty topics, so abandoned
    /// pairings cannot accumulate memory.
    pub fn prune(&mut self)
        requires
            old(self).inv(),
        ensures
            final(self).inv(),
            old(self).time() <= final(self).time(),
            exists|reading: u128| #[trigger]
                old(self).reads(reading) && final(self).time() == if old(self).time() < reading {
                    reading as nat
                } else {
                    old(self).time()
                },
            forall|r: u128| #[trigger] final(self).reads(r) == old(self).reads(r),
            final(self)@ == old(self)@.prune(final(self).time()),
    {
        let now = self.clock.now();
        proof {
            lemma_reads(old(self), now as nat);
        }
        self.prune_at(now);
    }

    /// Takes the stalled connections off every topic, and hands them out so that they are
    /// closed: a reader that has stopped is disconnected instead of being buffered for.
    pub fn end_stalled(&mut self) -> (ended: Vec<u64>)
        requires
            old(self).inv(),
        ensures
            final(self).inv(),
            final(self)@ == old(self)@.ended(),
            final(self).time() == old(self).time(),
            forall|r: u128| #[trigger] final(self).reads(r) == old(self).reads(r),
            ended@.to_set() == old(self)@.stalled,
    {
        let ghost pre = *self;
        let mut ended: Vec<u64> = Vec::new();
        ended.append(&mut self.stalled);
        assert(ended@ =~= pre.stalled@);
        assert(self@.stalled =~= Set::empty());
        if ended.len() == 0 {
            proof {
                assert(pre@.stalled =~= Set::empty());
                assert forall|t: Seq<char>| #[trigger] pre@.topics.contains_key(t) implies {
                    pre@.topics[t].without(pre@.stalled) == pre@.topics[t]
                } by {
                    assert(pre@.topics[t].without(pre@.stalled) =~= pre@.topics[t]);
                }
                assert(self@.topics =~= pre@.ended().topics);
                law_end_keeps_inv(pre@);
            }
            return ended;
        }
        let ghost change = |state: TopicModel| state.without(pre@.stalled);
        let mut i: usize = self.slots.len();
        assert(self@.topics =~= swept(pre@, pre.slots@, i as int, change));
        while i > 0
            invariant
                change == (|state: TopicModel| state.without(pre@.stalled)),
                ended@.to_set() == pre@.stalled,
                pre.indexed(),
                self.indexed(),
                i <= self.slots@.len() <= pre.slots@.len(),
                self.mailbox_ttl == pre.mailbox_ttl,
                self.mailbox_max == pre.mailbox_max,
                self.clock == pre.clock,
                self@.stalled == Set::<u64>::empty(),
                forall|j: int| 0 <= j < i ==> #[trigger] self.slots@[j] == pre.slots@[j],
                self@.topics == swept(pre@, pre.slots@, i as int, change),
            decreases i,
        {
            i = i - 1;
            let ghost before = *self;
            self.slots[i].state.leave_all(&ended);
            proof {
                Self::lemma_slot_changed(&before, self, i as int);
            }
            if self.slots[i].state.is_vacant() {
                self.remove_slot(i);
            }
            proof {
                let name = pre.slots@[i as int].name@;
                assert(before.slots@[i as int] == pre.slots@[i as int]);
                assert(self@.topics =~= swept(pre@, pre.slots@, i as int, change));
            }
        }
        proof {
            law_end_keeps_inv(pre@);
            assert(self@.topics =~= pre@.ended().topics);
        }
        ended
    }

    /// The number of live topics.
    pub fn topic_count(&self) -> (count: usize)
        requires
            self.inv(),
        ensures
            count == self@.topics.len(),
    {
        assert(self@.topics.dom() =~= self.index@.dom());
        self.index.len()
    }
}

/// Whether the topic stands in a slot before `i`.
spec fn stands_before(slots: Seq<Slot>, i: int, topic: Seq<char>) -> bool {
    exists|j: int| 0 <= j < i && (#[trigger] slots[j]).name@ == topic
}

/// The topics after the change was made in the slots from `i` on, and those of them that
/// it left vacant were forgotten.
spec fn swept(
    hub: HubModel,
    slots: Seq<Slot>,
    i: int,
    change: spec_fn(TopicModel) -> TopicModel,
) -> Map<Seq<char>, TopicModel> {
    Map::new(
        |t: Seq<char>|
            hub.topics.contains_key(t) && (stands_before(slots, i, t) || !change(
                hub.topics[t],
            ).is_vacant()),
        |t: Seq<char>|
            if stands_before(slots, i, t) {
                hub.topics[t]
            } else {
                change(hub.topics[t])
            },
    )
}

/// What is in one of two sequences is in the one after the other.
proof fn lemma_to_set_of_both(a: Seq<u64>, b: Seq<u64>)
    ensures
        (a + b).to_set() == a.to_set().union(b.to_set()),
{
    assert forall|c: u64| (a + b).contains(c) == (a.contains(c) || b.contains(c)) by {
        if a.contains(c) {
            let i = choose|i: int| 0 <= i < a.len() && a[i] == c;
            assert((a + b)[i] == c);
        }
        if b.contains(c) {
            let i = choose|i: int| 0 <= i < b.len() && b[i] == c;
            assert((a + b)[a.len() + i] == c);
        }
    }
    assert((a + b).to_set() =~= a.to_set().union(b.to_set()));
}

/// Leaving one more topic afterwards is leaving it together with the others.
proof fn lemma_leave_one_more(hub: HubModel, names: Set<Seq<char>>, name: Seq<char>, conn_id: u64)
    ensures
        hub.leave(names, conn_id).leave(set![name], conn_id) == hub.leave(
            names.insert(name),
            conn_id,
        ),
{
    assert forall|t: Seq<char>| #[trigger] hub.topics.contains_key(t) implies hub.topics[t].left(
        conn_id,
    ).left(conn_id) == hub.topics[t].left(conn_id) by {
        assert(hub.topics[t].left(conn_id).left(conn_id) =~= hub.topics[t].left(conn_id));
    }
    assert(hub.leave(names, conn_id).leave(set![name], conn_id).topics =~= hub.leave(
        names.insert(name),
        conn_id,
    ).topics);
}

/// The reading behind the time that the clock shows is a reading of the hub.
proof fn lemma_reads(hub: &Hub, now: nat)
    requires
        exists|reading: u128| #[trigger]
            hub.clock.reads(reading) && now == if hub.clock@ < reading {
                reading as nat
            } else {
                hub.clock@
            },
    ensures
        exists|reading: u128| #[trigger]
            hub.reads(reading) && now == if hub.time() < reading {
                reading as nat
            } else {
                hub.time()
            },
{
    let reading = choose|reading: u128| #[trigger]
        hub.clock.reads(reading) && now == if hub.clock@ < reading {
            reading as nat
        } else {
            hub.clock@
        };
    assert(hub.reads(reading));
}

/// A hub's time is what its clock shows, and its readings are those of its clock.
proof fn law_time_is_the_clocks(hub: &Hub, reading: u128)
    ensures
        hub.time() == hub.clock@,
        hub.reads(reading) <==> hub.clock.reads(reading),
{
}

} // verus!
