//! What the hub holds, as mathematics: topics, their subscribers and their mailboxes,
//! and what each operation makes of them.

use vstd::prelude::*;

use crate::sender::{attempts, queue_of, FrameSender};

verus! {

/// The texts of strings.
pub open spec fn texts(strings: Seq<String>) -> Seq<Seq<char>> {
    strings.map_values(|s: String| s@)
}

/// A subscriber's outbound queue handle: the queue it feeds, and the frames that have been
/// tried through it, oldest first, each with whether it went in.
#[verifier::ext_equal]
pub struct Link {
    pub queue: int,
    pub tried: Seq<(Seq<char>, bool)>,
}

/// What a handle is, as a link.
pub open spec fn link_of(sender: FrameSender) -> Link {
    Link { queue: queue_of(sender), tried: attempts(sender) }
}

impl Link {
    /// A link to the queue through which nothing has been tried.
    pub open spec fn fresh(queue: int) -> Link {
        Link { queue, tried: Seq::empty() }
    }

    /// The link after one more frame was tried.
    pub open spec fn and(self, frame: Seq<char>, accepted: bool) -> Link {
        Link { tried: self.tried.push((frame, accepted)), ..self }
    }

    /// The link after `frames` were tried in turn; `accepted` says of each whether it went
    /// in.
    pub open spec fn and_those(self, frames: Seq<Seq<char>>, accepted: Seq<bool>) -> Link {
        Link {
            tried: self.tried + Seq::new(frames.len(), |i: int| (frames[i], accepted[i])),
            ..self
        }
    }
}

/// A frame in a mailbox, and when it was put there, in nanoseconds.
pub struct Held {
    pub held_at: nat,
    pub frame: Seq<char>,
}

impl Held {
    /// Whether the frame may still be delivered: less than `ttl` has passed.
    pub open spec fn live(self, ttl: nat, now: nat) -> bool {
        now < self.held_at + ttl
    }
}

/// The entries that are still live, in their order.
pub open spec fn live_entries(mailbox: Seq<Held>, ttl: nat, now: nat) -> Seq<Held> {
    mailbox.filter(|held: Held| held.live(ttl, now))
}

/// The frames of the entries that are still live, in their order.
pub open spec fn live_frames(mailbox: Seq<Held>, ttl: nat, now: nat) -> Seq<Seq<char>> {
    live_entries(mailbox, ttl, now).map_values(|held: Held| held.frame)
}

/// The last `depth` of the entries, or all of them where there are fewer.
pub open spec fn newest(entries: Seq<Held>, depth: nat) -> Seq<Held> {
    if entries.len() <= depth {
        entries
    } else {
        entries.skip(entries.len() - depth)
    }
}

/// The mailbox with one more entry at the back: a mailbox that already holds `depth`
/// entries loses its oldest one, and one of depth zero holds nothing.
pub open spec fn hold(mailbox: Seq<Held>, entry: Held, depth: nat) -> Seq<Held> {
    newest(mailbox.push(entry), depth)
}

/// One topic: who is subscribed, and what is held for whoever comes late, newest at the
/// back.
#[verifier::ext_equal]
pub struct TopicModel {
    pub subscribers: Map<u64, Link>,
    pub mailbox: Seq<Held>,
}

impl TopicModel {
    /// A topic with nobody and nothing in it.
    pub open spec fn vacant() -> TopicModel {
        TopicModel { subscribers: Map::empty(), mailbox: Seq::empty() }
    }

    /// Nobody is subscribed and nothing is held.
    pub open spec fn is_vacant(self) -> bool {
        self.subscribers.dom() == Set::<u64>::empty() && self.mailbox.len() == 0
    }

    /// The subscribers that a frame from `from_conn` is for.
    pub open spec fn others(self, from_conn: u64) -> Set<u64> {
        self.subscribers.dom().remove(from_conn)
    }

    /// After a frame was tried on every other subscriber: it went to those of them that did
    /// not refuse.
    pub open spec fn offered(self, from_conn: u64, frame: Seq<char>, refused: Set<u64>) -> TopicModel {
        TopicModel {
            subscribers: Map::new(
                |c: u64| self.subscribers.contains_key(c),
                |c: u64|
                    if c != from_conn {
                        self.subscribers[c].and(frame, !refused.contains(c))
                    } else {
                        self.subscribers[c]
                    },
            ),
            ..self
        }
    }

    /// How many of the other subscribers took the frame.
    pub open spec fn delivered(self, from_conn: u64, refused: Set<u64>) -> nat {
        self.others(from_conn).difference(refused).len()
    }

    /// After the frame was tried: the others that refused are dropped, and a frame that
    /// nobody took is held.
    pub open spec fn settled(
        self,
        from_conn: u64,
        frame: Seq<char>,
        refused: Set<u64>,
        now: nat,
        depth: nat,
    ) -> TopicModel {
        TopicModel {
            subscribers: self.subscribers.remove_keys(refused.remove(from_conn)),
            mailbox: if self.delivered(from_conn, refused) == 0 {
                hold(self.mailbox, Held { held_at: now, frame }, depth)
            } else {
                self.mailbox
            },
        }
    }

    /// After a publish whose frame `refused` would not take.
    pub open spec fn published(
        self,
        from_conn: u64,
        frame: Seq<char>,
        refused: Set<u64>,
        now: nat,
        depth: nat,
    ) -> TopicModel {
        self.offered(from_conn, frame, refused).settled(from_conn, frame, refused, now, depth)
    }

    /// With the connection subscribed through `link`, and the mailbox emptied.
    pub open spec fn joined(self, conn_id: u64, link: Link) -> TopicModel {
        TopicModel { subscribers: self.subscribers.insert(conn_id, link), mailbox: Seq::empty() }
    }

    /// Without the connection.
    pub open spec fn left(self, conn_id: u64) -> TopicModel {
        TopicModel { subscribers: self.subscribers.remove(conn_id), ..self }
    }

    /// Without any of the connections.
    pub open spec fn without(self, conns: Set<u64>) -> TopicModel {
        TopicModel { subscribers: self.subscribers.remove_keys(conns), ..self }
    }

    /// Without the entries that are no longer live.
    pub open spec fn pruned(self, ttl: nat, now: nat) -> TopicModel {
        TopicModel { mailbox: live_entries(self.mailbox, ttl, now), ..self }
    }
}

/// Every subscriber's link is that of some handle, so what it says was tried was tried.
pub open spec fn all_tried(topic: TopicModel) -> bool {
    forall|c: u64| #[trigger]
        topic.subscribers.contains_key(c) ==> exists|sender: FrameSender| #[trigger]
            link_of(sender) == topic.subscribers[c]
}

/// The whole hub: its topics by name, how long (in nanoseconds) and how many frames a
/// mailbox holds, and the connections that refused a frame and have not been ended since.
#[verifier::ext_equal]
pub struct HubModel {
    pub topics: Map<Seq<char>, TopicModel>,
    pub ttl: nat,
    pub depth: nat,
    pub stalled: Set<u64>,
}

impl HubModel {
    /// A topic that the hub does not know is vacant.
    pub open spec fn topic(self, topic: Seq<char>) -> TopicModel {
        if self.topics.contains_key(topic) {
            self.topics[topic]
        } else {
            TopicModel::vacant()
        }
    }

    /// Whether the connection is subscribed to the topic.
    pub open spec fn subscribed(self, topic: Seq<char>, conn_id: u64) -> bool {
        self.topic(topic).subscribers.contains_key(conn_id)
    }

    /// With `state` as the state of `topic`.
    pub open spec fn with(self, topic: Seq<char>, state: TopicModel) -> HubModel {
        HubModel { topics: self.topics.insert(topic, state), ..self }
    }

    /// After a subscribe during which the live backlog was tried on the new subscriber,
    /// and `accepted` marks the frames that went in.
    pub open spec fn subscribe(
        self,
        topic: Seq<char>,
        conn_id: u64,
        link: Link,
        accepted: Seq<bool>,
        now: nat,
    ) -> HubModel {
        let backlog = live_frames(self.topic(topic).mailbox, self.ttl, now);
        self.with(topic, self.topic(topic).joined(conn_id, link.and_those(backlog, accepted)))
    }

    /// After a publish whose frame the subscribers in `refused` would not take. They count
    /// as stalled. A topic that is vacant after that is forgotten.
    pub open spec fn publish(
        self,
        topic: Seq<char>,
        from_conn: u64,
        frame: Seq<char>,
        refused: Set<u64>,
        now: nat,
    ) -> HubModel {
        let state = self.topic(topic).published(from_conn, frame, refused, now, self.depth);
        HubModel {
            topics: if state.is_vacant() {
                self.topics.remove(topic)
            } else {
                self.topics.insert(topic, state)
            },
            stalled: self.stalled.union(refused),
            ..self
        }
    }

    /// After the connection has left each of `names`. Topics that are vacant after that
    /// are forgotten.
    pub open spec fn leave(self, names: Set<Seq<char>>, conn_id: u64) -> HubModel {
        HubModel {
            topics: Map::new(
                |t: Seq<char>|
                    self.topics.contains_key(t) && !(names.contains(t) && self.topics[t].left(
                        conn_id,
                    ).is_vacant()),
                |t: Seq<char>|
                    if names.contains(t) {
                        self.topics[t].left(conn_id)
                    } else {
                        self.topics[t]
                    },
            ),
            ..self
        }
    }

    /// After a sweep: expired entries are gone, and so are the topics that are vacant
    /// without them.
    pub open spec fn prune(self, now: nat) -> HubModel {
        HubModel {
            topics: Map::new(
                |t: Seq<char>|
                    self.topics.contains_key(t) && !self.topics[t].pruned(
                        self.ttl,
                        now,
                    ).is_vacant(),
                |t: Seq<char>| self.topics[t].pruned(self.ttl, now),
            ),
            ..self
        }
    }

    /// After the stalled connections were ended: they are subscribed to nothing any more.
    /// Topics that are vacant without them are forgotten.
    pub open spec fn ended(self) -> HubModel {
        HubModel {
            topics: Map::new(
                |t: Seq<char>|
                    self.topics.contains_key(t) && !self.topics[t].without(
                        self.stalled,
                    ).is_vacant(),
                |t: Seq<char>| self.topics[t].without(self.stalled),
            ),
            stalled: Set::empty(),
            ..self
        }
    }

    /// What every reachable hub keeps: a topic has finitely many subscribers, no topic is
    /// vacant, and no mailbox holds more than `depth` frames.
    pub open spec fn inv(self) -> bool {
        &&& forall|t: Seq<char>| #[trigger]
            self.topics.contains_key(t) ==> self.topics[t].subscribers.dom().finite()
        &&& forall|t: Seq<char>| #[trigger]
            self.topics.contains_key(t) ==> !self.topics[t].is_vacant()
        &&& forall|t: Seq<char>| #[trigger]
            self.topics.contains_key(t) ==> self.topics[t].mailbox.len() <= self.depth
    }
}

/// `post` is what a subscribe through `link` at `now` can make of `pre`, whichever of the
/// backlog the new subscriber's queue took.
pub open spec fn subscribes(
    pre: HubModel,
    post: HubModel,
    topic: Seq<char>,
    conn_id: u64,
    link: Link,
    now: nat,
) -> bool {
    exists|accepted: Seq<bool>|
        {
            &&& accepted.len() == live_frames(pre.topic(topic).mailbox, pre.ttl, now).len()
            &&& post == #[trigger] pre.subscribe(topic, conn_id, link, accepted, now)
        }
}

/// `post` is what a publish at `now` can make of `pre` when `delivered` subscribers took
/// the frame, whichever of the others refused. The frame was tried on each of the others,
/// on those that refused as well.
pub open spec fn publishes(
    pre: HubModel,
    post: HubModel,
    topic: Seq<char>,
    from_conn: u64,
    frame: Seq<char>,
    delivered: nat,
    now: nat,
) -> bool {
    exists|refused: Set<u64>|
        {
            &&& refused.subset_of(pre.topic(topic).others(from_conn))
            &&& all_tried(pre.topic(topic).offered(from_conn, frame, refused))
            &&& delivered == pre.topic(topic).delivered(from_conn, refused)
            &&& post == #[trigger] pre.publish(topic, from_conn, frame, refused, now)
        }
}

/// `post` is what a publish at `now` can make of `pre` when the connections that are
/// stalled after it, `ended`, are ended.
pub open spec fn publishes_and_ends(
    pre: HubModel,
    post: HubModel,
    topic: Seq<char>,
    from_conn: u64,
    frame: Seq<char>,
    delivered: nat,
    ended: Set<u64>,
    now: nat,
) -> bool {
    exists|mid: HubModel|
        {
            &&& publishes(pre, mid, topic, from_conn, frame, delivered, now)
            &&& ended == mid.stalled
            &&& post == #[trigger] mid.ended()
        }
}

/// A publish changes its topic as the topic's own model says, and no other.
pub proof fn lemma_publish_topic(
    hub: HubModel,
    topic: Seq<char>,
    from_conn: u64,
    frame: Seq<char>,
    refused: Set<u64>,
    now: nat,
    t: Seq<char>,
)
    ensures
        hub.publish(topic, from_conn, frame, refused, now).topic(t) == if t == topic {
            hub.topic(t).published(from_conn, frame, refused, now, hub.depth)
        } else {
            hub.topic(t)
        },
{
    let state = hub.topic(topic).published(from_conn, frame, refused, now, hub.depth);
    if state.is_vacant() {
        assert(state =~= TopicModel::vacant());
    }
}

/// Leaving topics takes the connection off each of them, and touches no other.
pub proof fn lemma_leave_topic(hub: HubModel, names: Set<Seq<char>>, conn_id: u64, t: Seq<char>)
    ensures
        hub.leave(names, conn_id).topic(t) == if names.contains(t) {
            hub.topic(t).left(conn_id)
        } else {
            hub.topic(t)
        },
{
    let state = hub.topic(t).left(conn_id);
    if state.is_vacant() {
        assert(state =~= TopicModel::vacant());
    }
}

/// Ending the stalled connections takes them off every topic.
pub proof fn lemma_ended_topic(hub: HubModel, t: Seq<char>)
    ensures
        hub.ended().topic(t) == hub.topic(t).without(hub.stalled),
{
    let state = hub.topic(t).without(hub.stalled);
    if state.is_vacant() {
        assert(state =~= TopicModel::vacant());
    }
}

} // verus!
