//! One topic of the hub: its subscribers and its mailbox.

use std::collections::VecDeque;
use vstd::prelude::*;

use crate::model::{all_tried, link_of, live_entries, live_frames, newest, texts, Held, Link, TopicModel};
use crate::sender::{try_send, FrameSender};
use crate::seqs::lemma_filter_push;

verus! {

/// One subscriber of a topic.
struct Subscriber {
    conn_id: u64,
    sender: FrameSender,
}

/// An undelivered `deliver` frame waiting for a subscriber.
struct MailboxEntry {
    held_at: u128,
    frame: String,
}

impl MailboxEntry {
    spec fn model(self) -> Held {
        Held { held_at: self.held_at as nat, frame: self.frame@ }
    }

    /// Whether the entry may still be delivered.
    fn is_live(&self, ttl: u128, now: u128) -> (live: bool)
        ensures
            live == self.model().live(ttl as nat, now as nat),
    {
        now < self.held_at || now - self.held_at < ttl
    }
}

/// A topic's state. No connection is subscribed twice.
pub struct TopicState {
    subscribers: Vec<Subscriber>,
    /// Undelivered frames, newest at the back.
    mailbox: VecDeque<MailboxEntry>,
}

// ---- subscribers as a map ----

/// Where the connection stands among the subscribers.
spec fn stands_at(subscribers: Seq<Subscriber>, conn_id: u64, i: int) -> bool {
    0 <= i < subscribers.len() && subscribers[i].conn_id == conn_id
}

spec fn contains_conn(subscribers: Seq<Subscriber>, conn_id: u64) -> bool {
    exists|i: int| stands_at(subscribers, conn_id, i)
}

spec fn distinct(subscribers: Seq<Subscriber>) -> bool {
    forall|i: int, j: int|
        0 <= i < j < subscribers.len() ==> (#[trigger] subscribers[i]).conn_id != (
        #[trigger] subscribers[j]).conn_id
}

spec fn links(subscribers: Seq<Subscriber>) -> Map<u64, Link> {
    Map::new(
        |c: u64| contains_conn(subscribers, c),
        |c: u64| link_of(subscribers[choose|i: int| stands_at(subscribers, c, i)].sender),
    )
}

proof fn lemma_links_at(subscribers: Seq<Subscriber>, i: int)
    requires
        distinct(subscribers),
        0 <= i < subscribers.len(),
    ensures
        links(subscribers).contains_key(subscribers[i].conn_id),
        links(subscribers)[subscribers[i].conn_id] == link_of(subscribers[i].sender),
{
    let c = subscribers[i].conn_id;
    assert(stands_at(subscribers, c, i));
    let k = choose|k: int| stands_at(subscribers, c, k);
    assert(k == i);
}

proof fn lemma_links_dom(subscribers: Seq<Subscriber>)
    requires
        distinct(subscribers),
    ensures
        links(subscribers).dom().finite(),
        links(subscribers).dom().len() == subscribers.len(),
        forall|c: u64| #[trigger]
            links(subscribers).contains_key(c) <==> contains_conn(subscribers, c),
{
    let ids = subscribers.map_values(|s: Subscriber| s.conn_id);
    assert(ids.no_duplicates());
    ids.unique_seq_to_set();
    vstd::seq_lib::seq_to_set_is_finite(ids);
    assert(links(subscribers).dom() =~= ids.to_set()) by {
        assert forall|c: u64| links(subscribers).dom().contains(c) == #[trigger] ids.to_set().contains(
            c,
        ) by {
            if contains_conn(subscribers, c) {
                let i = choose|i: int| stands_at(subscribers, c, i);
                assert(ids[i] == c);
            }
            if ids.contains(c) {
                let i = choose|i: int| 0 <= i < ids.len() && ids[i] == c;
                assert(stands_at(subscribers, c, i));
            }
        }
    }
}

/// Keeping the subscribers whose connection passes `keep` restricts the map to them.
proof fn lemma_links_filter(subscribers: Seq<Subscriber>, keep: spec_fn(u64) -> bool)
    requires
        distinct(subscribers),
    ensures
        ({
            let kept = subscribers.filter(|s: Subscriber| keep(s.conn_id));
            &&& distinct(kept)
            &&& links(kept) == links(subscribers).filter_keys(keep)
        }),
{
    let pred = |s: Subscriber| keep(s.conn_id);
    let kept = subscribers.filter(pred);
    lemma_filter_distinct(subscribers, pred);
    assert forall|c: u64| #[trigger] links(kept).contains_key(c) implies links(
        subscribers,
    ).contains_key(c) && keep(c) && links(kept)[c] == links(subscribers)[c] by {
        let i = choose|i: int| stands_at(kept, c, i);
        subscribers.lemma_filter_pred(pred, i);
        assert(kept.contains(kept[i]));
        subscribers.lemma_filter_contains_rev(pred, kept[i]);
        let j = choose|j: int| 0 <= j < subscribers.len() && subscribers[j] == kept[i];
        lemma_links_at(subscribers, j);
        lemma_links_at(kept, i);
    }
    assert forall|c: u64| #[trigger] links(subscribers).contains_key(c) && keep(c) implies links(
        kept,
    ).contains_key(c) by {
        let j = choose|j: int| stands_at(subscribers, c, j);
        assert(pred(subscribers[j]));
        subscribers.lemma_filter_contains(pred, j);
        let i = choose|i: int| 0 <= i < kept.len() && kept[i] == subscribers[j];
        lemma_links_at(kept, i);
    }
    assert(links(kept) =~= links(subscribers).filter_keys(keep));
}

proof fn lemma_filter_distinct(subscribers: Seq<Subscriber>, pred: spec_fn(Subscriber) -> bool)
    requires
        distinct(subscribers),
    ensures
        distinct(subscribers.filter(pred)),
    decreases subscribers.len(),
{
    reveal(Seq::filter);
    if subscribers.len() > 0 {
        let before = subscribers.drop_last();
        lemma_filter_distinct(before, pred);
        let kept = before.filter(pred);
        assert forall|i: int| 0 <= i < kept.len() implies (#[trigger] kept[i]).conn_id
            != subscribers.last().conn_id by {
            assert(kept.contains(kept[i]));
            before.lemma_filter_contains_rev(pred, kept[i]);
            let j = choose|j: int| 0 <= j < before.len() && before[j] == kept[i];
            assert(subscribers[j] == kept[i]);
        }
    }
}

impl TopicState {
    /// What the topic holds.
    pub closed spec fn view(&self) -> TopicModel {
        TopicModel {
            subscribers: links(self.subscribers@),
            mailbox: self.mailbox@.map_values(|entry: MailboxEntry| entry.model()),
        }
    }

    /// No connection is subscribed twice.
    pub closed spec fn inv(&self) -> bool {
        distinct(self.subscribers@)
    }

    /// The links of a topic are those of its handles.
    pub proof fn lemma_all_tried(&self)
        requires
            self.inv(),
        ensures
            all_tried(self@),
    {
        let subscribers = self.subscribers@;
        lemma_links_dom(subscribers);
        assert forall|c: u64| #[trigger] self@.subscribers.contains_key(c) implies exists|
            sender: FrameSender,
        | #[trigger] link_of(sender) == self@.subscribers[c] by {
            let i = choose|i: int| stands_at(subscribers, c, i);
            lemma_links_at(subscribers, i);
            assert(link_of(subscribers[i].sender) == self@.subscribers[c]);
        }
    }

    /// A topic with nobody and nothing in it.
    pub fn new() -> (state: TopicState)
        ensures
            state.inv(),
            state@ == TopicModel::vacant(),
    {
        let state = TopicState { subscribers: Vec::new(), mailbox: VecDeque::new() };
        assert(state@ =~= TopicModel::vacant());
        state
    }

    /// Whether nobody is subscribed and nothing is held.
    pub fn is_vacant(&self) -> (vacant: bool)
        requires
            self.inv(),
        ensures
            vacant == self@.is_vacant(),
    {
        proof {
            lemma_links_dom(self.subscribers@);
            if self.subscribers@.len() == 0 {
                assert(self@.subscribers.dom() =~= Set::<u64>::empty());
            }
        }
        self.subscribers.len() == 0 && self.mailbox.len() == 0
    }

    /// Empties the mailbox and hands out the frames in it that are still live at `now`,
    /// oldest first.
    pub fn take_backlog(&mut self, ttl: u128, now: u128) -> (frames: Vec<String>)
        requires
            old(self).inv(),
        ensures
            final(self).inv(),
            final(self)@ == (TopicModel { mailbox: Seq::empty(), ..old(self)@ }),
            texts(frames@) == live_frames(
                old(self)@.mailbox,
                ttl as nat,
                now as nat,
            ),
    {
        let ghost all = self.mailbox@;
        let ghost held = self@.mailbox;
        let ghost pred = |held: Held| held.live(ttl as nat, now as nat);
        let mut frames: Vec<String> = Vec::new();
        let mut done: Ghost<int> = Ghost(0);
        assert(held.take(0).filter(pred) =~= Seq::empty()) by {
            reveal(Seq::filter);
        }
        while self.mailbox.len() > 0
            invariant
                self.subscribers == old(self).subscribers,
                all == old(self).mailbox@,
                held == old(self)@.mailbox,
                held == all.map_values(|entry: MailboxEntry| entry.model()),
                pred == (|held: Held| held.live(ttl as nat, now as nat)),
                0 <= done@ <= all.len(),
                self.mailbox@ == all.skip(done@),
                texts(frames@) == held.take(done@).filter(
                    pred,
                ).map_values(|held: Held| held.frame),
            decreases self.mailbox.len(),
        {
            let ghost before = frames@;
            let entry = self.mailbox.pop_front();
            if let Some(entry) = entry {
                proof {
                    assert(entry == all[done@]);
                    assert(held[done@] == entry.model());
                    assert(held.take(done@ + 1) =~= held.take(done@).push(entry.model()));
                    lemma_filter_push(held.take(done@), pred, entry.model());
                }
                if entry.is_live(ttl, now) {
                    frames.push(entry.frame);
                    assert(texts(frames@) =~= texts(before).push(entry.frame@));
                    assert(held.take(done@).filter(pred).push(entry.model()).map_values(
                        |held: Held| held.frame,
                    ) =~= held.take(done@).filter(pred).map_values(|held: Held| held.frame).push(
                        entry.frame@,
                    ));
                }
                proof {
                    done@ = done@ + 1;
                }
            }
        }
        assert(held.take(done@) =~= held);
        assert(self@ =~= (TopicModel { mailbox: Seq::empty(), ..old(self)@ }));
        frames
    }

    /// Subscribes the connection through `sender`, in place of its earlier handle where it
    /// was subscribed already, and empties the mailbox.
    pub fn enroll(&mut self, conn_id: u64, sender: FrameSender)
        requires
            old(self).inv(),
        ensures
            final(self).inv(),
            final(self)@ == old(self)@.joined(conn_id, link_of(sender)),
    {
        self.leave(conn_id);
        let ghost before = self.subscribers@;
        let ghost without = self@;
        self.subscribers.push(Subscriber { conn_id, sender });
        self.mailbox.clear();
        proof {
            let after = self.subscribers@;
            lemma_links_dom(before);
            assert forall|i: int| 0 <= i < before.len() implies (#[trigger] before[i]).conn_id
                != conn_id by {
                lemma_links_at(before, i);
            }
            assert(distinct(after));
            lemma_links_dom(after);
            assert forall|c: u64| #[trigger] links(after).contains_key(c) implies links(after)[c]
                == links(before).insert(conn_id, link_of(sender))[c] && links(before).insert(
                conn_id,
                link_of(sender),
            ).contains_key(c) by {
                let i = choose|i: int| stands_at(after, c, i);
                lemma_links_at(after, i);
                if i < before.len() {
                    assert(before[i] == after[i]);
                    lemma_links_at(before, i);
                }
            }
            assert forall|c: u64| #[trigger]
                links(before).insert(conn_id, link_of(sender)).contains_key(c) implies links(
                after,
            ).contains_key(c) by {
                if c == conn_id {
                    lemma_links_at(after, before.len() as int);
                } else {
                    let i = choose|i: int| stands_at(before, c, i);
                    assert(after[i] == before[i]);
                    lemma_links_at(after, i);
                }
            }
            assert(links(after) =~= links(before).insert(conn_id, link_of(sender)));
            assert(without.subscribers.insert(conn_id, link_of(sender)) =~= old(
                self,
            )@.subscribers.insert(conn_id, link_of(sender)));
            assert(self@ =~= old(self)@.joined(conn_id, link_of(sender)));
        }
    }

    /// Removes the connection from the subscribers.
    pub fn leave(&mut self, conn_id: u64)
        requires
            old(self).inv(),
        ensures
            final(self).inv(),
            final(self)@ == old(self)@.left(conn_id),
    {
        let gone: Vec<u64> = vec![conn_id];
        self.drop_conns(&gone, None);
        proof {
            assert(gone@[0] == conn_id);
            assert(dropped_of(gone@, None) =~= set![conn_id]);
            assert(self@ =~= old(self)@.left(conn_id));
        }
    }

    /// Removes the connections in `gone` from the subscribers.
    pub fn leave_all(&mut self, gone: &Vec<u64>)
        requires
            old(self).inv(),
        ensures
            final(self).inv(),
            final(self)@ == old(self)@.without(gone@.to_set()),
    {
        self.drop_conns(gone, None);
    }

    /// Removes the connections in `gone`, all but `spared`.
    fn drop_conns(&mut self, gone: &Vec<u64>, spared: Option<u64>)
        requires
            old(self).inv(),
        ensures
            final(self).inv(),
            final(self)@ == (TopicModel {
                subscribers: old(self)@.subscribers.remove_keys(
                    dropped_of(gone@, spared),
                ),
                ..old(self)@
            }),
    {
        let ghost all = self.subscribers@;
        let ghost dropped = dropped_of(gone@, spared);
        let ghost pred = |s: Subscriber| !dropped.contains(s.conn_id);
        let mut i: usize = 0;
        let mut done: Ghost<int> = Ghost(0);
        assert(all.take(0).filter(pred) =~= Seq::empty()) by {
            reveal(Seq::filter);
        }
        while i < self.subscribers.len()
            invariant
                self.mailbox == old(self).mailbox,
                dropped == dropped_of(gone@, spared),
                pred == (|s: Subscriber| !dropped.contains(s.conn_id)),
                0 <= done@ <= all.len(),
                i == all.take(done@).filter(pred).len(),
                self.subscribers@ == all.take(done@).filter(pred) + all.skip(done@),
            decreases all.len() - done@,
        {
            let ghost front = all.take(done@).filter(pred);
            proof {
                assert(self.subscribers@[i as int] == all[done@]);
                assert(all.take(done@ + 1) =~= all.take(done@).push(all[done@]));
                lemma_filter_push(all.take(done@), pred, all[done@]);
            }
            let conn_id = self.subscribers[i].conn_id;
            if contains_id(gone, conn_id) && !is_id(&spared, conn_id) {
                self.subscribers.remove(i);
                assert(self.subscribers@ =~= front + all.skip(done@ + 1));
            } else {
                i = i + 1;
                assert(self.subscribers@ =~= front.push(all[done@]) + all.skip(done@ + 1));
            }
            proof {
                done@ = done@ + 1;
            }
        }
        proof {
            assert(all.take(done@) =~= all);
            assert(self.subscribers@ =~= all.filter(pred));
            let keep = |c: u64| !dropped.contains(c);
            lemma_links_filter(all, keep);
            assert(pred =~= (|s: Subscriber| keep(s.conn_id)));
            assert(links(all).filter_keys(keep) =~= links(all).remove_keys(dropped));
        }
    }

    /// Tries the frame on every subscriber but the publisher, and hands out the
    /// connections whose queue would not take it.
    pub fn offer(&mut self, from_conn: u64, frame: &String) -> (refused: Vec<u64>)
        requires
            old(self).inv(),
        ensures
            final(self).inv(),
            refused@.to_set().subset_of(old(self)@.others(from_conn)),
            final(self)@ == old(self)@.offered(
                from_conn,
                frame@,
                refused@.to_set(),
            ),
    {
        let ghost all = self.subscribers@;
        let mut refused: Vec<u64> = Vec::new();
        let mut i: usize = 0;
        while i < self.subscribers.len()
            invariant
                distinct(all),
                self.mailbox == old(self).mailbox,
                self.subscribers@.len() == all.len(),
                i <= all.len(),
                forall|j: int|
                    0 <= j < all.len() ==> (#[trigger] self.subscribers@[j]).conn_id
                        == all[j].conn_id,
                forall|j: int| i <= j < all.len() ==> #[trigger] self.subscribers@[j] == all[j],
                forall|j: int|
                    0 <= j < i ==> link_of((#[trigger] self.subscribers@[j]).sender) == (
                    if all[j].conn_id != from_conn {
                        link_of(all[j].sender).and(
                            frame@,
                            !refused@.contains(all[j].conn_id),
                        )
                    } else {
                        link_of(all[j].sender)
                    }),
                forall|k: int|
                    0 <= k < refused@.len() ==> #[trigger] refused@[k] != from_conn && exists|
                        j: int,
                    |
                        0 <= j < i && (#[trigger] all[j]).conn_id == refused@[k],
            decreases self.subscribers.len() - i,
        {
            let ghost before = self.subscribers@;
            let ghost refused_before = refused@;
            let conn_id = self.subscribers[i].conn_id;
            assert(before[i as int] == all[i as int]);
            if conn_id != from_conn {
                let accepted = try_send(&mut self.subscribers[i].sender, frame.clone());
                if !accepted {
                    refused.push(conn_id);
                }
                assert(link_of(self.subscribers@[i as int].sender) =~= link_of(
                    all[i as int].sender,
                ).and(frame@, accepted));
            }
            proof {
                assert forall|c: u64| c != conn_id implies (#[trigger] refused@.contains(c)
                    <==> refused_before.contains(c)) by {
                    if refused_before.contains(c) {
                        let k = choose|k: int|
                            0 <= k < refused_before.len() && refused_before[k] == c;
                        assert(refused@[k] == c);
                    }
                }
                assert(!refused_before.contains(conn_id)) by {
                    if refused_before.contains(conn_id) {
                        let k = choose|k: int|
                            0 <= k < refused_before.len() && refused_before[k] == conn_id;
                        let j = choose|j: int|
                            0 <= j < i && (#[trigger] all[j]).conn_id == refused_before[k];
                        assert(all[j].conn_id != all[i as int].conn_id);
                    }
                }
                if refused@.len() > refused_before.len() {
                    assert(refused@[refused_before.len() as int] == conn_id);
                }
                assert forall|j: int| 0 <= j < i + 1 implies link_of(
                    (#[trigger] self.subscribers@[j]).sender,
                ) == (if all[j].conn_id != from_conn {
                    link_of(all[j].sender).and(frame@, !refused@.contains(all[j].conn_id))
                } else {
                    link_of(all[j].sender)
                }) by {
                    if j < i {
                        assert(self.subscribers@[j] == before[j]);
                        assert(all[j].conn_id != all[i as int].conn_id);
                    }
                }
            }
            i = i + 1;
        }
        proof {
            let after = self.subscribers@;
            let model = old(self)@.offered(from_conn, frame@, refused@.to_set());
            assert(distinct(after));
            lemma_links_dom(all);
            lemma_links_dom(after);
            assert forall|c: u64| #[trigger] links(after).contains_key(c) == links(
                all,
            ).contains_key(c) by {
                if contains_conn(after, c) {
                    let j = choose|j: int| stands_at(after, c, j);
                    assert(stands_at(all, c, j));
                }
                if contains_conn(all, c) {
                    let j = choose|j: int| stands_at(all, c, j);
                    assert(stands_at(after, c, j));
                }
            }
            assert forall|c: u64| #[trigger] links(after).contains_key(c) implies links(after)[c]
                == model.subscribers[c] by {
                let j = choose|j: int| stands_at(after, c, j);
                lemma_links_at(after, j);
                lemma_links_at(all, j);
                assert(refused@.to_set().contains(c) == refused@.contains(c));
            }
            assert(links(after) =~= model.subscribers);
            assert(self@ =~= model);
            assert forall|c: u64| refused@.to_set().contains(c) implies #[trigger] old(
                self,
            )@.others(from_conn).contains(c) by {
                let k = choose|k: int| 0 <= k < refused@.len() && refused@[k] == c;
                let j = choose|j: int|
                    0 <= j < all.len() && (#[trigger] all[j]).conn_id == refused@[k];
                lemma_links_at(all, j);
            }
        }
        refused
    }

    /// Draws the conclusions of a publish whose frame was tried on every other subscriber,
    /// and which `refused` would not take: those are dropped from the topic so they cannot
    /// absorb future traffic, and a frame that nobody took is held for late subscribers,
    /// as far as the depth allows: the oldest frame makes room where the mailbox is full.
    /// Returns how many took it.
    pub fn settle(
        &mut self,
        from_conn: u64,
        frame: String,
        refused: &Vec<u64>,
        now: u128,
        depth: usize,
    ) -> (delivered: usize)
        requires
            old(self).inv(),
        ensures
            final(self).inv(),
            delivered == old(self)@.delivered(from_conn, refused@.to_set()),
            final(self)@ == old(self)@.settled(
                from_conn,
                frame@,
                refused@.to_set(),
                now as nat,
                depth as nat,
            ),
    {
        let delivered = self.count_delivered(from_conn, refused);
        self.drop_conns(refused, Some(from_conn));
        let ghost held = self@.mailbox;
        let ghost entry_model = Held { held_at: now as nat, frame: frame@ };
        if delivered == 0 {
            self.mailbox.push_back(MailboxEntry { held_at: now, frame });
            let ghost all = self.mailbox@;
            let ghost mid = *self;
            assert(self@.mailbox =~= held.push(entry_model));
            while self.mailbox.len() > depth
                invariant
                    self.subscribers == mid.subscribers,
                    self.mailbox@.len() <= all.len(),
                    self.mailbox@ == all.skip(all.len() - self.mailbox@.len()),
                    self.mailbox@.len() >= depth || self.mailbox@.len() == all.len(),
                decreases self.mailbox.len(),
            {
                let _ = self.mailbox.pop_front();
            }
            assert(self@.mailbox =~= newest(held.push(entry_model), depth as nat));
        }
        proof {
            assert(dropped_of(refused@, Some(from_conn)) =~= refused@.to_set().remove(from_conn));
            assert(self@ =~= old(self)@.settled(
                from_conn,
                frame@,
                refused@.to_set(),
                now as nat,
                depth as nat,
            ));
        }
        delivered
    }

    /// How many subscribers are neither the publisher nor in `refused`.
    fn count_delivered(&self, from_conn: u64, refused: &Vec<u64>) -> (delivered: usize)
        requires
            self.inv(),
        ensures
            delivered == self@.delivered(from_conn, refused@.to_set()),
    {
        let ghost all = self.subscribers@;
        let ghost keep = |c: u64| c != from_conn && !refused@.contains(c);
        let ghost pred = |s: Subscriber| keep(s.conn_id);
        let mut delivered: usize = 0;
        let mut i: usize = 0;
        assert(all.take(0).filter(pred) =~= Seq::empty()) by {
            reveal(Seq::filter);
        }
        while i < self.subscribers.len()
            invariant
                all == self.subscribers@,
                keep == (|c: u64| c != from_conn && !refused@.contains(c)),
                pred == (|s: Subscriber| keep(s.conn_id)),
                i <= all.len(),
                delivered <= i,
                delivered == all.take(i as int).filter(pred).len(),
            decreases self.subscribers.len() - i,
        {
            proof {
                assert(all.take(i + 1) =~= all.take(i as int).push(all[i as int]));
                lemma_filter_push(all.take(i as int), pred, all[i as int]);
            }
            let conn_id = self.subscribers[i].conn_id;
            if conn_id != from_conn && !contains_id(refused, conn_id) {
                delivered = delivered + 1;
            }
            i = i + 1;
        }
        proof {
            assert(all.take(i as int) =~= all);
            lemma_links_filter(all, keep);
            lemma_links_dom(all.filter(pred));
            assert(links(all).filter_keys(keep).dom() =~= self@.others(from_conn).difference(
                refused@.to_set(),
            ));
        }
        delivered
    }

    /// Drops the entries that are no longer live at `now`.
    pub fn prune(&mut self, ttl: u128, now: u128)
        requires
            old(self).inv(),
        ensures
            final(self).inv(),
            final(self)@ == old(self)@.pruned(ttl as nat, now as nat),
    {
        let ghost all = self.mailbox@;
        let ghost pred = |entry: MailboxEntry| entry.model().live(ttl as nat, now as nat);
        let count = self.mailbox.len();
        let mut done: usize = 0;
        assert(all.take(0).filter(pred) =~= Seq::empty()) by {
            reveal(Seq::filter);
        }
        assert(self.mailbox@ =~= all.skip(0) + all.take(0).filter(pred));
        while done < count
            invariant
                self.subscribers == old(self).subscribers,
                count == all.len(),
                done <= count,
                pred == (|entry: MailboxEntry| entry.model().live(ttl as nat, now as nat)),
                self.mailbox@ == all.skip(done as int) + all.take(done as int).filter(pred),
            decreases count - done,
        {
            let ghost back = all.take(done as int).filter(pred);
            proof {
                assert(all.take(done + 1) =~= all.take(done as int).push(all[done as int]));
                lemma_filter_push(all.take(done as int), pred, all[done as int]);
            }
            let entry = self.mailbox.pop_front();
            if let Some(entry) = entry {
                assert(entry == all[done as int]);
                assert(self.mailbox@ =~= all.skip(done + 1) + back);
                if entry.is_live(ttl, now) {
                    self.mailbox.push_back(entry);
                    assert(self.mailbox@ =~= all.skip(done + 1) + back.push(entry));
                }
            }
            done = done + 1;
        }
        proof {
            assert(all.take(done as int) =~= all);
            assert(self.mailbox@ =~= all.filter(pred));
            lemma_filter_models(all, ttl as nat, now as nat);
            assert(self@ =~= old(self)@.pruned(ttl as nat, now as nat));
        }
    }
}

/// Filtering the entries filters what they stand for.
proof fn lemma_filter_models(all: Seq<MailboxEntry>, ttl: nat, now: nat)
    ensures
        all.filter(|entry: MailboxEntry| entry.model().live(ttl, now)).map_values(
            |entry: MailboxEntry| entry.model(),
        ) == live_entries(all.map_values(|entry: MailboxEntry| entry.model()), ttl, now),
    decreases all.len(),
{
    reveal(Seq::filter);
    let pred = |entry: MailboxEntry| entry.model().live(ttl, now);
    let f = |entry: MailboxEntry| entry.model();
    if all.len() > 0 {
        lemma_filter_models(all.drop_last(), ttl, now);
        assert(all.map_values(f).drop_last() =~= all.drop_last().map_values(f));
        if pred(all.last()) {
            assert(all.drop_last().filter(pred).push(all.last()).map_values(f)
                =~= all.drop_last().filter(pred).map_values(f).push(f(all.last())));
        }
    } else {
        assert(all.filter(pred).map_values(f) =~= Seq::empty());
    }
}

/// The connections in `gone`, all but `spared`.
spec fn dropped_of(gone: Seq<u64>, spared: Option<u64>) -> Set<u64> {
    match spared {
        Some(conn_id) => gone.to_set().remove(conn_id),
        None => gone.to_set(),
    }
}

fn contains_id(ids: &Vec<u64>, id: u64) -> (found: bool)
    ensures
        found == ids@.contains(id),
{
    let mut i: usize = 0;
    while i < ids.len()
        invariant
            i <= ids@.len(),
            forall|j: int| 0 <= j < i ==> ids@[j] != id,
        decreases ids.len() - i,
    {
        if ids[i] == id {
            return true;
        }
        i = i + 1;
    }
    false
}

fn is_id(candidate: &Option<u64>, id: u64) -> (same: bool)
    ensures
        same == (*candidate == Some(id)),
{
    match candidate {
        Some(other) => *other == id,
        None => false,
    }
}

} // verus!
