//! Per-connection protocol: what an inbound message means, which limits it meets, and what
//! it makes of the hub. The socket itself is read and written elsewhere.

use vstd::prelude::*;

use crate::config::RelayConfig;
use crate::hub::{FrameSender, Hub};
use crate::model::{publishes_and_ends, subscribes, texts, HubModel, Link};
use crate::protocol::{
    ack_json, deliver_json, error_json, json_text, topic_is_valid, valid_topic, ClientFrame,
    ServerFrame,
};
use crate::sender::{another_handle, queue_of};
use crate::seqs::{lemma_filter_no_duplicates, lemma_filter_push};

verus! {

/// Outbound queue depth per connection. Bounded so a stalled reader disconnects instead of
/// buffering unboundedly inside the relay: a connection whose queue refuses a published
/// frame is ended. A frame of the backlog that it refuses when it subscribes is only lost.
pub const OUTBOUND_QUEUE: usize = 256;

// ---- what the socket yields ----

/// What waiting for the next message came to.
pub enum Inbound {
    /// Nothing arrived for the idle time.
    Idle,
    /// The peer closed the stream.
    Ended,
    /// The stream broke.
    Failed,
    /// A text message.
    Text(String),
    /// A close frame.
    Close,
    Ping,
    Pong,
    Binary,
    /// The relay has ended the connection, whose peer has stopped reading.
    Stalled,
}

/// Why a connection's loop ended.
#[derive(Debug, Clone, Copy, PartialEq, Eq, Structural)]
pub enum CloseReason {
    PeerClosed,
    IdleTimeout,
    WsError,
    CloseFrame,
    SlowConsumer,
}

impl CloseReason {
    /// The reason as the log has it.
    pub open spec fn word(self) -> Seq<char> {
        match self {
            CloseReason::PeerClosed => "peer_closed"@,
            CloseReason::IdleTimeout => "idle_timeout"@,
            CloseReason::WsError => "ws_error"@,
            CloseReason::CloseFrame => "close_frame"@,
            CloseReason::SlowConsumer => "slow_consumer"@,
        }
    }

    /// The reason as the log has it.
    pub fn as_str(&self) -> (word: &'static str)
        ensures
            word@ == self.word(),
    {
        match self {
            CloseReason::PeerClosed => "peer_closed",
            CloseReason::IdleTimeout => "idle_timeout",
            CloseReason::WsError => "ws_error",
            CloseReason::CloseFrame => "close_frame",
            CloseReason::SlowConsumer => "slow_consumer",
        }
    }

    /// Whether what is queued is still written before the socket is closed. A peer that
    /// has stopped reading would make that wait for good, so its queue is released.
    pub fn drains(&self) -> (drains: bool)
        ensures
            drains == !(*self is SlowConsumer),
    {
        match self {
            CloseReason::SlowConsumer => false,
            _ => true,
        }
    }
}

/// What to do about what the socket yielded.
pub enum Intake {
    /// Wait for the next message.
    Skip,
    /// Leave the loop.
    Finish(CloseReason),
    /// Treat the text as a frame.
    Frame(String),
}

/// Sorts what the socket yielded. Pings and pongs are connection upkeep, not protocol
/// frames; binary is not part of the relay protocol and is ignored rather than fatal.
pub fn intake(inbound: Inbound) -> (next: Intake)
    ensures
        next == match inbound {
            Inbound::Idle => Intake::Finish(CloseReason::IdleTimeout),
            Inbound::Ended => Intake::Finish(CloseReason::PeerClosed),
            Inbound::Failed => Intake::Finish(CloseReason::WsError),
            Inbound::Close => Intake::Finish(CloseReason::CloseFrame),
            Inbound::Text(text) => Intake::Frame(text),
            Inbound::Ping => Intake::Skip,
            Inbound::Pong => Intake::Skip,
            Inbound::Binary => Intake::Skip,
            Inbound::Stalled => Intake::Finish(CloseReason::SlowConsumer),
        },
{
    match inbound {
        Inbound::Idle => Intake::Finish(CloseReason::IdleTimeout),
        Inbound::Ended => Intake::Finish(CloseReason::PeerClosed),
        Inbound::Failed => Intake::Finish(CloseReason::WsError),
        Inbound::Close => Intake::Finish(CloseReason::CloseFrame),
        Inbound::Text(text) => Intake::Frame(text),
        Inbound::Ping => Intake::Skip,
        Inbound::Pong => Intake::Skip,
        Inbound::Binary => Intake::Skip,
        Inbound::Stalled => Intake::Finish(CloseReason::SlowConsumer),
    }
}

// ---- what a connection is ----

/// A connection: who it is, its limits, and the topics it is subscribed to, in the order
/// of subscription.
#[verifier::ext_equal]
pub struct ConnModel {
    pub conn_id: u64,
    pub frame_cap: nat,
    pub max_topics: nat,
    pub subscribed: Seq<Seq<char>>,
}

impl ConnModel {
    /// A connection is subscribed to no topic twice, and to no more topics than it may be.
    pub open spec fn inv(self) -> bool {
        self.subscribed.no_duplicates() && self.subscribed.len() <= self.max_topics
    }

    /// Whether a subscribe to the topic takes effect.
    pub open spec fn admits(self, topic: Seq<char>) -> bool {
        valid_topic(topic) && !self.subscribed.contains(topic) && self.subscribed.len()
            < self.max_topics
    }

    /// The connection after a frame (`None`: a text that is no relay message).
    pub open spec fn after(self, frame: Option<ClientFrame>) -> ConnModel {
        match frame {
            Some(ClientFrame::Subscribe { topic }) if self.admits(topic@) => ConnModel {
                subscribed: self.subscribed.push(topic@),
                ..self
            },
            Some(ClientFrame::Unsubscribe { topic }) => ConnModel {
                subscribed: self.subscribed.filter(|t: Seq<char>| t != topic@),
                ..self
            },
            _ => self,
        }
    }

    /// What is answered to a frame, if anything.
    pub open spec fn reply(self, frame: Option<ClientFrame>) -> Option<Seq<char>> {
        match frame {
            None => Some(
                error_json("bad_frame"@, "Frame is not a valid relay message"@, None),
            ),
            Some(ClientFrame::Subscribe { topic }) => if !valid_topic(topic@) {
                Some(error_json("bad_topic"@, "Invalid topic"@, None))
            } else if !self.subscribed.contains(topic@) && self.subscribed.len()
                >= self.max_topics {
                Some(error_json("topic_limit"@, "Too many topics on one connection"@, None))
            } else {
                None
            },
            Some(ClientFrame::Unsubscribe { .. }) => None,
            Some(ClientFrame::Publish { topic, id, .. }) => if !valid_topic(topic@) {
                Some(error_json("bad_topic"@, "Invalid topic"@, id_text(id)))
            } else {
                Some(ack_json(topic@, id_text(id)))
            },
        }
    }

    /// Whether the connection is closed after the answer.
    pub open spec fn closes(self, frame: Option<ClientFrame>) -> bool {
        match frame {
            None => true,
            Some(ClientFrame::Subscribe { topic }) => !valid_topic(topic@),
            Some(ClientFrame::Unsubscribe { .. }) => false,
            Some(ClientFrame::Publish { topic, .. }) => !valid_topic(topic@),
        }
    }

    /// What the frame can make of the hub, for a connection whose outbound queue is
    /// `queue`, at `now`; what is reported of it, and which connections are ended over it.
    /// A publish ends whoever is stalled after it.
    pub open spec fn routes(
        self,
        frame: Option<ClientFrame>,
        queue: int,
        pre: HubModel,
        post: HubModel,
        report: Report,
        ended: Set<u64>,
        now: nat,
    ) -> bool {
        match frame {
            Some(ClientFrame::Subscribe { topic }) if self.admits(topic@) => {
                &&& subscribes(pre, post, topic@, self.conn_id, Link::fresh(queue), now)
                &&& report matches Report::Subscribed { topic: reported }
                &&& reported@ == topic@
                &&& ended == Set::<u64>::empty()
            },
            Some(ClientFrame::Unsubscribe { topic }) => {
                &&& post == pre.leave(set![topic@], self.conn_id)
                &&& report matches Report::Unsubscribed { topic: reported }
                &&& reported@ == topic@
                &&& ended == Set::<u64>::empty()
            },
            Some(ClientFrame::Publish { topic, id, payload }) if valid_topic(topic@) => {
                let text = deliver_json(topic@, id_text(id), json_text(payload));
                &&& report matches Report::Published { topic: reported, bytes, delivered }
                &&& reported@ == topic@
                &&& bytes == vstd::utf8::encode_utf8(text).len()
                &&& publishes_and_ends(
                    pre,
                    post,
                    topic@,
                    self.conn_id,
                    text,
                    delivered as nat,
                    ended,
                    now,
                )
            },
            _ => post == pre && report is Nothing && ended == Set::<u64>::empty(),
        }
    }

    /// What is answered to a text before it is read as a frame: a refusal, or nothing.
    pub open spec fn refusal(self, text: Seq<char>, within_rate: bool) -> Option<Seq<char>> {
        if !within_rate {
            Some(error_json("rate_limited"@, "Inbound frame rate exceeded"@, None))
        } else if vstd::utf8::encode_utf8(text).len() > self.frame_cap {
            Some(error_json("frame_too_large"@, "Frame exceeds the relay frame cap"@, None))
        } else {
            None
        }
    }
}

/// The text of an optional string.
pub open spec fn id_text(id: Option<String>) -> Option<Seq<char>> {
    match id {
        Some(text) => Some(text@),
        None => None,
    }
}

/// What a frame came to on the hub, for the log.
pub enum Report {
    Nothing,
    Subscribed { topic: String },
    Unsubscribed { topic: String },
    /// `bytes` is the size of the deliver frame; `delivered` counts the live subscribers
    /// that took it, and 0 means that it went to the mailbox, unless mailboxes hold
    /// nothing.
    Published { topic: String, bytes: usize, delivered: usize },
}

/// What to do once a frame has been handled: send the reply, if any, and close or go on.
pub struct Step {
    pub reply: Option<String>,
    pub close: bool,
    pub report: Report,
    /// The connections that are to be closed because their peers have stopped reading.
    pub ended: Vec<u64>,
}

impl Step {
    /// A step over which no connection is ended.
    fn only(reply: Option<String>, close: bool, report: Report) -> (step: Step)
        ensures
            step.reply == reply,
            step.close == close,
            step.report == report,
            step.ended@.len() == 0,
            step.ended@.to_set() == Set::<u64>::empty(),
    {
        let step = Step { reply, close, report, ended: Vec::new() };
        assert(step.ended@.to_set() =~= Set::<u64>::empty());
        step
    }
}

/// A connection's protocol state.
pub struct Connection {
    conn_id: u64,
    frame_cap: usize,
    max_topics: usize,
    subscribed: Vec<String>,
}

impl Connection {
    /// What the connection is.
    pub closed spec fn view(&self) -> ConnModel {
        ConnModel {
            conn_id: self.conn_id,
            frame_cap: self.frame_cap as nat,
            max_topics: self.max_topics as nat,
            subscribed: texts(self.subscribed@),
        }
    }

    /// A connection that is subscribed to nothing.
    pub fn new(conn_id: u64, config: &RelayConfig) -> (conn: Connection)
        ensures
            conn@ == (ConnModel {
                conn_id,
                frame_cap: config.frame_cap_bytes as nat,
                max_topics: config.max_topics_per_conn as nat,
                subscribed: Seq::empty(),
            }),
            conn@.inv(),
    {
        let conn = Connection {
            conn_id,
            frame_cap: config.frame_cap_bytes,
            max_topics: config.max_topics_per_conn,
            subscribed: Vec::new(),
        };
        assert(conn@.subscribed =~= Seq::empty());
        conn
    }

    /// The number of topics that the connection is subscribed to.
    pub fn topic_count(&self) -> (count: usize)
        ensures
            count == self@.subscribed.len(),
    {
        self.subscribed.len()
    }

    /// Whether the connection is subscribed to the topic.
    fn is_subscribed(&self, topic: &String) -> (found: bool)
        ensures
            found == self@.subscribed.contains(topic@),
    {
        let mut i: usize = 0;
        while i < self.subscribed.len()
            invariant
                i <= self.subscribed@.len(),
                forall|j: int| 0 <= j < i ==> (#[trigger] self@.subscribed[j]) != topic@,
            decreases self.subscribed.len() - i,
        {
            if self.subscribed[i] == *topic {
                assert(self@.subscribed[i as int] == topic@);
                return true;
            }
            i = i + 1;
        }
        false
    }

    /// Holds a text against the rate and the size limit, before it is read as a frame.
    /// `None`: it is to be read. Rate abuse ends the connection: well-behaved clients never
    /// legitimately exceed the configured rate; and so does a text above the frame cap.
    pub fn screen(&self, text: &str, within_rate: bool) -> (step: Option<Step>)
        ensures
            match step {
                Some(step) => {
                    &&& self@.refusal(text@, within_rate) is Some
                    &&& id_text(step.reply) == self@.refusal(text@, within_rate)
                    &&& step.close
                    &&& step.report is Nothing
                    &&& step.ended@.len() == 0
                },
                None => self@.refusal(text@, within_rate) is None,
            },
    {
        if !within_rate {
            Some(
                Step::only(
                    Some(error("rate_limited", "Inbound frame rate exceeded", None)),
                    true,
                    Report::Nothing,
                ),
            )
        } else if text.as_bytes().len() > self.frame_cap {
            Some(
                Step::only(
                    Some(error("frame_too_large", "Frame exceeds the relay frame cap", None)),
                    true,
                    Report::Nothing,
                ),
            )
        } else {
            None
        }
    }

    /// Handles one frame (`None`: a text that is no relay message) of the connection whose
    /// outbound queue `out_tx` feeds.
    pub fn handle(
        &mut self,
        hub: &mut Hub,
        out_tx: &FrameSender,
        frame: Option<ClientFrame>,
    ) -> (step: Step)
        requires
            old(self)@.inv(),
            old(hub).inv(),
        ensures
            final(self)@.inv(),
            final(hub).inv(),
            old(hub).time() <= final(hub).time(),
            if match frame {
                Some(ClientFrame::Subscribe { topic }) => old(self)@.admits(topic@),
                Some(ClientFrame::Unsubscribe { .. }) => false,
                Some(ClientFrame::Publish { topic, .. }) => valid_topic(topic@),
                None => false,
            } {
                exists|reading: u128| #[trigger]
                    old(hub).reads(reading) && final(hub).time() == if old(hub).time()
                        < reading {
                        reading as nat
                    } else {
                        old(hub).time()
                    }
            } else {
                final(hub).time() == old(hub).time()
            },
            forall|r: u128| #[trigger] final(hub).reads(r) == old(hub).reads(r),
            final(self)@ == old(self)@.after(frame),
            id_text(step.reply) == old(self)@.reply(frame),
            step.close == old(self)@.closes(frame),
            old(self)@.routes(
                frame,
                queue_of(*out_tx),
                old(hub)@,
                final(hub)@,
                step.report,
                step.ended@.to_set(),
                final(hub).time(),
            ),
    {
        match frame {
            None => Step::only(
                Some(error("bad_frame", "Frame is not a valid relay message", None)),
                true,
                Report::Nothing,
            ),
            Some(ClientFrame::Subscribe { topic }) => self.handle_subscribe(hub, out_tx, topic),
            Some(ClientFrame::Unsubscribe { topic }) => {
                hub.unsubscribe(topic.as_str(), self.conn_id);
                self.forget(&topic);
                Step::only(None, false, Report::Unsubscribed { topic })
            },
            Some(ClientFrame::Publish { topic, id, payload }) => {
                let id_ref: Option<&str> = match &id {
                    Some(text) => Some(text.as_str()),
                    None => None,
                };
                if !topic_is_valid(topic.as_str()) {
                    return Step::only(
                        Some(error("bad_topic", "Invalid topic", id_ref)),
                        true,
                        Report::Nothing,
                    );
                }
                let deliver = ServerFrame::Deliver {
                    topic: topic.as_str(),
                    id: id_ref,
                    payload: &payload,
                }.to_json();
                let bytes = deliver.as_str().as_bytes().len();
                let delivered = hub.publish(topic.as_str(), self.conn_id, deliver);
                let ended = hub.end_stalled();
                // The ack says that the frame was accepted: delivered now, or held unless
                // mailboxes hold nothing. The publisher does not learn how many peers got
                // it: that is session-layer business.
                let ack = ServerFrame::Ack { topic: topic.as_str(), id: id_ref }.to_json();
                Step {
                    reply: Some(ack),
                    close: false,
                    report: Report::Published { topic, bytes, delivered },
                    ended,
                }
            },
        }
    }

    /// Handles a subscribe.
    fn handle_subscribe(&mut self, hub: &mut Hub, out_tx: &FrameSender, topic: String) -> (step:
        Step)
        requires
            old(self)@.inv(),
            old(hub).inv(),
        ensures
            final(self)@.inv(),
            final(hub).inv(),
            old(hub).time() <= final(hub).time(),
            if old(self)@.admits(topic@) {
                exists|reading: u128| #[trigger]
                    old(hub).reads(reading) && final(hub).time() == if old(hub).time()
                        < reading {
                        reading as nat
                    } else {
                        old(hub).time()
                    }
            } else {
                final(hub).time() == old(hub).time()
            },
            forall|r: u128| #[trigger] final(hub).reads(r) == old(hub).reads(r),
            ({
                let frame = Some(ClientFrame::Subscribe { topic });
                &&& final(self)@ == old(self)@.after(frame)
                &&& id_text(step.reply) == old(self)@.reply(frame)
                &&& step.close == old(self)@.closes(frame)
                &&& old(self)@.routes(
                    frame,
                    queue_of(*out_tx),
                    old(hub)@,
                    final(hub)@,
                    step.report,
                    step.ended@.to_set(),
                    final(hub).time(),
                )
            }),
    {
        if !topic_is_valid(topic.as_str()) {
            return Step::only(
                Some(error("bad_topic", "Invalid topic", None)),
                true,
                Report::Nothing,
            );
        }
        if self.is_subscribed(&topic) {
            // Subscribing again changes nothing.
            return Step::only(None, false, Report::Nothing);
        }
        if self.subscribed.len() >= self.max_topics {
            return Step::only(
                Some(error("topic_limit", "Too many topics on one connection", None)),
                false,
                Report::Nothing,
            );
        }
        hub.subscribe(topic.as_str(), self.conn_id, another_handle(out_tx));
        self.subscribed.push(topic.clone());
        assert(self@ =~= old(self)@.after(Some(ClientFrame::Subscribe { topic })));
        Step::only(None, false, Report::Subscribed { topic })
    }

    /// Takes the topic off the list.
    fn forget(&mut self, topic: &String)
        requires
            old(self)@.inv(),
        ensures
            final(self)@.inv(),
            final(self)@ == (ConnModel {
                subscribed: old(self)@.subscribed.filter(|t: Seq<char>| t != topic@),
                ..old(self)@
            }),
    {
        let ghost all = self@.subscribed;
        let ghost pred = |t: Seq<char>| t != topic@;
        let mut i: usize = 0;
        let mut done: Ghost<int> = Ghost(0);
        assert(all.take(0).filter(pred) =~= Seq::empty()) by {
            reveal(Seq::filter);
        }
        while i < self.subscribed.len()
            invariant
                self.conn_id == old(self).conn_id,
                self.frame_cap == old(self).frame_cap,
                self.max_topics == old(self).max_topics,
                pred == (|t: Seq<char>| t != topic@),
                0 <= done@ <= all.len(),
                i == all.take(done@).filter(pred).len(),
                texts(self.subscribed@) == all.take(done@).filter(pred) + all.skip(done@),
            decreases all.len() - done@,
        {
            let ghost front = all.take(done@).filter(pred);
            let ghost before = self.subscribed@;
            proof {
                assert(texts(before)[i as int] == all[done@]);
                assert(all.take(done@ + 1) =~= all.take(done@).push(all[done@]));
                lemma_filter_push(all.take(done@), pred, all[done@]);
            }
            if self.subscribed[i] == *topic {
                self.subscribed.remove(i);
                assert(texts(self.subscribed@) =~= texts(before).remove(i as int));
                assert(texts(self.subscribed@) =~= front + all.skip(done@ + 1));
            } else {
                i = i + 1;
                assert(texts(self.subscribed@) =~= front.push(all[done@]) + all.skip(done@ + 1));
            }
            proof {
                done@ = done@ + 1;
            }
        }
        proof {
            assert(all.take(done@) =~= all);
            assert(texts(self.subscribed@) =~= all.filter(pred));
            all.lemma_filter_len(pred);
            lemma_filter_no_duplicates(all, pred);
        }
    }

    /// Takes the connection out of the hub, once its loop has ended.
    pub fn finish(&self, hub: &mut Hub)
        requires
            old(hub).inv(),
        ensures
            final(hub).inv(),
            final(hub)@ == old(hub)@.leave(
                self@.subscribed.to_set(),
                self@.conn_id,
            ),
            final(hub).time() == old(hub).time(),
            forall|r: u128| #[trigger] final(hub).reads(r) == old(hub).reads(r),
    {
        hub.drop_connection(self.conn_id, self.subscribed.as_slice());
    }
}

/// The text of an error frame.
fn error(code: &str, message: &str, id: Option<&str>) -> (text: String)
    ensures
        text@ == error_json(code@, message@, crate::protocol::opt_text(id)),
{
    ServerFrame::Error { code, message, id }.to_json()
}

// ---- the writer ----

/// What waiting for something to write came to.
pub enum Outbound {
    /// The queue handed over a frame.
    Frame(String),
    /// Every handle on the queue is gone, and it is drained.
    QueueClosed,
    /// The keepalive timer ticked.
    Tick,
}

/// What to put on the socket.
pub enum Write {
    Text(String),
    Ping,
    /// A close frame, and nothing after it.
    Close,
    Nothing,
}

/// What goes on the socket. Clients cannot all send pings themselves, so the relay
/// originates them, where they are enabled; a queue that is closed cleanly is announced to
/// the peer.
pub open spec fn write_for(outbound: Outbound, keepalive_ping_secs: u64) -> Write {
    match outbound {
        Outbound::Frame(text) => Write::Text(text),
        Outbound::QueueClosed => Write::Close,
        Outbound::Tick => if keepalive_ping_secs > 0 {
            Write::Ping
        } else {
            Write::Nothing
        },
    }
}

/// Decides what goes on the socket.
pub fn write_next(outbound: Outbound, keepalive_ping_secs: u64) -> (write: Write)
    ensures
        write == write_for(outbound, keepalive_ping_secs),
{
    match outbound {
        Outbound::Frame(text) => Write::Text(text),
        Outbound::QueueClosed => Write::Close,
        Outbound::Tick => if keepalive_ping_secs > 0 {
            Write::Ping
        } else {
            Write::Nothing
        },
    }
}

} // verus!
