//! The outbound queue of a connection, as the relay sees it: a handle to put frames in.

use tokio::sync::mpsc;
use vstd::prelude::*;

use crate::model::{link_of, texts};

verus! {

/// Declares tokio's bounded sender to the verifier; nothing inside it is visible.
#[verifier::external_type_specification]
#[verifier::external_body]
#[verifier::reject_recursive_types(T)]
pub struct ExSender<T>(tokio::sync::mpsc::Sender<T>);

/// Outbound queue handle of one connection. Bounded: a subscriber that stops reading
/// gets dropped (slow-consumer policy) instead of growing relay memory.
pub type FrameSender = mpsc::Sender<String>;

/// The frames that `try_send` has tried through this handle, oldest first, each with
/// whether it went into the queue. What is sent through other handles of the same queue is
/// not among them.
pub uninterp spec fn attempts(sender: FrameSender) -> Seq<(Seq<char>, bool)>;

/// Which queue the handle feeds.
pub uninterp spec fn queue_of(sender: FrameSender) -> int;

/// `tokio::sync::mpsc::Sender::try_send`: puts the frame in the queue, or leaves the
/// queue alone when it is full or its reader is gone. Claimed: the frame is the newest
/// that was tried through this handle, and it went in exactly if the answer is `true`; the
/// handle feeds the queue it fed before. Whether the frame goes in depends on the reader,
/// so nothing is said of that.
#[verifier::external_body]
pub(crate) fn try_send(sender: &mut FrameSender, frame: String) -> (accepted: bool)
    ensures
        queue_of(*final(sender)) == queue_of(*old(sender)),
        attempts(*final(sender)) == attempts(*old(sender)).push((frame@, accepted)),
{
    sender.try_send(frame).is_ok()
}

/// `tokio::sync::mpsc::Sender::clone`: a second handle on the same queue. Claimed: the
/// new handle feeds the same queue, and no frame has been tried through it yet.
#[verifier::external_body]
pub(crate) fn another_handle(sender: &FrameSender) -> (handle: FrameSender)
    ensures
        queue_of(handle) == queue_of(*sender),
        attempts(handle) == Seq::<(Seq<char>, bool)>::empty(),
{
    sender.clone()
}

/// Tries the frames in turn, whatever became of the ones before. A frame that the queue
/// will not take is lost to it.
pub fn send_all(sender: &mut FrameSender, frames: Vec<String>)
    ensures
        exists|accepted: Seq<bool>|
            {
                &&& accepted.len() == frames@.len()
                &&& link_of(*final(sender)) == #[trigger] link_of(*old(sender)).and_those(
                    texts(frames@),
                    accepted,
                )
            },
{
    let ghost all = texts(frames@);
    let mut accepted: Ghost<Seq<bool>> = Ghost(Seq::empty());
    assert(link_of(*sender) =~= link_of(*old(sender)).and_those(all.take(0), accepted@));
    for frame in it: frames
        invariant
            all == texts(it.seq()),
            accepted@.len() == it.index(),
            link_of(*sender) == link_of(*old(sender)).and_those(all.take(it.index()), accepted@),
    {
        let ghost before = accepted@;
        assert(frame@ == all[it.index()]);
        let taken = try_send(sender, frame);
        proof {
            accepted@ = before.push(taken);
            assert(link_of(*sender) =~= link_of(*old(sender)).and_those(
                all.take(it.index() + 1),
                accepted@,
            ));
        }
    }
    assert(all.take(all.len() as int) =~= all);
}

} // verus!
