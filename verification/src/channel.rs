//! A bounded FIFO queue of blocks, backed by a crossbeam channel. The
//! renderer uses two of these: one for submitted blocks and one for
//! completed blocks.

use vstd::prelude::*;

verus! {

use crate::blocks::Block;

/// Both endpoints of one bounded crossbeam channel, held together so
/// that the channel can never observe a disconnected peer.
#[verifier::external_body]
pub struct BlockQueue {
    sender: crossbeam_channel::Sender<Block>,
    receiver: crossbeam_channel::Receiver<Block>,
}

/// The blocks waiting in the queue, oldest first.
pub uninterp spec fn queue_contents(q: BlockQueue) -> Seq<Block>;

/// The bound the queue was created with.
pub uninterp spec fn queue_capacity(q: BlockQueue) -> nat;

/// Relies on `crossbeam_channel::bounded`: creates an empty channel that
/// holds at most `cap` messages. Its implementation refuses capacities
/// near the pointer-size limit, so very large bounds are excluded.
#[verifier::external_body]
pub(crate) fn queue_new(cap: usize) -> (q: BlockQueue)
    requires
        cap <= 0x3FFF_FFFF,
    ensures
        queue_contents(q) == Seq::<Block>::empty(),
        queue_capacity(q) == cap,
{
    let (sender, receiver) = crossbeam_channel::bounded(cap);
    BlockQueue { sender, receiver }
}

/// Relies on `crossbeam_channel::Sender::send` on a bounded channel
/// that is not full: the message is enqueued after the ones already
/// waiting. The send can neither block nor fail here, because the queue
/// is not full and holds its own receiver.
#[verifier::external_body]
pub(crate) fn queue_push(q: &mut BlockQueue, block: Block)
    requires
        queue_contents(*old(q)).len() < queue_capacity(*old(q)),
    ensures
        queue_contents(*final(q)) == queue_contents(*old(q)).push(block),
        queue_capacity(*final(q)) == queue_capacity(*old(q)),
{
    let _ = q.sender.send(block);
}

/// Relies on `crossbeam_channel::Receiver::try_recv`: returns the oldest
/// message, or nothing when the channel is empty, and never blocks. The
/// bounded channel is a ring buffer that delivers messages in the order
/// they were sent.
#[verifier::external_body]
pub(crate) fn queue_try_pop(q: &mut BlockQueue) -> (r: Option<Block>)
    ensures
        queue_capacity(*final(q)) == queue_capacity(*old(q)),
        queue_contents(*old(q)).len() == 0 ==> r is None && queue_contents(*final(q))
            == queue_contents(*old(q)),
        queue_contents(*old(q)).len() > 0 ==> r == Some(queue_contents(*old(q)).first())
            && queue_contents(*final(q)) == queue_contents(*old(q)).drop_first(),
{
    match q.receiver.try_recv() {
        Ok(block) => Some(block),
        Err(_) => None,
    }
}

/// Relies on `crossbeam_channel::Receiver::len`: the number of messages
/// waiting in the channel.
#[verifier::external_body]
pub(crate) fn queue_len(q: &BlockQueue) -> (n: usize)
    ensures
        n == queue_contents(*q).len(),
{
    q.receiver.len()
}

} // verus!
