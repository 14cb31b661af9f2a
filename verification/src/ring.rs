use vstd::prelude::*;

use crate::directory::{Directory, RingMeta};
use crate::message::{zero_chunk, zero_seq, Addr, Message, MessagePayload, MessageView,
    PayloadView, RingId};
use crate::relay::{OpView, RelayState};

verus! {

/// Splice this node into a ring, or found a ring when `target` is this
/// node's own address. The new actor's state forwards to `target`, the ring
/// is recorded in the directory under `mailbox`, and the returned splice
/// message, addressed to the node at `target`, asks `target`'s current
/// predecessor to forward to `self_addr` instead.
pub fn join_ring(
    dir: &mut Directory,
    ring_id: RingId,
    target: Addr,
    chunk_num: u64,
    self_addr: Addr,
    mailbox: u64,
) -> (r: (RelayState, Message))
    requires
        old(dir).wf(),
    ensures
        final(dir).wf(),
        final(dir)@ == old(dir)@.insert(ring_id.0, (RingMeta { mailbox, chunk_num })),
        r.0@.ring_id == ring_id,
        r.0@.downstream == target,
        r.0@.chunk_num == chunk_num,
        r.0@.pending == Map::<u64, Seq<OpView>>::empty(),
        r.1@ == (MessageView {
            ring_id,
            payload: PayloadView::Switch { old_addr: target, new_addr: self_addr },
        }),
{
    let state = RelayState::new(ring_id, target, chunk_num);
    dir.insert(ring_id, RingMeta { mailbox, chunk_num });
    let splice = Message {
        ring_id,
        payload: MessagePayload::Switch { old_addr: target, new_addr: self_addr },
    };
    (state, splice)
}

/// Found a brand-new ring by joining this node at its own address: the new
/// actor's forwarding pointer is a self-loop, so the one member is its own
/// downstream.
pub fn create_ring(dir: &mut Directory, chunk_num: u64, self_addr: Addr, mailbox: u64) -> (r: (
    RingId,
    RelayState,
    Message,
))
    requires
        old(dir).wf(),
    ensures
        final(dir).wf(),
        final(dir)@ == old(dir)@.insert(r.0.0, (RingMeta { mailbox, chunk_num })),
        r.1@.ring_id == r.0,
        r.1@.downstream == self_addr,
        r.1@.chunk_num == chunk_num,
        r.1@.pending == Map::<u64, Seq<OpView>>::empty(),
        r.2@ == (MessageView {
            ring_id: r.0,
            payload: PayloadView::Switch { old_addr: self_addr, new_addr: self_addr },
        }),
{
    let ring_id = RingId::new();
    let (state, splice) = join_ring(dir, ring_id, self_addr, chunk_num, self_addr, mailbox);
    (ring_id, state, splice)
}

/// The initial population of a ring's tokens: one zero-filled chunk envelope
/// for every index below `chunk_num`, in index order. Injecting these starts
/// the data flow; it is a separate bulk operation, not part of splicing.
pub fn initial_tokens(ring_id: RingId, chunk_num: u64) -> (r: Vec<Message>)
    requires
        chunk_num <= usize::MAX,
    ensures
        r@.len() == chunk_num,
        forall|i: int| 0 <= i < r@.len() ==> r@[i]@ == (MessageView {
            ring_id,
            payload: PayloadView::Chunk { id: i as u64, data: zero_seq() },
        }),
{
    let mut r: Vec<Message> = Vec::new();
    let mut i: u64 = 0;
    while i < chunk_num
        invariant
            i <= chunk_num,
            r@.len() == i,
            forall|j: int| 0 <= j < i ==> r@[j]@ == (MessageView {
                ring_id,
                payload: PayloadView::Chunk { id: j as u64, data: zero_seq() },
            }),
        decreases chunk_num - i,
    {
        r.push(Message { ring_id, payload: MessagePayload::Chunk { id: i, data: zero_chunk() } });
        i += 1;
    }
    r
}

} // verus!
