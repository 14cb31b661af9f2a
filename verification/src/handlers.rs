use vstd::prelude::*;

use crate::directory::Directory;
use crate::message::{InternalMessage, InternalView, Message, RingId, CHUNK_SIZE};

verus! {

/// Why a submission was rejected at the boundary, before reaching any actor.
#[derive(Clone, Copy, PartialEq, Eq, Debug, Structural)]
pub enum SubmitError {
    /// The named ring is not hosted by this node.
    UnknownRing,
    /// A write names a chunk index at or beyond the ring's chunk count.
    BadChunkIndex,
    /// A write's buffer is not exactly the fixed chunk size.
    BadChunkSize,
}

/// Route an inbound peer envelope to the hosting actor's mailbox: the
/// mailbox token and the operation to enqueue, or a rejection when the ring
/// is unknown.
pub fn submit_envelope(dir: &Directory, message: Message) -> (r: Result<
    (u64, InternalMessage),
    SubmitError,
>)
    requires
        dir.wf(),
    ensures
        ({
            let known = dir@.contains_key(message.ring_id.0);
            match r {
                Ok(p) => known && p.0 == dir@[message.ring_id.0].mailbox && p.1@
                    == InternalView::Juggled(message@),
                Err(e) => !known && e == SubmitError::UnknownRing,
            }
        }),
{
    match dir.get(message.ring_id) {
        Some(meta) => Ok((meta.mailbox, InternalMessage::Juggled(message))),
        None => Err(SubmitError::UnknownRing),
    }
}

/// A request to start data flow on a ring: join at `target`, then inject
/// the initial zero-filled tokens. The target address arrives as text and
/// is parsed at the boundary.
#[derive(Debug)]
pub struct StartMessage {
    pub ring_id: RingId,
    pub target: String,
    pub chunk_num: u64,
}

/// A request to join an existing ring at `target`, without injecting
/// tokens. The target address arrives as text and is parsed at the
/// boundary.
#[derive(Debug)]
pub struct JoinMessage {
    pub ring_id: RingId,
    pub target: String,
    pub chunk_num: u64,
}

/// A parsed client read request: which ring, which chunk.
pub struct ReadMessage {
    pub ring_id: RingId,
    pub chunk_id: u64,
}

/// A parsed client write request: which ring, which chunk, the replacement
/// bytes.
pub struct WriteMessage {
    pub ring_id: RingId,
    pub chunk_id: u64,
    pub data: Vec<u8>,
}

/// Route a local client read to the hosting actor's mailbox. Any chunk index
/// is accepted: an index at or beyond the chunk count is answered by the
/// actor itself with a zero-filled buffer.
pub fn submit_read(dir: &Directory, req: ReadMessage, reply: u64) -> (r: Result<
    (u64, InternalMessage),
    SubmitError,
>)
    requires
        dir.wf(),
    ensures
        ({
            let known = dir@.contains_key(req.ring_id.0);
            match r {
                Ok(p) => known && p.0 == dir@[req.ring_id.0].mailbox && p.1@
                    == (InternalView::Read { chunk_id: req.chunk_id, reply }),
                Err(e) => !known && e == SubmitError::UnknownRing,
            }
        }),
{
    match dir.get(req.ring_id) {
        Some(meta) => Ok((meta.mailbox, InternalMessage::Read { chunk_id: req.chunk_id, reply })),
        None => Err(SubmitError::UnknownRing),
    }
}

/// Route a local client write to the hosting actor's mailbox. The buffer
/// must be exactly the fixed chunk size, the ring must be hosted, and the
/// chunk index must lie below the ring's chunk count: writes are validated
/// here, before they reach the actor.
pub fn submit_write(dir: &Directory, req: WriteMessage, reply: u64) -> (r: Result<
    (u64, InternalMessage),
    SubmitError,
>)
    requires
        dir.wf(),
    ensures
        ({
            let right_size = req.data@.len() == CHUNK_SIZE;
            let known = dir@.contains_key(req.ring_id.0);
            let in_range = known && req.chunk_id < dir@[req.ring_id.0].chunk_num;
            match r {
                Ok(p) => right_size && known && in_range && p.0 == dir@[req.ring_id.0].mailbox
                    && p.1@ == (InternalView::Write {
                    chunk_id: req.chunk_id,
                    data: req.data@,
                    reply,
                }),
                Err(e) => match e {
                    SubmitError::BadChunkSize => !right_size,
                    SubmitError::UnknownRing => right_size && !known,
                    SubmitError::BadChunkIndex => right_size && known && !in_range,
                },
            }
        }),
{
    if req.data.len() != CHUNK_SIZE {
        return Err(SubmitError::BadChunkSize);
    }
    match dir.get(req.ring_id) {
        Some(meta) => {
            if req.chunk_id >= meta.chunk_num {
                Err(SubmitError::BadChunkIndex)
            } else {
                Ok((
                    meta.mailbox,
                    InternalMessage::Write { chunk_id: req.chunk_id, data: req.data, reply },
                ))
            }
        }
        None => Err(SubmitError::UnknownRing),
    }
}

} // verus!
