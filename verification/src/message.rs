use vstd::prelude::*;

verus! {

/// Size in bytes of every chunk buffer carried around a ring.
pub const CHUNK_SIZE: usize = 512;

/// The byte sequence a chunk holds before anything was written to it:
/// `CHUNK_SIZE` zero bytes.
pub open spec fn zero_seq() -> Seq<u8> {
    Seq::new(CHUNK_SIZE as nat, |i: int| 0u8)
}

/// A zero-filled buffer of the fixed chunk size.
pub fn zero_chunk() -> (r: Vec<u8>)
    ensures
        r@ == zero_seq(),
{
    let mut v: Vec<u8> = Vec::new();
    let mut i: usize = 0;
    while i < CHUNK_SIZE
        invariant
            i <= CHUNK_SIZE,
            v@.len() == i,
            forall|j: int| 0 <= j < i ==> v@[j] == 0u8,
        decreases CHUNK_SIZE - i,
    {
        v.push(0u8);
        i += 1;
    }
    proof {
        assert(v@ =~= zero_seq());
    }
    v
}

/// Opaque value naming one ring instance across the whole deployment.
#[derive(Clone, Copy, PartialEq, Eq, Hash, Debug, Structural)]
pub struct RingId(pub u64);

/// Relies on rand::random::<u64>: a value drawn from the thread-local
/// generator. Nothing is promised of the value.
#[verifier::external_body]
fn random_u64() -> u64 {
    rand::random::<u64>()
}

impl RingId {
    /// A fresh identifier for a new ring, drawn at random.
    pub fn new() -> RingId {
        RingId(random_u64())
    }
}

/// A network endpoint (IPv4 host and port) identifying one participant node.
#[derive(Clone, Copy, PartialEq, Eq, Hash, Debug, Structural)]
pub struct Addr {
    pub ip: u32,
    pub port: u16,
}

impl Addr {
    pub fn new(ip: u32, port: u16) -> (a: Addr)
        ensures
            a.ip == ip,
            a.port == port,
    {
        Addr { ip, port }
    }
}

/// The one payload relayed hop-to-hop around a ring: either a circulating
/// chunk token, or a splice control message that rewires one node's
/// forwarding pointer.
#[derive(Debug)]
pub enum MessagePayload {
    Chunk { id: u64, data: Vec<u8> },
    Switch { old_addr: Addr, new_addr: Addr },
}

/// Mathematical image of a `MessagePayload`: the chunk data as a sequence.
pub enum PayloadView {
    Chunk { id: u64, data: Seq<u8> },
    Switch { old_addr: Addr, new_addr: Addr },
}

impl View for MessagePayload {
    type V = PayloadView;

    open spec fn view(&self) -> PayloadView {
        match self {
            MessagePayload::Chunk { id, data } => PayloadView::Chunk { id: *id, data: data@ },
            MessagePayload::Switch { old_addr, new_addr } => PayloadView::Switch {
                old_addr: *old_addr,
                new_addr: *new_addr,
            },
        }
    }
}

/// A ring-tagged envelope as it travels between nodes.
#[derive(Debug)]
pub struct Message {
    pub ring_id: RingId,
    pub payload: MessagePayload,
}

/// Mathematical image of a `Message`.
pub struct MessageView {
    pub ring_id: RingId,
    pub payload: PayloadView,
}

impl View for Message {
    type V = MessageView;

    open spec fn view(&self) -> MessageView {
        MessageView { ring_id: self.ring_id, payload: self.payload@ }
    }
}

/// One operation submitted into a relay actor's mailbox: an envelope
/// received from a peer, or a local client read or write. A reply is
/// identified by an opaque token; the caller keeps the channel the token
/// stands for.
#[derive(Debug)]
pub enum InternalMessage {
    Juggled(Message),
    Read { chunk_id: u64, reply: u64 },
    Write { chunk_id: u64, data: Vec<u8>, reply: u64 },
}

/// Mathematical image of an `InternalMessage`.
pub enum InternalView {
    Juggled(MessageView),
    Read { chunk_id: u64, reply: u64 },
    Write { chunk_id: u64, data: Seq<u8>, reply: u64 },
}

impl View for InternalMessage {
    type V = InternalView;

    open spec fn view(&self) -> InternalView {
        match self {
            InternalMessage::Juggled(m) => InternalView::Juggled(m@),
            InternalMessage::Read { chunk_id, reply } => InternalView::Read {
                chunk_id: *chunk_id,
                reply: *reply,
            },
            InternalMessage::Write { chunk_id, data, reply } => InternalView::Write {
                chunk_id: *chunk_id,
                data: data@,
                reply: *reply,
            },
        }
    }
}

} // verus!
