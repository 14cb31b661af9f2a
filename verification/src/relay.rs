use vstd::prelude::*;

use crate::message::{zero_seq, zero_chunk, Addr, InternalMessage, InternalView, Message,
    MessagePayload, MessageView, PayloadView, RingId};
use std::collections::HashMap;

verus! {

broadcast use vstd::std_specs::hash::group_hash_axioms;

/// A queued client operation awaiting the next visit of one chunk's token.
/// A reply is identified by an opaque token held by the submitting caller.
pub enum PendingOp {
    Read { reply: u64 },
    Write { data: Vec<u8>, reply: u64 },
}

/// Mathematical image of a `PendingOp`.
pub enum OpView {
    Read { reply: u64 },
    Write { data: Seq<u8>, reply: u64 },
}

impl View for PendingOp {
    type V = OpView;

    open spec fn view(&self) -> OpView {
        match self {
            PendingOp::Read { reply } => OpView::Read { reply: *reply },
            PendingOp::Write { data, reply } => OpView::Write { data: data@, reply: *reply },
        }
    }
}

/// One effect the relay actor asks its surroundings to perform: answer a
/// pending read with bytes, signal a completed write, or deliver an envelope
/// to a peer address.
pub enum Action {
    ReplyData { reply: u64, data: Vec<u8> },
    ReplyDone { reply: u64 },
    Forward { to: Addr, message: Message },
}

/// Mathematical image of an `Action`.
pub enum ActionView {
    ReplyData { reply: u64, data: Seq<u8> },
    ReplyDone { reply: u64 },
    Forward { to: Addr, message: MessageView },
}

impl View for Action {
    type V = ActionView;

    open spec fn view(&self) -> ActionView {
        match self {
            Action::ReplyData { reply, data } => ActionView::ReplyData {
                reply: *reply,
                data: data@,
            },
            Action::ReplyDone { reply } => ActionView::ReplyDone { reply: *reply },
            Action::Forward { to, message } => ActionView::Forward { to: *to, message: message@ },
        }
    }
}

/// The images of a sequence of pending operations.
pub open spec fn ops_view(s: Seq<PendingOp>) -> Seq<OpView> {
    s.map_values(|op: PendingOp| op@)
}

/// The images of a sequence of actions.
pub open spec fn acts_view(s: Seq<Action>) -> Seq<ActionView> {
    s.map_values(|a: Action| a@)
}

/// The image of a pending table: chunk index to the queued operations,
/// oldest first.
pub open spec fn lift_pending(m: Map<u64, Vec<PendingOp>>) -> Map<u64, Seq<OpView>> {
    Map::new(|k: u64| m.contains_key(k), |k: u64| ops_view(m[k]@))
}

/// The operations queued for `id`, oldest first; empty when none are.
pub open spec fn pending_at(p: Map<u64, Seq<OpView>>, id: u64) -> Seq<OpView> {
    if p.contains_key(id) {
        p[id]
    } else {
        Seq::empty()
    }
}

/// The actions a token visit produces: the queued operations are served in
/// FIFO order, each read answered with the data as it stands when its turn
/// comes, each write replacing the data and answered with a completion
/// signal.
pub open spec fn resolve_actions(ops: Seq<OpView>, data: Seq<u8>) -> Seq<ActionView>
    decreases ops.len(),
{
    if ops.len() == 0 {
        Seq::empty()
    } else {
        match ops[0] {
            OpView::Read { reply } => seq![ActionView::ReplyData { reply, data }]
                + resolve_actions(ops.drop_first(), data),
            OpView::Write { data: d, reply } => seq![ActionView::ReplyDone { reply }]
                + resolve_actions(ops.drop_first(), d),
        }
    }
}

/// The bytes the token carries onward after the queued operations were
/// served: the data of the last write, or the incoming data when no write
/// was queued.
pub open spec fn resolve_data(ops: Seq<OpView>, data: Seq<u8>) -> Seq<u8>
    decreases ops.len(),
{
    if ops.len() == 0 {
        data
    } else {
        match ops[0] {
            OpView::Read { .. } => resolve_data(ops.drop_first(), data),
            OpView::Write { data: d, .. } => resolve_data(ops.drop_first(), d),
        }
    }
}

/// Serving one more operation at the end of the queue appends one action and
/// rewrites the carried data exactly when that operation is a write.
pub proof fn lemma_resolve_push(ops: Seq<OpView>, op: OpView, data: Seq<u8>)
    ensures
        resolve_actions(ops.push(op), data) == resolve_actions(ops, data).push(
            match op {
                OpView::Read { reply } => ActionView::ReplyData {
                    reply,
                    data: resolve_data(ops, data),
                },
                OpView::Write { reply, .. } => ActionView::ReplyDone { reply },
            },
        ),
        resolve_data(ops.push(op), data) == (match op {
            OpView::Read { .. } => resolve_data(ops, data),
            OpView::Write { data: d, .. } => d,
        }),
    decreases ops.len(),
{
    if ops.len() == 0 {
        reveal_with_fuel(resolve_actions, 2);
        reveal_with_fuel(resolve_data, 2);
        assert(ops.push(op).drop_first() =~= Seq::<OpView>::empty());
        assert(ops.push(op)[0] == op);
        match op {
            OpView::Read { reply } => {
                assert(resolve_actions(ops.push(op), data) =~= resolve_actions(ops, data).push(
                    ActionView::ReplyData { reply, data: resolve_data(ops, data) },
                ));
            }
            OpView::Write { data: d, reply } => {
                assert(resolve_actions(ops.push(op), data) =~= resolve_actions(ops, data).push(
                    ActionView::ReplyDone { reply },
                ));
            }
        }
    } else {
        assert(ops.push(op).drop_first() =~= ops.drop_first().push(op));
        match ops[0] {
            OpView::Read { .. } => {
                lemma_resolve_push(ops.drop_first(), op, data);
            }
            OpView::Write { data: d, .. } => {
                lemma_resolve_push(ops.drop_first(), op, d);
            }
        }
        match op {
            OpView::Read { reply } => {
                assert(resolve_actions(ops.push(op), data) =~= resolve_actions(ops, data).push(
                    ActionView::ReplyData { reply, data: resolve_data(ops, data) },
                ));
            }
            OpView::Write { data: d, reply } => {
                assert(resolve_actions(ops.push(op), data) =~= resolve_actions(ops, data).push(
                    ActionView::ReplyDone { reply },
                ));
            }
        }
    }
}

/// A byte-for-byte copy of a buffer.
pub fn copy_bytes(v: &Vec<u8>) -> (r: Vec<u8>)
    ensures
        r@ == v@,
{
    let mut r: Vec<u8> = Vec::new();
    let mut i: usize = 0;
    while i < v.len()
        invariant
            i <= v.len(),
            r@.len() == i,
            forall|j: int| 0 <= j < i ==> r@[j] == v@[j],
        decreases v.len() - i,
    {
        r.push(v[i]);
        i += 1;
    }
    proof {
        assert(r@ =~= v@);
    }
    r
}

/// The state one relay actor owns: the ring it serves, its current
/// forwarding destination, the ring's configured chunk count, and the
/// per-chunk queues of pending operations.
pub struct RelayState {
    pub ring_id: RingId,
    pub downstream: Addr,
    pub chunk_num: u64,
    pub pending: HashMap<u64, Vec<PendingOp>>,
}

/// Mathematical image of a `RelayState`.
#[verifier::ext_equal]
pub struct RelayView {
    pub ring_id: RingId,
    pub downstream: Addr,
    pub chunk_num: u64,
    pub pending: Map<u64, Seq<OpView>>,
}

impl View for RelayState {
    type V = RelayView;

    open spec fn view(&self) -> RelayView {
        RelayView {
            ring_id: self.ring_id,
            downstream: self.downstream,
            chunk_num: self.chunk_num,
            pending: lift_pending(self.pending@),
        }
    }
}

/// The state after queuing `op` for `chunk_id`: appended at the end of that
/// chunk's queue, everything else untouched.
pub open spec fn queue_op(s: RelayView, chunk_id: u64, op: OpView) -> RelayView {
    RelayView {
        pending: s.pending.insert(chunk_id, pending_at(s.pending, chunk_id).push(op)),
        ..s
    }
}

/// What one mailbox message does to a relay actor: the new state and the
/// actions performed, in order.
///
/// - A chunk token serves that chunk's queued operations in FIFO order and is
///   then always forwarded to the current downstream, carrying the bytes left
///   by the last queued write, if any.
/// - A splice message whose `old_addr` equals the current downstream is
///   absorbed and rewires the downstream to `new_addr`; any other splice
///   message is forwarded unchanged to the current downstream.
/// - A read of an index at or beyond the chunk count is answered at once
///   with a zero-filled buffer; a read below the count is queued.
/// - A write is queued unconditionally; the index bound is the submitter's
///   check.
pub open spec fn spec_step(s: RelayView, msg: InternalView) -> (RelayView, Seq<ActionView>) {
    match msg {
        InternalView::Juggled(m) => match m.payload {
            PayloadView::Chunk { id, data } => {
                let ops = pending_at(s.pending, id);
                let s2 = RelayView { pending: s.pending.remove(id), ..s };
                let fwd = ActionView::Forward {
                    to: s.downstream,
                    message: MessageView {
                        ring_id: s.ring_id,
                        payload: PayloadView::Chunk { id, data: resolve_data(ops, data) },
                    },
                };
                (s2, resolve_actions(ops, data).push(fwd))
            }
            PayloadView::Switch { old_addr, new_addr } => {
                if old_addr == s.downstream {
                    (RelayView { downstream: new_addr, ..s }, Seq::empty())
                } else {
                    let fwd = ActionView::Forward {
                        to: s.downstream,
                        message: MessageView {
                            ring_id: s.ring_id,
                            payload: PayloadView::Switch { old_addr, new_addr },
                        },
                    };
                    (s, seq![fwd])
                }
            }
        },
        InternalView::Read { chunk_id, reply } => {
            if chunk_id >= s.chunk_num {
                (s, seq![ActionView::ReplyData { reply, data: zero_seq() }])
            } else {
                (queue_op(s, chunk_id, OpView::Read { reply }), Seq::empty())
            }
        }
        InternalView::Write { chunk_id, data, reply } => {
            (queue_op(s, chunk_id, OpView::Write { data, reply }), Seq::empty())
        }
    }
}

impl RelayState {
    /// A fresh actor state: forwarding to `downstream`, no pending work.
    pub fn new(ring_id: RingId, downstream: Addr, chunk_num: u64) -> (s: RelayState)
        ensures
            s@.ring_id == ring_id,
            s@.downstream == downstream,
            s@.chunk_num == chunk_num,
            s@.pending == Map::<u64, Seq<OpView>>::empty(),
    {
        let s = RelayState { ring_id, downstream, chunk_num, pending: HashMap::new() };
        proof {
            assert(lift_pending(s.pending@) =~= Map::<u64, Seq<OpView>>::empty());
        }
        s
    }

    /// Remove and return the whole queue for `id`, oldest first.
    fn take_pending(&mut self, id: u64) -> (ops: Vec<PendingOp>)
        ensures
            ops_view(ops@) == pending_at(old(self)@.pending, id),
            final(self)@.pending == old(self)@.pending.remove(id),
            final(self).ring_id == old(self).ring_id,
            final(self).downstream == old(self).downstream,
            final(self).chunk_num == old(self).chunk_num,
    {
        let r = match self.pending.remove(&id) {
            Some(v) => v,
            None => Vec::new(),
        };
        proof {
            assert(lift_pending(self.pending@) =~= lift_pending(old(self).pending@).remove(id));
            if !old(self).pending@.contains_key(id) {
                assert(ops_view(r@) =~= Seq::<OpView>::empty());
            }
        }
        r
    }

    /// Append `op` at the end of the queue for `id`.
    fn push_pending(&mut self, id: u64, op: PendingOp)
        ensures
            final(self)@ == queue_op(old(self)@, id, op@),
    {
        let mut ops = match self.pending.remove(&id) {
            Some(v) => v,
            None => Vec::new(),
        };
        let ghost ops0 = ops@;
        proof {
            assert(ops_view(ops0) =~= pending_at(old(self)@.pending, id));
        }
        ops.push(op);
        proof {
            assert(ops_view(ops@) =~= ops_view(ops0).push(op@));
        }
        self.pending.insert(id, ops);
        proof {
            assert(lift_pending(self.pending@) =~= old(self)@.pending.insert(
                id,
                pending_at(old(self)@.pending, id).push(op@),
            ));
            assert(self@ =~= queue_op(old(self)@, id, op@));
        }
    }

    /// Process one mailbox message, exactly as `spec_step` describes.
    pub fn step(&mut self, msg: InternalMessage) -> (actions: Vec<Action>)
        ensures
            final(self)@ == spec_step(old(self)@, msg@).0,
            acts_view(actions@) == spec_step(old(self)@, msg@).1,
    {
        let mut actions: Vec<Action> = Vec::new();
        match msg {
            InternalMessage::Juggled(m) => {
                match m.payload {
                    MessagePayload::Chunk { id, data } => {
                        let mut data = data;
                        let ghost data0 = data@;
                        let ops = self.take_pending(id);
                        let ghost ops_v = ops_view(ops@);
                        let mut i: usize = 0;
                        while i < ops.len()
                            invariant
                                i <= ops.len(),
                                ops_view(ops@) == ops_v,
                                acts_view(actions@) == resolve_actions(ops_v.take(i as int), data0),
                                data@ == resolve_data(ops_v.take(i as int), data0),
                            decreases ops.len() - i,
                        {
                            proof {
                                assert(ops_v.take(i + 1) =~= ops_v.take(i as int).push(ops_v[i as int]));
                                lemma_resolve_push(ops_v.take(i as int), ops_v[i as int], data0);
                            }
                            let ghost acts0 = actions@;
                            match &ops[i] {
                                PendingOp::Read { reply } => {
                                    let d = copy_bytes(&data);
                                    actions.push(Action::ReplyData { reply: *reply, data: d });
                                }
                                PendingOp::Write { data: nd, reply } => {
                                    data = copy_bytes(nd);
                                    actions.push(Action::ReplyDone { reply: *reply });
                                }
                            }
                            proof {
                                assert(acts_view(actions@) =~= acts_view(acts0).push(
                                    actions@.last()@,
                                ));
                            }
                            i += 1;
                        }
                        proof {
                            assert(ops_v.take(ops.len() as int) =~= ops_v);
                        }
                        let ghost acts0 = actions@;
                        actions.push(Action::Forward {
                            to: self.downstream,
                            message: Message {
                                ring_id: self.ring_id,
                                payload: MessagePayload::Chunk { id, data },
                            },
                        });
                        proof {
                            assert(acts_view(actions@) =~= acts_view(acts0).push(actions@.last()@));
                            assert(self@ =~= spec_step(old(self)@, msg@).0);
                        }
                    }
                    MessagePayload::Switch { old_addr, new_addr } => {
                        if old_addr == self.downstream {
                            self.downstream = new_addr;
                            proof {
                                assert(self@ =~= spec_step(old(self)@, msg@).0);
                                assert(acts_view(actions@) =~= Seq::<ActionView>::empty());
                            }
                        } else {
                            actions.push(Action::Forward {
                                to: self.downstream,
                                message: Message {
                                    ring_id: self.ring_id,
                                    payload: MessagePayload::Switch { old_addr, new_addr },
                                },
                            });
                            proof {
                                assert(self@ =~= spec_step(old(self)@, msg@).0);
                                assert(acts_view(actions@) =~= spec_step(old(self)@, msg@).1);
                            }
                        }
                    }
                }
            }
            InternalMessage::Read { chunk_id, reply } => {
                if chunk_id >= self.chunk_num {
                    actions.push(Action::ReplyData { reply, data: zero_chunk() });
                    proof {
                        assert(acts_view(actions@) =~= spec_step(old(self)@, msg@).1);
                    }
                } else {
                    self.push_pending(chunk_id, PendingOp::Read { reply });
                    proof {
                        assert(acts_view(actions@) =~= Seq::<ActionView>::empty());
                    }
                }
            }
            InternalMessage::Write { chunk_id, data, reply } => {
                self.push_pending(chunk_id, PendingOp::Write { data, reply });
                proof {
                    assert(acts_view(actions@) =~= Seq::<ActionView>::empty());
                }
            }
        }
        actions
    }
}

} // verus!
