use vstd::prelude::*;

use crate::message::{zero_seq, Addr, InternalView, MessageView, PayloadView, RingId};
use crate::relay::{pending_at, resolve_actions, resolve_data, spec_step, ActionView, OpView,
    RelayView};

verus! {

/// A read of an index at or beyond the chunk count is answered at once with
/// a zero-filled buffer of the fixed chunk size, without touching the state:
/// nothing is queued and no token is awaited.
pub proof fn lemma_read_out_of_range(s: RelayView, chunk_id: u64, reply: u64)
    requires
        chunk_id >= s.chunk_num,
    ensures
        spec_step(s, InternalView::Read { chunk_id, reply }) == (
            s,
            seq![ActionView::ReplyData { reply, data: zero_seq() }],
        ),
{
}

/// Serving a token's queue emits only replies, never a forward: the single
/// forward of a token visit is the one appended after the queue is drained.
pub proof fn lemma_resolve_actions_no_forward(ops: Seq<OpView>, data: Seq<u8>)
    ensures
        forall|i: int| 0 <= i < resolve_actions(ops, data).len() ==> !(#[trigger] resolve_actions(
            ops,
            data,
        )[i] matches ActionView::Forward { .. }),
    decreases ops.len(),
{
    if ops.len() > 0 {
        match ops[0] {
            OpView::Read { .. } => {
                lemma_resolve_actions_no_forward(ops.drop_first(), data);
            }
            OpView::Write { data: d, .. } => {
                lemma_resolve_actions_no_forward(ops.drop_first(), d);
            }
        }
    }
}

/// Whether `a` is addressed to `d` if it forwards anything at all.
pub open spec fn forwards_only_to(a: ActionView, d: Addr) -> bool {
    match a {
        ActionView::Forward { to, .. } => to == d,
        _ => true,
    }
}

/// Every envelope an actor forwards while processing one message is
/// addressed to the actor's downstream as it stands when the processing
/// step ends — never to a stale snapshot: absorbing a splice forwards
/// nothing, and every other step leaves the downstream unchanged.
pub proof fn lemma_forward_to_current_downstream(s: RelayView, msg: InternalView)
    ensures
        forall|i: int| 0 <= i < spec_step(s, msg).1.len() ==> forwards_only_to(
            #[trigger] spec_step(s, msg).1[i],
            spec_step(s, msg).0.downstream,
        ),
{
    match msg {
        InternalView::Juggled(m) => match m.payload {
            PayloadView::Chunk { id, data } => {
                let ops = pending_at(s.pending, id);
                lemma_resolve_actions_no_forward(ops, data);
                assert(forall|i: int| 0 <= i < spec_step(s, msg).1.len() - 1
                    ==> spec_step(s, msg).1[i] == resolve_actions(ops, data)[i]);
            }
            PayloadView::Switch { .. } => {}
        },
        _ => {}
    }
}

/// A token visit answers exactly as many actions as operations were queued,
/// one per operation.
pub proof fn lemma_resolve_len(ops: Seq<OpView>, data: Seq<u8>)
    ensures
        resolve_actions(ops, data).len() == ops.len(),
    decreases ops.len(),
{
    if ops.len() > 0 {
        match ops[0] {
            OpView::Read { .. } => {
                lemma_resolve_len(ops.drop_first(), data);
            }
            OpView::Write { data: d, .. } => {
                lemma_resolve_len(ops.drop_first(), d);
            }
        }
    }
}

/// Queued operations are served strictly in submission order: the operation
/// at position `j` produces the action at position `j`. A read there is
/// answered with the bytes as the operations before it left them — pre-write
/// data for a reader queued before a writer, post-write data for one queued
/// after — and a write there is acknowledged.
pub proof fn lemma_resolve_fifo(ops: Seq<OpView>, data: Seq<u8>, j: int)
    requires
        0 <= j < ops.len(),
    ensures
        resolve_actions(ops, data).len() == ops.len(),
        (match ops[j] {
            OpView::Read { reply } => resolve_actions(ops, data)[j] == (ActionView::ReplyData {
                reply,
                data: resolve_data(ops.take(j), data),
            }),
            OpView::Write { reply, .. } => resolve_actions(ops, data)[j]
                == (ActionView::ReplyDone { reply }),
        }),
    decreases j,
{
    lemma_resolve_len(ops, data);
    if j == 0 {
        assert(ops.take(0) =~= Seq::<OpView>::empty());
    } else {
        assert(ops.take(j)[0] == ops[0]);
        assert(ops.drop_first().take(j - 1) =~= ops.take(j).drop_first());
        assert(ops.drop_first()[j - 1] == ops[j]);
        match ops[0] {
            OpView::Read { .. } => {
                lemma_resolve_fifo(ops.drop_first(), data, j - 1);
            }
            OpView::Write { data: d, .. } => {
                lemma_resolve_fifo(ops.drop_first(), d, j - 1);
            }
        }
    }
}

/// A write queued on an otherwise idle chunk index is acknowledged at the
/// chunk's next token visit, and the token leaves that visit carrying the
/// written bytes; a read submitted after that completion is then answered
/// with exactly those bytes when the token next arrives — it carries the
/// written data, nothing having been queued in between.
pub proof fn lemma_write_then_read(
    s0: RelayView,
    i: u64,
    d: Seq<u8>,
    d0: Seq<u8>,
    w: u64,
    r: u64,
)
    requires
        i < s0.chunk_num,
        !s0.pending.contains_key(i),
    ensures
        ({
            let s1 = spec_step(s0, InternalView::Write { chunk_id: i, data: d, reply: w }).0;
            let visit1 = spec_step(
                s1,
                InternalView::Juggled(MessageView {
                    ring_id: s0.ring_id,
                    payload: PayloadView::Chunk { id: i, data: d0 },
                }),
            );
            let s2 = visit1.0;
            let s3 = spec_step(s2, InternalView::Read { chunk_id: i, reply: r }).0;
            let visit2 = spec_step(
                s3,
                InternalView::Juggled(MessageView {
                    ring_id: s0.ring_id,
                    payload: PayloadView::Chunk { id: i, data: d },
                }),
            );
            &&& visit1.1 == seq![
                ActionView::ReplyDone { reply: w },
                ActionView::Forward {
                    to: s0.downstream,
                    message: MessageView {
                        ring_id: s0.ring_id,
                        payload: PayloadView::Chunk { id: i, data: d },
                    },
                },
            ]
            &&& visit2.1 == seq![
                ActionView::ReplyData { reply: r, data: d },
                ActionView::Forward {
                    to: s0.downstream,
                    message: MessageView {
                        ring_id: s0.ring_id,
                        payload: PayloadView::Chunk { id: i, data: d },
                    },
                },
            ]
        }),
{
    reveal_with_fuel(resolve_actions, 3);
    reveal_with_fuel(resolve_data, 3);
    let s1 = spec_step(s0, InternalView::Write { chunk_id: i, data: d, reply: w }).0;
    let ops1 = pending_at(s1.pending, i);
    assert(ops1 =~= seq![OpView::Write { data: d, reply: w }]);
    assert(ops1.drop_first() =~= Seq::<OpView>::empty());
    let visit1 = spec_step(
        s1,
        InternalView::Juggled(MessageView {
            ring_id: s0.ring_id,
            payload: PayloadView::Chunk { id: i, data: d0 },
        }),
    );
    assert(visit1.1 =~= seq![
        ActionView::ReplyDone { reply: w },
        ActionView::Forward {
            to: s0.downstream,
            message: MessageView {
                ring_id: s0.ring_id,
                payload: PayloadView::Chunk { id: i, data: d },
            },
        },
    ]);
    let s2 = visit1.0;
    assert(!s2.pending.contains_key(i));
    let s3 = spec_step(s2, InternalView::Read { chunk_id: i, reply: r }).0;
    let ops3 = pending_at(s3.pending, i);
    assert(ops3 =~= seq![OpView::Read { reply: r }]);
    assert(ops3.drop_first() =~= Seq::<OpView>::empty());
    let visit2 = spec_step(
        s3,
        InternalView::Juggled(MessageView {
            ring_id: s0.ring_id,
            payload: PayloadView::Chunk { id: i, data: d },
        }),
    );
    assert(visit2.1 =~= seq![
        ActionView::ReplyData { reply: r, data: d },
        ActionView::Forward {
            to: s0.downstream,
            message: MessageView {
                ring_id: s0.ring_id,
                payload: PayloadView::Chunk { id: i, data: d },
            },
        },
    ]);
}

/// Pending reads and writes submitted for one idle chunk index in the order
/// read, write, read resolve at the next token visit, in that order, as: the
/// incoming (pre-write) bytes, a write acknowledgement, the written bytes.
/// The token is then forwarded carrying the written bytes, and the index's
/// queue is empty again.
pub proof fn lemma_read_write_read_batch(
    s0: RelayView,
    i: u64,
    d0: Seq<u8>,
    dw: Seq<u8>,
    r1: u64,
    w: u64,
    r2: u64,
)
    requires
        i < s0.chunk_num,
        !s0.pending.contains_key(i),
    ensures
        ({
            let s1 = spec_step(s0, InternalView::Read { chunk_id: i, reply: r1 }).0;
            let s2 = spec_step(s1, InternalView::Write { chunk_id: i, data: dw, reply: w }).0;
            let s3 = spec_step(s2, InternalView::Read { chunk_id: i, reply: r2 }).0;
            let visit = spec_step(
                s3,
                InternalView::Juggled(MessageView {
                    ring_id: s0.ring_id,
                    payload: PayloadView::Chunk { id: i, data: d0 },
                }),
            );
            &&& visit.1 == seq![
                ActionView::ReplyData { reply: r1, data: d0 },
                ActionView::ReplyDone { reply: w },
                ActionView::ReplyData { reply: r2, data: dw },
                ActionView::Forward {
                    to: s0.downstream,
                    message: MessageView {
                        ring_id: s0.ring_id,
                        payload: PayloadView::Chunk { id: i, data: dw },
                    },
                },
            ]
            &&& !visit.0.pending.contains_key(i)
        }),
{
    reveal_with_fuel(resolve_actions, 5);
    reveal_with_fuel(resolve_data, 5);
    let s1 = spec_step(s0, InternalView::Read { chunk_id: i, reply: r1 }).0;
    let s2 = spec_step(s1, InternalView::Write { chunk_id: i, data: dw, reply: w }).0;
    let s3 = spec_step(s2, InternalView::Read { chunk_id: i, reply: r2 }).0;
    let ops = pending_at(s3.pending, i);
    let expect = seq![
        OpView::Read { reply: r1 },
        OpView::Write { data: dw, reply: w },
        OpView::Read { reply: r2 },
    ];
    assert(ops =~= expect);
    assert(ops.drop_first() =~= seq![OpView::Write { data: dw, reply: w }, OpView::Read { reply: r2 }]);
    assert(ops.drop_first().drop_first() =~= seq![OpView::Read { reply: r2 }]);
    assert(ops.drop_first().drop_first().drop_first() =~= Seq::<OpView>::empty());
    let visit = spec_step(
        s3,
        InternalView::Juggled(MessageView {
            ring_id: s0.ring_id,
            payload: PayloadView::Chunk { id: i, data: d0 },
        }),
    );
    assert(visit.1 =~= seq![
        ActionView::ReplyData { reply: r1, data: d0 },
        ActionView::ReplyDone { reply: w },
        ActionView::ReplyData { reply: r2, data: dw },
        ActionView::Forward {
            to: s0.downstream,
            message: MessageView {
                ring_id: s0.ring_id,
                payload: PayloadView::Chunk { id: i, data: dw },
            },
        },
    ]);
}

/// Joining node B at the single member A of a one-node ring: A's forwarding
/// pointer is a self-loop, so A absorbs the splice message and forwards
/// nothing; A then points at B, while B's fresh actor points at A. The ring
/// is A to B to A.
pub proof fn lemma_join_one_node_ring(a: RelayView, a_addr: Addr, b_addr: Addr, ring_id: RingId)
    requires
        a.downstream == a_addr,
    ensures
        ({
            let at_a = spec_step(
                a,
                InternalView::Juggled(MessageView {
                    ring_id,
                    payload: PayloadView::Switch { old_addr: a_addr, new_addr: b_addr },
                }),
            );
            &&& at_a.0.downstream == b_addr
            &&& at_a.0 == (RelayView { downstream: b_addr, ..a })
            &&& at_a.1 == Seq::<ActionView>::empty()
        }),
{
}

/// Joining node C at entry node A of the two-node ring A to B to A: A's
/// downstream is B, not A itself, so A forwards the splice message unchanged
/// to B and keeps pointing at B; B's downstream is A, so B absorbs it and
/// now points at C, while C's fresh actor points at A. The ring is A to B to
/// C to A: C stands immediately before A.
pub proof fn lemma_join_two_node_ring(
    a: RelayView,
    b: RelayView,
    a_addr: Addr,
    b_addr: Addr,
    c_addr: Addr,
    ring_id: RingId,
)
    requires
        a.ring_id == ring_id,
        a.downstream == b_addr,
        b.downstream == a_addr,
        a_addr != b_addr,
    ensures
        ({
            let splice = MessageView {
                ring_id,
                payload: PayloadView::Switch { old_addr: a_addr, new_addr: c_addr },
            };
            let at_a = spec_step(a, InternalView::Juggled(splice));
            let at_b = spec_step(b, InternalView::Juggled(splice));
            &&& at_a.0 == a
            &&& at_a.1 == seq![ActionView::Forward { to: b_addr, message: splice }]
            &&& at_b.0.downstream == c_addr
            &&& at_b.0 == (RelayView { downstream: c_addr, ..b })
            &&& at_b.1 == Seq::<ActionView>::empty()
        }),
{
}

} // verus!
