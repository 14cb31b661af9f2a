use chunkjuggler::directory::{Directory, RingMeta};
use chunkjuggler::handlers::{submit_envelope, submit_read, submit_write, ReadMessage, SubmitError, WriteMessage};
use chunkjuggler::message::{Addr, InternalMessage, Message, MessagePayload, RingId, CHUNK_SIZE};
use chunkjuggler::relay::RelayState;
use chunkjuggler::ring::{create_ring, initial_tokens, join_ring};

fn apply_splice(state: &mut RelayState, splice: &Message) -> Vec<chunkjuggler::relay::Action> {
    let payload = match &splice.payload {
        MessagePayload::Switch { old_addr, new_addr } => MessagePayload::Switch {
            old_addr: *old_addr,
            new_addr: *new_addr,
        },
        _ => panic!("expected a splice message"),
    };
    state.step(InternalMessage::Juggled(Message { ring_id: splice.ring_id, payload }))
}

#[test]
fn fresh_ring_is_a_self_loop() {
    let mut dir = Directory::new();
    let me = Addr::new(0x7F000001, 6767);
    let (ring_id, state, splice) = create_ring(&mut dir, 16, me, 1);

    assert_eq!(state.downstream, me, "a one-node ring points at itself");
    assert_eq!(state.chunk_num, 16);
    assert_eq!(state.ring_id, ring_id);
    match &splice.payload {
        MessagePayload::Switch { old_addr, new_addr } => {
            assert_eq!(*old_addr, me);
            assert_eq!(*new_addr, me);
        }
        _ => panic!("expected a splice message"),
    }
    let meta = dir.get(ring_id).expect("the ring is registered");
    assert_eq!(meta, RingMeta { mailbox: 1, chunk_num: 16 });
}

#[test]
fn joining_a_one_node_ring_yields_a_two_cycle() {
    let ring_id = RingId(11);
    let a_addr = Addr::new(1, 10);
    let b_addr = Addr::new(2, 20);

    // Node A founds the ring.
    let mut dir_a = Directory::new();
    let (mut a, splice_a) = join_ring(&mut dir_a, ring_id, a_addr, 8, a_addr, 1);
    let actions = apply_splice(&mut a, &splice_a);
    assert!(actions.is_empty());
    assert_eq!(a.downstream, a_addr);

    // Node B joins at A.
    let mut dir_b = Directory::new();
    let (b, splice_b) = join_ring(&mut dir_b, ring_id, a_addr, 8, b_addr, 1);
    assert_eq!(b.downstream, a_addr, "the new actor points at the entry node");

    // The splice reaches A, whose downstream equals the replaced address.
    let actions = apply_splice(&mut a, &splice_b);
    assert!(actions.is_empty(), "the predecessor absorbs the splice");
    assert_eq!(a.downstream, b_addr);
    assert_eq!(b.downstream, a_addr);
}

#[test]
fn joining_a_two_node_ring_splices_before_the_entry_node() {
    let ring_id = RingId(12);
    let a_addr = Addr::new(1, 10);
    let b_addr = Addr::new(2, 20);
    let c_addr = Addr::new(3, 30);

    // The two-node ring A -> B -> A.
    let mut a = RelayState::new(ring_id, b_addr, 8);
    let mut b = RelayState::new(ring_id, a_addr, 8);

    // Node C joins at entry node A.
    let mut dir_c = Directory::new();
    let (c, splice_c) = join_ring(&mut dir_c, ring_id, a_addr, 8, c_addr, 1);
    assert_eq!(c.downstream, a_addr);

    // A is not the predecessor of a_addr: it forwards the search downstream.
    let actions = apply_splice(&mut a, &splice_c);
    assert_eq!(a.downstream, b_addr, "A keeps pointing at B");
    assert_eq!(actions.len(), 1);
    let forwarded = match actions.into_iter().next().unwrap() {
        chunkjuggler::relay::Action::Forward { to, message } => {
            assert_eq!(to, b_addr);
            message
        }
        _ => panic!("expected the splice to be forwarded"),
    };

    // B is the true predecessor: it absorbs the message.
    let actions = apply_splice(&mut b, &forwarded);
    assert!(actions.is_empty());
    assert_eq!(b.downstream, c_addr, "B now points at C");
    assert_eq!(c.downstream, a_addr, "C points at the entry node");
}

#[test]
fn initial_tokens_cover_every_index_with_zeroes() {
    let ring_id = RingId(13);
    let tokens = initial_tokens(ring_id, 5);
    assert_eq!(tokens.len(), 5);
    for (i, t) in tokens.iter().enumerate() {
        assert_eq!(t.ring_id, ring_id);
        match &t.payload {
            MessagePayload::Chunk { id, data } => {
                assert_eq!(*id, i as u64);
                assert_eq!(data, &vec![0u8; CHUNK_SIZE]);
            }
            _ => panic!("expected a chunk payload"),
        }
    }

    let none = initial_tokens(ring_id, 0);
    assert!(none.is_empty());
}

#[test]
fn directory_lists_every_hosted_ring() {
    let mut dir = Directory::new();
    assert!(dir.get(RingId(1)).is_none());

    dir.insert(RingId(1), RingMeta { mailbox: 10, chunk_num: 4 });
    dir.insert(RingId(2), RingMeta { mailbox: 20, chunk_num: 8 });

    let mut rings = dir.rings();
    rings.sort_by_key(|p| p.0 .0);
    assert_eq!(rings.len(), 2);
    assert_eq!(rings[0], (RingId(1), 4));
    assert_eq!(rings[1], (RingId(2), 8));

    let mut boxes = dir.mailboxes();
    boxes.sort();
    assert_eq!(boxes, vec![10, 20]);

    // A second record for the same ring replaces the first.
    dir.insert(RingId(1), RingMeta { mailbox: 30, chunk_num: 6 });
    assert_eq!(dir.get(RingId(1)), Some(RingMeta { mailbox: 30, chunk_num: 6 }));
    assert_eq!(dir.rings().len(), 2);
}

#[test]
fn submissions_to_unknown_rings_are_rejected() {
    let dir = Directory::new();
    let msg = Message {
        ring_id: RingId(9),
        payload: MessagePayload::Chunk { id: 0, data: vec![0u8; CHUNK_SIZE] },
    };
    assert_eq!(submit_envelope(&dir, msg).unwrap_err(), SubmitError::UnknownRing);
    assert_eq!(
        submit_read(&dir, ReadMessage { ring_id: RingId(9), chunk_id: 0 }, 1).unwrap_err(),
        SubmitError::UnknownRing
    );
    assert_eq!(
        submit_write(&dir, WriteMessage { ring_id: RingId(9), chunk_id: 0, data: vec![0u8; CHUNK_SIZE] }, 1).unwrap_err(),
        SubmitError::UnknownRing
    );
}

#[test]
fn write_validation_checks_size_then_ring_then_bound() {
    let mut dir = Directory::new();
    dir.insert(RingId(3), RingMeta { mailbox: 7, chunk_num: 4 });

    // A wrong-sized buffer is rejected first, even for an unknown ring.
    assert_eq!(
        submit_write(&dir, WriteMessage { ring_id: RingId(99), chunk_id: 0, data: vec![0u8; 3] }, 1).unwrap_err(),
        SubmitError::BadChunkSize
    );
    assert_eq!(
        submit_write(&dir, WriteMessage { ring_id: RingId(3), chunk_id: 0, data: vec![0u8; CHUNK_SIZE + 1] }, 1).unwrap_err(),
        SubmitError::BadChunkSize
    );
    // An out-of-range index never reaches the actor.
    assert_eq!(
        submit_write(&dir, WriteMessage { ring_id: RingId(3), chunk_id: 4, data: vec![0u8; CHUNK_SIZE] }, 1).unwrap_err(),
        SubmitError::BadChunkIndex
    );
    // A valid write is routed to the ring's mailbox.
    let (mailbox, op) = submit_write(&dir, WriteMessage { ring_id: RingId(3), chunk_id: 2, data: vec![9u8; CHUNK_SIZE] }, 5).unwrap();
    assert_eq!(mailbox, 7);
    match op {
        InternalMessage::Write { chunk_id, data, reply } => {
            assert_eq!(chunk_id, 2);
            assert_eq!(data, vec![9u8; CHUNK_SIZE]);
            assert_eq!(reply, 5);
        }
        _ => panic!("expected a write operation"),
    }
}

#[test]
fn reads_of_any_index_are_routed_when_the_ring_is_known() {
    let mut dir = Directory::new();
    dir.insert(RingId(4), RingMeta { mailbox: 8, chunk_num: 4 });

    // Reads are not bounds-checked at the boundary: the actor answers
    // out-of-range reads itself.
    let (mailbox, op) = submit_read(&dir, ReadMessage { ring_id: RingId(4), chunk_id: 1000 }, 2).unwrap();
    assert_eq!(mailbox, 8);
    match op {
        InternalMessage::Read { chunk_id, reply } => {
            assert_eq!(chunk_id, 1000);
            assert_eq!(reply, 2);
        }
        _ => panic!("expected a read operation"),
    }

    let msg = Message {
        ring_id: RingId(4),
        payload: MessagePayload::Switch { old_addr: Addr::new(1, 1), new_addr: Addr::new(2, 2) },
    };
    let (mailbox, op) = submit_envelope(&dir, msg).unwrap();
    assert_eq!(mailbox, 8);
    assert!(matches!(op, InternalMessage::Juggled(_)));
}

#[test]
fn ring_ids_and_addresses_hold_their_parts() {
    let id = RingId::new();
    let _ = id.0;
    let a = Addr::new(0x01020304, 443);
    assert_eq!(a.ip, 0x01020304);
    assert_eq!(a.port, 443);
}
