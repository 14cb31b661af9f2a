use chunkjuggler::message::{Addr, InternalMessage, Message, MessagePayload, RingId, CHUNK_SIZE};
use chunkjuggler::relay::{Action, RelayState};

fn chunk_msg(ring_id: RingId, id: u64, data: Vec<u8>) -> InternalMessage {
    InternalMessage::Juggled(Message {
        ring_id,
        payload: MessagePayload::Chunk { id, data },
    })
}

fn switch_msg(ring_id: RingId, old_addr: Addr, new_addr: Addr) -> InternalMessage {
    InternalMessage::Juggled(Message {
        ring_id,
        payload: MessagePayload::Switch { old_addr, new_addr },
    })
}

#[test]
fn out_of_range_read_answers_zeroes_immediately() {
    let ring = RingId(1);
    let me = Addr::new(1, 10);
    let mut s = RelayState::new(ring, me, 4);

    let actions = s.step(InternalMessage::Read { chunk_id: 4, reply: 77 });
    assert_eq!(actions.len(), 1);
    match &actions[0] {
        Action::ReplyData { reply, data } => {
            assert_eq!(*reply, 77);
            assert_eq!(data.len(), CHUNK_SIZE);
            assert!(data.iter().all(|b| *b == 0));
        }
        _ => panic!("expected an immediate data reply"),
    }

    let actions = s.step(InternalMessage::Read { chunk_id: 1000, reply: 78 });
    assert_eq!(actions.len(), 1);
    match &actions[0] {
        Action::ReplyData { reply, data } => {
            assert_eq!(*reply, 78);
            assert_eq!(data, &vec![0u8; CHUNK_SIZE]);
        }
        _ => panic!("expected an immediate data reply"),
    }
}

#[test]
fn token_with_no_pending_ops_is_forwarded_unchanged() {
    let ring = RingId(2);
    let next = Addr::new(2, 20);
    let mut s = RelayState::new(ring, next, 4);

    let payload = vec![9u8; CHUNK_SIZE];
    let actions = s.step(chunk_msg(ring, 2, payload.clone()));
    assert_eq!(actions.len(), 1);
    match &actions[0] {
        Action::Forward { to, message } => {
            assert_eq!(*to, next);
            assert_eq!(message.ring_id, ring);
            match &message.payload {
                MessagePayload::Chunk { id, data } => {
                    assert_eq!(*id, 2);
                    assert_eq!(data, &payload);
                }
                _ => panic!("expected a chunk payload"),
            }
        }
        _ => panic!("expected a forward"),
    }
}

#[test]
fn write_then_read_observes_written_bytes_on_next_visit() {
    let ring = RingId(3);
    let next = Addr::new(2, 20);
    let mut s = RelayState::new(ring, next, 8);

    let written = vec![0xABu8; CHUNK_SIZE];
    let actions = s.step(InternalMessage::Write {
        chunk_id: 3,
        data: written.clone(),
        reply: 1,
    });
    assert!(actions.is_empty());

    // First visit: the write is served and acknowledged, the token leaves
    // carrying the written bytes.
    let actions = s.step(chunk_msg(ring, 3, vec![0u8; CHUNK_SIZE]));
    assert_eq!(actions.len(), 2);
    match &actions[0] {
        Action::ReplyDone { reply } => assert_eq!(*reply, 1),
        _ => panic!("expected a write acknowledgement"),
    }
    let carried = match &actions[1] {
        Action::Forward { to, message } => {
            assert_eq!(*to, next);
            match &message.payload {
                MessagePayload::Chunk { id, data } => {
                    assert_eq!(*id, 3);
                    assert_eq!(data, &written);
                    data.clone()
                }
                _ => panic!("expected a chunk payload"),
            }
        }
        _ => panic!("expected a forward"),
    };

    // A read submitted after the write completed is served at the next
    // visit with the bytes the token now carries.
    let actions = s.step(InternalMessage::Read { chunk_id: 3, reply: 2 });
    assert!(actions.is_empty());
    let actions = s.step(chunk_msg(ring, 3, carried));
    assert_eq!(actions.len(), 2);
    match &actions[0] {
        Action::ReplyData { reply, data } => {
            assert_eq!(*reply, 2);
            assert_eq!(data, &written);
        }
        _ => panic!("expected a data reply"),
    }
}

#[test]
fn read_write_read_batch_resolves_in_fifo_order() {
    let ring = RingId(4);
    let next = Addr::new(2, 20);
    let mut s = RelayState::new(ring, next, 8);

    let pre = vec![1u8; CHUNK_SIZE];
    let post = vec![2u8; CHUNK_SIZE];

    assert!(s.step(InternalMessage::Read { chunk_id: 5, reply: 10 }).is_empty());
    assert!(s
        .step(InternalMessage::Write { chunk_id: 5, data: post.clone(), reply: 11 })
        .is_empty());
    assert!(s.step(InternalMessage::Read { chunk_id: 5, reply: 12 }).is_empty());

    let actions = s.step(chunk_msg(ring, 5, pre.clone()));
    assert_eq!(actions.len(), 4);
    match &actions[0] {
        Action::ReplyData { reply, data } => {
            assert_eq!(*reply, 10);
            assert_eq!(data, &pre, "first read sees pre-write data");
        }
        _ => panic!("expected a data reply first"),
    }
    match &actions[1] {
        Action::ReplyDone { reply } => assert_eq!(*reply, 11),
        _ => panic!("expected a write acknowledgement second"),
    }
    match &actions[2] {
        Action::ReplyData { reply, data } => {
            assert_eq!(*reply, 12);
            assert_eq!(data, &post, "second read sees post-write data");
        }
        _ => panic!("expected a data reply third"),
    }
    match &actions[3] {
        Action::Forward { to, message } => {
            assert_eq!(*to, next);
            match &message.payload {
                MessagePayload::Chunk { id, data } => {
                    assert_eq!(*id, 5);
                    assert_eq!(data, &post, "the token leaves with the last write's bytes");
                }
                _ => panic!("expected a chunk payload"),
            }
        }
        _ => panic!("expected the forward last"),
    }

    // The batch was consumed: the next visit serves nothing.
    let actions = s.step(chunk_msg(ring, 5, post.clone()));
    assert_eq!(actions.len(), 1);
    assert!(matches!(&actions[0], Action::Forward { .. }));
}

#[test]
fn splice_for_current_downstream_is_absorbed() {
    let ring = RingId(5);
    let a_addr = Addr::new(1, 10);
    let b_addr = Addr::new(2, 20);
    // One-node ring: the actor's downstream is its own address.
    let mut a = RelayState::new(ring, a_addr, 4);
    assert_eq!(a.downstream, a_addr);

    let actions = a.step(switch_msg(ring, a_addr, b_addr));
    assert!(actions.is_empty(), "an absorbed splice forwards nothing");
    assert_eq!(a.downstream, b_addr);
}

#[test]
fn splice_for_another_predecessor_is_forwarded_to_current_downstream() {
    let ring = RingId(6);
    let a_addr = Addr::new(1, 10);
    let b_addr = Addr::new(2, 20);
    let c_addr = Addr::new(3, 30);
    // A of the two-node ring A -> B -> A.
    let mut a = RelayState::new(ring, b_addr, 4);

    let actions = a.step(switch_msg(ring, a_addr, c_addr));
    assert_eq!(a.downstream, b_addr, "the forwarding pointer is unchanged");
    assert_eq!(actions.len(), 1);
    match &actions[0] {
        Action::Forward { to, message } => {
            assert_eq!(*to, b_addr, "re-addressed to the current downstream");
            assert_eq!(message.ring_id, ring);
            match &message.payload {
                MessagePayload::Switch { old_addr, new_addr } => {
                    assert_eq!(*old_addr, a_addr);
                    assert_eq!(*new_addr, c_addr);
                }
                _ => panic!("expected the splice payload unchanged"),
            }
        }
        _ => panic!("expected a forward"),
    }
}

#[test]
fn writes_beyond_chunk_num_are_queued_not_answered() {
    // The index bound on writes is the submitter's check; the actor queues
    // regardless and serves the queue at that index's token visit.
    let ring = RingId(7);
    let next = Addr::new(2, 20);
    let mut s = RelayState::new(ring, next, 2);

    let data = vec![5u8; CHUNK_SIZE];
    let actions = s.step(InternalMessage::Write { chunk_id: 9, data: data.clone(), reply: 40 });
    assert!(actions.is_empty());

    let actions = s.step(chunk_msg(ring, 9, vec![0u8; CHUNK_SIZE]));
    assert_eq!(actions.len(), 2);
    assert!(matches!(&actions[0], Action::ReplyDone { reply: 40 }));
    match &actions[1] {
        Action::Forward { message, .. } => match &message.payload {
            MessagePayload::Chunk { data: d, .. } => assert_eq!(d, &data),
            _ => panic!("expected a chunk payload"),
        },
        _ => panic!("expected a forward"),
    }
}
