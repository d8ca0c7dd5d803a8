use tunicore::cap_table::AgentId;
use tunicore::channel::{Channel, ChannelRegistry, Message, CHANNEL_CAPACITY, MAX_CHANNELS};

#[test]
fn message_payload_is_cut_to_256_bytes() {
    let m = Message::new(AgentId(3), b"hello", 7);
    assert_eq!(m.payload(), b"hello");
    assert_eq!(m.sender, AgentId(3));
    assert_eq!(m.tick, 7);
    let big = vec![0xABu8; 300];
    let m = Message::new(AgentId(3), &big, 7);
    assert_eq!(m.len, 256);
    assert_eq!(m.payload(), &big[..256]);
}

#[test]
fn channel_is_fifo() {
    let mut c = Channel::new(4);
    assert!(!c.has_messages());
    c.send(Message::new(AgentId(1), b"a", 1)).unwrap();
    c.send(Message::new(AgentId(1), b"b", 2)).unwrap();
    assert_eq!(c.message_count(), 2);
    assert_eq!(c.recv().unwrap().payload(), b"a");
    assert_eq!(c.recv().unwrap().payload(), b"b");
    assert!(c.recv().is_none());
}

#[test]
fn channel_full_refuses() {
    let mut c = Channel::new(0);
    for i in 0..CHANNEL_CAPACITY {
        c.send(Message::new(AgentId(1), &[i as u8], 0)).unwrap();
    }
    assert_eq!(c.send(Message::new(AgentId(1), b"x", 0)), Err("channel full"));
    assert_eq!(c.message_count(), CHANNEL_CAPACITY);
    assert_eq!(c.recv().unwrap().payload(), &[0u8]);
    assert!(c.send(Message::new(AgentId(1), b"x", 0)).is_ok());
}

#[test]
fn registry_ids_and_limit() {
    let mut r = ChannelRegistry::new();
    assert_eq!(r.create(), Ok(0));
    assert_eq!(r.create(), Ok(1));
    assert!(r.get(1).is_some());
    assert!(r.get(2).is_none());
    r.get_mut(1).unwrap().send(Message::new(AgentId(1), b"z", 0)).unwrap();
    assert_eq!(r.get(1).unwrap().message_count(), 1);
    for _ in 2..MAX_CHANNELS {
        r.create().unwrap();
    }
    assert_eq!(r.create(), Err("max channels reached"));
}

#[test]
fn count_is_sends_minus_receives() {
    let mut c = Channel::new(1);
    let mut sent = 0usize;
    let mut received = 0usize;
    for round in 0..3u8 {
        for k in 0..30u8 {
            if c.send(Message::new(AgentId(1), &[round, k], 0)).is_ok() {
                sent += 1;
            }
        }
        for _ in 0..10 {
            if c.recv().is_some() {
                received += 1;
            }
        }
        assert_eq!(c.message_count(), sent - received);
    }
    assert_eq!(sent, 84);
    assert_eq!(received, 30);
    while c.recv().is_some() {
        received += 1;
    }
    assert_eq!(c.message_count(), 0);
    assert_eq!(sent, received);
    assert!(c.recv().is_none());
}
