use std::io::Cursor;
use tarot::transport::{Decoded, Inbound, Outbound, Poll, Terminal, WorkerAction};

#[derive(Debug, PartialEq)]
enum Packet {
    P1,
    P2(u16),
}

// The codec's encoding of `Packet`: a little-endian `u32` variant index, then the fields.
fn encode_packet(p: &Packet) -> Vec<u8> {
    match p {
        Packet::P1 => bincode::serialize(&0u32).unwrap(),
        Packet::P2(x) => bincode::serialize(&(1u32, *x)).unwrap(),
    }
}

fn decode_packet(r: &mut Cursor<Vec<u8>>) -> Decoded<Packet> {
    let tag: u32 = match bincode::deserialize_from(&mut *r) {
        Ok(t) => t,
        Err(_) => return Decoded::Closed,
    };
    match tag {
        0 => Decoded::Message(Packet::P1),
        1 => match bincode::deserialize_from::<_, u16>(&mut *r) {
            Ok(x) => Decoded::Message(Packet::P2(x)),
            Err(_) => Decoded::Closed,
        },
        _ => Decoded::Malformed,
    }
}

fn create_p1_p2_42_buffer() -> Vec<u8> {
    let mut buffer = encode_packet(&Packet::P1);
    buffer.extend(encode_packet(&Packet::P2(42)));
    buffer
}

fn poll_some<T>(inbound: &mut Inbound<T>) -> T {
    loop {
        if let Poll::Message(m) = inbound.poll() {
            return m;
        }
    }
}

#[test]
fn encode() {
    let vec = create_p1_p2_42_buffer();
    let mut transmitter = Outbound::new();
    assert!(transmitter.submit(encode_packet(&Packet::P1)).is_ok());
    assert!(transmitter.submit(encode_packet(&Packet::P2(42))).is_ok());
    transmitter.close();
    let mut buffer: Vec<u8> = Vec::new();
    transmitter.flush_into(&mut buffer);
    assert_eq!(&buffer[..], &vec[..]);
    assert_eq!(buffer, vec![0, 0, 0, 0, 1, 0, 0, 0, 42, 0]);
    assert!(transmitter.is_finished());
}

#[test]
fn decode() {
    let mut reader = Cursor::new(create_p1_p2_42_buffer());
    let mut receiver: Inbound<Packet> = Inbound::new();
    while receiver.receive(decode_packet(&mut reader)) {}
    let p1: Packet = poll_some(&mut receiver);
    let p2: Packet = poll_some(&mut receiver);
    assert_eq!(p1, Packet::P1);
    assert_eq!(p2, Packet::P2(42));
    assert!(!matches!(receiver.poll(), Poll::Message(_)));
}

#[test]
fn worker_steps_in_submission_order() {
    let mut out = Outbound::new();
    assert!(matches!(out.next_action(), WorkerAction::Wait));
    out.submit(vec![1, 2]).unwrap();
    out.submit(vec![3]).unwrap();
    match out.next_action() {
        WorkerAction::Write(f) => assert_eq!(f, vec![1, 2]),
        other => panic!("expected a write, got {:?}", other),
    }
    out.close();
    assert_eq!(out.submit(vec![9]), Err(vec![9]));
    match out.next_action() {
        WorkerAction::Write(f) => assert_eq!(f, vec![3]),
        other => panic!("expected a write, got {:?}", other),
    }
    assert!(matches!(out.next_action(), WorkerAction::Exit));
}

#[test]
fn failed_write_stops_the_worker() {
    let mut out = Outbound::new();
    out.submit(vec![1]).unwrap();
    out.submit(vec![2]).unwrap();
    out.write_failed();
    assert!(out.is_finished());
    assert_eq!(out.submit(vec![3]), Err(vec![3]));
    assert!(matches!(out.next_action(), WorkerAction::Exit));
    let mut sink: Vec<u8> = vec![7];
    out.flush_into(&mut sink);
    assert_eq!(sink, vec![7]);
}

#[test]
fn poll_without_message_is_empty() {
    let mut inbound: Inbound<u16> = Inbound::new();
    assert!(matches!(inbound.poll(), Poll::Empty));
    assert!(inbound.receive(Decoded::Message(5)));
    assert!(matches!(inbound.poll(), Poll::Message(5)));
    assert!(matches!(inbound.poll(), Poll::Empty));
}

#[test]
fn closed_stream_is_reported_for_good() {
    let mut inbound: Inbound<u16> = Inbound::new();
    assert!(inbound.receive(Decoded::Message(1)));
    assert!(!inbound.receive(Decoded::Closed));
    assert!(!inbound.receive(Decoded::Message(2)));
    assert!(matches!(inbound.poll(), Poll::Message(1)));
    for _ in 0..3 {
        assert!(matches!(inbound.poll(), Poll::Terminated(Terminal::Closed)));
    }
}

#[test]
fn malformed_input_ends_the_stream() {
    let mut reader = Cursor::new(vec![7, 0, 0, 0, 0, 0, 0, 0]);
    let mut inbound: Inbound<Packet> = Inbound::new();
    assert!(!inbound.receive(decode_packet(&mut reader)));
    assert!(matches!(inbound.poll(), Poll::Terminated(Terminal::Corrupt)));
}

#[test]
fn round_trip_through_bytes() {
    let packets = vec![Packet::P2(7), Packet::P1, Packet::P2(65535), Packet::P1];
    let mut out = Outbound::new();
    for p in &packets {
        out.submit(encode_packet(p)).unwrap();
    }
    let mut bytes: Vec<u8> = Vec::new();
    out.flush_into(&mut bytes);
    let mut reader = Cursor::new(bytes);
    let mut inbound: Inbound<Packet> = Inbound::new();
    while inbound.receive(decode_packet(&mut reader)) {}
    let mut got = Vec::new();
    while let Poll::Message(m) = inbound.poll() {
        got.push(m);
    }
    assert_eq!(got, packets);
}
