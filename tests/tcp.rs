use tcp_rust::table::{ConnectionTable, FrameOutcome, Quad, SegmentOutcome};
use tcp_rust::tcp::{is_acceptable, Connection, SegmentError, State, SEND_WINDOW};
use tcp_rust::wire::{
    parse, serialize, Ipv4Header, Segment, TcpHeader, FLAG_ACK, FLAG_FIN, FLAG_SYN,
};

const PEER: u32 = 0x0A64_0002;
const LOCAL: u32 = 0x0A64_0001;

fn inbound(flags: u8, seq: u32, ack: u32, payload: Vec<u8>) -> Segment {
    Segment {
        ip: Ipv4Header {
            tos: 0,
            identification: 7,
            flags_fragment: 0x4000,
            ttl: 64,
            source: PEER,
            destination: LOCAL,
            options: vec![],
        },
        tcp: TcpHeader {
            source_port: 40000,
            destination_port: 80,
            sequence_number: seq,
            acknowledgment_number: ack,
            reserved: 0,
            flags,
            window_size: 64240,
            urgent_pointer: 0,
            options: vec![],
        },
        payload,
    }
}

fn quad_q() -> Quad {
    Quad { local_addr: LOCAL, local_port: 80, remote_addr: PEER, remote_port: 40000 }
}

#[test]
fn syn_opens_connection_with_one_syn_ack() {
    let mut table = ConnectionTable::new();
    let iss = 5000;
    let frame = serialize(&inbound(FLAG_SYN, 1000, 0, vec![]));
    let reply = match table.handle_frame(iss, &frame) {
        FrameOutcome::Accepted(reply) => reply,
        other => panic!("unexpected outcome {:?}", other),
    };
    let r = parse(&reply).unwrap();
    assert_eq!(r.tcp.flags, FLAG_SYN | FLAG_ACK);
    assert_eq!(r.tcp.sequence_number, iss);
    assert_eq!(r.tcp.acknowledgment_number, 1001);
    assert_eq!(r.ip.source, LOCAL);
    assert_eq!(r.ip.destination, PEER);
    assert_eq!(r.tcp.source_port, 80);
    assert_eq!(r.tcp.destination_port, 40000);
    assert_eq!(r.tcp.window_size, SEND_WINDOW);
    assert_eq!(table.len(), 1);
    let c = table.get(quad_q()).unwrap();
    assert_eq!(c.state, State::SynReceived);
    assert_eq!(c.send.una, iss);
    assert_eq!(c.send.nxt, iss + 1);
    assert_eq!(c.send.iss, iss);
    assert_eq!(c.recv.irs, 1000);
    assert_eq!(c.recv.nxt, 1001);
    assert_eq!(c.recv.wnd, 64240);
}

#[test]
fn ack_of_syn_ack_establishes_without_reply() {
    let mut table = ConnectionTable::new();
    let iss = 5000;
    table.handle_frame(iss, &serialize(&inbound(FLAG_SYN, 1000, 0, vec![])));
    let ack = serialize(&inbound(FLAG_ACK, 1001, iss + 1, vec![]));
    match table.handle_frame(iss, &ack) {
        FrameOutcome::Delivered(Ok(())) => {}
        other => panic!("unexpected outcome {:?}", other),
    }
    let c = table.get(quad_q()).unwrap();
    assert_eq!(c.state, State::Established);
    assert_eq!(c.send.una, iss + 1);
    assert_eq!(table.len(), 1);
}

#[test]
fn wrong_ack_leaves_syn_received() {
    let mut table = ConnectionTable::new();
    table.handle_frame(0, &serialize(&inbound(FLAG_SYN, 1000, 0, vec![])));
    let ack = serialize(&inbound(FLAG_ACK, 1001, 7, vec![]));
    match table.handle_frame(0, &ack) {
        FrameOutcome::Delivered(Ok(())) => {}
        other => panic!("unexpected outcome {:?}", other),
    }
    assert_eq!(table.get(quad_q()).unwrap().state, State::SynReceived);
}

#[test]
fn udp_frame_changes_nothing() {
    let mut table = ConnectionTable::new();
    for payload in [vec![], vec![0xFF; 40]] {
        let mut frame = serialize(&inbound(FLAG_SYN, 1000, 0, payload));
        frame[9] = 17;
        frame[10] = 0;
        frame[11] = 0;
        let c = tcp_rust::bytes::checksum(&frame[0..20]);
        frame[10] = (c >> 8) as u8;
        frame[11] = c as u8;
        match table.handle_frame(0, &frame) {
            FrameOutcome::NotTcp => {}
            other => panic!("unexpected outcome {:?}", other),
        }
        assert_eq!(table.len(), 0);
    }
}

#[test]
fn malformed_frame_changes_nothing() {
    let mut table = ConnectionTable::new();
    let mut frame = serialize(&inbound(FLAG_SYN, 1000, 0, vec![]));
    frame[30] ^= 0x10;
    match table.handle_frame(0, &frame) {
        FrameOutcome::Malformed => {}
        other => panic!("unexpected outcome {:?}", other),
    }
    match table.handle_frame(0, &frame[..10]) {
        FrameOutcome::Malformed => {}
        other => panic!("unexpected outcome {:?}", other),
    }
    assert_eq!(table.len(), 0);
}

#[test]
fn second_syn_goes_to_existing_connection() {
    let mut table = ConnectionTable::new();
    let syn = serialize(&inbound(FLAG_SYN, 1000, 0, vec![]));
    table.handle_frame(0, &syn);
    let before = table.get(quad_q()).unwrap();
    match table.handle_frame(0, &syn) {
        FrameOutcome::Delivered(Err(SegmentError::UnacceptableSegment)) => {}
        other => panic!("unexpected outcome {:?}", other),
    }
    assert_eq!(table.len(), 1);
    assert_eq!(table.get(quad_q()).unwrap(), before);
}

#[test]
fn ack_without_connection_is_a_protocol_violation() {
    let mut table = ConnectionTable::new();
    let seg = inbound(FLAG_ACK, 1, 1, vec![]);
    match table.handle_segment(0, &seg) {
        SegmentOutcome::ProtocolViolation => {}
        other => panic!("unexpected outcome {:?}", other),
    }
    let synack = inbound(FLAG_SYN | FLAG_ACK, 1, 1, vec![]);
    match table.handle_frame(0, &serialize(&synack)) {
        FrameOutcome::ProtocolViolation => {}
        other => panic!("unexpected outcome {:?}", other),
    }
    assert_eq!(table.len(), 0);
}

#[test]
fn accept_ignores_non_syn() {
    assert!(Connection::accept(0, &inbound(FLAG_ACK, 1, 1, vec![])).is_none());
    assert!(Connection::accept(0, &inbound(FLAG_SYN | FLAG_ACK, 1, 1, vec![])).is_none());
    assert!(Connection::accept(0, &inbound(0, 1, 1, vec![])).is_none());
    let (c, reply) = Connection::accept(9, &inbound(FLAG_SYN, 0xFFFF_FFFF, 0, vec![])).unwrap();
    assert_eq!(c.recv.nxt, 0);
    assert_eq!(reply.tcp.acknowledgment_number, 0);
    assert_eq!(c.send.wnd, SEND_WINDOW);
}

#[test]
fn established_advances_on_data_and_ack() {
    let mut table = ConnectionTable::new();
    let iss = 100;
    table.handle_frame(iss, &serialize(&inbound(FLAG_SYN, 1000, 0, vec![])));
    table.handle_frame(iss, &serialize(&inbound(FLAG_ACK, 1001, iss + 1, vec![])));
    let data = inbound(FLAG_ACK, 1001, iss + 1, vec![1, 2, 3]);
    match table.handle_frame(iss, &serialize(&data)) {
        FrameOutcome::Delivered(Ok(())) => {}
        other => panic!("unexpected outcome {:?}", other),
    }
    let c = table.get(quad_q()).unwrap();
    assert_eq!(c.state, State::Established);
    assert_eq!(c.recv.nxt, 1004);
    // Out of window: far behind.
    let old = inbound(FLAG_ACK, 10, iss + 1, vec![9]);
    match table.handle_frame(iss, &serialize(&old)) {
        FrameOutcome::Delivered(Err(SegmentError::UnacceptableSegment)) => {}
        other => panic!("unexpected outcome {:?}", other),
    }
    assert_eq!(table.get(quad_q()).unwrap(), c);
}

#[test]
fn fin_takes_no_sequence_space() {
    let mut table = ConnectionTable::new();
    let iss = 300;
    let mut syn = inbound(FLAG_SYN, 1000, 0, vec![]);
    syn.tcp.window_size = 0;
    table.handle_frame(iss, &serialize(&syn));
    assert_eq!(table.get(quad_q()).unwrap().recv.wnd, 0);
    // A FIN+ACK at recv.nxt in a zero window, with no payload, is acceptable.
    let fin_ack = inbound(FLAG_FIN | FLAG_ACK, 1001, iss + 1, vec![]);
    match table.handle_frame(iss, &serialize(&fin_ack)) {
        FrameOutcome::Delivered(Ok(())) => {}
        other => panic!("unexpected outcome {:?}", other),
    }
    assert_eq!(table.get(quad_q()).unwrap().state, State::Established);
}

#[test]
fn segment_starting_before_window_is_dropped() {
    let mut table = ConnectionTable::new();
    let iss = 300;
    table.handle_frame(iss, &serialize(&inbound(FLAG_SYN, 99, 0, vec![])));
    let c = table.get(quad_q()).unwrap();
    assert_eq!(c.recv.nxt, 100);
    // Two bytes at 99: the second lies in the window, the first does not.
    let early = inbound(FLAG_ACK, 99, iss + 1, vec![1, 2]);
    match table.handle_frame(iss, &serialize(&early)) {
        FrameOutcome::Delivered(Err(SegmentError::UnacceptableSegment)) => {}
        other => panic!("unexpected outcome {:?}", other),
    }
    assert_eq!(table.get(quad_q()).unwrap(), c);
}

#[test]
fn acceptability_cases() {
    // Zero-length segment, zero window: only at nxt.
    assert!(is_acceptable(100, 0, 100, 0));
    assert!(!is_acceptable(100, 0, 101, 0));
    // Zero-length segment, open window.
    assert!(is_acceptable(100, 10, 100, 0));
    assert!(is_acceptable(100, 10, 109, 0));
    assert!(!is_acceptable(100, 10, 110, 0));
    assert!(!is_acceptable(100, 10, 99, 0));
    // Data in a zero window: never.
    assert!(!is_acceptable(100, 0, 100, 1));
    // Data: decided by its first sequence number alone.
    assert!(is_acceptable(100, 10, 100, 1));
    assert!(is_acceptable(100, 10, 109, 5));
    assert!(!is_acceptable(100, 10, 95, 6));
    assert!(!is_acceptable(100, 10, 99, 2));
    assert!(!is_acceptable(100, 10, 110, 1));
    // Across the wraparound.
    assert!(is_acceptable(0xFFFF_FFFE, 10, 3, 0));
    assert!(is_acceptable(0xFFFF_FFFE, 10, 7, 4));
    assert!(!is_acceptable(0xFFFF_FFFE, 10, 8, 1));
}
