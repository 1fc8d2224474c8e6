use tcp_rust::bytes::checksum;
use tcp_rust::wire::{parse, serialize, Ipv4Header, ParseError, Segment, TcpHeader, FLAG_ACK, FLAG_SYN};

fn sample() -> Segment {
    Segment {
        ip: Ipv4Header {
            tos: 0,
            identification: 0x1c46,
            flags_fragment: 0x4000,
            ttl: 64,
            source: 0x0A64_0002,
            destination: 0x0A64_0001,
            options: vec![],
        },
        tcp: TcpHeader {
            source_port: 51000,
            destination_port: 80,
            sequence_number: 1000,
            acknowledgment_number: 0,
            reserved: 0,
            flags: FLAG_SYN,
            window_size: 64240,
            urgent_pointer: 0,
            options: vec![2, 4, 5, 180],
        },
        payload: vec![],
    }
}

#[test]
fn checksum_of_known_header() {
    let header = [
        0x45, 0x00, 0x00, 0x73, 0x00, 0x00, 0x40, 0x00, 0x40, 0x11, 0x00, 0x00, 0xc0, 0xa8, 0x00,
        0x01, 0xc0, 0xa8, 0x00, 0xc7,
    ];
    assert_eq!(checksum(&header), 0xb861);
    assert_eq!(checksum(&[]), 0xFFFF);
    assert_eq!(checksum(&[0x01]), 0xFEFF);
}

#[test]
fn serialize_writes_fields_big_endian() {
    let bytes = serialize(&sample());
    assert_eq!(bytes.len(), 44);
    assert_eq!(bytes[0], 0x45);
    assert_eq!(&bytes[2..4], &[0, 44]);
    assert_eq!(&bytes[4..6], &[0x1c, 0x46]);
    assert_eq!(bytes[9], 6);
    assert_eq!(&bytes[12..16], &[10, 100, 0, 2]);
    assert_eq!(&bytes[16..20], &[10, 100, 0, 1]);
    assert_eq!(&bytes[20..22], &[0xC7, 0x38]);
    assert_eq!(&bytes[24..28], &[0, 0, 0x03, 0xE8]);
    assert_eq!(bytes[32], 0x60);
    assert_eq!(bytes[33], FLAG_SYN);
    assert_eq!(&bytes[40..44], &[2, 4, 5, 180]);
    // Both checksums validate: the sum over the covered bytes folds to zero.
    assert_eq!(checksum(&bytes[0..20]), 0);
    let mut covered = Vec::new();
    covered.extend_from_slice(&bytes[12..20]);
    covered.extend_from_slice(&[0, 6, 0, 24]);
    covered.extend_from_slice(&bytes[20..44]);
    assert_eq!(checksum(&covered), 0);
}

#[test]
fn parse_then_serialize_is_identity() {
    let mut seg = sample();
    seg.payload = vec![1, 2, 3, 4, 5];
    seg.tcp.flags = FLAG_ACK;
    seg.ip.options = vec![1, 1, 1, 0];
    let bytes = serialize(&seg);
    let parsed = parse(&bytes).unwrap();
    assert_eq!(parsed.tcp.sequence_number, 1000);
    assert_eq!(parsed.tcp.options, vec![2, 4, 5, 180]);
    assert_eq!(parsed.ip.options, vec![1, 1, 1, 0]);
    assert_eq!(parsed.payload, vec![1, 2, 3, 4, 5]);
    assert_eq!(serialize(&parsed), bytes);
}

#[test]
fn parse_ignores_trailing_bytes_after_total_length() {
    let bytes = serialize(&sample());
    let mut longer = bytes.clone();
    longer.extend_from_slice(&[9, 9, 9]);
    let parsed = parse(&longer).unwrap();
    assert_eq!(serialize(&parsed), bytes);
}

#[test]
fn parse_rejects_bad_checksums_and_short_frames() {
    let bytes = serialize(&sample());
    let mut bad_ip = bytes.clone();
    bad_ip[11] ^= 1;
    assert_eq!(parse(&bad_ip).unwrap_err(), ParseError::MalformedPacket);
    let mut bad_tcp = bytes.clone();
    bad_tcp[37] ^= 1;
    assert_eq!(parse(&bad_tcp).unwrap_err(), ParseError::MalformedPacket);
    assert_eq!(parse(&bytes[..19]).unwrap_err(), ParseError::MalformedPacket);
    assert_eq!(parse(&bytes[..30]).unwrap_err(), ParseError::MalformedPacket);
    assert_eq!(parse(&[]).unwrap_err(), ParseError::MalformedPacket);
    let mut v6 = bytes.clone();
    v6[0] = 0x65;
    assert_eq!(parse(&v6).unwrap_err(), ParseError::MalformedPacket);
}

#[test]
fn parse_reports_other_protocols() {
    let mut bytes = serialize(&sample());
    bytes[9] = 17;
    bytes[10] = 0;
    bytes[11] = 0;
    let c = checksum(&bytes[0..20]);
    bytes[10] = (c >> 8) as u8;
    bytes[11] = c as u8;
    assert_eq!(parse(&bytes).unwrap_err(), ParseError::NotTcp);
}

#[test]
fn reserved_bits_survive_the_round_trip() {
    let mut seg = sample();
    seg.tcp.reserved = 0b1011;
    seg.ip.flags_fragment = 0x8000 | 0x2000 | 0x0123;
    let bytes = serialize(&seg);
    assert_eq!(bytes[32], 0x6B);
    assert_eq!(&bytes[6..8], &[0xA1, 0x23]);
    let parsed = parse(&bytes).unwrap();
    assert_eq!(parsed.tcp.reserved, 0b1011);
    assert_eq!(parsed.ip.flags_fragment, 0xA123);
    assert_eq!(serialize(&parsed), bytes);
}
