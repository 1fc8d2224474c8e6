use tcp_rust::dns::{BytePacketBuffer, DnsHeader, PacketError, QueryType, ResultCode};

fn buffer_with(bytes: &[u8]) -> BytePacketBuffer {
    let mut b = BytePacketBuffer::new();
    b.buffer[..bytes.len()].copy_from_slice(bytes);
    b
}

#[test]
fn result_codes_from_numbers() {
    assert_eq!(ResultCode::from_num(0), ResultCode::NOERROR);
    assert_eq!(ResultCode::from_num(1), ResultCode::FORMERR);
    assert_eq!(ResultCode::from_num(2), ResultCode::SERVFAIL);
    assert_eq!(ResultCode::from_num(3), ResultCode::NXDOMAIN);
    assert_eq!(ResultCode::from_num(4), ResultCode::NOTIMP);
    assert_eq!(ResultCode::from_num(5), ResultCode::REFUSED);
    assert_eq!(ResultCode::from_num(9), ResultCode::NOERROR);
}

#[test]
fn query_type_numbers_round_trip() {
    assert_eq!(QueryType::from_num(1), QueryType::A);
    assert_eq!(QueryType::from_num(28), QueryType::UNKNOWN(28));
    for n in [0u16, 1, 2, 28, 65535] {
        assert_eq!(QueryType::from_num(n).to_num(), n);
    }
}

#[test]
fn reads_numbers_big_endian() {
    let mut b = buffer_with(&[0x12, 0x34, 0xDE, 0xAD, 0xBE, 0xEF]);
    assert_eq!(b.read_u16(), Ok(0x1234));
    assert_eq!(b.read_u32(), Ok(0xDEAD_BEEF));
    assert_eq!(b.pos(), 6);
    b.seek(511);
    assert_eq!(b.read(), Ok(0));
    assert_eq!(b.read(), Err(PacketError::EndOfBuffer));
    b.seek(510);
    assert_eq!(b.read_u32(), Err(PacketError::EndOfBuffer));
    assert_eq!(b.get(512), Err(PacketError::EndOfBuffer));
    assert_eq!(b.get_range(510, 3), Err(PacketError::EndOfBuffer));
    assert_eq!(b.get_range(0, 2), Ok(vec![0x12, 0x34]));
}

#[test]
fn reads_header_fields() {
    let bytes = [
        0x86, 0x2a, 0x81, 0x83, 0x00, 0x01, 0x00, 0x02, 0x00, 0x03, 0x00, 0x04,
    ];
    let mut b = buffer_with(&bytes);
    let mut h = DnsHeader::new();
    assert_eq!(h.read(&mut b), Ok(()));
    assert_eq!(h.id, 0x862a);
    assert!(h.recursion_desired);
    assert!(!h.truncated_message);
    assert!(!h.authoritative_answer);
    assert_eq!(h.opcode, 0);
    assert!(h.response);
    assert_eq!(h.rescode, ResultCode::NXDOMAIN);
    assert!(h.recursion_available);
    assert!(!h.z);
    assert_eq!(h.questions, 1);
    assert_eq!(h.answers, 2);
    assert_eq!(h.authoritative_entries, 3);
    assert_eq!(h.resource_entries, 4);
    assert_eq!(b.pos(), 12);
    let mut near_end = BytePacketBuffer::new();
    near_end.seek(501);
    assert_eq!(h.read(&mut near_end), Err(PacketError::EndOfBuffer));
}

#[test]
fn reads_names_with_and_without_jumps() {
    let mut bytes = vec![3, b'W', b'w', b'W', 6, b'G', b'o', b'o', b'g', b'l', b'e', 3, b'c', b'o', b'm', 0];
    // A second name at 16: one label, then a pointer to offset 4.
    bytes.extend_from_slice(&[3, b'M', b'A', b'P', 0xC0, 4]);
    let mut b = buffer_with(&bytes);
    assert_eq!(b.read_query_name(), Ok("wwwgooglecom".to_string()));
    assert_eq!(b.pos(), 16);
    assert_eq!(b.read_query_name(), Ok("mapgooglecom".to_string()));
    assert_eq!(b.pos(), 22);
}

#[test]
fn name_jump_loop_is_refused() {
    let mut b = buffer_with(&[0xC0, 0x00]);
    assert_eq!(b.read_query_name(), Err(PacketError::TooManyJumps));
    let mut c = buffer_with(&[0xC3, 0xFF]);
    assert_eq!(c.read_query_name(), Err(PacketError::EndOfBuffer));
}

#[test]
fn reads_label_ranges_and_end() {
    let mut bytes = vec![3, b'w', b'w', b'w', 2, b'a', b'b', 0];
    bytes.extend_from_slice(&[1, b'x', 0xC0, 4]);
    let mut b = buffer_with(&bytes);
    assert_eq!(b.read_labels(), Ok(vec![(1, 3), (5, 2)]));
    assert_eq!(b.pos(), 8);
    assert_eq!(b.read_labels(), Ok(vec![(9, 1), (5, 2)]));
    assert_eq!(b.pos(), 12);
    b.seek(7);
    assert_eq!(b.read_labels(), Ok(vec![]));
    assert_eq!(b.pos(), 8);
}

#[test]
fn label_past_the_end_is_refused() {
    let mut b = BytePacketBuffer::new();
    b.buffer[508] = 5;
    b.seek(508);
    assert_eq!(b.read_labels(), Err(PacketError::EndOfBuffer));
    assert_eq!(b.read_query_name(), Err(PacketError::EndOfBuffer));
}

#[test]
fn invalid_utf8_in_label_is_replaced() {
    let mut b = buffer_with(&[2, 0xFF, b'Q', 0]);
    assert_eq!(b.read_query_name(), Ok("\u{FFFD}q".to_string()));
    assert_eq!(b.pos(), 4);
}
