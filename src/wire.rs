//! IPv4 and TCP headers: their wire format, parsing and serialization.
use vstd::prelude::*;
use crate::bytes::{
    be16, be32, checksum, internet_checksum, lemma_be16_bytes, lemma_be32_bytes,
    lemma_checksum_field_sums_to_all_ones, ones_total, push_range, push_u16, push_u32, read_u16_at,
    read_u32_at, u16_bytes, u32_bytes,
};

verus! {

/// The IPv4 protocol number of TCP.
pub const PROTOCOL_TCP: u8 = 6;

/// TCP flag bits, as they stand in the flags byte.
pub const FLAG_FIN: u8 = 0x01;
pub const FLAG_SYN: u8 = 0x02;
pub const FLAG_RST: u8 = 0x04;
pub const FLAG_PSH: u8 = 0x08;
pub const FLAG_ACK: u8 = 0x10;

/// The IPv4 header fields that a frame carries besides those derived from
/// lengths (version, header length, total length), the protocol (always TCP
/// here) and the checksum (always recomputed).
#[derive(Clone, Debug)]
pub struct Ipv4Header {
    pub tos: u8,
    pub identification: u16,
    pub flags_fragment: u16,
    pub ttl: u8,
    pub source: u32,
    pub destination: u32,
    pub options: Vec<u8>,
}

/// The TCP header fields besides the data offset (derived from the options'
/// length) and the checksum (always recomputed).
#[derive(Clone, Debug)]
pub struct TcpHeader {
    pub source_port: u16,
    pub destination_port: u16,
    pub sequence_number: u32,
    pub acknowledgment_number: u32,
    /// The four bits between the data offset and the flags byte.
    pub reserved: u8,
    pub flags: u8,
    pub window_size: u16,
    pub urgent_pointer: u16,
    pub options: Vec<u8>,
}

/// One IPv4 frame holding one TCP segment.
#[derive(Clone, Debug)]
pub struct Segment {
    pub ip: Ipv4Header,
    pub tcp: TcpHeader,
    pub payload: Vec<u8>,
}

/// Why a frame yields no TCP segment.
#[derive(Clone, Copy, Debug, PartialEq, Eq)]
pub enum ParseError {
    /// Too short, inconsistent lengths, wrong version or a checksum mismatch.
    MalformedPacket,
    /// A well-formed IPv4 packet that carries another protocol.
    NotTcp,
}

/// Header options: whole 32-bit words, at most ten of them.
pub open spec fn options_ok(o: Seq<u8>) -> bool {
    o.len() % 4 == 0 && o.len() <= 40
}

impl TcpHeader {
    pub open spec fn has_flag(&self, flag: u8) -> bool {
        self.flags & flag != 0
    }

    pub open spec fn header_len(&self) -> nat {
        20 + self.options@.len()
    }

    pub fn syn(&self) -> (r: bool)
        ensures
            r == self.has_flag(FLAG_SYN),
    {
        self.flags & FLAG_SYN != 0
    }

    pub fn ack(&self) -> (r: bool)
        ensures
            r == self.has_flag(FLAG_ACK),
    {
        self.flags & FLAG_ACK != 0
    }
}

impl Segment {
    pub open spec fn ip_header_len(&self) -> nat {
        20 + self.ip.options@.len()
    }

    pub open spec fn tcp_len(&self) -> nat {
        self.tcp.header_len() + self.payload@.len()
    }

    pub open spec fn total_len(&self) -> nat {
        self.ip_header_len() + self.tcp_len()
    }

    /// The segment can be written as a frame.
    pub open spec fn wf(&self) -> bool {
        &&& options_ok(self.ip.options@)
        &&& options_ok(self.tcp.options@)
        &&& self.tcp.reserved < 16
        &&& self.total_len() <= 0xFFFF
    }
}

/// The IPv4 header as bytes, for a given total length and checksum field.
#[verifier::opaque]
pub open spec fn ip_header_bytes(h: Ipv4Header, total: int, csum: int) -> Seq<u8> {
    seq![(64 + (20 + h.options@.len()) / 4) as u8, h.tos] + u16_bytes(total) + u16_bytes(
        h.identification as int,
    ) + u16_bytes(h.flags_fragment as int) + seq![h.ttl, PROTOCOL_TCP] + u16_bytes(csum)
        + u32_bytes(h.source as int) + u32_bytes(h.destination as int) + h.options@
}

/// The TCP header as bytes, for a given checksum field.
#[verifier::opaque]
pub open spec fn tcp_header_bytes(t: TcpHeader, csum: int) -> Seq<u8> {
    u16_bytes(t.source_port as int) + u16_bytes(t.destination_port as int) + u32_bytes(
        t.sequence_number as int,
    ) + u32_bytes(t.acknowledgment_number as int) + seq![
        ((20 + t.options@.len()) / 4 * 16 + t.reserved) as u8,
        t.flags,
    ] + u16_bytes(t.window_size as int) + u16_bytes(csum) + u16_bytes(t.urgent_pointer as int)
        + t.options@
}

/// The pseudo-header that the TCP checksum covers besides the segment.
#[verifier::opaque]
pub open spec fn pseudo_header(source: int, destination: int, tcp_len: int) -> Seq<u8> {
    u32_bytes(source) + u32_bytes(destination) + seq![0u8, PROTOCOL_TCP] + u16_bytes(tcp_len)
}

pub open spec fn ip_checksum_of(s: Segment) -> int {
    internet_checksum(ip_header_bytes(s.ip, s.total_len() as int, 0))
}

pub open spec fn tcp_checksum_of(s: Segment) -> int {
    internet_checksum(
        pseudo_header(s.ip.source as int, s.ip.destination as int, s.tcp_len() as int)
            + tcp_header_bytes(s.tcp, 0) + s.payload@,
    )
}

/// The frame that carries `s`, with both checksums computed.
pub open spec fn frame_bytes(s: Segment) -> Seq<u8> {
    ip_header_bytes(s.ip, s.total_len() as int, ip_checksum_of(s)) + tcp_header_bytes(
        s.tcp,
        tcp_checksum_of(s),
    ) + s.payload@
}

/// `b` with the 16-bit field at `i` set to zero.
pub open spec fn zero_field(b: Seq<u8>, i: int) -> Seq<u8> {
    b.update(i, 0u8).update(i + 1, 0u8)
}

/// IPv4 header length in bytes, as the frame states it.
pub open spec fn frame_ihl(f: Seq<u8>) -> int {
    (f[0] % 16) as int * 4
}

/// The frame's total length field.
pub open spec fn frame_total(f: Seq<u8>) -> int {
    be16(f, 2)
}

/// A well-formed IPv4 header, whatever protocol it carries.
pub open spec fn ip_valid(f: Seq<u8>) -> bool {
    &&& f.len() >= 20
    &&& f[0] / 16 == 4
    &&& f[0] % 16 >= 5
    &&& frame_ihl(f) <= frame_total(f) <= f.len()
    &&& be16(f, 10) == internet_checksum(zero_field(f.subrange(0, frame_ihl(f)), 10))
}

/// TCP data offset in bytes, as the frame states it.
pub open spec fn frame_doff(f: Seq<u8>) -> int {
    (f[frame_ihl(f) + 12] / 16) as int * 4
}

/// The TCP header that starts at `ihl` is well formed and its checksum
/// matches, for a packet of `total` bytes.
pub open spec fn tcp_part_valid(f: Seq<u8>, ihl: int, total: int) -> bool {
    &&& ihl + 20 <= total
    &&& (f[ihl + 12] / 16) as int * 4 >= 20
    &&& ihl + (f[ihl + 12] / 16) as int * 4 <= total
    &&& be16(f, ihl + 16) == internet_checksum(
        pseudo_header(be32(f, 12), be32(f, 16), total - ihl) + zero_field(
            f.subrange(ihl, total),
            16,
        ),
    )
}

/// A well-formed IPv4 header carrying a well-formed TCP segment.
pub open spec fn tcp_valid(f: Seq<u8>) -> bool {
    &&& ip_valid(f)
    &&& f[9] == PROTOCOL_TCP
    &&& tcp_part_valid(f, frame_ihl(f), frame_total(f))
}

/// Appends the IPv4 header of `h` with the given total length and checksum field.
fn push_ip_header(out: &mut Vec<u8>, h: &Ipv4Header, total: u16, csum: u16)
    requires
        options_ok(h.options@),
    ensures
        final(out)@ == old(out)@ + ip_header_bytes(*h, total as int, csum as int),
{
    let ihl = (20 + h.options.len()) / 4;
    out.push((64 + ihl) as u8);
    out.push(h.tos);
    push_u16(out, total);
    push_u16(out, h.identification);
    push_u16(out, h.flags_fragment);
    out.push(h.ttl);
    out.push(PROTOCOL_TCP);
    push_u16(out, csum);
    push_u32(out, h.source);
    push_u32(out, h.destination);
    push_range(out, h.options.as_slice(), 0, h.options.len());
    assert(h.options@.subrange(0, h.options@.len() as int) =~= h.options@);
    proof {
        reveal(ip_header_bytes);
    }
    assert(final(out)@ =~= old(out)@ + ip_header_bytes(*h, total as int, csum as int));
}

/// Appends the TCP header of `t` with the given checksum field.
fn push_tcp_header(out: &mut Vec<u8>, t: &TcpHeader, csum: u16)
    requires
        options_ok(t.options@),
        t.reserved < 16,
    ensures
        final(out)@ == old(out)@ + tcp_header_bytes(*t, csum as int),
{
    let doff = (20 + t.options.len()) / 4;
    push_u16(out, t.source_port);
    push_u16(out, t.destination_port);
    push_u32(out, t.sequence_number);
    push_u32(out, t.acknowledgment_number);
    out.push((doff * 16 + t.reserved as usize) as u8);
    out.push(t.flags);
    push_u16(out, t.window_size);
    push_u16(out, csum);
    push_u16(out, t.urgent_pointer);
    push_range(out, t.options.as_slice(), 0, t.options.len());
    assert(t.options@.subrange(0, t.options@.len() as int) =~= t.options@);
    proof {
        reveal(tcp_header_bytes);
    }
    assert(final(out)@ =~= old(out)@ + tcp_header_bytes(*t, csum as int));
}

/// Appends the TCP pseudo-header.
fn push_pseudo_header(out: &mut Vec<u8>, source: u32, destination: u32, tcp_len: u16)
    ensures
        final(out)@ == old(out)@ + pseudo_header(source as int, destination as int, tcp_len as int),
{
    push_u32(out, source);
    push_u32(out, destination);
    out.push(0u8);
    out.push(PROTOCOL_TCP);
    push_u16(out, tcp_len);
    proof {
        reveal(pseudo_header);
    }
    assert(final(out)@ =~= old(out)@ + pseudo_header(
        source as int,
        destination as int,
        tcp_len as int,
    ));
}

/// Writes a segment as a frame, computing both checksums.
pub fn serialize(s: &Segment) -> (r: Vec<u8>)
    requires
        s.wf(),
    ensures
        r@ == frame_bytes(*s),
{
    let tcp_len = (20 + s.tcp.options.len() + s.payload.len()) as u16;
    let total = (20 + s.ip.options.len() + tcp_len as usize) as u16;

    let mut ip_zero: Vec<u8> = Vec::new();
    push_ip_header(&mut ip_zero, &s.ip, total, 0);
    assert(ip_zero@ =~= ip_header_bytes(s.ip, total as int, 0));
    let ip_csum = checksum(ip_zero.as_slice());

    let mut covered: Vec<u8> = Vec::new();
    push_pseudo_header(&mut covered, s.ip.source, s.ip.destination, tcp_len);
    push_tcp_header(&mut covered, &s.tcp, 0);
    push_range(&mut covered, s.payload.as_slice(), 0, s.payload.len());
    assert(s.payload@.subrange(0, s.payload@.len() as int) =~= s.payload@);
    assert(covered@ =~= pseudo_header(s.ip.source as int, s.ip.destination as int, tcp_len as int)
        + tcp_header_bytes(s.tcp, 0) + s.payload@);
    let tcp_csum = checksum(covered.as_slice());

    let mut out: Vec<u8> = Vec::new();
    push_ip_header(&mut out, &s.ip, total, ip_csum);
    push_tcp_header(&mut out, &s.tcp, tcp_csum);
    push_range(&mut out, s.payload.as_slice(), 0, s.payload.len());
    assert(out@ =~= frame_bytes(*s));
    out
}

proof fn lemma_zero_ip_checksum(h: Ipv4Header, total: int, csum: int)
    ensures
        zero_field(ip_header_bytes(h, total, csum), 10) =~= ip_header_bytes(h, total, 0),
{
    reveal(ip_header_bytes);
}

proof fn lemma_zero_tcp_checksum(t: TcpHeader, csum: int, payload: Seq<u8>)
    ensures
        zero_field(tcp_header_bytes(t, csum) + payload, 16) =~= tcp_header_bytes(t, 0) + payload,
{
    reveal(tcp_header_bytes);
}

proof fn lemma_ip_header_matches(f: Seq<u8>, h: Ipv4Header, csum: int)
    requires
        f.len() >= 20,
        f[0] / 16 == 4,
        f[0] % 16 >= 5,
        frame_ihl(f) <= f.len(),
        h.tos == f[1],
        h.identification == be16(f, 4),
        h.flags_fragment == be16(f, 6),
        h.ttl == f[8],
        f[9] == PROTOCOL_TCP,
        csum == be16(f, 10),
        h.source == be32(f, 12),
        h.destination == be32(f, 16),
        h.options@ == f.subrange(20, frame_ihl(f)),
    ensures
        ip_header_bytes(h, frame_total(f), csum) == f.subrange(0, frame_ihl(f)),
{
    reveal(ip_header_bytes);
    lemma_be16_bytes(f, 2);
    lemma_be16_bytes(f, 4);
    lemma_be16_bytes(f, 6);
    lemma_be16_bytes(f, 10);
    lemma_be32_bytes(f, 12);
    lemma_be32_bytes(f, 16);
    let fixed = seq![(64 + (20 + h.options@.len()) / 4) as u8, h.tos] + u16_bytes(frame_total(f))
        + u16_bytes(h.identification as int) + u16_bytes(h.flags_fragment as int) + seq![
        h.ttl,
        PROTOCOL_TCP,
    ] + u16_bytes(csum) + u32_bytes(h.source as int) + u32_bytes(h.destination as int);
    assert(fixed =~= f.subrange(0, 20));
    assert(f.subrange(0, frame_ihl(f)) =~= f.subrange(0, 20) + f.subrange(20, frame_ihl(f)));
}

proof fn lemma_tcp_header_matches(f: Seq<u8>, i: int, t: TcpHeader, csum: int)
    requires
        0 <= i,
        i + 20 <= f.len(),
        i + (f[i + 12] / 16) as int * 4 <= f.len(),
        (f[i + 12] / 16) >= 5,
        t.source_port == be16(f, i),
        t.destination_port == be16(f, i + 2),
        t.sequence_number == be32(f, i + 4),
        t.acknowledgment_number == be32(f, i + 8),
        t.reserved == f[i + 12] % 16,
        t.flags == f[i + 13],
        t.window_size == be16(f, i + 14),
        csum == be16(f, i + 16),
        t.urgent_pointer == be16(f, i + 18),
        t.options@ == f.subrange(i + 20, i + (f[i + 12] / 16) as int * 4),
    ensures
        tcp_header_bytes(t, csum) == f.subrange(i, i + (f[i + 12] / 16) as int * 4),
{
    reveal(tcp_header_bytes);
    let doff = (f[i + 12] / 16) as int * 4;
    lemma_be16_bytes(f, i);
    lemma_be16_bytes(f, i + 2);
    lemma_be32_bytes(f, i + 4);
    lemma_be32_bytes(f, i + 8);
    lemma_be16_bytes(f, i + 14);
    lemma_be16_bytes(f, i + 16);
    lemma_be16_bytes(f, i + 18);
    let fixed = u16_bytes(t.source_port as int) + u16_bytes(t.destination_port as int) + u32_bytes(
        t.sequence_number as int,
    ) + u32_bytes(t.acknowledgment_number as int) + seq![
        ((20 + t.options@.len()) / 4 * 16 + t.reserved) as u8,
        t.flags,
    ] + u16_bytes(t.window_size as int) + u16_bytes(csum) + u16_bytes(t.urgent_pointer as int);
    assert(fixed =~= f.subrange(i, i + 20));
    assert(f.subrange(i, i + doff) =~= f.subrange(i, i + 20) + f.subrange(i + 20, i + doff));
}

/// The IPv4 header fields that etherparse reads from the front of a frame.
pub struct IpFields {
    /// Header length, in 32-bit words.
    pub ihl: u8,
    pub total_len: u16,
    pub identification: u16,
    pub ttl: u8,
    pub protocol: u8,
    pub source: u32,
    pub destination: u32,
    pub options: Vec<u8>,
}

/// The TCP header fields that etherparse reads.
pub struct TcpFields {
    /// Header length, in 32-bit words.
    pub data_offset: u8,
    pub source_port: u16,
    pub destination_port: u16,
    pub sequence_number: u32,
    pub acknowledgment_number: u32,
    pub window_size: u16,
    pub urgent_pointer: u16,
    pub options: Vec<u8>,
}

/// Relies on etherparse's `Ipv4HeaderSlice::from_slice`: it accepts a slice of
/// at least 20 bytes whose first byte holds version 4 and a header length of
/// at least 5 words that the slice covers; its getters read each field at its
/// offset, big-endian, and the options from byte 20 to the header's end.
#[verifier::external_body]
fn ipv4_header_slice(frame: &[u8]) -> (r: Option<IpFields>)
    ensures
        r is Some <==> (frame@.len() >= 20 && frame@[0] / 16 == 4 && frame@[0] % 16 >= 5
            && frame_ihl(frame@) <= frame@.len()),
        r matches Some(h) ==> {
            &&& h.ihl == frame@[0] % 16
            &&& h.total_len == be16(frame@, 2)
            &&& h.identification == be16(frame@, 4)
            &&& h.ttl == frame@[8]
            &&& h.protocol == frame@[9]
            &&& h.source == be32(frame@, 12)
            &&& h.destination == be32(frame@, 16)
            &&& h.options@ == frame@.subrange(20, frame_ihl(frame@))
        },
{
    match etherparse::Ipv4HeaderSlice::from_slice(frame) {
        Ok(h) => Some(IpFields {
            ihl: h.ihl(),
            total_len: h.total_len(),
            identification: h.identification(),
            ttl: h.ttl(),
            protocol: h.protocol().0,
            source: u32::from_be_bytes(h.source()),
            destination: u32::from_be_bytes(h.destination()),
            options: h.options().to_vec(),
        }),
        Err(_) => None,
    }
}

/// Relies on etherparse's `TcpHeaderSlice::from_slice`, on `frame[start..end]`:
/// it accepts at least 20 bytes whose data offset (top four bits of byte 12)
/// gives a header of at least 20 bytes that the slice covers; its getters read
/// each field at its offset, big-endian, and the options from byte 20 to the
/// header's end.
#[verifier::external_body]
fn tcp_header_slice(frame: &[u8], start: usize, end: usize) -> (r: Option<TcpFields>)
    requires
        start <= end <= frame@.len(),
    ensures
        r is Some <==> (end - start >= 20 && frame@[start + 12] / 16 >= 5
            && (frame@[start + 12] / 16) as int * 4 <= end - start),
        r matches Some(t) ==> {
            &&& t.data_offset == frame@[start + 12] / 16
            &&& t.source_port == be16(frame@, start as int)
            &&& t.destination_port == be16(frame@, start + 2)
            &&& t.sequence_number == be32(frame@, start + 4)
            &&& t.acknowledgment_number == be32(frame@, start + 8)
            &&& t.window_size == be16(frame@, start + 14)
            &&& t.urgent_pointer == be16(frame@, start + 18)
            &&& t.options@ == frame@.subrange(start + 20, start + t.data_offset as int * 4)
        },
{
    match etherparse::TcpHeaderSlice::from_slice(&frame[start..end]) {
        Ok(t) => Some(TcpFields {
            data_offset: t.data_offset(),
            source_port: t.source_port(),
            destination_port: t.destination_port(),
            sequence_number: t.sequence_number(),
            acknowledgment_number: t.acknowledgment_number(),
            window_size: t.window_size(),
            urgent_pointer: t.urgent_pointer(),
            options: t.options().to_vec(),
        }),
        Err(_) => None,
    }
}

/// Checks the IPv4 header of a frame, checksum included; on success returns
/// its fields.
fn check_ip_header(frame: &[u8]) -> (r: Result<IpFields, ParseError>)
    ensures
        r is Ok <==> ip_valid(frame@) && frame@[9] == PROTOCOL_TCP,
        r matches Err(ParseError::NotTcp) <==> ip_valid(frame@) && frame@[9] != PROTOCOL_TCP,
        r matches Ok(h) ==> {
            &&& h.ihl as int * 4 == frame_ihl(frame@)
            &&& h.total_len == frame_total(frame@)
            &&& h.identification == be16(frame@, 4)
            &&& h.ttl == frame@[8]
            &&& h.source == be32(frame@, 12)
            &&& h.destination == be32(frame@, 16)
            &&& h.options@ == frame@.subrange(20, frame_ihl(frame@))
        },
{
    let ghost f = frame@;
    let h = match ipv4_header_slice(frame) {
        Some(h) => h,
        None => {
            return Err(ParseError::MalformedPacket);
        },
    };
    let ihl: usize = h.ihl as usize * 4;
    let total: usize = h.total_len as usize;
    if total < ihl || total > frame.len() {
        return Err(ParseError::MalformedPacket);
    }
    let mut ip_zero: Vec<u8> = Vec::new();
    push_range(&mut ip_zero, frame, 0, 10);
    ip_zero.push(0u8);
    ip_zero.push(0u8);
    push_range(&mut ip_zero, frame, 12, ihl);
    assert(ip_zero@ =~= zero_field(f.subrange(0, ihl as int), 10));
    if checksum(ip_zero.as_slice()) != read_u16_at(frame, 10) {
        return Err(ParseError::MalformedPacket);
    }
    if h.protocol != PROTOCOL_TCP {
        return Err(ParseError::NotTcp);
    }
    Ok(h)
}

/// Checks the TCP header that starts at `ihl` in a packet of `total` bytes,
/// checksum included; on success returns its fields.
fn check_tcp_header(frame: &[u8], ihl: usize, total: usize) -> (r: Option<TcpFields>)
    requires
        20 <= ihl <= total <= frame@.len(),
        total <= 0xFFFF,
    ensures
        r is Some <==> tcp_part_valid(frame@, ihl as int, total as int),
        r matches Some(t) ==> {
            &&& t.data_offset as int * 4 == (frame@[ihl + 12] / 16) as int * 4
            &&& t.source_port == be16(frame@, ihl as int)
            &&& t.destination_port == be16(frame@, ihl + 2)
            &&& t.sequence_number == be32(frame@, ihl + 4)
            &&& t.acknowledgment_number == be32(frame@, ihl + 8)
            &&& t.window_size == be16(frame@, ihl + 14)
            &&& t.urgent_pointer == be16(frame@, ihl + 18)
            &&& t.options@ == frame@.subrange(ihl + 20, ihl + t.data_offset as int * 4)
        },
{
    let ghost f = frame@;
    let t = match tcp_header_slice(frame, ihl, total) {
        Some(t) => t,
        None => {
            return None;
        },
    };
    let source = read_u32_at(frame, 12);
    let destination = read_u32_at(frame, 16);
    let mut tcp_zero: Vec<u8> = Vec::new();
    push_range(&mut tcp_zero, frame, ihl, ihl + 16);
    tcp_zero.push(0u8);
    tcp_zero.push(0u8);
    push_range(&mut tcp_zero, frame, ihl + 18, total);
    assert(tcp_zero@ =~= zero_field(f.subrange(ihl as int, total as int), 16));
    let mut covered: Vec<u8> = Vec::new();
    push_pseudo_header(&mut covered, source, destination, (total - ihl) as u16);
    push_range(&mut covered, tcp_zero.as_slice(), 0, tcp_zero.len());
    assert(tcp_zero@.subrange(0, tcp_zero@.len() as int) =~= tcp_zero@);
    assert(covered@ == pseudo_header(be32(f, 12), be32(f, 16), total - ihl) + zero_field(
        f.subrange(ihl as int, total as int),
        16,
    ));
    if checksum(covered.as_slice()) != read_u16_at(frame, ihl + 16) {
        return None;
    }
    Some(t)
}

/// The segment read field by field from a valid frame writes back as that frame.
proof fn lemma_frame_of_parsed(f: Seq<u8>, seg: Segment, ip_csum: int, tcp_csum: int)
    requires
        tcp_valid(f),
        ({
            let t = frame_ihl(f);
            let d = frame_doff(f);
            &&& seg.ip.tos == f[1]
            &&& seg.ip.identification == be16(f, 4)
            &&& seg.ip.flags_fragment == be16(f, 6)
            &&& seg.ip.ttl == f[8]
            &&& ip_csum == be16(f, 10)
            &&& seg.ip.source == be32(f, 12)
            &&& seg.ip.destination == be32(f, 16)
            &&& seg.ip.options@ == f.subrange(20, t)
            &&& seg.tcp.source_port == be16(f, t)
            &&& seg.tcp.destination_port == be16(f, t + 2)
            &&& seg.tcp.sequence_number == be32(f, t + 4)
            &&& seg.tcp.acknowledgment_number == be32(f, t + 8)
            &&& seg.tcp.reserved == f[t + 12] % 16
            &&& seg.tcp.flags == f[t + 13]
            &&& seg.tcp.window_size == be16(f, t + 14)
            &&& tcp_csum == be16(f, t + 16)
            &&& seg.tcp.urgent_pointer == be16(f, t + 18)
            &&& seg.tcp.options@ == f.subrange(t + 20, t + d)
            &&& seg.payload@ == f.subrange(t + d, frame_total(f))
        }),
    ensures
        seg.wf(),
        frame_bytes(seg) == f.subrange(0, frame_total(f)),
{
    let t = frame_ihl(f);
    let d = frame_doff(f);
    let n = frame_total(f);
    lemma_be16_bytes(f, 2);
    assert(seg.total_len() == n);
    lemma_ip_header_matches(f, seg.ip, ip_csum);
    lemma_zero_ip_checksum(seg.ip, n, ip_csum);
    assert(ip_checksum_of(seg) == ip_csum);
    lemma_tcp_header_matches(f, t, seg.tcp, tcp_csum);
    let tcph = tcp_header_bytes(seg.tcp, tcp_csum);
    assert(f.subrange(t, n) =~= tcph + seg.payload@);
    lemma_zero_tcp_checksum(seg.tcp, tcp_csum, seg.payload@);
    let ph = pseudo_header(seg.ip.source as int, seg.ip.destination as int, n - t);
    assert(ph + zero_field(f.subrange(t, n), 16) =~= ph + tcp_header_bytes(seg.tcp, 0)
        + seg.payload@);
    assert(tcp_checksum_of(seg) == tcp_csum);
    assert(f.subrange(0, n) =~= f.subrange(0, t) + f.subrange(t, n));
    assert(frame_bytes(seg) =~= f.subrange(0, n));
}

/// Reads a frame: the IPv4 header, the TCP header and the payload, checking
/// lengths and both checksums. The segment returned is the one whose frame
/// is the input up to its total length.
#[verifier::rlimit(30)]
pub fn parse(frame: &[u8]) -> (r: Result<Segment, ParseError>)
    ensures
        r is Ok <==> tcp_valid(frame@),
        r matches Err(ParseError::NotTcp) <==> ip_valid(frame@) && frame@[9] != PROTOCOL_TCP,
        r matches Ok(s) ==> s.wf() && frame_bytes(s) == frame@.subrange(0, frame_total(frame@)),
{
    let ghost f = frame@;
    let h = match check_ip_header(frame) {
        Ok(h) => h,
        Err(e) => {
            return Err(e);
        },
    };
    let ihl: usize = h.ihl as usize * 4;
    let total: usize = h.total_len as usize;
    let t = match check_tcp_header(frame, ihl, total) {
        Some(t) => t,
        None => {
            return Err(ParseError::MalformedPacket);
        },
    };
    let doff: usize = t.data_offset as usize * 4;
    let mut payload: Vec<u8> = Vec::new();
    push_range(&mut payload, frame, ihl + doff, total);
    let ip = Ipv4Header {
        tos: frame[1],
        identification: h.identification,
        flags_fragment: read_u16_at(frame, 6),
        ttl: h.ttl,
        source: h.source,
        destination: h.destination,
        options: h.options,
    };
    let tcp = TcpHeader {
        source_port: t.source_port,
        destination_port: t.destination_port,
        sequence_number: t.sequence_number,
        acknowledgment_number: t.acknowledgment_number,
        reserved: frame[ihl + 12] % 16,
        flags: frame[ihl + 13],
        window_size: t.window_size,
        urgent_pointer: t.urgent_pointer,
        options: t.options,
    };
    let seg = Segment { ip, tcp, payload };
    proof {
        lemma_frame_of_parsed(f, seg, be16(f, 10), be16(f, ihl + 16));
    }
    Ok(seg)
}

proof fn lemma_ip_header_fields(h: Ipv4Header, total: int, csum: int)
    requires
        options_ok(h.options@),
        0 <= total < 0x1_0000,
        0 <= csum < 0x1_0000,
    ensures
        ({
            let a = ip_header_bytes(h, total, csum);
            &&& a.len() == 20 + h.options@.len()
            &&& a[0] / 16 == 4
            &&& (a[0] % 16) as int * 4 == a.len()
            &&& a[1] == h.tos
            &&& be16(a, 2) == total
            &&& be16(a, 4) == h.identification
            &&& be16(a, 6) == h.flags_fragment
            &&& a[8] == h.ttl
            &&& a[9] == PROTOCOL_TCP
            &&& be16(a, 10) == csum
            &&& be32(a, 12) == h.source
            &&& be32(a, 16) == h.destination
            &&& a.subrange(20, a.len() as int) == h.options@
        }),
{
    reveal(ip_header_bytes);
    let a = ip_header_bytes(h, total, csum);
    assert(a.subrange(20, a.len() as int) =~= h.options@);
}

proof fn lemma_tcp_header_fields(t: TcpHeader, csum: int)
    requires
        options_ok(t.options@),
        t.reserved < 16,
        0 <= csum < 0x1_0000,
    ensures
        ({
            let b = tcp_header_bytes(t, csum);
            &&& b.len() == 20 + t.options@.len()
            &&& (b[12] / 16) as int * 4 == b.len()
            &&& be16(b, 0) == t.source_port
            &&& be16(b, 2) == t.destination_port
            &&& be32(b, 4) == t.sequence_number
            &&& be32(b, 8) == t.acknowledgment_number
            &&& b[12] % 16 == t.reserved
            &&& b[13] == t.flags
            &&& be16(b, 14) == t.window_size
            &&& be16(b, 16) == csum
            &&& be16(b, 18) == t.urgent_pointer
            &&& b.subrange(20, b.len() as int) == t.options@
        }),
{
    reveal(tcp_header_bytes);
    let b = tcp_header_bytes(t, csum);
    assert(b.subrange(20, b.len() as int) =~= t.options@);
}

/// Each field of a well-formed segment, read back from the frame written for it.
proof fn lemma_fields_of_frame(s: Segment)
    requires
        s.wf(),
    ensures
        ({
            let f = frame_bytes(s);
            let t = frame_ihl(f);
            let d = frame_doff(f);
            &&& f.len() >= 40
            &&& f[0] / 16 == 4
            &&& t == s.ip_header_len()
            &&& d == s.tcp.header_len()
            &&& frame_total(f) == f.len() == s.total_len()
            &&& f[9] == PROTOCOL_TCP
            &&& s.ip.tos == f[1]
            &&& s.ip.identification == be16(f, 4)
            &&& s.ip.flags_fragment == be16(f, 6)
            &&& s.ip.ttl == f[8]
            &&& ip_checksum_of(s) == be16(f, 10)
            &&& s.ip.source == be32(f, 12)
            &&& s.ip.destination == be32(f, 16)
            &&& s.ip.options@ == f.subrange(20, t)
            &&& s.tcp.source_port == be16(f, t)
            &&& s.tcp.destination_port == be16(f, t + 2)
            &&& s.tcp.sequence_number == be32(f, t + 4)
            &&& s.tcp.acknowledgment_number == be32(f, t + 8)
            &&& s.tcp.reserved == f[t + 12] % 16
            &&& s.tcp.flags == f[t + 13]
            &&& s.tcp.window_size == be16(f, t + 14)
            &&& tcp_checksum_of(s) == be16(f, t + 16)
            &&& s.tcp.urgent_pointer == be16(f, t + 18)
            &&& s.tcp.options@ == f.subrange(t + 20, t + d)
            &&& s.payload@ == f.subrange(t + d, frame_total(f))
            &&& f.subrange(0, t) == ip_header_bytes(s.ip, s.total_len() as int, ip_checksum_of(s))
            &&& f.subrange(t, f.len() as int) == tcp_header_bytes(s.tcp, tcp_checksum_of(s)) + s.payload@
        }),
{
    let f = frame_bytes(s);
    let n = s.total_len() as int;
    let ipc = ip_checksum_of(s);
    let tcc = tcp_checksum_of(s);
    reveal(internet_checksum);
    crate::bytes::lemma_ones_sum_bounded(ip_header_bytes(s.ip, n, 0), ((ip_header_bytes(s.ip, n, 0).len() + 1) / 2) as nat);
    crate::bytes::lemma_ones_sum_bounded(
        pseudo_header(s.ip.source as int, s.ip.destination as int, s.tcp_len() as int)
            + tcp_header_bytes(s.tcp, 0) + s.payload@,
        ((pseudo_header(s.ip.source as int, s.ip.destination as int, s.tcp_len() as int)
            + tcp_header_bytes(s.tcp, 0) + s.payload@).len() + 1) as nat / 2,
    );
    let a = ip_header_bytes(s.ip, n, ipc);
    let b = tcp_header_bytes(s.tcp, tcc);
    lemma_ip_header_fields(s.ip, n, ipc);
    lemma_tcp_header_fields(s.tcp, tcc);
    let t = a.len() as int;
    let d = b.len() as int;
    assert(f.subrange(0, t) =~= a);
    assert(f.subrange(t, f.len() as int) =~= b + s.payload@);
    assert(f.subrange(t, t + d) =~= b);
    assert forall|k: int| 0 <= k < t implies f[k] == a[k] by {}
    assert forall|k: int| 0 <= k < d implies f[t + k] == b[k] by {}
    assert(s.ip.options@ =~= f.subrange(20, t));
    assert(s.tcp.options@ =~= f.subrange(t + 20, t + d));
    assert(s.payload@ =~= f.subrange(t + d, n));
}

/// A segment and the frame written for it determine each other: the frame
/// passes every check of parsing, both checksums included, its total length
/// is its length, and no other well-formed segment is written as the same
/// frame. With the contracts of `parse` and `serialize`, parsing a frame and
/// writing the result back gives the frame byte for byte, and parsing a written
/// frame gives back the segment.
pub proof fn lemma_round_trip(s: Segment, p: Segment)
    requires
        s.wf(),
        p.wf(),
        frame_bytes(p) == frame_bytes(s),
    ensures
        tcp_valid(frame_bytes(s)),
        frame_total(frame_bytes(s)) == frame_bytes(s).len(),
        same_segment(p, s),
{
    let f = frame_bytes(s);
    let n = s.total_len() as int;
    lemma_fields_of_frame(s);
    lemma_fields_of_frame(p);
    let t = frame_ihl(f);
    lemma_zero_ip_checksum(s.ip, n, ip_checksum_of(s));
    lemma_zero_tcp_checksum(s.tcp, tcp_checksum_of(s), s.payload@);
    let ph = pseudo_header(s.ip.source as int, s.ip.destination as int, n - t);
    assert(ph + zero_field(f.subrange(t, n), 16) =~= ph + tcp_header_bytes(s.tcp, 0) + s.payload@);
}

/// Two segments with the same fields, options and payload.
pub open spec fn same_segment(a: Segment, b: Segment) -> bool {
    &&& a.ip.tos == b.ip.tos
    &&& a.ip.identification == b.ip.identification
    &&& a.ip.flags_fragment == b.ip.flags_fragment
    &&& a.ip.ttl == b.ip.ttl
    &&& a.ip.source == b.ip.source
    &&& a.ip.destination == b.ip.destination
    &&& a.ip.options@ == b.ip.options@
    &&& a.tcp.source_port == b.tcp.source_port
    &&& a.tcp.destination_port == b.tcp.destination_port
    &&& a.tcp.sequence_number == b.tcp.sequence_number
    &&& a.tcp.acknowledgment_number == b.tcp.acknowledgment_number
    &&& a.tcp.reserved == b.tcp.reserved
    &&& a.tcp.flags == b.tcp.flags
    &&& a.tcp.window_size == b.tcp.window_size
    &&& a.tcp.urgent_pointer == b.tcp.urgent_pointer
    &&& a.tcp.options@ == b.tcp.options@
    &&& a.payload@ == b.payload@
}

proof fn lemma_ip_checksum_field(h: Ipv4Header, total: int, c: int)
    ensures
        ip_header_bytes(h, total, c) =~= ip_header_bytes(h, total, 0).update(10, (c / 256) as u8).update(
            11,
            (c % 256) as u8,
        ),
        ip_header_bytes(h, total, 0)[10] == 0,
        ip_header_bytes(h, total, 0)[11] == 0,
        ip_header_bytes(h, total, 0).len() == 20 + h.options@.len(),
{
    reveal(ip_header_bytes);
}

proof fn lemma_tcp_checksum_field(ph: Seq<u8>, t: TcpHeader, c: int, payload: Seq<u8>)
    requires
        ph.len() == 12,
    ensures
        ph + tcp_header_bytes(t, c) + payload =~= (ph + tcp_header_bytes(t, 0) + payload).update(
            28,
            (c / 256) as u8,
        ).update(29, (c % 256) as u8),
        (ph + tcp_header_bytes(t, 0) + payload)[28] == 0,
        (ph + tcp_header_bytes(t, 0) + payload)[29] == 0,
        (ph + tcp_header_bytes(t, 0) + payload).len() >= 30,
{
    reveal(tcp_header_bytes);
}

/// Both checksums of a written frame pass a receiver's check: the ones'
/// complement sum of the IPv4 header's words, checksum field included, is all
/// ones, and so is that of the pseudo-header followed by the TCP segment.
pub proof fn lemma_written_checksums_sum_to_all_ones(s: Segment)
    requires
        s.wf(),
    ensures
        ones_total(frame_bytes(s).subrange(0, s.ip_header_len() as int)) == 0xFFFF,
        ones_total(
            pseudo_header(s.ip.source as int, s.ip.destination as int, s.tcp_len() as int)
                + frame_bytes(s).subrange(s.ip_header_len() as int, s.total_len() as int),
        ) == 0xFFFF,
{
    let f = frame_bytes(s);
    let t = s.ip_header_len() as int;
    let n = s.total_len() as int;
    lemma_fields_of_frame(s);
    let ipc = ip_checksum_of(s);
    lemma_ip_checksum_field(s.ip, n, ipc);
    lemma_checksum_field_sums_to_all_ones(ip_header_bytes(s.ip, n, 0), 10);
    let ph = pseudo_header(s.ip.source as int, s.ip.destination as int, s.tcp_len() as int);
    reveal(pseudo_header);
    let tcc = tcp_checksum_of(s);
    lemma_tcp_checksum_field(ph, s.tcp, tcc, s.payload@);
    lemma_checksum_field_sums_to_all_ones(ph + tcp_header_bytes(s.tcp, 0) + s.payload@, 28);
    assert(ph + f.subrange(t, n) =~= ph + tcp_header_bytes(s.tcp, tcc) + s.payload@);
}

} // verus!
