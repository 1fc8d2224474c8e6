//! The per-connection TCP state machine: passive open and the established state.
use vstd::prelude::*;
use crate::seqnum::{is_between_wrapped, seq_add, seq_in_window, seq_lt, seq_plus, wrapping_lt};
use crate::wire::{Ipv4Header, Segment, TcpHeader, FLAG_ACK, FLAG_SYN};

verus! {

/// The window that this end advertises on the connections it accepts.
pub const SEND_WINDOW: u16 = 10;

/// Time to live of the packets this end sends.
pub const REPLY_TTL: u8 = 64;

/// Connection states. `Closed` and `Listen` are never stored: a connection
/// exists only once a SYN has moved it to `SynReceived`.
#[derive(Clone, Copy, Debug, PartialEq, Eq, Structural)]
pub enum State {
    Closed,
    Listen,
    SynReceived,
    Established,
}

/// Send sequence variables.
#[derive(Clone, Copy, Debug, PartialEq, Eq, Structural)]
pub struct SendSequenceSpace {
    /// Oldest unacknowledged sequence number.
    pub una: u32,
    /// Next sequence number to send.
    pub nxt: u32,
    /// Send window.
    pub wnd: u16,
    /// Initial send sequence number.
    pub iss: u32,
}

/// Receive sequence variables.
#[derive(Clone, Copy, Debug, PartialEq, Eq, Structural)]
pub struct ReceiveSequenceSpace {
    /// Next sequence number expected from the peer.
    pub nxt: u32,
    /// Receive window.
    pub wnd: u16,
    /// Initial receive sequence number, from the peer's SYN.
    pub irs: u32,
}

/// One TCP connection.
#[derive(Clone, Copy, Debug, PartialEq, Eq, Structural)]
pub struct Connection {
    pub state: State,
    pub send: SendSequenceSpace,
    pub recv: ReceiveSequenceSpace,
}

/// Why a segment was not taken by a connection.
#[derive(Clone, Copy, Debug, PartialEq, Eq, Structural)]
pub enum SegmentError {
    /// The sequence number lies outside the receive window.
    UnacceptableSegment,
}

/// Length of a segment in sequence space: its payload, plus one for SYN.
pub open spec fn seg_len(t: TcpHeader, payload_len: nat) -> nat {
    payload_len + (if t.has_flag(FLAG_SYN) {
        1nat
    } else {
        0nat
    })
}

/// Segment acceptability, decided by the sequence number: it must lie in
/// the receive window `[nxt, nxt + wnd)`; a zero-length segment is also
/// acceptable at exactly `nxt` (so in a zero window, only there).
pub open spec fn segment_acceptable(nxt: u32, wnd: u16, seq: u32, len: nat) -> bool {
    let end = seq_add(nxt, wnd as int);
    if len == 0 {
        seq == nxt || seq_in_window(nxt, seq, end)
    } else {
        wnd != 0 && seq_in_window(nxt, seq, end)
    }
}

/// The connection that a SYN with sequence number `seq` and window `wnd` opens.
pub open spec fn accepted(iss: u32, seq: u32, wnd: u16) -> Connection {
    Connection {
        state: State::SynReceived,
        send: SendSequenceSpace { una: iss, nxt: seq_add(iss, 1), wnd: SEND_WINDOW, iss },
        recv: ReceiveSequenceSpace { nxt: seq_add(seq, 1), wnd, irs: seq },
    }
}

/// `reply` is the SYN+ACK that answers `syn` with initial sequence number `iss`:
/// addresses and ports swapped, no options and no payload.
pub open spec fn is_syn_ack(reply: Segment, iss: u32, syn: Segment) -> bool {
    &&& reply.ip.source == syn.ip.destination
    &&& reply.ip.destination == syn.ip.source
    &&& reply.ip.tos == 0
    &&& reply.ip.identification == 0
    &&& reply.ip.flags_fragment == 0
    &&& reply.ip.ttl == REPLY_TTL
    &&& reply.ip.options@.len() == 0
    &&& reply.tcp.source_port == syn.tcp.destination_port
    &&& reply.tcp.destination_port == syn.tcp.source_port
    &&& reply.tcp.sequence_number == iss
    &&& reply.tcp.acknowledgment_number == seq_add(syn.tcp.sequence_number, 1)
    &&& reply.tcp.reserved == 0
    &&& reply.tcp.flags == FLAG_SYN | FLAG_ACK
    &&& reply.tcp.window_size == SEND_WINDOW
    &&& reply.tcp.urgent_pointer == 0
    &&& reply.tcp.options@.len() == 0
    &&& reply.payload@.len() == 0
}

/// What a stored connection does with one arriving segment: its next value
/// and the outcome.
pub open spec fn next_connection(c: Connection, t: TcpHeader, payload_len: nat) -> (
    Connection,
    Result<(), SegmentError>,
) {
    let seq = t.sequence_number;
    let ack = t.acknowledgment_number;
    if !segment_acceptable(c.recv.nxt, c.recv.wnd, seq, seg_len(t, payload_len)) {
        (c, Err(SegmentError::UnacceptableSegment))
    } else {
        match c.state {
            State::SynReceived => {
                if t.has_flag(FLAG_ACK) && ack == c.send.nxt {
                    (
                        Connection {
                            state: State::Established,
                            send: SendSequenceSpace { una: ack, ..c.send },
                            ..c
                        },
                        Ok(()),
                    )
                } else {
                    (c, Ok(()))
                }
            },
            State::Established => {
                let c1 = if t.has_flag(FLAG_ACK) && seq_lt(c.send.una, ack) && !seq_lt(
                    c.send.nxt,
                    ack,
                ) {
                    Connection { send: SendSequenceSpace { una: ack, ..c.send }, ..c }
                } else {
                    c
                };
                let c2 = if payload_len > 0 && seq == c.recv.nxt {
                    Connection {
                        recv: ReceiveSequenceSpace {
                            nxt: seq_add(c.recv.nxt, payload_len as int),
                            ..c.recv
                        },
                        ..c1
                    }
                } else {
                    c1
                };
                (c2, Ok(()))
            },
            _ => (c, Ok(())),
        }
    }
}

impl Connection {
    /// A stored connection: synchronising or established, with `una` not
    /// after `nxt` in sequence space.
    pub open spec fn wf(&self) -> bool {
        &&& (self.state == State::SynReceived || self.state == State::Established)
        &&& !seq_lt(self.send.nxt, self.send.una)
    }

    /// Passive open. A segment with SYN set and ACK clear opens a connection in
    /// `SynReceived` with initial send sequence number `iss`, answered by one
    /// SYN+ACK; any other segment is ignored.
    pub fn accept(iss: u32, seg: &Segment) -> (r: Option<(Connection, Segment)>)
        ensures
            r is Some <==> seg.tcp.has_flag(FLAG_SYN) && !seg.tcp.has_flag(FLAG_ACK),
            r matches Some((c, reply)) ==> {
                &&& c == accepted(iss, seg.tcp.sequence_number, seg.tcp.window_size)
                &&& c.wf()
                &&& reply.wf()
                &&& is_syn_ack(reply, iss, *seg)
            },
    {
        if !seg.tcp.syn() || seg.tcp.ack() {
            return None;
        }
        let peer_seq = seg.tcp.sequence_number;
        let conn = Connection {
            state: State::SynReceived,
            send: SendSequenceSpace { una: iss, nxt: seq_plus(iss, 1), wnd: SEND_WINDOW, iss },
            recv: ReceiveSequenceSpace {
                nxt: seq_plus(peer_seq, 1),
                wnd: seg.tcp.window_size,
                irs: peer_seq,
            },
        };
        let reply = Segment {
            ip: Ipv4Header {
                tos: 0,
                identification: 0,
                flags_fragment: 0,
                ttl: REPLY_TTL,
                source: seg.ip.destination,
                destination: seg.ip.source,
                options: Vec::new(),
            },
            tcp: TcpHeader {
                source_port: seg.tcp.destination_port,
                destination_port: seg.tcp.source_port,
                sequence_number: iss,
                acknowledgment_number: seq_plus(peer_seq, 1),
                reserved: 0,
                flags: FLAG_SYN | FLAG_ACK,
                window_size: SEND_WINDOW,
                urgent_pointer: 0,
                options: Vec::new(),
            },
            payload: Vec::new(),
        };
        Some((conn, reply))
    }

    /// Takes one arriving segment. In `SynReceived` an acceptable ACK of
    /// exactly `send.nxt` establishes the connection; in `Established` an
    /// acceptable segment advances `send.una` by a new ACK and `recv.nxt` by
    /// in-order payload. A segment outside the receive window changes nothing
    /// and is reported.
    pub fn on_packet(&mut self, seg: &Segment) -> (r: Result<(), SegmentError>)
        requires
            old(self).wf(),
            seg.wf(),
        ensures
            (*final(self), r) == next_connection(*old(self), seg.tcp, seg.payload@.len()),
            final(self).wf(),
    {
        let t = &seg.tcp;
        let payload_len = seg.payload.len() as u32;
        let len: u32 = payload_len + (if t.syn() {
            1u32
        } else {
            0u32
        });
        if !is_acceptable(self.recv.nxt, self.recv.wnd, t.sequence_number, len) {
            return Err(SegmentError::UnacceptableSegment);
        }
        let ack = t.acknowledgment_number;
        match self.state {
            State::SynReceived => {
                if t.ack() && ack == self.send.nxt {
                    self.state = State::Established;
                    self.send.una = ack;
                }
            },
            State::Established => {
                if t.ack() && wrapping_lt(self.send.una, ack) && !wrapping_lt(self.send.nxt, ack) {
                    self.send.una = ack;
                }
                if payload_len > 0 && t.sequence_number == self.recv.nxt {
                    self.recv.nxt = seq_plus(self.recv.nxt, payload_len);
                }
            },
            _ => {},
        }
        Ok(())
    }
}

/// Whether a segment of `len` sequence numbers starting at `seq` is acceptable
/// to a receiver expecting `nxt` with window `wnd`.
pub fn is_acceptable(nxt: u32, wnd: u16, seq: u32, len: u32) -> (r: bool)
    ensures
        r == segment_acceptable(nxt, wnd, seq, len as nat),
{
    let end = seq_plus(nxt, wnd as u32);
    if len == 0 {
        seq == nxt || is_between_wrapped(nxt, seq, end)
    } else {
        wnd != 0 && is_between_wrapped(nxt, seq, end)
    }
}

} // verus!
