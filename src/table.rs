//! The connection table and the handling of one inbound frame.
use vstd::prelude::*;
use crate::tcp::{accepted, is_syn_ack, next_connection, Connection, SegmentError};
use crate::wire::{
    frame_bytes, frame_total, ip_valid, parse, serialize, tcp_valid, ParseError, Segment, FLAG_ACK,
    FLAG_SYN, PROTOCOL_TCP,
};

verus! {

/// Connection identity: local and remote address and port.
#[derive(Clone, Copy, Debug, PartialEq, Eq, Structural)]
pub struct Quad {
    pub local_addr: u32,
    pub local_port: u16,
    pub remote_addr: u32,
    pub remote_port: u16,
}

/// The quad of an inbound segment: its destination is the local end.
pub open spec fn quad_of(seg: Segment) -> Quad {
    Quad {
        local_addr: seg.ip.destination,
        local_port: seg.tcp.destination_port,
        remote_addr: seg.ip.source,
        remote_port: seg.tcp.source_port,
    }
}

pub fn quad(seg: &Segment) -> (r: Quad)
    ensures
        r == quad_of(*seg),
{
    Quad {
        local_addr: seg.ip.destination,
        local_port: seg.tcp.destination_port,
        remote_addr: seg.ip.source,
        remote_port: seg.tcp.source_port,
    }
}

/// Where an inbound segment goes.
#[derive(Clone, Copy, Debug, PartialEq, Eq, Structural)]
pub enum Action {
    /// To the connection stored at this index.
    RouteToExisting(usize),
    /// No connection has the quad: the segment may open one.
    AttemptAccept,
}

/// What became of one segment handed to the table.
#[derive(Debug)]
pub enum SegmentOutcome {
    /// A new connection was stored; the reply is to be sent.
    Accepted(Segment),
    /// No connection has the quad and the segment is no opening SYN.
    ProtocolViolation,
    /// The segment went to the existing connection, with this result.
    Delivered(Result<(), SegmentError>),
}

/// What became of one inbound frame.
#[derive(Debug)]
pub enum FrameOutcome {
    /// The frame could not be read; it was dropped.
    Malformed,
    /// The frame carries another protocol; it was skipped.
    NotTcp,
    /// A new connection was stored; this reply frame is to be sent.
    Accepted(Vec<u8>),
    /// No connection has the quad and the segment is no opening SYN.
    ProtocolViolation,
    /// The segment went to the existing connection, with this result.
    Delivered(Result<(), SegmentError>),
}

pub open spec fn has_quad(s: Seq<(Quad, Connection)>, q: Quad) -> bool {
    exists|i: int| 0 <= i < s.len() && s[i].0 == q
}

pub open spec fn keys_unique(s: Seq<(Quad, Connection)>) -> bool {
    forall|i: int, j: int| 0 <= i < s.len() && 0 <= j < s.len() && s[i].0 == s[j].0 ==> i == j
}

pub open spec fn all_wf(s: Seq<(Quad, Connection)>) -> bool {
    forall|i: int| 0 <= i < s.len() ==> (#[trigger] s[i]).1.wf()
}

/// The connections, each under its quad; at most one per quad.
pub struct ConnectionTable {
    entries: Vec<(Quad, Connection)>,
}

impl View for ConnectionTable {
    type V = Seq<(Quad, Connection)>;

    closed spec fn view(&self) -> Seq<(Quad, Connection)> {
        self.entries@
    }
}

/// What handling `seg` does to a table `s` and returns, when the segment's
/// quad is not in the table.
pub open spec fn opens(s: Seq<(Quad, Connection)>, s2: Seq<(Quad, Connection)>, iss: u32, seg: Segment, r: SegmentOutcome) -> bool {
    if seg.tcp.has_flag(FLAG_SYN) && !seg.tcp.has_flag(FLAG_ACK) {
        &&& s2 == s.push((quad_of(seg), accepted(iss, seg.tcp.sequence_number, seg.tcp.window_size)))
        &&& r matches SegmentOutcome::Accepted(reply) && reply.wf() && is_syn_ack(reply, iss, seg)
    } else {
        s2 == s && r is ProtocolViolation
    }
}

/// What handling `seg` does to a table `s` and returns, when the segment's
/// quad is stored at `i`.
pub open spec fn routes(s: Seq<(Quad, Connection)>, s2: Seq<(Quad, Connection)>, i: int, seg: Segment, r: SegmentOutcome) -> bool {
    let (c, res) = next_connection(s[i].1, seg.tcp, seg.payload@.len());
    &&& s2 == s.update(i, (s[i].0, c))
    &&& r == SegmentOutcome::Delivered(res)
}

/// The full effect of handling `seg` on a table.
pub open spec fn handles(s: Seq<(Quad, Connection)>, s2: Seq<(Quad, Connection)>, iss: u32, seg: Segment, r: SegmentOutcome) -> bool {
    if has_quad(s, quad_of(seg)) {
        exists|i: int| 0 <= i < s.len() && s[i].0 == quad_of(seg) && routes(s, s2, i, seg, r)
    } else {
        opens(s, s2, iss, seg, r)
    }
}

impl ConnectionTable {
    /// Every key once, every connection well formed.
    pub open spec fn wf(&self) -> bool {
        keys_unique(self@) && all_wf(self@)
    }

    pub fn new() -> (r: ConnectionTable)
        ensures
            r@ == Seq::<(Quad, Connection)>::empty(),
            r.wf(),
    {
        ConnectionTable { entries: Vec::new() }
    }

    pub fn len(&self) -> (r: usize)
        ensures
            r == self@.len(),
    {
        self.entries.len()
    }

    /// Finds the connection for `q`, or says that `q` may be accepted.
    pub fn lookup_or_create(&self, q: Quad) -> (r: Action)
        ensures
            r matches Action::RouteToExisting(i) ==> i < self@.len() && self@[i as int].0 == q,
            r is AttemptAccept <==> !has_quad(self@, q),
    {
        let mut i: usize = 0;
        while i < self.entries.len()
            invariant
                i <= self@.len(),
                self@ == self.entries@,
                forall|j: int| 0 <= j < i ==> self@[j].0 != q,
            decreases self@.len() - i,
        {
            if self.entries[i].0 == q {
                return Action::RouteToExisting(i);
            }
            i = i + 1;
        }
        Action::AttemptAccept
    }

    /// The connection stored for `q`, if any.
    pub fn get(&self, q: Quad) -> (r: Option<Connection>)
        requires
            self.wf(),
        ensures
            r is None <==> !has_quad(self@, q),
            r matches Some(c) ==> exists|i: int| 0 <= i < self@.len() && self@[i] == (q, c),
    {
        match self.lookup_or_create(q) {
            Action::RouteToExisting(i) => Some(self.entries[i].1),
            Action::AttemptAccept => None,
        }
    }

    /// Hands one parsed segment to the connection of its quad, or to passive
    /// open where none exists.
    pub fn handle_segment(&mut self, iss: u32, seg: &Segment) -> (r: SegmentOutcome)
        requires
            old(self).wf(),
            seg.wf(),
        ensures
            final(self).wf(),
            handles(old(self)@, final(self)@, iss, *seg, r),
    {
        let ghost s0 = self@;
        let q = quad(seg);
        match self.lookup_or_create(q) {
            Action::RouteToExisting(i) => {
                let mut c = self.entries[i].1;
                let res = c.on_packet(seg);
                self.entries[i] = (q, c);
                assert(keys_unique(self@));
                assert(all_wf(self@));
                let r = SegmentOutcome::Delivered(res);
                assert(self@ == s0.update(i as int, (s0[i as int].0, c)));
                assert(routes(s0, self@, i as int, *seg, r));
                r
            },
            Action::AttemptAccept => {
                match Connection::accept(iss, seg) {
                    Some((c, reply)) => {
                        self.entries.push((q, c));
                        assert(keys_unique(self@));
                        assert(all_wf(self@));
                        SegmentOutcome::Accepted(reply)
                    },
                    None => SegmentOutcome::ProtocolViolation,
                }
            },
        }
    }

    /// Handles one inbound frame: a frame that cannot be read is dropped and
    /// one of another protocol skipped, both without touching the table; a TCP
    /// segment goes to `handle_segment`, and a reply is returned as a frame.
    pub fn handle_frame(&mut self, iss: u32, frame: &[u8]) -> (r: FrameOutcome)
        requires
            old(self).wf(),
        ensures
            final(self).wf(),
            r is Malformed <==> !tcp_valid(frame@) && !(ip_valid(frame@) && frame@[9] != PROTOCOL_TCP),
            r is NotTcp <==> ip_valid(frame@) && frame@[9] != PROTOCOL_TCP,
            r is Malformed || r is NotTcp ==> final(self)@ == old(self)@,
            tcp_valid(frame@) ==> exists|seg: Segment, out: SegmentOutcome| {
                &&& seg.wf()
                &&& frame_bytes(seg) == frame@.subrange(0, frame_total(frame@))
                &&& handles(old(self)@, final(self)@, iss, seg, out)
                &&& match out {
                    SegmentOutcome::Accepted(reply) => r matches FrameOutcome::Accepted(b) && b@ == frame_bytes(reply),
                    SegmentOutcome::ProtocolViolation => r is ProtocolViolation,
                    SegmentOutcome::Delivered(res) => r == FrameOutcome::Delivered(res),
                }
            },
    {
        match parse(frame) {
            Err(ParseError::MalformedPacket) => FrameOutcome::Malformed,
            Err(ParseError::NotTcp) => FrameOutcome::NotTcp,
            Ok(seg) => {
                let out = self.handle_segment(iss, &seg);
                let ghost g = out;
                let r = match out {
                    SegmentOutcome::Accepted(reply) => FrameOutcome::Accepted(serialize(&reply)),
                    SegmentOutcome::ProtocolViolation => FrameOutcome::ProtocolViolation,
                    SegmentOutcome::Delivered(res) => FrameOutcome::Delivered(res),
                };
                assert(match g {
                    SegmentOutcome::Accepted(reply) => r matches FrameOutcome::Accepted(b) && b@ == frame_bytes(reply),
                    SegmentOutcome::ProtocolViolation => r is ProtocolViolation,
                    SegmentOutcome::Delivered(res) => r == FrameOutcome::Delivered(res),
                });
                r
            },
        }
    }
}

/// A segment whose quad already has a connection is routed to that
/// connection, whatever its flags (a repeated SYN included): no entry is
/// added, the other entries stay as they were, and the quad keeps exactly one
/// entry.
pub proof fn lemma_existing_quad_is_routed(
    s: Seq<(Quad, Connection)>,
    s2: Seq<(Quad, Connection)>,
    iss: u32,
    seg: Segment,
    r: SegmentOutcome,
)
    requires
        keys_unique(s),
        has_quad(s, quad_of(seg)),
        handles(s, s2, iss, seg, r),
    ensures
        r is Delivered,
        s2.len() == s.len(),
        keys_unique(s2),
        forall|j: int| 0 <= j < s.len() && s[j].0 != quad_of(seg) ==> s2[j] == s[j],
{
    let i = choose|i: int| 0 <= i < s.len() && s[i].0 == quad_of(seg) && routes(s, s2, i, seg, r);
    assert forall|a: int, b: int| 0 <= a < s2.len() && 0 <= b < s2.len() && s2[a].0 == s2[b].0 implies a == b by {
        assert(s2[a].0 == s[a].0);
        assert(s2[b].0 == s[b].0);
    }
}

} // verus!
