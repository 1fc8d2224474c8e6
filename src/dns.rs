//! Reading DNS messages from a 512-byte packet buffer.
use vstd::prelude::*;
use vstd::string::StringExecFns;
use crate::bytes::{be16, be32};

verus! {

/// Size of a DNS packet buffer.
pub const PACKET_SIZE: usize = 512;

/// Most compression jumps followed while reading one name.
pub const MAX_JUMPS: u32 = 5;

/// Why a read from a packet buffer failed.
#[derive(Clone, Copy, Debug, PartialEq, Eq, Structural)]
pub enum PacketError {
    /// A read past the end of the buffer.
    EndOfBuffer,
    /// A name that follows more compression jumps than allowed.
    TooManyJumps,
}

/// The text of a byte string, with invalid UTF-8 replaced.
pub uninterp spec fn utf8_lossy(b: Seq<u8>) -> Seq<char>;

/// The lowercase form of a text.
pub uninterp spec fn lowercase_of(s: Seq<char>) -> Seq<char>;

/// Relies on `String::from_utf8_lossy`: the text depends on the bytes alone.
#[verifier::external_body]
fn text_of_bytes(b: &[u8]) -> (r: String)
    ensures
        r@ == utf8_lossy(b@),
{
    String::from_utf8_lossy(b).into_owned()
}

/// Relies on `str::to_lowercase`: the result depends on the text alone.
#[verifier::external_body]
fn lowercase(s: &str) -> (r: String)
    ensures
        r@ == lowercase_of(s@),
{
    s.to_lowercase()
}

/// A DNS packet and a read position in it.
pub struct BytePacketBuffer {
    pub buffer: [u8; 512],
    pub pos: usize,
}

/// The text that a name label contributes.
pub open spec fn label_text(b: Seq<u8>) -> Seq<char> {
    lowercase_of(utf8_lossy(b))
}

/// The labels of the name whose first length byte is at `pos`, after `jumps`
/// compression jumps, each as its start and length in the buffer; and the
/// position after the name (after the first pointer where a jump was taken).
pub open spec fn labels_at(buf: Seq<u8>, pos: int, jumps: int) -> Result<(Seq<(usize, usize)>, int), PacketError>
    decreases 6 - jumps, 512 - pos,
{
    if jumps > MAX_JUMPS || jumps < 0 {
        Err(PacketError::TooManyJumps)
    } else if !(0 <= pos < 512) {
        Err(PacketError::EndOfBuffer)
    } else {
        let len = buf[pos];
        if len & 0xC0 == 0xC0 {
            if pos + 1 >= 512 {
                Err(PacketError::EndOfBuffer)
            } else {
                let offset = (len ^ 0xC0) as int * 256 + buf[pos + 1] as int;
                match labels_at(buf, offset, jumps + 1) {
                    Ok((s, _)) => Ok((s, pos + 2)),
                    Err(e) => Err(e),
                }
            }
        } else if len == 0 {
            Ok((Seq::empty(), pos + 1))
        } else if pos + 1 + len > 512 {
            Err(PacketError::EndOfBuffer)
        } else {
            match labels_at(buf, pos + 1 + len, jumps) {
                Ok((s, e)) => Ok((seq![((pos + 1) as usize, len as usize)] + s, e)),
                Err(e) => Err(e),
            }
        }
    }
}

/// The joined texts of the labels at `ranges`.
pub open spec fn labels_text(buf: Seq<u8>, ranges: Seq<(usize, usize)>) -> Seq<char>
    decreases ranges.len(),
{
    if ranges.len() == 0 {
        Seq::empty()
    } else {
        let (start, len) = ranges.last();
        labels_text(buf, ranges.drop_last()) + label_text(
            buf.subrange(start as int, start + len),
        )
    }
}

/// `r` with `prefix` put before its labels and, where a jump was taken, its
/// end replaced by `saved`.
pub open spec fn resume(prefix: Seq<(usize, usize)>, saved: Option<int>, r: Result<(Seq<(usize, usize)>, int), PacketError>) -> Result<(Seq<(usize, usize)>, int), PacketError> {
    match r {
        Ok((s, e)) => Ok((
            prefix + s,
            match saved {
                Some(p) => p,
                None => e,
            },
        )),
        Err(x) => Err(x),
    }
}

proof fn lemma_resume_label(prefix: Seq<(usize, usize)>, label: (usize, usize), saved: Option<int>, r: Result<(Seq<(usize, usize)>, int), PacketError>)
    ensures
        resume(prefix, saved, match r {
            Ok((s, e)) => Ok((seq![label] + s, e)),
            Err(e) => Err(e),
        }) == resume(prefix.push(label), saved, r),
{
    if let Ok((s, e)) = r {
        assert(prefix + (seq![label] + s) =~= prefix.push(label) + s);
    }
}

impl BytePacketBuffer {
    pub fn new() -> (r: BytePacketBuffer)
        ensures
            r.pos == 0,
            forall|i: int| 0 <= i < 512 ==> r.buffer@[i] == 0,
    {
        BytePacketBuffer { buffer: [0u8; 512], pos: 0 }
    }

    pub fn pos(&self) -> (r: usize)
        ensures
            r == self.pos,
    {
        self.pos
    }

    pub fn step(&mut self, n: usize)
        requires
            old(self).pos + n <= usize::MAX,
        ensures
            final(self).pos == old(self).pos + n,
            final(self).buffer == old(self).buffer,
    {
        self.pos = self.pos + n;
    }

    pub fn seek(&mut self, pos: usize)
        ensures
            final(self).pos == pos,
            final(self).buffer == old(self).buffer,
    {
        self.pos = pos;
    }

    /// Reads the byte at the position and steps past it.
    pub fn read(&mut self) -> (r: Result<u8, PacketError>)
        ensures
            final(self).buffer == old(self).buffer,
            old(self).pos < 512 ==> r == Ok::<u8, PacketError>(old(self).buffer@[old(self).pos as int])
                && final(self).pos == old(self).pos + 1,
            old(self).pos >= 512 ==> r == Err::<u8, PacketError>(PacketError::EndOfBuffer)
                && final(self).pos == old(self).pos,
    {
        if self.pos >= PACKET_SIZE {
            return Err(PacketError::EndOfBuffer);
        }
        let res = self.buffer[self.pos];
        self.pos = self.pos + 1;
        Ok(res)
    }

    /// The byte at `pos`, without moving.
    pub fn get(&self, pos: usize) -> (r: Result<u8, PacketError>)
        ensures
            pos < 512 ==> r == Ok::<u8, PacketError>(self.buffer@[pos as int]),
            pos >= 512 ==> r == Err::<u8, PacketError>(PacketError::EndOfBuffer),
    {
        if pos >= PACKET_SIZE {
            return Err(PacketError::EndOfBuffer);
        }
        Ok(self.buffer[pos])
    }

    /// The `len` bytes from `start`, without moving.
    pub fn get_range(&self, start: usize, len: usize) -> (r: Result<Vec<u8>, PacketError>)
        ensures
            start + len <= 512 ==> (r matches Ok(v) && v@ == self.buffer@.subrange(
                start as int,
                start + len,
            )),
            start + len > 512 ==> r == Err::<Vec<u8>, PacketError>(PacketError::EndOfBuffer),
    {
        if start > PACKET_SIZE || len > PACKET_SIZE - start {
            return Err(PacketError::EndOfBuffer);
        }
        let mut out: Vec<u8> = Vec::new();
        let mut i = start;
        while i < start + len
            invariant
                start <= i <= start + len <= 512,
                out@ == self.buffer@.subrange(start as int, i as int),
            decreases start + len - i,
        {
            out.push(self.buffer[i]);
            i = i + 1;
            assert(out@ =~= self.buffer@.subrange(start as int, i as int));
        }
        Ok(out)
    }

    /// Reads two bytes, big-endian, stepping past them.
    pub fn read_u16(&mut self) -> (r: Result<u16, PacketError>)
        ensures
            final(self).buffer == old(self).buffer,
            old(self).pos + 2 <= 512 ==> (r matches Ok(v) && v == be16(
                old(self).buffer@,
                old(self).pos as int,
            ) && final(self).pos == old(self).pos + 2),
            old(self).pos + 2 > 512 ==> r == Err::<u16, PacketError>(PacketError::EndOfBuffer),
    {
        let high = self.read()? as u16;
        let low = self.read()? as u16;
        Ok(high * 256 + low)
    }

    /// Reads four bytes, big-endian, stepping past them.
    pub fn read_u32(&mut self) -> (r: Result<u32, PacketError>)
        ensures
            final(self).buffer == old(self).buffer,
            old(self).pos + 4 <= 512 ==> (r matches Ok(v) && v == be32(
                old(self).buffer@,
                old(self).pos as int,
            ) && final(self).pos == old(self).pos + 4),
            old(self).pos + 4 > 512 ==> r == Err::<u32, PacketError>(PacketError::EndOfBuffer),
    {
        let b0 = self.read()? as u32;
        let b1 = self.read()? as u32;
        let b2 = self.read()? as u32;
        let b3 = self.read()? as u32;
        Ok(((b0 * 256 + b1) * 256 + b2) * 256 + b3)
    }

    /// Reads the labels of a name at the position: labels, each a length
    /// byte and that many bytes, ended by a zero byte, where a byte with its
    /// two top bits set starts a two-byte pointer to the rest of the name.
    /// Returns where each label lies; the position moves past the name, or
    /// past the first pointer.
    pub fn read_labels(&mut self) -> (r: Result<Vec<(usize, usize)>, PacketError>)
        ensures
            final(self).buffer@ == old(self).buffer@,
            match labels_at(old(self).buffer@, old(self).pos as int, 0) {
                Ok((ranges, end)) => (r matches Ok(v) && v@ == ranges) && final(self).pos == end,
                Err(e) => r matches Err(x) && x == e,
            },
            r matches Ok(v) ==> forall|k: int| 0 <= k < v@.len() ==> v@[k].0 + v@[k].1 <= 512,
    {
        let ghost buf = self.buffer@;
        let ghost start = self.pos as int;
        let mut res: Vec<(usize, usize)> = Vec::new();
        let mut pos = self.pos;
        let mut jumped = false;
        let mut jumps_performed: u32 = 0;
        let ghost mut saved: Option<int> = None;
        loop
            invariant_except_break
                labels_at(buf, start, 0) == resume(res@, saved, labels_at(buf, pos as int, jumps_performed as int)),
            invariant
                buf == old(self).buffer@,
                start == old(self).pos as int,
                self.buffer@ == buf,
                jumps_performed <= MAX_JUMPS + 1,
                jumped <==> saved is Some,
                saved matches Some(p) ==> p == self.pos,
                !jumped ==> self.pos as int == start,
                forall|k: int| 0 <= k < res@.len() ==> res@[k].0 + res@[k].1 <= 512,
            ensures
                labels_at(buf, start, 0) == resume(res@, saved, Ok((Seq::<(usize, usize)>::empty(), pos as int))),
            decreases MAX_JUMPS + 1 - jumps_performed, 512 - pos,
        {
            if jumps_performed > MAX_JUMPS {
                return Err(PacketError::TooManyJumps);
            }
            let len = match self.get(pos) {
                Ok(b) => b,
                Err(e) => {
                    return Err(e);
                },
            };
            if (len & 0xC0) == 0xC0 {
                let b2 = match self.get(pos + 1) {
                    Ok(b) => b,
                    Err(e) => {
                        return Err(e);
                    },
                };
                if !jumped {
                    self.seek(pos + 2);
                    proof {
                        saved = Some(pos + 2);
                    }
                }
                let offset: u16 = ((len ^ 0xC0) as u16) * 256 + b2 as u16;
                assert(offset as int == (len ^ 0xC0) as int * 256 + buf[pos + 1] as int);
                pos = offset as usize;
                jumped = true;
                jumps_performed = jumps_performed + 1;
            } else {
                pos = pos + 1;
                if len == 0 {
                    assert(res@ + Seq::<(usize, usize)>::empty() =~= res@);
                    break;
                }
                if pos > PACKET_SIZE || len as usize > PACKET_SIZE - pos {
                    return Err(PacketError::EndOfBuffer);
                }
                let ghost before = res@;
                res.push((pos, len as usize));
                proof {
                    lemma_resume_label(
                        before,
                        (pos, len as usize),
                        saved,
                        labels_at(buf, pos + len, jumps_performed as int),
                    );
                }
                pos = pos + len as usize;
            }
        }
        if !jumped {
            self.seek(pos);
        }
        Ok(res)
    }

    /// Reads a name at the position (see `read_labels`): the label texts,
    /// lowercased, joined.
    pub fn read_query_name(&mut self) -> (r: Result<String, PacketError>)
        ensures
            final(self).buffer@ == old(self).buffer@,
            match labels_at(old(self).buffer@, old(self).pos as int, 0) {
                Ok((ranges, end)) => (r matches Ok(s) && s@ == labels_text(old(self).buffer@, ranges))
                    && final(self).pos == end,
                Err(e) => r matches Err(x) && x == e,
            },
    {
        let ranges = self.read_labels()?;
        let ghost buf = self.buffer@;
        let mut res = String::new();
        let mut i: usize = 0;
        while i < ranges.len()
            invariant
                i <= ranges@.len(),
                self.buffer@ == buf,
                forall|k: int| 0 <= k < ranges@.len() ==> ranges@[k].0 + ranges@[k].1 <= 512,
                res@ == labels_text(buf, ranges@.subrange(0, i as int)),
            decreases ranges@.len() - i,
        {
            let (start, len) = ranges[i];
            let label = match self.get_range(start, len) {
                Ok(v) => v,
                Err(e) => {
                    return Err(e);
                },
            };
            let text = text_of_bytes(label.as_slice());
            let lower = lowercase(text.as_str());
            res.append(lower.as_str());
            assert(ranges@.subrange(0, i + 1).drop_last() =~= ranges@.subrange(0, i as int));
            i = i + 1;
        }
        assert(ranges@.subrange(0, ranges@.len() as int) =~= ranges@);
        Ok(res)
    }
}

/// DNS response codes.
#[derive(Copy, Clone, Debug, PartialEq, Eq, Structural)]
pub enum ResultCode {
    NOERROR,
    FORMERR,
    SERVFAIL,
    NXDOMAIN,
    NOTIMP,
    REFUSED,
}

impl ResultCode {
    /// The code with number `num`; unknown numbers read as `NOERROR`.
    pub fn from_num(num: u8) -> (r: ResultCode)
        ensures
            r == (match num {
                1 => ResultCode::FORMERR,
                2 => ResultCode::SERVFAIL,
                3 => ResultCode::NXDOMAIN,
                4 => ResultCode::NOTIMP,
                5 => ResultCode::REFUSED,
                _ => ResultCode::NOERROR,
            }),
    {
        match num {
            1 => ResultCode::FORMERR,
            2 => ResultCode::SERVFAIL,
            3 => ResultCode::NXDOMAIN,
            4 => ResultCode::NOTIMP,
            5 => ResultCode::REFUSED,
            _ => ResultCode::NOERROR,
        }
    }
}

/// The fixed twelve-byte header of a DNS message.
#[derive(Copy, Clone, Debug, PartialEq, Eq, Structural)]
pub struct DnsHeader {
    pub id: u16,
    pub recursion_desired: bool,
    pub truncated_message: bool,
    pub authoritative_answer: bool,
    pub opcode: u8,
    pub response: bool,
    pub rescode: ResultCode,
    pub checking_disabled: bool,
    pub authed_data: bool,
    pub z: bool,
    pub recursion_available: bool,
    pub questions: u16,
    pub answers: u16,
    pub authoritative_entries: u16,
    pub resource_entries: u16,
}

/// The header that the twelve bytes of `b` from `p` hold.
pub open spec fn header_at(b: Seq<u8>, p: int) -> DnsHeader {
    let a = b[p + 2];
    let c = b[p + 3];
    DnsHeader {
        id: be16(b, p) as u16,
        recursion_desired: a & 1 > 0,
        truncated_message: a & 2 > 0,
        authoritative_answer: a & 4 > 0,
        opcode: (a >> 3) & 0x0F,
        response: a & 0x80 > 0,
        rescode: match c & 0x0F {
            1 => ResultCode::FORMERR,
            2 => ResultCode::SERVFAIL,
            3 => ResultCode::NXDOMAIN,
            4 => ResultCode::NOTIMP,
            5 => ResultCode::REFUSED,
            _ => ResultCode::NOERROR,
        },
        checking_disabled: c & 0x10 > 0,
        authed_data: c & 0x20 > 0,
        z: c & 0x40 > 0,
        recursion_available: c & 0x80 > 0,
        questions: be16(b, p + 4) as u16,
        answers: be16(b, p + 6) as u16,
        authoritative_entries: be16(b, p + 8) as u16,
        resource_entries: be16(b, p + 10) as u16,
    }
}

impl DnsHeader {
    pub fn new() -> (r: DnsHeader)
        ensures
            r == (DnsHeader {
                id: 0,
                recursion_desired: false,
                truncated_message: false,
                authoritative_answer: false,
                opcode: 0,
                response: false,
                rescode: ResultCode::NOERROR,
                checking_disabled: false,
                authed_data: false,
                z: false,
                recursion_available: false,
                questions: 0,
                answers: 0,
                authoritative_entries: 0,
                resource_entries: 0,
            }),
    {
        DnsHeader {
            id: 0,
            recursion_desired: false,
            truncated_message: false,
            authoritative_answer: false,
            opcode: 0,
            response: false,
            rescode: ResultCode::NOERROR,
            checking_disabled: false,
            authed_data: false,
            z: false,
            recursion_available: false,
            questions: 0,
            answers: 0,
            authoritative_entries: 0,
            resource_entries: 0,
        }
    }

    /// Reads the header at the buffer's position, stepping past it.
    pub fn read(&mut self, buffer: &mut BytePacketBuffer) -> (r: Result<(), PacketError>)
        ensures
            final(buffer).buffer == old(buffer).buffer,
            r is Ok <==> old(buffer).pos + 12 <= 512,
            r is Ok ==> *final(self) == header_at(old(buffer).buffer@, old(buffer).pos as int)
                && final(buffer).pos == old(buffer).pos + 12,
            r is Err ==> r == Err::<(), PacketError>(PacketError::EndOfBuffer),
    {
        self.id = buffer.read_u16()?;
        let flags = buffer.read_u16()?;
        let a = (flags / 256) as u8;
        let b = (flags % 256) as u8;
        self.recursion_desired = (a & 1) > 0;
        self.truncated_message = (a & 2) > 0;
        self.authoritative_answer = (a & 4) > 0;
        self.opcode = (a >> 3) & 0x0F;
        self.response = (a & 0x80) > 0;

        self.rescode = ResultCode::from_num(b & 0x0F);
        self.checking_disabled = (b & 0x10) > 0;
        self.authed_data = (b & 0x20) > 0;
        self.z = (b & 0x40) > 0;
        self.recursion_available = (b & 0x80) > 0;

        self.questions = buffer.read_u16()?;
        self.answers = buffer.read_u16()?;
        self.authoritative_entries = buffer.read_u16()?;
        self.resource_entries = buffer.read_u16()?;
        Ok(())
    }
}

/// Record types of a question.
#[derive(Copy, Clone, Debug, PartialEq, Eq, Structural)]
pub enum QueryType {
    UNKNOWN(u16),
    A,
}

impl QueryType {
    /// Type number 1 is `A`; any other number is kept as `UNKNOWN`.
    pub fn from_num(num: u16) -> (r: QueryType)
        ensures
            r == (if num == 1 {
                QueryType::A
            } else {
                QueryType::UNKNOWN(num)
            }),
            r.to_num_spec() == num,
    {
        match num {
            1 => QueryType::A,
            _ => QueryType::UNKNOWN(num),
        }
    }

    pub open spec fn to_num_spec(&self) -> u16 {
        match *self {
            QueryType::UNKNOWN(num) => num,
            QueryType::A => 1,
        }
    }

    pub fn to_num(&self) -> (r: u16)
        ensures
            r == self.to_num_spec(),
    {
        match *self {
            QueryType::UNKNOWN(num) => num,
            QueryType::A => 1,
        }
    }
}

/// A question: the name asked about and the record type.
#[derive(Clone, Debug)]
pub struct DnsQuestion {
    pub name: String,
    pub qtype: QueryType,
}

} // verus!
