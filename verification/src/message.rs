//! The RPC header and the messages that travel in UDP datagrams.

use vstd::prelude::*;

use crate::error::{Error, ErrorKind};

verus! {

/// Length of the RPC header at the front of each datagram.
pub const HEADER_LEN: usize = 3;

/// Largest number of data bytes that a UDP datagram carries.
pub const MAX_UDP_LEN: usize = 65507;

/// Largest RPC payload: a datagram less the header.
pub const MAX_PAYLOAD_LEN: usize = 65504;

/// The high byte of a request id in big-endian order.
pub open spec fn rid_high(rid: u16) -> u8 {
    (rid / 256) as u8
}

/// The low byte of a request id in big-endian order.
pub open spec fn rid_low(rid: u16) -> u8 {
    (rid % 256) as u8
}

/// The request id that two big-endian bytes spell.
pub open spec fn rid_of_bytes(high: u8, low: u8) -> u16 {
    (high * 256 + low) as u16
}

/// The datagram that carries an RPC with these flags, request id and payload:
/// the flags byte, the request id in big-endian order, then the payload.
pub open spec fn spec_frame(flags: u8, rid: u16, payload: Seq<u8>) -> Seq<u8> {
    seq![flags, rid_high(rid), rid_low(rid)] + payload
}

/// Whether a datagram is long enough to hold an RPC header.
pub open spec fn holds_header(datagram: Seq<u8>) -> bool {
    datagram.len() >= HEADER_LEN
}

/// The flags that a datagram's header holds.
pub open spec fn flags_of(datagram: Seq<u8>) -> u8 {
    datagram[0]
}

/// The request id that a datagram's header holds.
pub open spec fn rid_in(datagram: Seq<u8>) -> u16 {
    rid_of_bytes(datagram[1], datagram[2])
}

/// The payload of a datagram: what follows the header.
pub open spec fn payload_of(datagram: Seq<u8>) -> Seq<u8> {
    datagram.subrange(HEADER_LEN as int, datagram.len() as int)
}

/// The number of bytes that writing a payload of `len` bytes to a buffer of
/// `cap` bytes copies: all of them, or as many as fit.
pub open spec fn copied_len(len: nat, cap: nat) -> nat {
    if len <= cap {
        len
    } else {
        cap
    }
}

/// A buffer that held `before` after `payload` was written to its front, cut
/// to the buffer's length.
pub open spec fn written_buffer(before: Seq<u8>, payload: Seq<u8>) -> Seq<u8> {
    let n = copied_len(payload.len(), before.len()) as int;
    payload.subrange(0, n) + before.subrange(n, before.len() as int)
}

/// The error returned for a payload that does not fit in a datagram.
pub open spec fn is_oversize_error(e: Error) -> bool {
    &&& e.spec_kind() == ErrorKind::InvalidInput
    &&& e.spec_reason() == Some("buffer longer than 65504 bytes"@)
    &&& !e.spec_has_io_error()
}

/// Header sent with each RPC message.
///
/// An RPC header consists of 3 bytes. The first byte holds flags that tell a
/// request from a response, and the last two are a 16-bit big-endian number
/// that identifies a request-response cycle.
#[derive(Debug)]
pub struct RpcHeader {
    /// 8-bit flags. The least significant bit is unset on a request and set on
    /// a response.
    flags: u8,
    /// RPC request id, which ties a response to its request.
    rid: u16,
}

impl RpcHeader {
    /// The flags byte.
    pub closed spec fn spec_flags(&self) -> u8 {
        self.flags
    }

    /// The request id.
    pub closed spec fn spec_rid(&self) -> u16 {
        self.rid
    }

    /// Whether the flags mark a request: their least significant bit is unset.
    pub open spec fn flags_mark_request(flags: u8) -> bool {
        flags % 2 == 0
    }

    /// Creates the header of a request with the given request id.
    pub fn request_from_rid(rid: u16) -> (header: Self)
        ensures
            header.spec_flags() == 0,
            header.spec_rid() == rid,
    {
        Self { flags: 0b00000000, rid }
    }

    /// Checks whether the header is that of a request message.
    pub fn is_request(&self) -> (b: bool)
        ensures
            b == Self::flags_mark_request(self.spec_flags()),
    {
        let low: u8 = self.flags & 0b00000001;
        proof {
            let f: u8 = self.flags;
            assert((f & 1u8 == 0u8) == (f % 2 == 0)) by (bit_vector);
        }
        low == 0
    }

    /// Flips the bit in the flags specifying if the message is a request or a
    /// response. Returns the value after flipping.
    pub fn flip_request(&mut self) -> (b: bool)
        ensures
            final(self).spec_flags() == old(self).spec_flags() ^ 1u8,
            final(self).spec_rid() == old(self).spec_rid(),
            b == Self::flags_mark_request(final(self).spec_flags()),
            b == !Self::flags_mark_request(old(self).spec_flags()),
    {
        let before: u8 = self.flags;
        self.flags = before ^ 0b00000001;
        proof {
            law_flip_flags(before);
        }
        self.is_request()
    }
}

/// The sizes of the wire format: a three-byte header, datagrams of at most
/// 65507 bytes, and so payloads of at most 65504 bytes.
pub proof fn law_wire_sizes()
    ensures
        HEADER_LEN == 3,
        MAX_UDP_LEN == 65507,
        MAX_PAYLOAD_LEN + HEADER_LEN == MAX_UDP_LEN,
{
}

/// The layout of a datagram on the wire: it is three bytes longer than the
/// payload, its first byte is the flags, its next two bytes spell the request
/// id high byte first, and then comes the payload itself, byte for byte and in
/// order.
pub proof fn law_frame_layout(flags: u8, rid: u16, payload: Seq<u8>)
    ensures
        spec_frame(flags, rid, payload).len() == payload.len() + 3,
        spec_frame(flags, rid, payload)[0] == flags,
        spec_frame(flags, rid, payload)[1] * 256 + spec_frame(flags, rid, payload)[2] == rid,
        forall|j: int|
            0 <= j < payload.len() ==> spec_frame(flags, rid, payload)[3 + j] == #[trigger] payload[j],
{
}

/// How a datagram is read: it holds a header exactly when it has at least
/// three bytes; its flags are its first byte, its request id is its next two
/// bytes high byte first, and its payload is every byte after the third, in
/// order.
pub proof fn law_datagram_fields(datagram: Seq<u8>)
    ensures
        holds_header(datagram) <==> datagram.len() >= 3,
        datagram.len() >= 3 ==> {
            &&& flags_of(datagram) == datagram[0]
            &&& rid_in(datagram) == datagram[1] * 256 + datagram[2]
            &&& payload_of(datagram).len() == datagram.len() - 3
            &&& forall|j: int|
                0 <= j < datagram.len() - 3 ==> #[trigger] payload_of(datagram)[j] == datagram[3
                    + j]
        },
{
}

/// Writing a payload to a buffer copies as many bytes as both hold: the whole
/// payload where it fits, else exactly as many as the buffer holds. The bytes
/// copied are the payload's first ones, in order, at the buffer's front; the
/// rest of the buffer keeps what it held, and its length does not change.
pub proof fn law_copy_truncates(before: Seq<u8>, payload: Seq<u8>)
    ensures
        copied_len(payload.len(), before.len()) <= payload.len(),
        copied_len(payload.len(), before.len()) <= before.len(),
        payload.len() <= before.len() ==> copied_len(payload.len(), before.len()) == payload.len(),
        payload.len() > before.len() ==> copied_len(payload.len(), before.len()) == before.len(),
        written_buffer(before, payload).len() == before.len(),
        forall|j: int|
            0 <= j < copied_len(payload.len(), before.len()) ==> #[trigger] written_buffer(
                before,
                payload,
            )[j] == payload[j],
        forall|j: int|
            copied_len(payload.len(), before.len()) <= j < before.len() ==> #[trigger] written_buffer(
                before,
                payload,
            )[j] == before[j],
{
}

/// A header marks a request exactly when the lowest bit of its flags is
/// clear.
pub proof fn law_request_bit(flags: u8)
    ensures
        RpcHeader::flags_mark_request(flags) <==> flags & 1u8 == 0u8,
{
    assert((flags & 1u8 == 0u8) == (flags % 2 == 0)) by (bit_vector);
}

/// The wire format reads back what it writes: the datagram that carries
/// flags, a request id and a payload holds a header, and gives back those
/// flags, that request id and that payload.
pub proof fn law_frame_reads_back(flags: u8, rid: u16, payload: Seq<u8>)
    ensures
        holds_header(spec_frame(flags, rid, payload)),
        flags_of(spec_frame(flags, rid, payload)) == flags,
        rid_in(spec_frame(flags, rid, payload)) == rid,
        payload_of(spec_frame(flags, rid, payload)) == payload,
{
    let d = spec_frame(flags, rid, payload);
    assert(d[1] == rid_high(rid) && d[2] == rid_low(rid));
    assert(payload_of(d) =~= payload);
}

/// Every datagram that holds a header is the frame of its own flags, request
/// id and payload: reading a datagram loses nothing.
pub proof fn law_datagram_is_frame(datagram: Seq<u8>)
    requires
        holds_header(datagram),
    ensures
        spec_frame(flags_of(datagram), rid_in(datagram), payload_of(datagram)) == datagram,
{
    let rid = rid_in(datagram);
    assert(rid_high(rid) == datagram[1] && rid_low(rid) == datagram[2]);
    assert(spec_frame(flags_of(datagram), rid, payload_of(datagram)) =~= datagram);
}

/// Flipping the request bit turns a request into a response and back; a
/// request's flags become those of its response by adding one; and flipping
/// twice restores the flags.
pub proof fn law_flip_flags(flags: u8)
    ensures
        RpcHeader::flags_mark_request(flags ^ 1u8) == !RpcHeader::flags_mark_request(flags),
        RpcHeader::flags_mark_request(flags) ==> flags ^ 1u8 == flags + 1,
        (flags ^ 1u8) ^ 1u8 == flags,
{
    assert((flags ^ 1u8) % 2 == 0 <==> flags % 2 != 0) by (bit_vector);
    assert(flags % 2 == 0 ==> flags ^ 1u8 == flags + 1) by (bit_vector);
    assert((flags ^ 1u8) ^ 1u8 == flags) by (bit_vector);
}

/// Message that goes through the wire.
#[derive(Debug)]
pub struct RpcMessage {
    /// 3-byte message header, as the datagram's first bytes spell it.
    header: RpcHeader,
    /// The datagram: the header bytes, then the payload.
    buf: Vec<u8>,
    /// Length of the datagram.
    len: usize,
}

impl RpcMessage {
    #[verifier::type_invariant]
    closed spec fn wf(self) -> bool {
        &&& self.len == self.buf@.len()
        &&& HEADER_LEN <= self.len <= MAX_UDP_LEN
        &&& self.header.flags == flags_of(self.buf@)
        &&& self.header.rid == rid_in(self.buf@)
    }

    /// The datagram that carried the message.
    pub closed spec fn datagram(&self) -> Seq<u8> {
        self.buf@
    }

    /// The message's flags, which the datagram's first byte holds.
    pub open spec fn spec_flags(&self) -> u8 {
        flags_of(self.datagram())
    }

    /// The message's request id, which the datagram's next two bytes hold.
    pub open spec fn spec_rid(&self) -> u16 {
        rid_in(self.datagram())
    }

    /// The message's payload.
    pub open spec fn payload(&self) -> Seq<u8> {
        payload_of(self.datagram())
    }

    /// Reads a message out of a received datagram.
    ///
    /// A datagram shorter than the header is no message of the protocol, and
    /// gives `None`.
    pub fn from_datagram(datagram: &[u8]) -> (m: Option<RpcMessage>)
        requires
            datagram@.len() <= MAX_UDP_LEN,
        ensures
            m is None <==> !holds_header(datagram@),
            m matches Some(m) ==> m.datagram() == datagram@,
    {
        let len = datagram.len();
        if len < HEADER_LEN {
            return None;
        }
        let flags = datagram[0];
        let high = datagram[1];
        let low = datagram[2];
        let rid: u16 = (high as u16) * 256 + (low as u16);
        let mut buf: Vec<u8> = Vec::new();
        let mut i: usize = 0;
        while i < len
            invariant
                len == datagram@.len(),
                i <= len,
                buf@ == datagram@.subrange(0, i as int),
            decreases len - i,
        {
            buf.push(datagram[i]);
            i = i + 1;
            assert(buf@ =~= datagram@.subrange(0, i as int));
        }
        assert(buf@ =~= datagram@);
        Some(RpcMessage { header: RpcHeader { flags, rid }, buf, len })
    }

    /// Consumes the message and returns the header.
    ///
    /// This is useful to allow manipulation of the header before responding to
    /// a message.
    pub fn split(self) -> (header: RpcHeader)
        ensures
            header.spec_flags() == self.spec_flags(),
            header.spec_rid() == self.spec_rid(),
    {
        proof {
            use_type_invariant(&self);
        }
        self.header
    }

    /// The request id of the message.
    pub fn request_id(&self) -> (rid: u16)
        ensures
            rid == self.spec_rid(),
    {
        proof {
            use_type_invariant(self);
        }
        self.header.rid
    }

    /// Checks whether the message is a request.
    pub fn is_request(&self) -> (b: bool)
        ensures
            b == RpcHeader::flags_mark_request(self.spec_flags()),
    {
        proof {
            use_type_invariant(self);
        }
        self.header.is_request()
    }

    /// Builds the datagram that carries a message with the given header and
    /// payload.
    ///
    /// Fails if the payload is longer than 65504 bytes.
    pub fn frame(header: RpcHeader, data: &[u8]) -> (r: Result<Vec<u8>, Error>)
        ensures
            r is Ok <==> data@.len() <= MAX_PAYLOAD_LEN,
            r matches Ok(v) ==> v@ == spec_frame(header.spec_flags(), header.spec_rid(), data@),
            r matches Ok(v) ==> {
                &&& v@.len() == data@.len() + 3
                &&& v@[0] == header.spec_flags()
                &&& v@[1] * 256 + v@[2] == header.spec_rid()
                &&& forall|j: int| 0 <= j < data@.len() ==> v@[3 + j] == #[trigger] data@[j]
            },
            r matches Err(e) ==> is_oversize_error(e),
    {
        proof {
            law_frame_layout(header.spec_flags(), header.spec_rid(), data@);
        }
        if data.len() > MAX_PAYLOAD_LEN {
            return Err(Error::invalid_input("buffer longer than 65504 bytes"));
        }
        let rid = header.rid;
        let mut buf: Vec<u8> = Vec::new();
        buf.push(header.flags);
        buf.push((rid / 256) as u8);
        buf.push((rid % 256) as u8);
        let n = data.len();
        let mut i: usize = 0;
        while i < n
            invariant
                n == data@.len(),
                i <= n,
                buf@ == spec_frame(header.flags, rid, data@.subrange(0, i as int)),
            decreases n - i,
        {
            buf.push(data[i]);
            i = i + 1;
            assert(buf@ =~= spec_frame(header.flags, rid, data@.subrange(0, i as int)));
        }
        assert(data@.subrange(0, n as int) =~= data@);
        Ok(buf)
    }

    /// Number of payload bytes sent, given the length of the datagram that the
    /// socket sent.
    pub fn payload_sent(sent: usize) -> (n: usize)
        requires
            sent >= HEADER_LEN,
        ensures
            n == sent - HEADER_LEN,
    {
        sent - HEADER_LEN
    }

    /// Writes the message data through to the buffer, ignoring the header.
    ///
    /// Returns the amount of bytes written to the buffer.
    ///
    /// If the buffer is too small, the data will be truncated.
    pub fn write_to_buffer(&self, buf: &mut [u8]) -> (n: usize)
        ensures
            n == copied_len(self.payload().len(), old(buf)@.len()),
            final(buf)@ == written_buffer(old(buf)@, self.payload()),
            n <= old(buf)@.len(),
            n + 3 <= self.datagram().len(),
            n == old(buf)@.len() || n + 3 == self.datagram().len(),
            final(buf)@.len() == old(buf)@.len(),
            forall|j: int| 0 <= j < n ==> #[trigger] final(buf)@[j] == self.datagram()[3 + j],
            forall|j: int| n <= j < old(buf)@.len() ==> #[trigger] final(buf)@[j] == old(buf)@[j],
    {
        proof {
            use_type_invariant(self);
            law_datagram_fields(self.datagram());
            law_copy_truncates(old(buf)@, self.payload());
        }
        let avail = self.len - HEADER_LEN;
        let n = if avail <= buf.len() {
            avail
        } else {
            buf.len()
        };
        let mut i: usize = 0;
        while i < n
            invariant
                n <= avail,
                HEADER_LEN <= self.len,
                avail == self.len - HEADER_LEN,
                avail == self.payload().len(),
                self.len == self.buf@.len(),
                n <= buf@.len(),
                buf@.len() == old(buf)@.len(),
                i <= n,
                forall|j: int| 0 <= j < i ==> buf@[j] == self.payload()[j],
                forall|j: int| i <= j < buf@.len() ==> buf@[j] == old(buf)@[j],
            decreases n - i,
        {
            buf[i] = self.buf[HEADER_LEN + i];
            i = i + 1;
        }
        assert(buf@ =~= self.payload().subrange(0, n as int) + old(buf)@.subrange(
            n as int,
            old(buf)@.len() as int,
        ));
        n
    }
}

} // verus!
