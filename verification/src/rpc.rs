//! The decisions an RPC socket takes on each request, message and response.
//!
//! The socket itself runs asynchronous I/O; at each step it hands the values
//! it has to one of these functions and performs what comes back.

use vstd::prelude::*;

use crate::addr::PeerAddr;
use crate::awaiting::{is_first_free_from, AwaitingRequestMap, RequestKey};
use crate::error::{Error, ErrorKind};
use crate::message::{
    copied_len, flags_of, holds_header, is_oversize_error, law_datagram_is_frame,
    law_frame_reads_back, law_flip_flags, payload_of, rid_in, spec_frame, written_buffer,
    RpcHeader, RpcMessage, HEADER_LEN, MAX_PAYLOAD_LEN,
};

verus! {

/// What the receiving side of a socket does with a message that arrived.
pub enum Incoming<S> {
    /// A request, to be handed out by `recv_from`, with its origin.
    Request(RpcMessage, PeerAddr),
    /// A response to a pending request, to be passed on through the sender.
    Response(S, RpcMessage),
    /// A response that no pending request awaits, to be dropped.
    Unsolicited,
}

/// The error that receiving gives when the channel of requests has closed.
pub open spec fn is_channel_closed_error(e: Error) -> bool {
    &&& e.spec_kind() == ErrorKind::Other
    &&& e.spec_reason() == Some("unexpected channel close"@)
    &&& !e.spec_has_io_error()
}

/// The error that awaiting a response gives when its sender went away.
pub open spec fn is_channel_cancel_error(e: Error) -> bool {
    &&& e.spec_kind() == ErrorKind::Other
    &&& e.spec_reason() == Some("unexpected channel cancel"@)
    &&& !e.spec_has_io_error()
}

/// Routes a message that arrived from `addr`.
///
/// A request goes to whoever receives requests. A response takes the pending
/// request with its address and request id out of the table, and goes to its
/// sender; where none is pending, it is dropped.
pub fn route_incoming<S>(
    map: &mut AwaitingRequestMap<S>,
    msg: RpcMessage,
    addr: PeerAddr,
) -> (r: Incoming<S>)
    requires
        old(map).wf(),
    ensures
        final(map).wf(),
        final(map).spec_current_rid() == old(map).spec_current_rid(),
        RpcHeader::flags_mark_request(msg.spec_flags()) ==> {
            &&& r == Incoming::<S>::Request(msg, addr)
            &&& final(map).pending() == old(map).pending()
        },
        !RpcHeader::flags_mark_request(msg.spec_flags()) ==> {
            &&& final(map).pending() == old(map).pending().remove((addr, msg.spec_rid()))
            &&& old(map).pending().contains_key((addr, msg.spec_rid())) ==> r == Incoming::Response(
                old(map).pending()[(addr, msg.spec_rid())],
                msg,
            )
            &&& !old(map).pending().contains_key((addr, msg.spec_rid())) ==> r
                is Unsolicited
        },
{
    if msg.is_request() {
        Incoming::Request(msg, addr)
    } else {
        let rid = msg.request_id();
        match map.pop(addr, rid) {
            Some(sender) => Incoming::Response(sender, msg),
            None => Incoming::Unsolicited,
        }
    }
}

/// Prepares a request to `addr` with payload `data`: records `sender` under a
/// fresh request id and builds the datagram to send.
///
/// Fails, leaving no record, if the payload is longer than 65504 bytes.
pub fn prepare_request<S>(
    map: &mut AwaitingRequestMap<S>,
    addr: PeerAddr,
    sender: S,
    data: &[u8],
) -> (r: Result<(u16, Vec<u8>), Error>)
    requires
        old(map).wf(),
        old(map).spec_has_free_rid(addr),
    ensures
        final(map).wf(),
        final(map).spec_current_rid() == old(map).spec_next_rid(addr)->Some_0,
        r is Ok <==> data@.len() <= MAX_PAYLOAD_LEN,
        r matches Ok((rid, frame)) ==> {
            &&& is_first_free_from(old(map).pending(), addr, old(map).spec_current_rid(), rid)
            &&& old(map).spec_next_rid(addr) == Some(rid)
            &&& !old(map).pending().contains_key((addr, rid))
            &&& final(map).pending() == old(map).pending().insert((addr, rid), sender)
            &&& frame@ == spec_frame(0, rid, data@)
        },
        r matches Err(e) ==> {
            &&& is_oversize_error(e)
            &&& final(map).pending() == old(map).pending()
        },
{
    let rid = map.put(addr, sender);
    let header = RpcHeader::request_from_rid(rid);
    match RpcMessage::frame(header, data) {
        Ok(frame) => Ok((rid, frame)),
        Err(err) => {
            let _ = map.pop(addr, rid);
            proof {
                assert(map.pending() =~= old(map).pending());
            }
            Err(err)
        },
    }
}

/// Concludes sending a request: given what the socket reported, returns the
/// number of payload bytes sent, or, where sending failed, drops the
/// request's record and passes the error on.
pub fn conclude_request<S>(
    map: &mut AwaitingRequestMap<S>,
    addr: PeerAddr,
    rid: u16,
    sent: Result<usize, Error>,
) -> (r: Result<usize, Error>)
    requires
        old(map).wf(),
        sent matches Ok(n) ==> n >= HEADER_LEN,
    ensures
        final(map).wf(),
        final(map).spec_current_rid() == old(map).spec_current_rid(),
        sent matches Ok(n) ==> (r matches Ok(m) && m == n - HEADER_LEN),
        sent matches Ok(_) ==> final(map).pending() == old(map).pending(),
        sent is Err ==> r == sent,
        sent is Err ==> final(map).pending() == old(map).pending().remove((addr, rid)),
{
    match sent {
        Ok(n) => Ok(RpcMessage::payload_sent(n)),
        Err(err) => {
            let _ = map.pop(addr, rid);
            Err(err)
        },
    }
}

/// Hands out a received request: writes its payload to `buf` and returns the
/// number of bytes written, the request's origin and its header, from which
/// to respond.
///
/// Fails if the channel of requests has closed (`next` is `None`).
pub fn accept_request(next: Option<(RpcMessage, PeerAddr)>, buf: &mut [u8]) -> (r: Result<
    (usize, PeerAddr, RpcHeader),
    Error,
>)
    ensures
        next is None ==> (r matches Err(e) && is_channel_closed_error(e)),
        next is None ==> final(buf)@ == old(buf)@,
        next matches Some((msg, origin)) ==> (r matches Ok((n, o, header)) && {
            &&& n == copied_len(msg.payload().len(), old(buf)@.len())
            &&& final(buf)@ == written_buffer(old(buf)@, msg.payload())
            &&& o == origin
            &&& header.spec_flags() == msg.spec_flags()
            &&& header.spec_rid() == msg.spec_rid()
        }),
{
    match next {
        Some((msg, origin)) => {
            let read = msg.write_to_buffer(buf);
            let header = msg.split();
            Ok((read, origin, header))
        },
        None => Err(Error::other("unexpected channel close")),
    }
}

/// Completes the wait for a response: writes its payload to `rsp_buf` and
/// returns the number of bytes written.
///
/// Fails if the response's sender went away (`rsp` is `None`).
pub fn deliver_response(rsp: Option<RpcMessage>, rsp_buf: &mut [u8]) -> (r: Result<usize, Error>)
    ensures
        rsp is None ==> (r matches Err(e) && is_channel_cancel_error(e)),
        rsp is None ==> final(rsp_buf)@ == old(rsp_buf)@,
        rsp matches Some(msg) ==> (r matches Ok(n) && {
            &&& n == copied_len(msg.payload().len(), old(rsp_buf)@.len())
            &&& final(rsp_buf)@ == written_buffer(old(rsp_buf)@, msg.payload())
        }),
{
    match rsp {
        Some(msg) => Ok(msg.write_to_buffer(rsp_buf)),
        None => Err(Error::other("unexpected channel cancel")),
    }
}

/// Builds the datagram that responds to the request whose header is given:
/// the header's request bit is flipped, which on a request's header marks a
/// response, and the request id is kept.
///
/// Fails if the payload is longer than 65504 bytes.
pub fn prepare_response(header: RpcHeader, data: &[u8]) -> (r: Result<Vec<u8>, Error>)
    ensures
        r is Ok <==> data@.len() <= MAX_PAYLOAD_LEN,
        r matches Ok(frame) ==> frame@ == spec_frame(
            header.spec_flags() ^ 1u8,
            header.spec_rid(),
            data@,
        ),
        r matches Err(e) ==> is_oversize_error(e),
{
    let mut header = header;
    header.flip_request();
    RpcMessage::frame(header, data)
}

/// A response reaches its request: the message read from the datagram that
/// `prepare_response` builds for a request with id `rid` is no request, has
/// that request id and carries the payload; so where a request to the
/// responder's address is pending under `rid`, routing the message hands it to
/// that request's sender.
pub proof fn law_response_finds_its_request<S>(
    pending: Map<RequestKey, S>,
    addr: PeerAddr,
    flags: u8,
    rid: u16,
    data: Seq<u8>,
    msg: RpcMessage,
)
    requires
        RpcHeader::flags_mark_request(flags),
        pending.contains_key((addr, rid)),
        msg.datagram() == spec_frame(flags ^ 1u8, rid, data),
    ensures
        !RpcHeader::flags_mark_request(msg.spec_flags()),
        msg.spec_rid() == rid,
        msg.payload() == data,
        pending.contains_key((addr, msg.spec_rid())),
{
    law_frame_reads_back(flags ^ 1u8, rid, data);
    law_flip_flags(flags);
}

/// Echoing a request: the datagram that answers a request with the request's
/// own payload differs from the request's datagram only in its first byte,
/// which is one more.
pub proof fn law_echo_response(request: Seq<u8>)
    requires
        holds_header(request),
        RpcHeader::flags_mark_request(flags_of(request)),
    ensures
        spec_frame(flags_of(request) ^ 1u8, rid_in(request), payload_of(request)).len()
            == request.len(),
        spec_frame(flags_of(request) ^ 1u8, rid_in(request), payload_of(request))[0] == request[0]
            + 1,
        spec_frame(flags_of(request) ^ 1u8, rid_in(request), payload_of(request)).subrange(
            1,
            request.len() as int,
        ) == request.subrange(1, request.len() as int),
{
    law_datagram_is_frame(request);
    law_flip_flags(flags_of(request));
    let response = spec_frame(flags_of(request) ^ 1u8, rid_in(request), payload_of(request));
    assert(response.subrange(1, request.len() as int) =~= request.subrange(
        1,
        request.len() as int,
    ));
}

/// The requests among a run of arrivals, in the order they arrived.
pub open spec fn requests_among(arrivals: Seq<(RpcMessage, PeerAddr)>) -> Seq<
    (RpcMessage, PeerAddr),
>
    decreases arrivals.len(),
{
    if arrivals.len() == 0 {
        Seq::empty()
    } else {
        let earlier = requests_among(arrivals.drop_last());
        if RpcHeader::flags_mark_request(arrivals.last().0.spec_flags()) {
            earlier.push(arrivals.last())
        } else {
            earlier
        }
    }
}

/// The messages that a run of routing outcomes hands on as requests, in
/// order.
pub open spec fn handed_on<S>(outcomes: Seq<Incoming<S>>) -> Seq<(RpcMessage, PeerAddr)>
    decreases outcomes.len(),
{
    if outcomes.len() == 0 {
        Seq::empty()
    } else {
        let earlier = handed_on(outcomes.drop_last());
        match outcomes.last() {
            Incoming::Request(msg, addr) => earlier.push((msg, addr)),
            _ => earlier,
        }
    }
}

/// Routing a run of arrivals one by one, as `route_incoming` does, hands on
/// exactly the requests among them, in the order they arrived; no response is
/// ever handed on as a request.
pub proof fn law_requests_pass_in_order<S>(
    arrivals: Seq<(RpcMessage, PeerAddr)>,
    outcomes: Seq<Incoming<S>>,
)
    requires
        outcomes.len() == arrivals.len(),
        forall|i: int|
            0 <= i < arrivals.len() && RpcHeader::flags_mark_request(
                #[trigger] arrivals[i].0.spec_flags(),
            ) ==> outcomes[i] == Incoming::<S>::Request(arrivals[i].0, arrivals[i].1),
        forall|i: int|
            0 <= i < arrivals.len() && !RpcHeader::flags_mark_request(
                #[trigger] arrivals[i].0.spec_flags(),
            ) ==> !(outcomes[i] is Request),
    ensures
        handed_on(outcomes) == requests_among(arrivals),
    decreases arrivals.len(),
{
    if arrivals.len() > 0 {
        let n = arrivals.len() - 1;
        assert(arrivals.drop_last().len() == n);
        assert forall|i: int| 0 <= i < n implies #[trigger] arrivals.drop_last()[i] == arrivals[i]
            && outcomes.drop_last()[i] == outcomes[i] by {}
        law_requests_pass_in_order(arrivals.drop_last(), outcomes.drop_last());
        let _ = arrivals[n].0.spec_flags();
    }
}

/// The echo round trip: a request with payload `req` sent under `rid`, read
/// by a server into a buffer large enough, answered with what was read, and
/// read back by the client into `rsp_buf`, gives the client the first
/// `min(req.len(), rsp_buf.len())` bytes of `req`, in a response under `rid`.
pub proof fn law_echo_round_trip(rid: u16, req: Seq<u8>, server_buf: Seq<u8>, rsp_buf: Seq<u8>)
    requires
        req.len() <= MAX_PAYLOAD_LEN,
        server_buf.len() >= req.len(),
    ensures
        ({
            let request = spec_frame(0, rid, req);
            let read = copied_len(payload_of(request).len(), server_buf.len());
            let echoed = written_buffer(server_buf, payload_of(request)).subrange(0, read as int);
            let response = spec_frame(flags_of(request) ^ 1u8, rid_in(request), echoed);
            let n = copied_len(payload_of(response).len(), rsp_buf.len());
            &&& read == req.len()
            &&& holds_header(response)
            &&& !RpcHeader::flags_mark_request(flags_of(response))
            &&& rid_in(response) == rid
            &&& n == copied_len(req.len(), rsp_buf.len())
            &&& written_buffer(rsp_buf, payload_of(response)).subrange(0, n as int)
                == req.subrange(0, n as int)
        }),
{
    law_frame_reads_back(0, rid, req);
    let request = spec_frame(0, rid, req);
    let read = copied_len(payload_of(request).len(), server_buf.len());
    let echoed = written_buffer(server_buf, payload_of(request)).subrange(0, read as int);
    assert(echoed =~= req);
    law_flip_flags(0);
    law_frame_reads_back(0u8 ^ 1u8, rid, req);
    let response = spec_frame(0u8 ^ 1u8, rid, req);
    let n = copied_len(req.len(), rsp_buf.len());
    assert(written_buffer(rsp_buf, payload_of(response)).subrange(0, n as int) =~= req.subrange(
        0,
        n as int,
    ));
}

} // verus!
