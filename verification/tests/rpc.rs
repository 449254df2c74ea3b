use aurpc::addr::PeerAddr;
use aurpc::awaiting::AwaitingRequestMap;
use aurpc::error::{Error, ErrorKind};
use aurpc::message::{RpcHeader, RpcMessage, MAX_PAYLOAD_LEN};
use aurpc::rpc::{
    accept_request, conclude_request, deliver_response, prepare_request, prepare_response,
    route_incoming, Incoming,
};

fn peer() -> PeerAddr {
    PeerAddr::V4 { ip4: 0x7f000001, port: 8080 }
}

#[test]
fn request_is_routed_to_receiver() {
    let mut map: AwaitingRequestMap<u8> = AwaitingRequestMap::new();
    let msg = RpcMessage::from_datagram(&[0, 0, 0, 1]).unwrap();
    match route_incoming(&mut map, msg, peer()) {
        Incoming::Request(m, a) => {
            assert_eq!(a, peer());
            assert_eq!(m.request_id(), 0);
        }
        _ => panic!("request not routed as request"),
    }
    // The table keeps its record of nothing.
    assert_eq!(map.pop(peer(), 0), None);
}

#[test]
fn response_reaches_pending_request() {
    let mut map = AwaitingRequestMap::new();
    let (rid, frame) = prepare_request(&mut map, peer(), "sender", &[4, 2]).unwrap();
    assert_eq!(frame, vec![0, (rid >> 8) as u8, rid as u8, 4, 2]);

    // The peer answers with the request's header.
    let request = RpcMessage::from_datagram(&frame).unwrap();
    let response = prepare_response(request.split(), &[6, 6, 6]).unwrap();
    let msg = RpcMessage::from_datagram(&response).unwrap();
    match route_incoming(&mut map, msg, peer()) {
        Incoming::Response(sender, m) => {
            assert_eq!(sender, "sender");
            let mut buf = [0u8; 8];
            assert_eq!(deliver_response(Some(m), &mut buf).unwrap(), 3);
            assert_eq!(&buf[..3], &[6, 6, 6]);
        }
        _ => panic!("response not routed to its request"),
    }
    // The record is gone: the same response again is unsolicited.
    let msg = RpcMessage::from_datagram(&response).unwrap();
    assert!(matches!(route_incoming(&mut map, msg, peer()), Incoming::Unsolicited));
}

#[test]
fn response_from_other_address_is_unsolicited() {
    let mut map = AwaitingRequestMap::new();
    let (rid, _) = prepare_request(&mut map, peer(), 1u8, &[]).unwrap();
    let other = PeerAddr::V4 { ip4: 0x7f000001, port: 8081 };
    let msg = RpcMessage::from_datagram(&[1, (rid >> 8) as u8, rid as u8]).unwrap();
    assert!(matches!(route_incoming(&mut map, msg, other), Incoming::Unsolicited));
    assert_eq!(map.pop(peer(), rid), Some(1));
}

#[test]
fn oversize_request_leaves_no_record() {
    let mut map = AwaitingRequestMap::new();
    let data = vec![0u8; MAX_PAYLOAD_LEN + 1];
    let err = prepare_request(&mut map, peer(), 5u8, &data).unwrap_err();
    assert_eq!(err.kind(), ErrorKind::InvalidInput);
    assert_eq!(err.reason(), Some("buffer longer than 65504 bytes"));
    assert_eq!(map.pop(peer(), 0), None);
}

#[test]
fn accept_request_hands_out_payload_and_header() {
    let msg = RpcMessage::from_datagram(&[0, 0x12, 0x34, 1, 2, 3]).unwrap();
    let mut buf = [0u8; 2];
    let (n, origin, header) = accept_request(Some((msg, peer())), &mut buf).unwrap();
    assert_eq!(n, 2);
    assert_eq!(buf, [1, 2]);
    assert_eq!(origin, peer());
    assert!(header.is_request());
    let frame = prepare_response(header, &[7]).unwrap();
    assert_eq!(frame, vec![1, 0x12, 0x34, 7]);
}

#[test]
fn accept_request_on_closed_channel_fails() {
    let mut buf = [3u8; 2];
    let err = accept_request(None, &mut buf).unwrap_err();
    assert_eq!(err.kind(), ErrorKind::Other);
    assert_eq!(err.reason(), Some("unexpected channel close"));
    assert_eq!(buf, [3, 3]);
}

#[test]
fn cancelled_response_fails() {
    let mut buf = [3u8; 2];
    let err = deliver_response(None, &mut buf).unwrap_err();
    assert_eq!(err.kind(), ErrorKind::Other);
    assert_eq!(err.reason(), Some("unexpected channel cancel"));
    assert_eq!(buf, [3, 3]);
}

#[test]
fn oversize_response_fails() {
    let header = RpcHeader::request_from_rid(3);
    let data = vec![0u8; MAX_PAYLOAD_LEN + 1];
    let err: Error = prepare_response(header, &data).unwrap_err();
    assert_eq!(err.kind(), ErrorKind::InvalidInput);
}

#[test]
fn echo_response_differs_only_in_first_byte() {
    // A client sends a raw datagram; the server echoes the payload back.
    let msg: [u8; 6] = [0, 1, 2, 3, 4, 5];
    let request = RpcMessage::from_datagram(&msg).unwrap();
    let mut buf = [0u8; 256];
    let (bytes_read, _, header) = accept_request(Some((request, peer())), &mut buf).unwrap();
    let rsp_msg = prepare_response(header, &buf[..bytes_read]).unwrap();
    assert_eq!(rsp_msg.len(), msg.len());
    assert_eq!(msg[0] + 1, rsp_msg[0]);
    assert_eq!(&msg[1..], &rsp_msg[1..]);
}

#[test]
fn concluded_send_counts_payload_bytes() {
    let mut map = AwaitingRequestMap::new();
    let (rid, frame) = prepare_request(&mut map, peer(), 3u8, &[1, 2, 3, 4]).unwrap();
    assert_eq!(conclude_request(&mut map, peer(), rid, Ok(frame.len())).unwrap(), 4);
    // The request stays pending.
    assert_eq!(map.pop(peer(), rid), Some(3));
}

#[test]
fn failed_send_drops_the_record() {
    let mut map = AwaitingRequestMap::new();
    let (rid, _) = prepare_request(&mut map, peer(), 3u8, &[1]).unwrap();
    let failure = Error::from(std::io::Error::from(std::io::ErrorKind::ConnectionRefused));
    let err = conclude_request(&mut map, peer(), rid, Err(failure)).unwrap_err();
    assert_eq!(err.kind(), ErrorKind::Io);
    assert_eq!(
        err.io_error().map(|e| e.kind()),
        Some(std::io::ErrorKind::ConnectionRefused)
    );
    assert_eq!(map.pop(peer(), rid), None);
}

#[test]
fn echo_round_trip_hello_world() {
    // Client side: send the request.
    let mut client = AwaitingRequestMap::new();
    let buf = b"hello, world";
    let (rid, frame) = prepare_request(&mut client, peer(), "future", &buf[..]).unwrap();
    let written = conclude_request(&mut client, peer(), rid, Ok(frame.len())).unwrap();
    assert_eq!(written, buf.len());

    // Server side: receive and echo.
    let mut server: AwaitingRequestMap<u8> = AwaitingRequestMap::new();
    let client_addr = PeerAddr::V4 { ip4: 0x7f000001, port: 5000 };
    let msg = RpcMessage::from_datagram(&frame).unwrap();
    let next = match route_incoming(&mut server, msg, client_addr) {
        Incoming::Request(m, a) => Some((m, a)),
        _ => None,
    };
    let mut server_buf = [0u8; 256];
    let (n, origin, header) = accept_request(next, &mut server_buf).unwrap();
    assert_eq!(origin, client_addr);
    let response = prepare_response(header, &server_buf[..n]).unwrap();

    // Client side: the response reaches the waiting future.
    let msg = RpcMessage::from_datagram(&response).unwrap();
    let mut rsp_buf = *buf;
    rsp_buf.iter_mut().for_each(|b| *b = 0);
    match route_incoming(&mut client, msg, peer()) {
        Incoming::Response(sender, m) => {
            assert_eq!(sender, "future");
            let read = deliver_response(Some(m), &mut rsp_buf).unwrap();
            assert_eq!(read, 12);
            assert_eq!(&rsp_buf, b"hello, world");
        }
        _ => panic!("response not routed to its request"),
    }
}
