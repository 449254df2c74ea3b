use aurpc::error::ErrorKind;
use aurpc::message::{RpcHeader, RpcMessage, HEADER_LEN, MAX_PAYLOAD_LEN, MAX_UDP_LEN};

#[test]
fn request_header_is_a_request() {
    let h = RpcHeader::request_from_rid(7);
    assert!(h.is_request());
}

#[test]
fn flipped_header_is_a_response() {
    let mut h = RpcHeader::request_from_rid(7);
    assert!(!h.flip_request());
    assert!(!h.is_request());
}

#[test]
fn flipping_twice_restores_the_header() {
    let mut h = RpcHeader::request_from_rid(7);
    h.flip_request();
    assert!(h.flip_request());
    assert!(h.is_request());
    let frame = RpcMessage::frame(h, &[]).unwrap();
    assert_eq!(frame, vec![0, 0, 7]);
}

#[test]
fn flipping_a_response_header_gives_a_request() {
    let msg = RpcMessage::from_datagram(&[0b101, 0, 9]).unwrap();
    let mut h = msg.split();
    assert!(!h.is_request());
    assert!(h.flip_request());
    let frame = RpcMessage::frame(h, &[]).unwrap();
    assert_eq!(frame, vec![0b100, 0, 9]);
}

#[test]
fn frame_spells_header_then_payload() {
    let frame = RpcMessage::frame(RpcHeader::request_from_rid(0x0102), &[9, 8]).unwrap();
    assert_eq!(frame, vec![0, 1, 2, 9, 8]);
    let frame = RpcMessage::frame(RpcHeader::request_from_rid(0xabcd), &[]).unwrap();
    assert_eq!(frame, vec![0, 0xab, 0xcd]);
}

#[test]
fn frame_refuses_oversize_payload() {
    let data = vec![0u8; MAX_PAYLOAD_LEN + 1];
    let err = RpcMessage::frame(RpcHeader::request_from_rid(1), &data).unwrap_err();
    assert_eq!(err.kind(), ErrorKind::InvalidInput);
    assert_eq!(err.reason(), Some("buffer longer than 65504 bytes"));
    assert!(err.io_error().is_none());
}

#[test]
fn frame_takes_largest_payload() {
    let data = vec![5u8; MAX_PAYLOAD_LEN];
    let frame = RpcMessage::frame(RpcHeader::request_from_rid(1), &data).unwrap();
    assert_eq!(frame.len(), MAX_UDP_LEN);
}

#[test]
fn short_datagram_is_no_message() {
    assert!(RpcMessage::from_datagram(&[]).is_none());
    assert!(RpcMessage::from_datagram(&[0, 1]).is_none());
    assert!(RpcMessage::from_datagram(&[0, 1, 2]).is_some());
}

#[test]
fn datagram_reads_back_its_frame() {
    let frame = RpcMessage::frame(RpcHeader::request_from_rid(0xbeef), &[1, 2, 3]).unwrap();
    let msg = RpcMessage::from_datagram(&frame).unwrap();
    assert_eq!(msg.request_id(), 0xbeef);
    assert!(msg.is_request());
    let mut buf = [0u8; 3];
    assert_eq!(msg.write_to_buffer(&mut buf), 3);
    assert_eq!(buf, [1, 2, 3]);
}

#[test]
fn response_datagram_is_no_request() {
    let msg = RpcMessage::from_datagram(&[0b11, 0, 4, 7]).unwrap();
    assert!(!msg.is_request());
    assert_eq!(msg.request_id(), 4);
    let header = msg.split();
    assert!(!header.is_request());
}

#[test]
fn write_to_buffer_truncates() {
    let msg = RpcMessage::from_datagram(&[0, 0, 1, 10, 11, 12, 13]).unwrap();
    let mut small = [0u8; 2];
    assert_eq!(msg.write_to_buffer(&mut small), 2);
    assert_eq!(small, [10, 11]);
    let mut large = [9u8; 6];
    assert_eq!(msg.write_to_buffer(&mut large), 4);
    assert_eq!(large, [10, 11, 12, 13, 9, 9]);
}

#[test]
fn payload_sent_drops_header() {
    assert_eq!(RpcMessage::payload_sent(HEADER_LEN), 0);
    assert_eq!(RpcMessage::payload_sent(9), 6);
}
