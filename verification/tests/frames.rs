use vrift::ipc::frame_async;
use vrift::ipc::frame_sync::{is_heartbeat, read_header, send_heartbeat, send_request, send_response, FrameError};
use vrift::ipc::{next_seq_id, FrameType, IpcHeader};

#[test]
fn test_frame_sync_roundtrip() {
    // payload of an already-serialized request
    let payload: &[u8] = &[7, 0, 0, 0];
    let mut counter: u16 = 41;
    let (frame, seq_id) = send_request(payload, &mut counter).ok().unwrap();
    assert_eq!(seq_id, 41);
    assert_eq!(counter, 42);
    assert_eq!(frame.len(), 8 + payload.len());
    let mut head = [0u8; 8];
    head.copy_from_slice(&frame[..8]);
    let header = read_header(&head).ok().unwrap();
    assert_eq!(header.seq_id, seq_id);
    assert_eq!(header.length as usize, payload.len());
    assert_eq!(header.frame_type(), Some(FrameType::Request));
    assert_eq!(&frame[8..], payload);
}

#[test]
fn test_frame_sync_response_roundtrip() {
    let payload = b"StatusAck OK";
    let frame = send_response(payload, 42).ok().unwrap();
    let mut head = [0u8; 8];
    head.copy_from_slice(&frame[..8]);
    let header = read_header(&head).ok().unwrap();
    assert_eq!(header.seq_id, 42);
    assert_eq!(header.frame_type(), Some(FrameType::Response));
    assert_eq!(&frame[8..], payload);
}

#[test]
fn test_frame_errors_and_heartbeat() {
    let big = vec![0u8; IpcHeader::MAX_LENGTH + 1];
    let mut counter: u16 = 5;
    assert!(matches!(send_request(&big, &mut counter), Err(FrameError::PayloadTooLarge)));
    assert_eq!(counter, 5);
    assert!(matches!(send_response(&big, 1), Err(FrameError::PayloadTooLarge)));
    assert!(send_response(&big[..IpcHeader::MAX_LENGTH], 1).is_ok());
    assert!(matches!(read_header(&[0u8; 8]), Err(FrameError::InvalidMagic)));
    let mut c: u16 = u16::MAX;
    let (hb, id) = send_heartbeat(&mut c);
    assert_eq!(id, u16::MAX);
    assert_eq!(c, 0);
    let h = read_header(&hb).ok().unwrap();
    assert!(is_heartbeat(&h));
    assert!(frame_async::is_heartbeat(&h));
    assert_eq!(h.length, 0);
    let mut s: u16 = 9;
    assert_eq!(next_seq_id(&mut s), 9);
    assert_eq!(s, 10);
}
