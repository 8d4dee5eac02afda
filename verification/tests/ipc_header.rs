use vrift::ipc::frame_sync::{self, FrameError};
use vrift::ipc::{
    default_socket_path, is_version_compatible, next_seq_id, FrameType, IpcHeader, IPC_MAGIC,
    PROTOCOL_VERSION,
};
use vrift::velo_error::{VeloError, VeloErrorKind};

#[test]
fn test_default_socket_path() {
    let path = default_socket_path();
    assert!(!path.is_empty());
    assert!(path.ends_with(".sock"));
}

#[test]
fn test_ipc_header_size() {
    assert_eq!(IpcHeader::SIZE, 8);
    assert_eq!(std::mem::size_of::<IpcHeader>(), 8);
}

#[test]
fn test_ipc_header_roundtrip() {
    let header = IpcHeader::new_request(1234, 42);
    let bytes = header.to_bytes();
    let decoded = IpcHeader::from_bytes(&bytes);

    assert_eq!(decoded.magic, IPC_MAGIC);
    assert_eq!(decoded.length, 1234);
    assert_eq!(decoded.frame_type(), Some(FrameType::Request));
    assert_eq!(decoded.seq_id, 42);
    assert_eq!(decoded.version(), PROTOCOL_VERSION as u8);
    assert!(decoded.is_valid());
}

#[test]
fn test_ipc_header_types() {
    let req = IpcHeader::new_request(100, 1);
    assert_eq!(req.frame_type(), Some(FrameType::Request));
    assert_eq!(req.version(), 3);

    let resp = IpcHeader::new_response(200, 2);
    assert_eq!(resp.frame_type(), Some(FrameType::Response));

    let hb = IpcHeader::new_heartbeat(3);
    assert_eq!(hb.frame_type(), Some(FrameType::Heartbeat));
    assert_eq!(hb.length, 0);
}

#[test]
fn test_ipc_header_invalid_magic() {
    let mut bytes = IpcHeader::new_request(100, 1).to_bytes();
    bytes[0] = b'X';
    let decoded = IpcHeader::from_bytes(&bytes);
    assert!(!decoded.is_valid());
}

#[test]
fn test_ipc_header_max_length() {
    let header = IpcHeader::new_request(65535, 0);
    assert_eq!(header.length, 65535);
    assert_eq!(IpcHeader::MAX_LENGTH, 65535);
}

#[test]
fn test_version_compatibility() {
    assert!(!is_version_compatible(0));
    assert!(is_version_compatible(1));
    assert!(is_version_compatible(2));
    assert!(is_version_compatible(3));
    assert!(!is_version_compatible(4));
    assert!(!is_version_compatible(100));
}

#[test]
fn test_velo_error_set_path() {
    let error = VeloError::not_found("File not found").set_path("/some/path.txt");

    assert_eq!(error.path, Some("/some/path.txt".to_string()));
}

#[test]
fn test_velo_error_display() {
    let error = VeloError::permission_denied("Access denied");
    let display = error.describe();

    assert!(display.contains("PermissionDenied"));
    assert!(display.contains("Access denied"));
}

#[test]
fn test_velo_error_display_with_path() {
    let error = VeloError::with_path(VeloErrorKind::InvalidPath, "Path traversal", "/etc/passwd");
    let display = error.describe();

    assert!(display.contains("InvalidPath"));
    assert!(display.contains("/etc/passwd"));
}

#[test]
fn test_velo_error_exit_codes() {
    assert_eq!(VeloError::not_found("").exit_code(), 2);
    assert_eq!(VeloError::workspace_not_registered().exit_code(), 2);
    assert_eq!(VeloError::invalid_path("").exit_code(), 22);
    assert_eq!(VeloError::permission_denied("").exit_code(), 77);
    assert_eq!(VeloError::new(VeloErrorKind::LockFailed, "").exit_code(), 78);
    assert_eq!(VeloError::new(VeloErrorKind::IngestFailed, "").exit_code(), 79);
    assert_eq!(VeloError::io_error("").exit_code(), 1);
    assert_eq!(VeloError::internal("").exit_code(), 1);
}

#[test]
fn test_header_bytes_layout() {
    // magic "VR", type/version byte (request = 0 << 4 | 3), flags, length and seq id little-endian
    let bytes = IpcHeader::new_request(0x0102, 0x0304).to_bytes();
    assert_eq!(bytes, [b'V', b'R', 0x03, 0x00, 0x02, 0x01, 0x04, 0x03]);
    let hb = IpcHeader::new_heartbeat(7).to_bytes();
    assert_eq!(hb[2], 0x23);
}

#[test]
fn test_frame_type_codes() {
    assert_eq!(FrameType::try_from_u8(0), Ok(FrameType::Request));
    assert_eq!(FrameType::try_from_u8(1), Ok(FrameType::Response));
    assert_eq!(FrameType::try_from_u8(2), Ok(FrameType::Heartbeat));
    assert_eq!(FrameType::try_from_u8(3), Err(()));
}

#[test]
fn test_next_seq_id_wraps() {
    let mut counter: u16 = 65535;
    assert_eq!(next_seq_id(&mut counter), 65535);
    assert_eq!(counter, 0);
    assert_eq!(next_seq_id(&mut counter), 0);
    assert_eq!(counter, 1);
}

#[test]
fn test_read_header_rejects_bad_magic() {
    let mut bytes = IpcHeader::new_request(10, 1).to_bytes();
    bytes[1] = b'Z';
    assert!(matches!(frame_sync::read_header(&bytes), Err(FrameError::InvalidMagic)));
    let good = IpcHeader::new_response(10, 1).to_bytes();
    let h = frame_sync::read_header(&good).ok().unwrap();
    assert_eq!(h.length, 10);
}
