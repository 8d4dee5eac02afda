use vrift::blob_path::{retry_staging, staging_mode, staging_path};
use vrift::blob_path::{format_blob_path_fixed, hex_encode_fixed};
use vrift::state::FixedString;

#[test]
fn test_hex_encode_fixed() {
    let mut h = [0u8; 32];
    h[0] = 0xab;
    h[1] = 0x01;
    h[31] = 0xff;
    let hex = hex_encode_fixed(&h);
    let s = hex.as_str();
    assert_eq!(s.len(), 64);
    assert!(s.starts_with("ab01"));
    assert!(s.ends_with("ff"));
}

#[test]
fn test_format_blob_path() {
    let mut root = FixedString::<1024>::new();
    root.set("/cas");
    let h = [0x12u8; 32];
    let p = format_blob_path_fixed(&root, &h, 42);
    let hex = "12".repeat(32);
    assert_eq!(p.as_str(), format!("/cas/blake3/12/12/{}_42.bin", hex));
    let p0 = format_blob_path_fixed(&root, &h, 0);
    assert!(p0.as_str().ends_with("_0.bin"));
}

#[test]
fn test_staging_path_and_mode() {
    let mut root = vrift::state::FixedString::<1024>::new();
    root.set("/home/u/proj");
    let p = staging_path(&root, 42, 1700000000123, 7, 0);
    assert_eq!(p.as_str(), "/home/u/proj/.vrift/staging/vrift_cow_42_1700000000123_7_0.tmp");
    assert_eq!(staging_mode(0o755), 0o755);
    assert_eq!(staging_mode(0o444), 0o644);
    assert!(retry_staging(0, true));
    assert!(retry_staging(98, true));
    assert!(!retry_staging(99, true));
    assert!(!retry_staging(3, false));
}
