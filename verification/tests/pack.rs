use vrift::pack::{blob_slice, AccessProfile, PackError, PackHeader, PackIndexEntry, PackReader, PackWriter, PACK_MAGIC};

#[test]
fn test_pack_writer_offsets() {
    let mut w = PackWriter::new("out.pack".to_string());
    w.add([1u8; 32], b"Hello, world!");
    w.add([2u8; 32], b"Goodbye, world!");
    assert_eq!(w.entries().len(), 2);
    assert_eq!(w.entries()[0].offset, 0);
    assert_eq!(w.entries()[0].length, 13);
    assert_eq!(w.entries()[1].offset, 13);
    assert_eq!(w.entries()[1].length, 15);
    assert_eq!(w.data().len(), 28);
    let h = w.finish_header(104);
    assert_eq!(h.entry_count, 2);
    assert_eq!(h.index_offset, 32);
    assert_eq!(h.data_offset, 136);
    assert_eq!(w.output_path(), "out.pack");
}

#[test]
fn test_pack_header_validate() {
    assert!(PackHeader::new(0, 32, 32).validate().is_ok());
    let mut h = PackHeader::new(0, 32, 32);
    h.version = 9;
    match h.validate() {
        Err(PackError::Invalid(m)) => assert_eq!(m, "Unsupported version: 9"),
        _ => panic!("expected invalid version"),
    }
    let mut h2 = PackHeader::new(0, 32, 32);
    h2.magic[0] = b'X';
    match h2.validate() {
        Err(PackError::Invalid(m)) => assert_eq!(m, "Bad magic bytes"),
        _ => panic!("expected bad magic"),
    }
    assert_eq!(&PACK_MAGIC, b"VELOPACK");
}

#[test]
fn test_pack_reader_get() {
    let file: Vec<u8> = b"HEADERHello".to_vec();
    let idx = vec![
        PackIndexEntry { hash: [7u8; 32], offset: 0, length: 5 },
        PackIndexEntry { hash: [8u8; 32], offset: 3, length: 10 },
    ];
    let r = PackReader::new(file, idx, 6);
    assert_eq!(r.get(&[7u8; 32]).ok().unwrap(), b"Hello");
    assert!(r.contains(&[8u8; 32]));
    match r.get(&[8u8; 32]) {
        Err(PackError::Invalid(m)) => assert_eq!(m, "Blob extends past EOF"),
        _ => panic!("expected past EOF"),
    }
    match r.get(&[9u8; 32]) {
        Err(PackError::NotFound { hash }) => assert_eq!(hash, "09".repeat(32)),
        _ => panic!("expected not found"),
    }
    assert!(!r.contains(&[9u8; 32]));
}

#[test]
fn test_pack_reader_last_entry_wins() {
    let file: Vec<u8> = b"abcdef".to_vec();
    let idx = vec![
        PackIndexEntry { hash: [1u8; 32], offset: 0, length: 2 },
        PackIndexEntry { hash: [1u8; 32], offset: 2, length: 2 },
    ];
    let r = PackReader::new(file, idx, 0);
    assert_eq!(r.get(&[1u8; 32]).ok().unwrap(), b"cd");
}

#[test]
fn test_blob_slice_bounds() {
    let e = PackIndexEntry { hash: [0u8; 32], offset: 1, length: 2 };
    assert_eq!(blob_slice(b"xyz", 0, &e).ok().unwrap(), b"yz");
    assert!(blob_slice(b"xyz", 1, &e).is_err());
}

#[test]
fn test_access_profile() {
    let mut p = AccessProfile::new();
    p.record([1u8; 32]);
    p.record([2u8; 32]);
    p.record([1u8; 32]);
    assert_eq!(p.access_order, vec![[1u8; 32], [2u8; 32]]);
}

#[test]
fn test_pack_reader_hashes_and_len() {
    let idx = vec![
        PackIndexEntry { hash: [3u8; 32], offset: 0, length: 1 },
        PackIndexEntry { hash: [1u8; 32], offset: 1, length: 1 },
        PackIndexEntry { hash: [3u8; 32], offset: 2, length: 1 },
    ];
    let r = PackReader::new(b"abc".to_vec(), idx, 0);
    assert_eq!(r.hashes(), vec![[3u8; 32], [1u8; 32]]);
    assert_eq!(r.len(), 2);
    assert!(!r.is_empty());
    let empty = PackReader::new(Vec::new(), Vec::new(), 32);
    assert_eq!(empty.len(), 0);
    assert!(empty.is_empty());
}

#[test]
fn test_pack_read_back_after_add() {
    let mut w = PackWriter::new("p.pack".to_string());
    w.add([1u8; 32], b"Hello, world!");
    w.add([2u8; 32], b"Goodbye, world!");
    w.add([1u8; 32], b"again");
    let data_offset: u64 = 40;
    let mut file = vec![0u8; data_offset as usize];
    file.extend_from_slice(w.data());
    let r = PackReader::new(file, w.entries().clone(), data_offset);
    assert_eq!(r.get(&[2u8; 32]).ok().unwrap(), b"Goodbye, world!");
    assert_eq!(r.get(&[1u8; 32]).ok().unwrap(), b"again");
    assert_eq!(r.len(), 2);
}
