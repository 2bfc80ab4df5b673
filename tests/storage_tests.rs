use kubos_core::ffi::{timespec, KADCSStatus, KI2CNum};
use kubos_core::storage::{
    assemble, chunk_count, chunk_index_of, chunk_indices, chunk_offset, file_hash, hex_encode, missing_ranges,
    ready_to_finalize, reassemble, ChunkCollector, split_chunks, StorageError, MAX_MISSING_RANGES,
};

#[test]
fn missing_ranges_are_the_gaps() {
    assert_eq!(missing_ranges(&vec![0, 1, 3], 6), vec![(2, 3), (4, 6)]);
    assert_eq!(missing_ranges(&vec![5, 3, 1], 6), vec![(0, 1), (2, 3), (4, 5)]);
    assert_eq!(missing_ranges(&vec![], 3), vec![(0, 3)]);
    assert_eq!(missing_ranges(&vec![], 0), vec![]);
    assert_eq!(missing_ranges(&vec![2, 0, 1, 1], 3), vec![]);
    assert_eq!(missing_ranges(&vec![0, 1, 9, 10], 3), vec![(2, 3)]);
}

#[test]
fn missing_ranges_are_capped() {
    let present: Vec<u32> = (0..1000).filter(|i| i % 2 == 1).collect();
    let ranges = missing_ranges(&present, 1000);
    assert_eq!(ranges.len(), MAX_MISSING_RANGES);
    for (k, r) in ranges.iter().enumerate() {
        assert_eq!(*r, (2 * k as u32, 2 * k as u32 + 1));
    }
}

#[test]
fn resumed_upload_asks_for_the_last_chunk() {
    assert_eq!(missing_ranges(&vec![0, 1], 3), vec![(2, 3)]);
    assert!(ready_to_finalize(&vec![0, 1], 3).is_err());
    assert_eq!(ready_to_finalize(&vec![0, 1, 2], 3), Ok(()));
}

#[test]
fn missing_chunk_blocks_finalize() {
    match ready_to_finalize(&vec![0, 2], 3) {
        Err(StorageError::FinalizeError { cause }) => assert_eq!(cause, "file missing chunks"),
        other => panic!("{:?}", other),
    }
}

#[test]
fn chunk_counts_and_offsets() {
    assert_eq!(chunk_count(10000, 4096), Ok(3));
    assert_eq!(chunk_count(8192, 4096), Ok(2));
    assert_eq!(chunk_count(0, 4096), Ok(0));
    assert_eq!(chunk_count(1, 1), Ok(1));
    assert_eq!(chunk_count(5, 0), Err(StorageError::OutOfRange));
    assert_eq!(chunk_count(u64::MAX, 1), Err(StorageError::OutOfRange));
    assert_eq!(chunk_offset(4096, 2), Ok(8192));
    assert_eq!(chunk_offset(u64::MAX, 2), Err(StorageError::OutOfRange));
}

#[test]
fn chunk_names() {
    assert_eq!(chunk_index_of("12"), Some(12));
    assert_eq!(chunk_index_of("007"), Some(7));
    assert_eq!(chunk_index_of("4294967295"), Some(u32::MAX));
    assert_eq!(chunk_index_of("4294967296"), None);
    assert_eq!(chunk_index_of("meta"), None);
    assert_eq!(chunk_index_of(".meta.tmp"), None);
    assert_eq!(chunk_index_of(""), None);
    assert_eq!(chunk_index_of("-1"), None);
}

#[test]
fn staging_entries_to_indices() {
    let names: Vec<String> =
        ["meta", "3", ".meta.tmp", "0", "x1", "2"].iter().map(|s| s.to_string()).collect();
    let indices = chunk_indices(&names);
    assert_eq!(indices, vec![3, 0, 2]);
    assert_eq!(missing_ranges(&indices, 5), vec![(1, 2), (4, 5)]);
}

#[test]
fn hex_and_hash() {
    assert_eq!(hex_encode(&[0x00, 0xab, 0xff, 0x10]), "00abff10");
    assert_eq!(file_hash(b""), "64550d6ffe2c0a01a14aba1eade0200c");
    let data: Vec<u8> = (0..40).flat_map(|_| 0..=255u8).collect();
    assert_eq!(file_hash(&data), "e35fbf405cf32a3a410014a86f36423d");
    assert_ne!(file_hash(&[0; 16]), hex_encode(&[0; 16]));
}

#[test]
fn upload_of_ten_thousand_bytes() {
    let data: Vec<u8> = (0..10000u32).map(|i| (i * 7 % 251) as u8).collect();
    let chunks = split_chunks(&data, 4096);
    assert_eq!(chunks.len(), 3);
    assert_eq!(chunk_count(data.len() as u64, 4096), Ok(3));
    assert_eq!(chunks.iter().map(|c| c.len()).collect::<Vec<_>>(), vec![4096, 4096, 1808]);
    let hash = file_hash(&data);
    assert_eq!(hash.len(), 32);
    assert_eq!(reassemble(&chunks, &hash), Ok(data.clone()));
    assert_eq!(assemble(&chunks), data);
}

#[test]
fn chunk_round_trip_small_sizes() {
    for len in 0..20usize {
        let data: Vec<u8> = (0..len as u8).collect();
        for size in 1..7usize {
            let chunks = split_chunks(&data, size);
            assert_eq!(chunks.len(), (len + size - 1) / size);
            assert_eq!(assemble(&chunks), data);
        }
    }
}

#[test]
fn tampered_chunk_is_a_hash_mismatch() {
    let data = b"the quick brown fox jumps over the lazy dog".to_vec();
    let hash = file_hash(&data);
    let mut chunks = split_chunks(&data, 8);
    chunks[2][0] ^= 0x20;
    assert_eq!(reassemble(&chunks, &hash), Err(StorageError::HashMismatch));
    chunks.pop();
    assert_eq!(reassemble(&chunks, &hash), Err(StorageError::HashMismatch));
}

#[test]
fn driver_values() {
    assert_eq!(KI2CNum::from(1), KI2CNum::K_I2C1);
    assert_eq!(KI2CNum::from(2), KI2CNum::K_I2C2);
    assert_eq!(KI2CNum::from(3), KI2CNum::K_I2C3);
    assert_eq!(KI2CNum::from(0), KI2CNum::K_I2C_NO_BUS);
    assert_eq!(KI2CNum::from(200), KI2CNum::K_I2C_NO_BUS);
    assert_eq!(KADCSStatus::default(), KADCSStatus::Success);
    let t = timespec { tv_sec: 1, tv_nsec: 500 };
    assert_eq!(t.clone(), t);
}

#[test]
fn collector_keeps_the_first_load_error() {
    let data = b"abcdefgh".to_vec();
    let hash = file_hash(&data);
    let mut ok = ChunkCollector::new();
    for chunk in split_chunks(&data, 3) {
        assert!(!ok.add(Ok(chunk)));
    }
    assert_eq!(ok.finish(&hash), Ok(data.clone()));

    let mut bad = ChunkCollector::new();
    assert!(!bad.add(Ok(b"abc".to_vec())));
    assert!(bad.add(Err(StorageError::OutOfRange)));
    assert!(!bad.add(Ok(b"gh".to_vec())));
    assert!(bad.add(Err(StorageError::HashMismatch)));
    assert_eq!(bad.finish(&hash), Err(StorageError::OutOfRange));

    let mut short = ChunkCollector::new();
    short.add(Ok(b"abc".to_vec()));
    assert_eq!(short.finish(&hash), Err(StorageError::HashMismatch));
}
