//! Index loading, sidecar acceptance, content checks and staleness
//! detection.

use pcapfile_io::{ContainerFile, DataPacket, IndexManager, PcapReader, PcapWriter, WriterConfig};

/// Builds an in-memory dataset of `count` packets of `size` bytes, 1 µs
/// apart, split at `max_per_file` packets per file.
fn make_dataset(count: usize, size: usize, max_per_file: usize) -> (Vec<ContainerFile>, Vec<u64>) {
    let mut config = WriterConfig::default();
    config.max_packets_per_file = max_per_file;
    let mut writer = PcapWriter::new_with_config("functional", config).expect("create writer");
    writer.initialize().expect("initialize writer");
    let mut stamps = Vec::new();
    let base: u64 = 1_500_000_000_000_000_000;
    for i in 0..count {
        let mut data = vec![0u8; size];
        for (j, b) in data.iter_mut().enumerate() {
            *b = ((i * 7 + j) % 256) as u8;
        }
        let ts = base + (i as u64) * 1_000;
        stamps.push(ts);
        let packet = DataPacket::from_timestamp_ns(ts, data).expect("build packet");
        writer.write_packet(&packet).expect("write packet");
    }
    writer.finalize().expect("finalize writer");
    let index = writer.index().expect("finalize leaves an index").clone();
    let mut manager = IndexManager::new();
    let files = writer.files().clone();
    manager.ensure_index(&files, Some(index)).expect("the sidecar round-trips");
    (files, stamps)
}

#[test]
fn test_index_generation_and_loading() {
    let (files, _) = make_dataset(5000, 1024, 500);

    // Hand the sidecar built at finalize over to a fresh reader, the way
    // an embedding program would after parsing it from disk.
    let mut manager = IndexManager::new();
    manager.regenerate(&files).expect("regenerate");
    let sidecar = manager.get_index().expect("index loaded").clone();

    let mut reader = PcapReader::new(files, "test_index_generation_and_loading").expect("reader");
    reader.initialize_with(Some(sidecar)).expect("initialize with a fresh sidecar");
    assert_eq!(reader.total_packets(), Some(5000));

    let info = reader.get_dataset_info().expect("dataset info");
    assert_eq!(info.total_packets, 5000);
    assert_eq!(info.file_count, 10);
}

#[test]
fn test_manual_index_generation() {
    let (files, _) = make_dataset(3000, 512, 500);

    let mut manager = IndexManager::new();
    manager.regenerate(&files).expect("manual regeneration");
    let index = manager.get_index().expect("index loaded");
    assert_eq!(index.total_packets, 3000);
    assert_eq!(index.data_files.files.len(), 6);
    let counted: u64 = index.data_files.files.iter().map(|f| f.packet_count).sum();
    assert_eq!(counted, 3000);
}

#[test]
fn test_index_content_verification() {
    let (files, stamps) = make_dataset(2000, 256, 500);

    let mut reader = PcapReader::new(files, "test_index_content_verification").expect("reader");
    reader.initialize().expect("initialize reader");

    for k in (0..2000).step_by(131) {
        let expected_ts = stamps[k];
        let vp = reader
            .read_packet_by_timestamp(expected_ts)
            .expect("strict lookup")
            .expect("timestamp missing from the index");
        assert_eq!(vp.packet.get_timestamp_ns(), expected_ts);
        assert_eq!(vp.packet.packet_length(), 256);
    }
}

#[test]
fn test_index_query_functionality() {
    let (files, stamps) = make_dataset(1500, 512, 500);

    let mut reader = PcapReader::new(files.clone(), "test_index_query_functionality").expect("reader");
    reader.initialize().expect("initialize reader");

    let stale = reader.index().needs_rebuild(&files).expect("staleness check");
    assert!(!stale, "a freshly generated index needs no rebuild");

    let landed = reader.seek_to_timestamp(stamps[700] + 1).expect("nearest seek");
    assert_eq!(landed, stamps[701], "the next recorded timestamp wins");
}

#[test]
fn test_index_rebuild_detection() {
    let (files, _) = make_dataset(1000, 256, 500);

    let mut reader = PcapReader::new(files.clone(), "test_index_rebuild_detection").expect("reader");
    reader.initialize().expect("initialize reader");
    assert!(
        !reader.index().needs_rebuild(&files).expect("staleness check"),
        "a fresh index is valid"
    );

    // Dropping a container file must make the loaded index stale.
    let mut remaining = files.clone();
    remaining.pop();
    assert!(
        reader.index().needs_rebuild(&remaining).expect("staleness check"),
        "removing a container file must be detected"
    );

    // A reader over the remaining files rebuilds and is fresh again.
    let mut second = PcapReader::new(remaining.clone(), "test_index_rebuild_detection_2")
        .expect("reader");
    second.initialize().expect("initialize reader");
    assert!(
        !second.index().needs_rebuild(&remaining).expect("staleness check"),
        "after regeneration the index matches the files again"
    );
}

#[test]
fn test_stale_on_changed_bytes() {
    let (files, _) = make_dataset(50, 64, 500);

    let mut reader = PcapReader::new(files.clone(), "test_stale_on_changed_bytes").expect("reader");
    reader.initialize().expect("initialize reader");

    // Flip one payload byte without changing any file size: only the
    // digest can tell, so this exercises the checksum path end to end.
    let mut tampered = files.clone();
    let len = tampered[0].bytes.len();
    tampered[0].bytes[len - 1] ^= 0xFF;
    assert!(
        reader.index().needs_rebuild(&tampered).expect("staleness check"),
        "a changed byte must change the digest"
    );
}
