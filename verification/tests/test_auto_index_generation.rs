//! Index generation on finalize and its consistency with the files.

use pcapfile_io::{ContainerFile, DataPacket, IndexManager, PcapReader, PcapWriter, WriterConfig};

/// Builds an in-memory dataset of `count` packets of `size` bytes, 1 ms
/// apart, split at `max_per_file` packets per file.
fn write_dataset(
    count: usize,
    size: usize,
    max_per_file: usize,
) -> (Vec<ContainerFile>, Vec<u64>) {
    let mut config = WriterConfig::default();
    config.max_packets_per_file = max_per_file;
    let mut writer = PcapWriter::new_with_config("generated", config).expect("create writer");
    writer.initialize().expect("initialize writer");
    let mut stamps = Vec::new();
    let base: u64 = 1_600_000_000_000_000_000;
    for i in 0..count {
        let mut data = vec![0u8; size];
        for (j, b) in data.iter_mut().enumerate() {
            *b = ((i + j) % 256) as u8;
        }
        let ts = base + (i as u64) * 1_000_000;
        stamps.push(ts);
        let packet = DataPacket::from_timestamp_ns(ts, data).expect("build packet");
        writer.write_packet(&packet).expect("write packet");
    }
    writer.finalize().expect("finalize writer");
    (writer.files().clone(), stamps)
}

#[test]
fn test_auto_index_with_small_dataset() {
    let (files, stamps) = write_dataset(500, 64, 500);
    assert_eq!(files.len(), 1, "500 packets at the default cap fill one file");

    let mut reader = PcapReader::new(files, "test_auto_index_with_small_dataset").expect("reader");
    reader.initialize().expect("initialize reader");
    assert_eq!(reader.total_packets(), Some(500));

    let info = reader.get_dataset_info().expect("dataset info");
    assert_eq!(info.total_packets, 500);
    assert_eq!(info.file_count, 1);
    let start = info.start_timestamp.expect("a nonempty dataset has a start");
    let end = info.end_timestamp.expect("a nonempty dataset has an end");
    assert_eq!(end - start, 499 * 1_000_000, "499 steps of one millisecond");

    let mut read = 0usize;
    while let Some(vp) = reader.read_packet().expect("sequential read") {
        assert_eq!(vp.packet.get_timestamp_ns(), stamps[read]);
        read += 1;
    }
    assert_eq!(read, 500, "every written packet comes back, in order");
}

#[test]
fn test_auto_index_with_multiple_files() {
    let (files, _) = write_dataset(3000, 128, 1000);
    assert_eq!(files.len(), 3, "3000 packets at 1000 per file fill three files");

    let mut reader = PcapReader::new(files, "test_auto_index_with_multiple_files").expect("reader");
    reader.initialize().expect("initialize reader");
    assert_eq!(reader.total_packets(), Some(3000));

    let file_infos = reader.get_file_info_list().expect("file info list");
    assert_eq!(file_infos.len(), 3);
    for info in &file_infos {
        assert_eq!(info.packet_count, 1000);
        assert!(info.file_hash.is_some(), "each record carries a digest");
    }
}

#[test]
fn test_manual_index_generation_after_write() {
    let (files, _) = write_dataset(1500, 256, 500);

    let mut manager = IndexManager::new();
    manager.regenerate(&files).expect("manual regeneration");
    let index = manager.get_index().expect("an index is loaded after regenerate");
    assert_eq!(index.total_packets, 1500);
    assert_eq!(index.data_files.files.len(), 3);
}

#[test]
fn test_index_consistency_check() {
    let (files, stamps) = write_dataset(2000, 200, 500);

    let mut reader = PcapReader::new(files.clone(), "test_index_consistency_check").expect("reader");
    reader.initialize().expect("initialize reader");

    for k in (0..2000).step_by(97) {
        let expected_ts = stamps[k];
        let found = reader
            .read_packet_by_timestamp(expected_ts)
            .expect("strict lookup")
            .is_some();
        assert!(found, "timestamp missing from the index: {expected_ts}");
    }

    let stale = reader.index().needs_rebuild(&files).expect("staleness check");
    assert!(!stale, "a freshly generated index needs no rebuild");
}

#[test]
fn test_regeneration_is_idempotent() {
    let (files, _) = write_dataset(600, 96, 250);

    let mut first = IndexManager::new();
    first.regenerate(&files).expect("first regeneration");
    let a = first.get_index().expect("index loaded").clone();

    let mut second = IndexManager::new();
    second.regenerate(&files).expect("second regeneration");
    let b = second.get_index().expect("index loaded").clone();

    // Everything except the creation stamp is reproduced exactly.
    assert_eq!(a.total_packets, b.total_packets);
    assert_eq!(a.start_timestamp, b.start_timestamp);
    assert_eq!(a.end_timestamp, b.end_timestamp);
    assert_eq!(a.total_duration, b.total_duration);
    assert_eq!(a.data_files.files.len(), b.data_files.files.len());
    for (fa, fb) in a.data_files.files.iter().zip(b.data_files.files.iter()) {
        assert_eq!(fa.file_name, fb.file_name);
        assert_eq!(fa.file_hash, fb.file_hash);
        assert_eq!(fa.file_size, fb.file_size);
        assert_eq!(fa.packet_count, fb.packet_count);
        assert_eq!(fa.start_timestamp, fb.start_timestamp);
        assert_eq!(fa.end_timestamp, fb.end_timestamp);
        assert_eq!(fa.data_packets, fb.data_packets);
    }
}

#[test]
fn test_seek_then_read_matches_sequential() {
    let (files, _) = write_dataset(300, 48, 120);

    // First pass: collect every packet in sequential order.
    let mut sequential = PcapReader::new(files.clone(), "test_seek_matches_seq_a").expect("reader");
    sequential.initialize().expect("initialize reader");
    let mut in_order = Vec::new();
    while let Some(vp) = sequential.read_packet().expect("sequential read") {
        in_order.push(vp.packet);
    }
    assert_eq!(in_order.len(), 300);

    // Second pass: seek to sampled positions and compare the next read.
    let mut random = PcapReader::new(files, "test_seek_matches_seq_b").expect("reader");
    random.initialize().expect("initialize reader");
    for k in (0..300).step_by(37) {
        random.seek_to_packet(k).expect("seek");
        let vp = random
            .read_packet()
            .expect("read after seek")
            .expect("a packet is owed inside the dataset");
        assert_eq!(vp.packet.get_timestamp_ns(), in_order[k].get_timestamp_ns());
        assert_eq!(vp.packet.checksum(), in_order[k].checksum());
        assert_eq!(vp.packet.data, in_order[k].data);
    }
}
