//! Cursor and navigation behaviour: state queries, seeks by index and by
//! timestamp, skipping, and resets.

use pcapfile_io::{ContainerFile, DataPacket, PcapReader, PcapWriter, WriterConfig};

/// Builds an in-memory dataset of `count` packets of `size` bytes whose
/// timestamps start at `base_ts` and advance by `step_ns`.
fn build_dataset(
    count: usize,
    size: usize,
    base_ts: u64,
    step_ns: u64,
    max_per_file: usize,
) -> (Vec<ContainerFile>, Vec<u64>) {
    let mut config = WriterConfig::default();
    config.max_packets_per_file = max_per_file;
    let mut writer = PcapWriter::new_with_config("navigation", config).expect("create writer");
    writer.initialize().expect("initialize writer");
    let mut stamps = Vec::new();
    for i in 0..count {
        let mut data = vec![0u8; size];
        for (j, b) in data.iter_mut().enumerate() {
            *b = ((i + j) % 256) as u8;
        }
        let ts = base_ts + (i as u64) * step_ns;
        stamps.push(ts);
        let packet = DataPacket::from_timestamp_ns(ts, data).expect("build packet");
        writer.write_packet(&packet).expect("write packet");
    }
    writer.finalize().expect("finalize writer");
    (writer.files().clone(), stamps)
}

/// A 100-packet dataset split at 50 packets per file, 10 ms apart.
fn create_test_dataset() -> (Vec<ContainerFile>, Vec<u64>) {
    build_dataset(100, 32, 1_000_000_000, 10_000_000, 50)
}

#[test]
fn test_state_query_interfaces() {
    let (files, _) = create_test_dataset();
    let mut reader = PcapReader::new(files, "test_state_query").expect("create reader");
    reader.initialize().expect("initialize reader");

    assert_eq!(reader.total_packets(), Some(100));
    assert_eq!(reader.current_packet_index(), 0);
    assert!(!reader.is_eof());
}

#[test]
fn test_seek_to_packet() {
    let (files, _) = create_test_dataset();
    let mut reader = PcapReader::new(files, "test_seek_packet").expect("create reader");
    reader.initialize().expect("initialize reader");

    reader.seek_to_packet(50).expect("seek");
    assert_eq!(reader.current_packet_index(), 50);

    let packet = reader
        .read_packet_data_only()
        .expect("read")
        .expect("a packet is owed at index 50");
    let expected_ts = 1_000_000_000 + 50 * 10_000_000;
    assert_eq!(packet.get_timestamp_ns(), expected_ts);

    reader.seek_to_packet(0).expect("seek to start");
    assert_eq!(reader.current_packet_index(), 0);

    reader.seek_to_packet(99).expect("seek to end");
    assert_eq!(reader.current_packet_index(), 99);

    let result = reader.seek_to_packet(100);
    assert!(result.is_err(), "an out-of-range seek must fail");
}

#[test]
fn test_skip_packets() {
    let (files, _) = create_test_dataset();
    let mut reader = PcapReader::new(files, "test_skip_packets").expect("create reader");
    reader.initialize().expect("initialize reader");

    let skipped = reader.skip_packets(10).expect("skip");
    assert_eq!(skipped, 10);
    assert_eq!(reader.current_packet_index(), 10);

    let skipped = reader.skip_packets(20).expect("skip");
    assert_eq!(skipped, 20);
    assert_eq!(reader.current_packet_index(), 30);

    let skipped = reader.skip_packets(100).expect("skip");
    assert_eq!(skipped, 69);
    assert_eq!(reader.current_packet_index(), 99);

    let last = reader.read_packet().expect("read");
    assert!(last.is_some(), "the last packet is still readable");
    assert!(reader.is_eof());
}

#[test]
fn test_seek_to_timestamp() {
    let (files, _) = create_test_dataset();
    let mut reader = PcapReader::new(files, "test_seek_timestamp").expect("create reader");
    reader.initialize().expect("initialize reader");

    let target_timestamp = 1_000_000_000 + 75 * 10_000_000;
    let actual_ts = reader.seek_to_timestamp(target_timestamp).expect("seek");
    assert_eq!(actual_ts, target_timestamp);
    assert_eq!(reader.current_packet_index(), 75);

    let packet = reader
        .read_packet_data_only()
        .expect("read")
        .expect("a packet is owed at the landed position");
    assert_eq!(packet.get_timestamp_ns(), target_timestamp);

    let non_exact_ts = 1_000_000_000 + 80 * 10_000_000 + 5_000_000;
    let actual_ts = reader.seek_to_timestamp(non_exact_ts).expect("seek");
    let expected_ts = 1_000_000_000 + 81 * 10_000_000;
    assert_eq!(actual_ts, expected_ts);
    assert_eq!(reader.current_packet_index(), 81);
}

#[test]
fn test_is_eof() {
    let (files, _) = create_test_dataset();
    let mut reader = PcapReader::new(files, "test_eof").expect("create reader");
    reader.initialize().expect("initialize reader");

    assert!(!reader.is_eof());

    reader.seek_to_packet(99).expect("seek");
    assert!(!reader.is_eof());

    reader.read_packet_data_only().expect("read");
    assert!(reader.is_eof());
}

#[test]
fn test_reset_after_seek() {
    let (files, _) = create_test_dataset();
    let mut reader = PcapReader::new(files, "test_reset").expect("create reader");
    reader.initialize().expect("initialize reader");

    reader.seek_to_packet(50).expect("seek");
    assert_eq!(reader.current_packet_index(), 50);

    reader.reset().expect("reset");
    assert_eq!(reader.current_packet_index(), 0);
    assert!(!reader.is_eof());
}

#[test]
fn test_combined_navigation() {
    let (files, _) = create_test_dataset();
    let mut reader = PcapReader::new(files, "test_combined").expect("create reader");
    reader.initialize().expect("initialize reader");

    for _ in 0..3 {
        reader.read_packet_data_only().expect("read");
    }
    assert_eq!(reader.current_packet_index(), 3);

    reader.seek_to_packet(50).expect("seek");
    assert_eq!(reader.current_packet_index(), 50);

    reader.skip_packets(10).expect("skip");
    assert_eq!(reader.current_packet_index(), 60);

    let target_ts = 1_000_000_000 + 30 * 10_000_000;
    reader.seek_to_timestamp(target_ts).expect("seek");
    assert_eq!(reader.current_packet_index(), 30);

    reader.reset().expect("reset");
    assert_eq!(reader.current_packet_index(), 0);
}

#[test]
fn test_sequential_read_round_trip() {
    let (files, stamps) = create_test_dataset();
    let mut reader = PcapReader::new(files, "test_round_trip").expect("create reader");
    reader.initialize().expect("initialize reader");

    let mut positions = Vec::new();
    for expected_ts in &stamps {
        positions.push(reader.current_packet_index());
        let vp = reader
            .read_packet()
            .expect("read")
            .expect("a packet is owed before the end");
        assert_eq!(vp.packet.get_timestamp_ns(), *expected_ts);
        assert!(vp.valid, "a freshly written packet carries its own checksum");
    }
    assert!(reader.read_packet().expect("read").is_none());
    for w in positions.windows(2) {
        assert!(w[0] <= w[1], "the cursor never moves backwards");
    }
}

#[test]
fn test_skip_initializes_lazily() {
    let (files, _) = create_test_dataset();
    let mut reader = PcapReader::new(files, "test_skip_lazy").expect("create reader");
    // No explicit initialize: the skip loads the index itself.
    let skipped = reader.skip_packets(10).expect("skip");
    assert_eq!(skipped, 10);
    assert_eq!(reader.current_packet_index(), 10);
    assert_eq!(reader.total_packets(), Some(100));
}
