//! Timestamp-based lookups: exact reads, nearest seeks, ranged reads and
//! cross-file random access.

use pcapfile_io::{ContainerFile, DataPacket, PcapReader, PcapWriter, WriterConfig};

/// Builds an in-memory dataset of `count` packets of `size` bytes whose
/// timestamps start at `base_ts` and advance by `step_ns`.
fn build_stamped_dataset(
    count: usize,
    size: usize,
    base_ts: u64,
    step_ns: u64,
    max_per_file: usize,
) -> (Vec<ContainerFile>, Vec<u64>) {
    let mut config = WriterConfig::default();
    config.max_packets_per_file = max_per_file;
    let mut writer = PcapWriter::new_with_config("stamped", config).expect("create writer");
    writer.initialize().expect("initialize writer");
    let mut stamps = Vec::new();
    for i in 0..count {
        let mut data = vec![0u8; size];
        for (j, b) in data.iter_mut().enumerate() {
            *b = ((i * 31 + j * 17) % 256) as u8;
        }
        let ts = base_ts + (i as u64) * step_ns;
        stamps.push(ts);
        let packet = DataPacket::from_timestamp_ns(ts, data).expect("build packet");
        writer.write_packet(&packet).expect("write packet");
    }
    writer.finalize().expect("finalize writer");
    (writer.files().clone(), stamps)
}

#[test]
fn test_read_packets_by_time_range() {
    const PACKET_COUNT: usize = 1000;
    const PACKET_SIZE: usize = 128;
    let (files, stamps) = build_stamped_dataset(PACKET_COUNT, PACKET_SIZE, 1_000_000_000, 10_000, 300);

    let mut reader = PcapReader::new(files, "test_read_packets_by_time_range").expect("reader");
    reader.initialize().expect("initialize reader");

    let start_timestamp = stamps[200];
    let end_timestamp = stamps[800];
    let range_packets = reader
        .read_packets_by_time_range(start_timestamp, end_timestamp)
        .expect("ranged read");

    assert_eq!(range_packets.len(), 601);

    for i in 1..range_packets.len() {
        assert!(
            range_packets[i].packet.get_timestamp_ns()
                > range_packets[i - 1].packet.get_timestamp_ns(),
            "timestamps must ascend"
        );
    }
    for packet in &range_packets {
        let ts = packet.packet.get_timestamp_ns();
        assert!(ts >= start_timestamp && ts <= end_timestamp, "timestamp out of range: {ts}");
    }
}

#[test]
fn test_read_packet_by_timestamp() {
    const PACKET_COUNT: usize = 500;
    const PACKET_SIZE: usize = 256;
    let (files, stamps) = build_stamped_dataset(PACKET_COUNT, PACKET_SIZE, 1_000_000_000, 5_000, 500);

    let mut reader = PcapReader::new(files, "test_read_packet_by_timestamp").expect("reader");
    reader.initialize().expect("initialize reader");

    let test_indices = [0, 100, 250, 400, 499];
    for &index in &test_indices {
        let target_timestamp = stamps[index];
        let packet = reader
            .read_packet_by_timestamp(target_timestamp)
            .expect("strict lookup")
            .expect("the written timestamp must be found");
        assert_eq!(packet.packet.get_timestamp_ns(), target_timestamp, "timestamp mismatch");
        assert_eq!(packet.packet.packet_length(), PACKET_SIZE, "payload size mismatch");
    }

    let non_existent_timestamp = stamps[0] - 1000;
    let result = reader
        .read_packet_by_timestamp(non_existent_timestamp)
        .expect("lookup of an absent timestamp");
    assert!(result.is_none(), "an absent timestamp yields no packet");
}

#[test]
fn test_seek_by_timestamp() {
    const PACKET_COUNT: usize = 300;
    const PACKET_SIZE: usize = 64;
    let (files, stamps) = build_stamped_dataset(PACKET_COUNT, PACKET_SIZE, 1_000_000_000, 3_000, 300);

    let mut reader = PcapReader::new(files, "test_seek_by_timestamp").expect("reader");
    reader.initialize().expect("initialize reader");

    let exact_timestamp = stamps[150];
    let pointer = reader
        .seek_by_timestamp(exact_timestamp)
        .expect("closest lookup")
        .expect("a nonempty dataset has a closest pointer");
    assert_eq!(pointer.entry.timestamp_ns, exact_timestamp, "exact timestamp mismatch");

    let approximate_timestamp = stamps[75] + 100;
    let pointer = reader
        .seek_by_timestamp(approximate_timestamp)
        .expect("closest lookup")
        .expect("a nonempty dataset has a closest pointer");
    let found_timestamp = pointer.entry.timestamp_ns;
    assert_eq!(found_timestamp, stamps[75], "the closest timestamp wins");
    let diff = found_timestamp.abs_diff(approximate_timestamp);
    assert!(diff <= 100, "distance too large: {diff}");
}

#[test]
fn test_cross_file_random_access() {
    const PACKET_COUNT: usize = 900;
    const PACKET_SIZE: usize = 512;
    let (files, stamps) = build_stamped_dataset(PACKET_COUNT, PACKET_SIZE, 1_000_000_000, 10_000, 200);
    assert!(files.len() > 1, "the dataset must span several files");

    let mut reader = PcapReader::new(files, "test_cross_file_random_access").expect("reader");
    reader.initialize().expect("initialize reader");

    for &index in &[50usize, 250, 450, 650, 850] {
        let target = stamps[index];
        let packet = reader
            .read_packet_by_timestamp(target)
            .expect("strict lookup")
            .expect("the written timestamp must be found");
        assert_eq!(packet.packet.get_timestamp_ns(), target, "cross-file timestamp mismatch");
        assert_eq!(packet.packet.packet_length(), PACKET_SIZE, "cross-file size mismatch");
    }

    let range_packets = reader
        .read_packets_by_time_range(stamps[100], stamps[700])
        .expect("cross-file ranged read");
    assert_eq!(range_packets.len(), 601);
    for i in 1..range_packets.len() {
        assert!(
            range_packets[i].packet.get_timestamp_ns()
                > range_packets[i - 1].packet.get_timestamp_ns(),
            "cross-file order broken"
        );
    }
}

#[test]
fn test_timestamp_index_edge_cases() {
    const PACKET_COUNT: usize = 100;
    const PACKET_SIZE: usize = 32;
    let (files, stamps) = build_stamped_dataset(PACKET_COUNT, PACKET_SIZE, 1_000_000_000, 1_000, 100);

    let mut reader = PcapReader::new(files, "test_timestamp_index_edge_cases").expect("reader");
    reader.initialize().expect("initialize reader");

    let first = reader
        .read_packet_by_timestamp(stamps[0])
        .expect("lookup of the earliest timestamp")
        .expect("the earliest timestamp must be found");
    assert_eq!(first.packet.get_timestamp_ns(), stamps[0]);

    let last = reader
        .read_packet_by_timestamp(stamps[PACKET_COUNT - 1])
        .expect("lookup of the latest timestamp")
        .expect("the latest timestamp must be found");
    assert_eq!(last.packet.get_timestamp_ns(), stamps[PACKET_COUNT - 1]);

    let beyond = reader
        .read_packet_by_timestamp(stamps[PACKET_COUNT - 1] + 1000)
        .expect("lookup past the end");
    assert!(beyond.is_none(), "a timestamp past the end yields no packet");

    let empty = reader
        .read_packets_by_time_range(stamps[10] + 1, stamps[11] - 1)
        .expect("empty ranged read");
    assert!(empty.is_empty(), "a gap between packets yields an empty range");

    let single = reader
        .read_packets_by_time_range(stamps[42], stamps[42])
        .expect("single-point ranged read");
    assert_eq!(single.len(), 1, "a single-point range yields one packet");
}
