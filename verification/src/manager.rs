//! Builds, validates and refreshes the sidecar index against the dataset's
//! container files.
//!
//! `ensure_index` accepts a previously persisted sidecar only when its
//! content agrees with a fresh scan of the files; anything else is
//! rebuilt.  A sidecar whose file names, sizes or digests have drifted is
//! reported stale by `needs_rebuild`.

use vstd::prelude::*;

use crate::codec::{frames_from, header_valid, DataPacketHeader, FILE_HEADER_SIZE};
use crate::dataset::{file_frames, ContainerFile};
use crate::digest::{file_digest, file_digest_spec};
use crate::error::{PcapError, PcapResult};
use crate::index::{
    entry_of, max_end_of, min_start_of, sum_counts, ts_index_wf, DataFiles, PacketIndexEntry,
    PcapFileIndex, PidxIndex,
};
use vstd::string::StringExecFns;

verus! {

/// The smallest timestamp among the entries; 0 with no entries.
pub open spec fn entries_min_ts(entries: Seq<PacketIndexEntry>) -> u64
    decreases entries.len(),
{
    if entries.len() == 0 {
        0u64
    } else {
        let rest = entries_min_ts(entries.drop_first());
        if entries.len() == 1 || entries[0].timestamp_ns <= rest {
            entries[0].timestamp_ns
        } else {
            rest
        }
    }
}

/// The largest timestamp among the entries; 0 with no entries.
pub open spec fn entries_max_ts(entries: Seq<PacketIndexEntry>) -> u64
    decreases entries.len(),
{
    if entries.len() == 0 {
        0u64
    } else {
        let rest = entries_max_ts(entries.drop_first());
        if entries[0].timestamp_ns >= rest {
            entries[0].timestamp_ns
        } else {
            rest
        }
    }
}

/// A file record faithfully describes a container file: identity, digest,
/// size, and one entry per frame, with the extrema derived from them.
pub open spec fn file_index_wf(fi: PcapFileIndex, f: ContainerFile) -> bool {
    &&& fi.file_name@ == f.name@
    &&& fi.file_hash@ == file_digest_spec(f.bytes@)
    &&& fi.file_size == f.bytes@.len()
    &&& header_valid(f.bytes@)
    &&& fi.data_packets@.len() == file_frames(f).len()
    &&& forall|j: int|
        0 <= j < fi.data_packets@.len() ==> #[trigger] fi.data_packets@[j] == entry_of(
            file_frames(f)[j],
        )
    &&& fi.packet_count == fi.data_packets@.len()
    &&& fi.start_timestamp == entries_min_ts(fi.data_packets@)
    &&& fi.end_timestamp == entries_max_ts(fi.data_packets@)
}

/// The whole index faithfully describes the dataset.
pub open spec fn index_wf(idx: PidxIndex, files: Seq<ContainerFile>) -> bool {
    &&& idx.data_files.files@.len() == files.len()
    &&& forall|i: int|
        0 <= i < files.len() ==> file_index_wf(#[trigger] idx.data_files.files@[i], files[i])
    &&& idx.total_packets == sum_counts(idx.data_files.files@)
    &&& idx.start_timestamp == min_start_of(idx.data_files.files@)
    &&& idx.end_timestamp == max_end_of(idx.data_files.files@)
    &&& idx.total_duration == if idx.end_timestamp >= idx.start_timestamp {
        idx.end_timestamp - idx.start_timestamp
    } else {
        0
    }
    &&& ts_index_wf(idx.timestamp_index@, idx.data_files.files@)
}

/// The sidecar still matches the directory: same file names, sizes and
/// digests, in order.
pub open spec fn sidecar_matches(idx: PidxIndex, files: Seq<ContainerFile>) -> bool {
    &&& idx.data_files.files@.len() == files.len()
    &&& forall|i: int|
        0 <= i < files.len() ==> {
            let fi = #[trigger] idx.data_files.files@[i];
            &&& fi.file_name@ == files[i].name@
            &&& fi.file_size == files[i].bytes@.len()
            &&& fi.file_hash@ == file_digest_spec(files[i].bytes@)
        }
}

/// Two indexes record the same content: the same file records, entry for
/// entry, and the same aggregates.  The description and creation stamp may
/// differ.
pub open spec fn content_equal(a: PidxIndex, b: PidxIndex) -> bool {
    &&& a.data_files.files@.len() == b.data_files.files@.len()
    &&& forall|i: int|
        0 <= i < a.data_files.files@.len() ==> {
            let fa = #[trigger] a.data_files.files@[i];
            let fb = b.data_files.files@[i];
            &&& fa.file_name@ == fb.file_name@
            &&& fa.file_hash@ == fb.file_hash@
            &&& fa.file_size == fb.file_size
            &&& fa.packet_count == fb.packet_count
            &&& fa.start_timestamp == fb.start_timestamp
            &&& fa.end_timestamp == fb.end_timestamp
            &&& fa.data_packets@ == fb.data_packets@
        }
    &&& a.start_timestamp == b.start_timestamp
    &&& a.end_timestamp == b.end_timestamp
    &&& a.total_packets == b.total_packets
    &&& a.total_duration == b.total_duration
}

/// Scans the frames of a container file and records one entry per frame.
fn scan_entries(bytes: &Vec<u8>) -> (r: Vec<PacketIndexEntry>)
    requires
        bytes@.len() >= FILE_HEADER_SIZE,
    ensures
        r@.len() == frames_from(bytes@, FILE_HEADER_SIZE as int).len(),
        forall|j: int|
            0 <= j < r@.len() ==> #[trigger] r@[j] == entry_of(
                frames_from(bytes@, FILE_HEADER_SIZE as int)[j],
            ),
{
    let ghost fs = frames_from(bytes@, FILE_HEADER_SIZE as int);
    let len = bytes.len();
    let mut out: Vec<PacketIndexEntry> = Vec::new();
    let mut pos: u64 = 24;
    proof {
        assert(fs.skip(0) =~= fs);
        crate::codec::lemma_frames_from_wf(bytes@, FILE_HEADER_SIZE as int);
    }
    loop
        invariant
            24 <= pos,
            len == bytes@.len(),
            out@.len() <= fs.len(),
            pos <= len || out@.len() == fs.len(),
            pos <= len ==> frames_from(bytes@, pos as int) == fs.skip(out@.len() as int),
            forall|j: int| 0 <= j < out@.len() ==> #[trigger] out@[j] == entry_of(fs[j]),
        ensures
            out@.len() == fs.len(),
            forall|j: int| 0 <= j < out@.len() ==> #[trigger] out@[j] == entry_of(fs[j]),
        decreases len as int - pos as int,
    {
        let ghost c = out@.len() as int;
        if pos >= len as u64 || len as u64 - pos < 16 {
            proof {
                if pos <= len {
                    assert(!crate::codec::frame_header_at(bytes@, pos as int));
                    assert(frames_from(bytes@, pos as int) =~= Seq::<
                        crate::codec::FrameModel,
                    >::empty());
                    assert(fs.skip(c).len() == 0);
                }
            }
            break ;
        }
        let header = match DataPacketHeader::from_bytes_at(bytes, pos as usize) {
            Ok(h) => h,
            Err(_) => {
                proof {
                    assert(!crate::codec::frame_ok_at(bytes@, pos as int));
                    assert(frames_from(bytes@, pos as int) =~= Seq::<
                        crate::codec::FrameModel,
                    >::empty());
                    assert(fs.skip(c).len() == 0);
                }
                break ;
            },
        };
        if header.packet_length as u64 > len as u64 - pos - 16 {
            proof {
                assert(!crate::codec::frame_ok_at(bytes@, pos as int));
                assert(frames_from(bytes@, pos as int) =~= Seq::<
                    crate::codec::FrameModel,
                >::empty());
                assert(fs.skip(c).len() == 0);
            }
            break ;
        }
        proof {
            assert(crate::codec::frame_ok_at(bytes@, pos as int));
            assert(frames_from(bytes@, pos as int).len() > 0);
            assert(fs.skip(c).len() > 0);
            assert(fs.skip(c)[0] == fs[c]);
            assert(fs[c] == frames_from(bytes@, pos as int)[0]);
            assert(fs[c].off == pos as int);
            assert(fs[c].packet == crate::codec::packet_at(bytes@, pos as int));
        }
        let timestamp_ns = (header.timestamp_seconds as u64) * 1_000_000_000 + (
        header.timestamp_nanoseconds as u64);
        let entry = PacketIndexEntry {
            timestamp_ns,
            byte_offset: pos,
            packet_size: header.packet_length,
        };
        proof {
            assert(entry == entry_of(fs[c]));
        }
        out.push(entry);
        let next = pos + 16 + header.packet_length as u64;
        proof {
            let flen = crate::codec::frame_len_at(bytes@, pos as int);
            assert(frames_from(bytes@, pos as int) == seq![fs[c]] + frames_from(
                bytes@,
                pos as int + 16 + flen,
            ));
            assert(frames_from(bytes@, next as int) =~= fs.skip(c).drop_first());
            assert(fs.skip(c).drop_first() =~= fs.skip(c + 1));
        }
        pos = next;
    }
    out
}

/// The extrema of the entries' timestamps: `(earliest, latest)`, both 0
/// with no entries.
fn entries_extrema(entries: &Vec<PacketIndexEntry>) -> (r: (u64, u64))
    ensures
        r.0 == entries_min_ts(entries@),
        r.1 == entries_max_ts(entries@),
{
    let n = entries.len();
    if n == 0 {
        return (0, 0);
    }
    let mut lo: u64 = entries[0].timestamp_ns;
    let mut hi: u64 = entries[0].timestamp_ns;
    let mut i: usize = 1;
    proof {
        reveal_with_fuel(entries_min_ts, 2);
        reveal_with_fuel(entries_max_ts, 2);
        assert(entries@.take(1).drop_first() =~= Seq::<PacketIndexEntry>::empty());
    }
    while i < n
        invariant
            1 <= i <= n,
            n == entries@.len(),
            lo == entries_min_ts(entries@.take(i as int)),
            hi == entries_max_ts(entries@.take(i as int)),
        decreases n - i,
    {
        proof {
            lemma_entries_min_take_step(entries@, i as int);
            lemma_entries_max_take_step(entries@, i as int);
        }
        let ts = entries[i].timestamp_ns;
        if ts < lo {
            lo = ts;
        }
        if ts > hi {
            hi = ts;
        }
        i = i + 1;
    }
    proof {
        assert(entries@.take(n as int) =~= entries@);
    }
    (lo, hi)
}

/// Extending a prefix by one entry folds its timestamp into the minimum.
proof fn lemma_entries_min_take_step(entries: Seq<PacketIndexEntry>, i: int)
    requires
        1 <= i < entries.len(),
    ensures
        entries_min_ts(entries.take(i + 1)) == if entries[i].timestamp_ns < entries_min_ts(
            entries.take(i),
        ) {
            entries[i].timestamp_ns
        } else {
            entries_min_ts(entries.take(i))
        },
    decreases i,
{
    reveal_with_fuel(entries_min_ts, 3);
    if i == 1 {
        assert(entries.take(2).drop_first() =~= seq![entries[1]]);
        assert(entries.take(1).drop_first() =~= Seq::<PacketIndexEntry>::empty());
        assert(seq![entries[1int]].drop_first() =~= Seq::<PacketIndexEntry>::empty());
    } else {
        assert(entries.take(i + 1).drop_first() =~= entries.drop_first().take(i));
        assert(entries.take(i).drop_first() =~= entries.drop_first().take(i - 1));
        lemma_entries_min_take_step(entries.drop_first(), i - 1);
        assert(entries.drop_first().take(i - 1 + 1) =~= entries.drop_first().take(i));
    }
}

/// Extending a prefix by one entry folds its timestamp into the maximum.
proof fn lemma_entries_max_take_step(entries: Seq<PacketIndexEntry>, i: int)
    requires
        1 <= i < entries.len(),
    ensures
        entries_max_ts(entries.take(i + 1)) == if entries[i].timestamp_ns > entries_max_ts(
            entries.take(i),
        ) {
            entries[i].timestamp_ns
        } else {
            entries_max_ts(entries.take(i))
        },
    decreases i,
{
    reveal_with_fuel(entries_max_ts, 3);
    if i == 1 {
        assert(entries.take(2).drop_first() =~= seq![entries[1]]);
        assert(entries.take(1).drop_first() =~= Seq::<PacketIndexEntry>::empty());
        assert(seq![entries[1int]].drop_first() =~= Seq::<PacketIndexEntry>::empty());
    } else {
        assert(entries.take(i + 1).drop_first() =~= entries.drop_first().take(i));
        assert(entries.take(i).drop_first() =~= entries.drop_first().take(i - 1));
        lemma_entries_max_take_step(entries.drop_first(), i - 1);
        assert(entries.drop_first().take(i - 1 + 1) =~= entries.drop_first().take(i));
    }
}

/// Appending a file record adds its count to the sum.
pub proof fn lemma_sum_counts_push(files: Seq<PcapFileIndex>, fi: PcapFileIndex)
    ensures
        sum_counts(files.push(fi)) == sum_counts(files) + fi.packet_count,
    decreases files.len(),
{
    reveal_with_fuel(sum_counts, 3);
    if files.len() == 0 {
        assert(files.push(fi).drop_first() =~= Seq::<PcapFileIndex>::empty());
    } else {
        assert(files.push(fi).drop_first() =~= files.drop_first().push(fi));
        lemma_sum_counts_push(files.drop_first(), fi);
    }
}

/// Builds the index record of one container file.  Succeeds exactly when
/// the file opens with a well-formed header; a failed size, magic or
/// version check is rejected as `CorruptedHeader`.
fn build_file_index(f: &ContainerFile) -> (r: PcapResult<PcapFileIndex>)
    ensures
        r is Ok <==> header_valid(f.bytes@),
        r matches Ok(fi) ==> file_index_wf(fi, *f),
        r matches Err(e) ==> e is CorruptedHeader,
{
    if f.bytes.len() < 24 {
        return Err(
            PcapError::CorruptedHeader(
                String::from_str("file too small to hold a container header"),
            ),
        );
    }
    let magic = crate::codec::read_u32_at(&f.bytes, 0);
    let major = crate::codec::read_u16_at(&f.bytes, 4);
    let minor = crate::codec::read_u16_at(&f.bytes, 6);
    if !(magic == 0xD4C3B2A1 && major == 2 && minor == 4) {
        return Err(PcapError::CorruptedHeader(String::from_str("wrong magic or version")));
    }
    let entries = scan_entries(&f.bytes);
    let (start, end) = entries_extrema(&entries);
    let count = entries.len();
    Ok(
        PcapFileIndex {
            file_name: f.name.clone(),
            file_hash: file_digest(&f.bytes),
            file_size: f.bytes.len() as u64,
            packet_count: count as u64,
            start_timestamp: start,
            end_timestamp: end,
            data_packets: entries,
        },
    )
}

/// Owns the loaded index and keeps it in step with the dataset files.
pub struct IndexManager {
    index: Option<PidxIndex>,
}

impl IndexManager {
    /// A manager with no index loaded.
    pub fn new() -> (r: IndexManager)
        ensures
            r.index_spec() is None,
    {
        IndexManager { index: None }
    }

    /// The loaded index, if any.
    pub closed spec fn index_spec(self) -> Option<PidxIndex> {
        self.index
    }

    /// A reference to the loaded index, if any.
    pub fn get_index(&self) -> (r: Option<&PidxIndex>)
        ensures
            r matches Some(idx) ==> self.index_spec() == Some(*idx),
            r is Some <==> self.index_spec() is Some,
    {
        self.index.as_ref()
    }

    /// Builds a fresh index for the files: one record per file, aggregates
    /// and lookup table included.  Succeeds exactly when every file opens
    /// with a well-formed header and the packet total fits in 64 bits.
    fn build_index(files: &Vec<ContainerFile>) -> (r: PcapResult<PidxIndex>)
        ensures
            r matches Ok(idx) ==> index_wf(idx, files@),
            r is Ok <==> (forall|i: int| 0 <= i < files@.len() ==> header_valid(
                (#[trigger] files@[i]).bytes@,
            )) && sum_counts_fit(files@),
    {
        let n = files.len();
        let mut records: Vec<PcapFileIndex> = Vec::new();
        let mut total: u64 = 0;
        let mut i: usize = 0;
        while i < n
            invariant
                i <= n,
                n == files@.len(),
                records@.len() == i,
                forall|k: int|
                    0 <= k < i ==> file_index_wf(#[trigger] records@[k], files@[k]),
                forall|k: int| 0 <= k < i ==> header_valid((#[trigger] files@[k]).bytes@),
                total == sum_counts(records@),
            decreases n - i,
        {
            let fi = match build_file_index(&files[i]) {
                Ok(fi) => fi,
                Err(e) => {
                    return Err(e);
                },
            };
            let new_total = match total.checked_add(fi.packet_count) {
                Some(t) => t,
                None => {
                    proof {
                        lemma_sum_counts_prefix_ge(records@, fi, files@, i as int);
                    }
                    return Err(
                        PcapError::InvalidArgument(
                            String::from_str("packet total overflows the index counter"),
                        ),
                    );
                },
            };
            proof {
                lemma_sum_counts_push(records@, fi);
            }
            records.push(fi);
            total = new_total;
            i = i + 1;
        }
        let mut idx = PidxIndex::new(None);
        idx.data_files = DataFiles { files: records };
        idx.update_time_range();
        proof {
            lemma_sum_counts_fit_whole(idx.data_files.files@, files@);
        }
        idx.update_total_packets();
        idx.build_timestamp_index();
        Ok(idx)
    }

    /// Discards any loaded index and rebuilds it from the files.
    pub fn regenerate(&mut self, files: &Vec<ContainerFile>) -> (r: PcapResult<()>)
        ensures
            r is Ok ==> (final(self).index_spec() matches Some(idx) && index_wf(idx, files@)),
            r is Ok <==> (forall|i: int| 0 <= i < files@.len() ==> header_valid(
                (#[trigger] files@[i]).bytes@,
            )) && sum_counts_fit(files@),
            r is Err ==> final(self).index_spec() == old(self).index_spec(),
    {
        match Self::build_index(files) {
            Ok(idx) => {
                self.index = Some(idx);
                Ok(())
            },
            Err(e) => Err(e),
        }
    }

    /// Loads an index: a handed-over sidecar is kept (its lookup table
    /// rebuilt) when its content agrees with a fresh scan of the files;
    /// otherwise the fresh scan replaces it.
    pub fn ensure_index(&mut self, files: &Vec<ContainerFile>, sidecar: Option<PidxIndex>) -> (r:
        PcapResult<()>)
        ensures
            r is Ok ==> (final(self).index_spec() matches Some(idx) && index_wf(idx, files@)),
            r is Ok <==> (forall|i: int| 0 <= i < files@.len() ==> header_valid(
                (#[trigger] files@[i]).bytes@,
            )) && sum_counts_fit(files@),
            r is Err ==> final(self).index_spec() == old(self).index_spec(),
    {
        let fresh = match Self::build_index(files) {
            Ok(idx) => idx,
            Err(e) => {
                return Err(e);
            },
        };
        match sidecar {
            Some(mut given) => {
                if equal_content(&given, &fresh) {
                    given.build_timestamp_index();
                    proof {
                        lemma_content_equal_transfers_wf(given, fresh, files@);
                    }
                    self.index = Some(given);
                } else {
                    self.index = Some(fresh);
                }
            },
            None => {
                self.index = Some(fresh);
            },
        }
        Ok(())
    }

    /// Whether the loaded index has gone stale against the files: a
    /// changed set of names, a changed size, or a changed digest.  Fails
    /// exactly when no index is loaded.
    pub fn needs_rebuild(&self, files: &Vec<ContainerFile>) -> (r: PcapResult<bool>)
        ensures
            r is Ok <==> self.index_spec() is Some,
            r matches Ok(b) ==> (self.index_spec() matches Some(idx) && b == !sidecar_matches(
                idx,
                files@,
            )),
            r matches Err(e) ==> e is InvalidState,
    {
        let idx = match &self.index {
            Some(idx) => idx,
            None => {
                return Err(PcapError::InvalidState(String::from_str("no index loaded")));
            },
        };
        let n = files.len();
        if idx.data_files.files.len() != n {
            return Ok(true);
        }
        let mut i: usize = 0;
        while i < n
            invariant
                i <= n,
                n == files@.len(),
                idx.data_files.files@.len() == n,
                self.index_spec() == Some(*idx),
                forall|k: int|
                    0 <= k < i ==> {
                        let fi = #[trigger] idx.data_files.files@[k];
                        &&& fi.file_name@ == files@[k].name@
                        &&& fi.file_size == files@[k].bytes@.len()
                        &&& fi.file_hash@ == file_digest_spec(files@[k].bytes@)
                    },
            decreases n - i,
        {
            let fi = &idx.data_files.files[i];
            let f = &files[i];
            if !(fi.file_name == f.name) {
                return Ok(true);
            }
            if fi.file_size != f.bytes.len() as u64 {
                return Ok(true);
            }
            let digest = file_digest(&f.bytes);
            if !(fi.file_hash == digest) {
                return Ok(true);
            }
            i = i + 1;
        }
        Ok(false)
    }
}

/// The packet total of a fresh scan fits the 64-bit counter.
pub open spec fn sum_counts_fit(files: Seq<ContainerFile>) -> bool {
    crate::dataset::count_prefix(files, files.len() as int) <= u64::MAX
}

/// Compares the content of two indexes: file records and aggregates,
/// leaving out the description, creation stamp and lookup table.
fn equal_content(a: &PidxIndex, b: &PidxIndex) -> (r: bool)
    ensures
        r == content_equal(*a, *b),
{
    if a.start_timestamp != b.start_timestamp || a.end_timestamp != b.end_timestamp
        || a.total_packets != b.total_packets || a.total_duration != b.total_duration {
        return false;
    }
    let n = a.data_files.files.len();
    if b.data_files.files.len() != n {
        return false;
    }
    let mut i: usize = 0;
    while i < n
        invariant
            i <= n,
            n == a.data_files.files@.len(),
            n == b.data_files.files@.len(),
            a.start_timestamp == b.start_timestamp,
            a.end_timestamp == b.end_timestamp,
            a.total_packets == b.total_packets,
            a.total_duration == b.total_duration,
            forall|k: int|
                0 <= k < i ==> {
                    let fa = #[trigger] a.data_files.files@[k];
                    let fb = b.data_files.files@[k];
                    &&& fa.file_name@ == fb.file_name@
                    &&& fa.file_hash@ == fb.file_hash@
                    &&& fa.file_size == fb.file_size
                    &&& fa.packet_count == fb.packet_count
                    &&& fa.start_timestamp == fb.start_timestamp
                    &&& fa.end_timestamp == fb.end_timestamp
                    &&& fa.data_packets@ == fb.data_packets@
                },
        decreases n - i,
    {
        let fa = &a.data_files.files[i];
        let fb = &b.data_files.files[i];
        if !(fa.file_name == fb.file_name) || !(fa.file_hash == fb.file_hash) {
            return false;
        }
        if fa.file_size != fb.file_size || fa.packet_count != fb.packet_count
            || fa.start_timestamp != fb.start_timestamp || fa.end_timestamp != fb.end_timestamp {
            return false;
        }
        let na = fa.data_packets.len();
        if fb.data_packets.len() != na {
            return false;
        }
        let mut j: usize = 0;
        while j < na
            invariant
                j <= na,
                na == fa.data_packets@.len(),
                na == fb.data_packets@.len(),
                *fa == a.data_files.files@[i as int],
                *fb == b.data_files.files@[i as int],
                0 <= i < n,
                n == a.data_files.files@.len(),
                n == b.data_files.files@.len(),
                forall|m: int| 0 <= m < j ==> fa.data_packets@[m] == fb.data_packets@[m],
            decreases na - j,
        {
            if fa.data_packets[j] != fb.data_packets[j] {
                return false;
            }
            j = j + 1;
        }
        proof {
            assert(fa.data_packets@ =~= fb.data_packets@);
        }
        i = i + 1;
    }
    true
}

/// Content equality carries well-formedness over, once the lookup table
/// is rebuilt.
proof fn lemma_content_equal_transfers_wf(
    given: PidxIndex,
    fresh: PidxIndex,
    files: Seq<ContainerFile>,
)
    requires
        index_wf(fresh, files),
        content_equal(given, fresh),
        ts_index_wf(given.timestamp_index@, given.data_files.files@),
    ensures
        index_wf(given, files),
{
    assert forall|i: int| 0 <= i < files.len() implies file_index_wf(
        #[trigger] given.data_files.files@[i],
        files[i],
    ) by {
        assert(file_index_wf(fresh.data_files.files@[i], files[i]));
    }
    lemma_aggregates_from_content(given.data_files.files@, fresh.data_files.files@);
}

/// Equal file records give equal sums and extrema.
proof fn lemma_aggregates_from_content(a: Seq<PcapFileIndex>, b: Seq<PcapFileIndex>)
    requires
        a.len() == b.len(),
        forall|i: int|
            0 <= i < a.len() ==> {
                let fa = #[trigger] a[i];
                let fb = b[i];
                &&& fa.packet_count == fb.packet_count
                &&& fa.start_timestamp == fb.start_timestamp
                &&& fa.end_timestamp == fb.end_timestamp
            },
    ensures
        sum_counts(a) == sum_counts(b),
        min_start_of(a) == min_start_of(b),
        max_end_of(a) == max_end_of(b),
    decreases a.len(),
{
    if a.len() > 0 {
        assert forall|i: int| 0 <= i < a.drop_first().len() implies {
            let fa = #[trigger] a.drop_first()[i];
            let fb = b.drop_first()[i];
            &&& fa.packet_count == fb.packet_count
            &&& fa.start_timestamp == fb.start_timestamp
            &&& fa.end_timestamp == fb.end_timestamp
        } by {
            assert(a[i + 1] == a.drop_first()[i]);
            assert(b[i + 1] == b.drop_first()[i]);
        }
        lemma_aggregates_from_content(a.drop_first(), b.drop_first());
    }
}

/// When one more record would overflow, the whole scan total cannot fit.
proof fn lemma_sum_counts_prefix_ge(
    records: Seq<PcapFileIndex>,
    fi: PcapFileIndex,
    files: Seq<ContainerFile>,
    i: int,
)
    requires
        0 <= i < files.len(),
        records.len() == i,
        forall|k: int| 0 <= k < i ==> file_index_wf(#[trigger] records[k], files[k]),
        file_index_wf(fi, files[i]),
        sum_counts(records) + fi.packet_count > u64::MAX,
    ensures
        !sum_counts_fit(files),
{
    lemma_counts_agree(records, files, i);
    crate::dataset::lemma_count_prefix_monotone(files, i + 1, files.len() as int);
    assert(crate::dataset::count_prefix(files, i + 1) == crate::dataset::count_prefix(files, i)
        + file_frames(files[i]).len());
}

/// Matching records count the same packets as the files they describe.
pub proof fn lemma_counts_agree(records: Seq<PcapFileIndex>, files: Seq<ContainerFile>, i: int)
    requires
        0 <= i <= files.len(),
        records.len() == i,
        forall|k: int| 0 <= k < i ==> file_index_wf(#[trigger] records[k], files[k]),
    ensures
        sum_counts(records) == crate::dataset::count_prefix(files, i),
    decreases i,
{
    if i > 0 {
        assert forall|k: int| 0 <= k < i - 1 implies file_index_wf(
            #[trigger] records.take(i - 1)[k],
            files[k],
        ) by {
            assert(records[k] == records.take(i - 1)[k]);
        }
        lemma_counts_agree(records.take(i - 1), files, i - 1);
        assert(records.take(i - 1).push(records[i - 1]) =~= records);
        lemma_sum_counts_push(records.take(i - 1), records[i - 1]);
    }
}

/// The records built by a full scan count exactly the scan total.
proof fn lemma_sum_counts_fit_whole(records: Seq<PcapFileIndex>, files: Seq<ContainerFile>)
    requires
        records.len() == files.len(),
        forall|k: int| 0 <= k < files.len() ==> file_index_wf(#[trigger] records[k], files[k]),
        sum_counts(records) <= u64::MAX,
    ensures
        sum_counts(records) == crate::dataset::count_prefix(files, files.len() as int),
        sum_counts_fit(files),
{
    lemma_counts_agree(records, files, files.len() as int);
}

/// The structural soundness of an index document taken by itself: the
/// packet total adds up, the lookup table has one entry per packet, the
/// file records are kept in name order, and each record is internally
/// consistent.
pub open spec fn structurally_valid(idx: PidxIndex) -> bool {
    &&& idx.total_packets == sum_counts(idx.data_files.files@)
    &&& idx.timestamp_index@.len() == idx.total_packets
    &&& forall|i: int|
        0 <= i < idx.data_files.files@.len() ==> record_valid(#[trigger] idx.data_files.files@[i])
    &&& forall|i: int|
        0 <= i < idx.data_files.files@.len() - 1 ==> lex_le(
            (#[trigger] idx.data_files.files@[i]).file_name@,
            idx.data_files.files@[i + 1].file_name@,
        )
}

/// One record is internally consistent: its count matches its entries,
/// its extrema are those of its entries, and every entry's frame lies
/// within the file's recorded size.
pub open spec fn record_valid(fi: PcapFileIndex) -> bool {
    &&& fi.packet_count == fi.data_packets@.len()
    &&& fi.start_timestamp == entries_min_ts(fi.data_packets@)
    &&& fi.end_timestamp == entries_max_ts(fi.data_packets@)
    &&& forall|j: int|
        0 <= j < fi.data_packets@.len() ==> (#[trigger] fi.data_packets@[j]).byte_offset + 16
            + fi.data_packets@[j].packet_size <= fi.file_size
}

/// `a` comes no later than `b` in character order, by code point.
pub open spec fn lex_le(a: Seq<char>, b: Seq<char>) -> bool
    decreases a.len(),
{
    if a.len() == 0 {
        true
    } else if b.len() == 0 {
        false
    } else if (a[0] as u32) < (b[0] as u32) {
        true
    } else if (a[0] as u32) > (b[0] as u32) {
        false
    } else {
        lex_le(a.drop_first(), b.drop_first())
    }
}

/// Compares two names in character order.
fn str_lex_le(a: &str, b: &str) -> (r: bool)
    ensures
        r == lex_le(a@, b@),
{
    let na = a.unicode_len();
    let nb = b.unicode_len();
    let mut i: usize = 0;
    proof {
        assert(a@.skip(0) =~= a@);
        assert(b@.skip(0) =~= b@);
    }
    loop
        invariant
            i <= na,
            i <= nb,
            na == a@.len(),
            nb == b@.len(),
            lex_le(a@, b@) == lex_le(a@.skip(i as int), b@.skip(i as int)),
        decreases na - i,
    {
        if i >= na {
            proof {
                assert(a@.skip(i as int).len() == 0);
            }
            return true;
        }
        if i >= nb {
            proof {
                assert(b@.skip(i as int).len() == 0);
                assert(a@.skip(i as int).len() > 0);
            }
            return false;
        }
        let ca = a.get_char(i);
        let cb = b.get_char(i);
        proof {
            assert(a@.skip(i as int)[0] == a@[i as int]);
            assert(b@.skip(i as int)[0] == b@[i as int]);
        }
        if (ca as u32) < (cb as u32) {
            return true;
        }
        if (ca as u32) > (cb as u32) {
            return false;
        }
        proof {
            assert(a@.skip(i as int).drop_first() =~= a@.skip(i + 1));
            assert(b@.skip(i as int).drop_first() =~= b@.skip(i + 1));
        }
        i = i + 1;
    }
}

/// Checks one record's internal consistency.
fn check_record(fi: &PcapFileIndex) -> (r: bool)
    ensures
        r == record_valid(*fi),
{
    let np = fi.data_packets.len();
    if fi.packet_count != np as u64 {
        return false;
    }
    let (lo, hi) = entries_extrema(&fi.data_packets);
    if fi.start_timestamp != lo || fi.end_timestamp != hi {
        return false;
    }
    let mut j: usize = 0;
    while j < np
        invariant
            j <= np,
            np == fi.data_packets@.len(),
            fi.packet_count == np,
            forall|q: int|
                0 <= q < j ==> (#[trigger] fi.data_packets@[q]).byte_offset + 16
                    + fi.data_packets@[q].packet_size <= fi.file_size,
        decreases np - j,
    {
        let e = &fi.data_packets[j];
        if (e.byte_offset as u128) + 16 + (e.packet_size as u128) > fi.file_size as u128 {
            return false;
        }
        j = j + 1;
    }
    true
}

impl IndexManager {
    /// The structural check on the loaded index: the totals add up and
    /// every recorded frame lies within its file.  Fails exactly when no
    /// index is loaded.
    pub fn verify_index_validity(&self) -> (r: PcapResult<bool>)
        ensures
            r is Ok <==> self.index_spec() is Some,
            r matches Ok(b) ==> (self.index_spec() matches Some(idx) && b == structurally_valid(
                idx,
            )),
            r matches Err(e) ==> e is InvalidState,
    {
        let idx = match self.get_index() {
            Some(idx) => idx,
            None => {
                return Err(PcapError::InvalidState(String::from_str("no index loaded")));
            },
        };
        let ghost records = idx.data_files.files@;
        let n = idx.data_files.files.len();
        let mut total: u64 = 0;
        let mut i: usize = 0;
        while i < n
            invariant
                i <= n,
                n == records.len(),
                self.index_spec() == Some(*idx),
                records == idx.data_files.files@,
                total == sum_counts(records.take(i as int)),
                sum_counts(records.take(i as int)) <= u64::MAX,
                forall|q: int| 0 <= q < i ==> record_valid(#[trigger] records[q]),
                forall|q: int|
                    0 <= q < i - 1 ==> lex_le(
                        (#[trigger] records[q]).file_name@,
                        records[q + 1].file_name@,
                    ),
            decreases n - i,
        {
            let fi = &idx.data_files.files[i];
            if !check_record(fi) {
                return Ok(false);
            }
            if i > 0 {
                let prev = &idx.data_files.files[i - 1];
                if !str_lex_le(prev.file_name.as_str(), fi.file_name.as_str()) {
                    return Ok(false);
                }
            }
            proof {
                lemma_sum_counts_push(records.take(i as int), records[i as int]);
                assert(records.take(i as int).push(records[i as int]) =~= records.take(i + 1));
            }
            let next = match total.checked_add(fi.packet_count) {
                Some(t) => t,
                None => {
                    proof {
                        lemma_sum_counts_prefix_bound_records(records, i + 1);
                        assert(sum_counts(records) > u64::MAX);
                    }
                    return Ok(false);
                },
            };
            total = next;
            i = i + 1;
        }
        proof {
            assert(records.take(n as int) =~= records);
        }
        if total != idx.total_packets {
            return Ok(false);
        }
        Ok(idx.timestamp_index.len() as u64 == idx.total_packets)
    }
}

/// A prefix sum of the counts never exceeds the whole sum.
proof fn lemma_sum_counts_prefix_bound_records(records: Seq<PcapFileIndex>, i: int)
    requires
        0 <= i <= records.len(),
    ensures
        sum_counts(records.take(i)) <= sum_counts(records),
{
    crate::index::lemma_sum_counts_prefix_bound(records, i);
}

} // verus!
