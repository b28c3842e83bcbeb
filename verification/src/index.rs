//! The sidecar index model: per-packet entries, per-file metadata, the
//! dataset-wide aggregate, and the derived timestamp lookup table.
//!
//! The lookup table is a vector of pointers kept sorted by timestamp with
//! no duplicate keys; an exact lookup bisects it.

use vstd::prelude::*;

use crate::codec::FrameModel;
use crate::stamp::now_rfc3339;
use vstd::pervasive::VecAdditionalExecFns;

verus! {

/// One packet's place on disk: its timestamp, the byte offset of its frame
/// within its container file, and its payload size.
#[derive(Debug, Clone, Copy, PartialEq, Eq, Structural)]
pub struct PacketIndexEntry {
    pub timestamp_ns: u64,
    pub byte_offset: u64,
    pub packet_size: u32,
}

/// A packet entry paired with the position of its container file in the
/// dataset's file list.
#[derive(Debug, Clone, Copy, PartialEq, Eq, Structural)]
pub struct TimestampPointer {
    pub file_index: usize,
    pub entry: PacketIndexEntry,
}

/// The index record of one container file.
#[derive(Debug, Clone)]
pub struct PcapFileIndex {
    pub file_name: String,
    pub file_hash: String,
    pub file_size: u64,
    pub packet_count: u64,
    pub start_timestamp: u64,
    pub end_timestamp: u64,
    pub data_packets: Vec<PacketIndexEntry>,
}

/// The container files of a dataset, in on-disk name order.
#[derive(Debug, Clone)]
pub struct DataFiles {
    pub files: Vec<PcapFileIndex>,
}

/// The sidecar index: dataset-wide aggregates, the per-file records, and
/// the derived timestamp lookup table (not persisted).
#[derive(Debug, Clone)]
pub struct PidxIndex {
    pub description: String,
    pub created_time: String,
    pub start_timestamp: u64,
    pub end_timestamp: u64,
    pub total_packets: u64,
    pub total_duration: u64,
    pub data_files: DataFiles,
    pub timestamp_index: Vec<TimestampPointer>,
}

/// The index entry describing a located frame.
pub open spec fn entry_of(f: FrameModel) -> PacketIndexEntry {
    PacketIndexEntry {
        timestamp_ns: f.packet.timestamp_ns,
        byte_offset: f.off as u64,
        packet_size: f.packet.data.len() as u32,
    }
}

/// The smallest `start_timestamp` among the files; 0 with no files.
pub open spec fn min_start_of(files: Seq<PcapFileIndex>) -> u64
    decreases files.len(),
{
    if files.len() == 0 {
        0u64
    } else {
        let rest = min_start_of(files.drop_first());
        if files.len() == 1 || files[0].start_timestamp <= rest {
            files[0].start_timestamp
        } else {
            rest
        }
    }
}

/// The largest `end_timestamp` among the files; 0 with no files.
pub open spec fn max_end_of(files: Seq<PcapFileIndex>) -> u64
    decreases files.len(),
{
    if files.len() == 0 {
        0u64
    } else {
        let rest = max_end_of(files.drop_first());
        if files[0].end_timestamp >= rest {
            files[0].end_timestamp
        } else {
            rest
        }
    }
}

/// The sum of the files' packet counts, as an unbounded integer.
pub open spec fn sum_counts(files: Seq<PcapFileIndex>) -> int
    decreases files.len(),
{
    if files.len() == 0 {
        0
    } else {
        files[0].packet_count + sum_counts(files.drop_first())
    }
}

/// The lookup table is strictly ascending in timestamp, which also makes
/// its keys unique.
pub open spec fn ts_index_sorted(ti: Seq<TimestampPointer>) -> bool {
    forall|i: int, j: int|
        0 <= i < j < ti.len() ==> #[trigger] ti[i].entry.timestamp_ns < #[trigger] ti[j].entry.timestamp_ns
}

/// Some pointer in the table carries this timestamp.
pub open spec fn has_pointer_for(ti: Seq<TimestampPointer>, ts: u64) -> bool {
    exists|i: int| 0 <= i < ti.len() && #[trigger] ti[i].entry.timestamp_ns == ts
}

/// The pointer refers to an entry that the file records actually hold.
pub open spec fn pointer_matches(files: Seq<PcapFileIndex>, p: TimestampPointer) -> bool {
    &&& p.file_index < files.len()
    &&& files[p.file_index as int].data_packets@.contains(p.entry)
}

/// Some file record holds an entry with this timestamp.
pub open spec fn files_have_ts(files: Seq<PcapFileIndex>, ts: u64) -> bool {
    exists|k: int, j: int|
        0 <= k < files.len() && 0 <= j < files[k].data_packets@.len()
            && #[trigger] files[k].data_packets@[j].timestamp_ns == ts
}

/// The lookup table agrees with the file records: it is sorted, every
/// pointer in it names a recorded entry, and every recorded timestamp has
/// a pointer.
pub open spec fn ts_index_wf(ti: Seq<TimestampPointer>, files: Seq<PcapFileIndex>) -> bool {
    &&& ts_index_sorted(ti)
    &&& forall|i: int| 0 <= i < ti.len() ==> pointer_matches(files, #[trigger] ti[i])
    &&& forall|k: int, j: int|
        0 <= k < files.len() && 0 <= j < files[k].data_packets@.len() ==> has_pointer_for(
            ti,
            #[trigger] files[k].data_packets@[j].timestamp_ns,
        )
}

/// The closure that keeps pointers whose timestamp lies in `[lo, hi]`.
pub open spec fn in_range(lo: u64, hi: u64) -> spec_fn(TimestampPointer) -> bool {
    |p: TimestampPointer| lo <= p.entry.timestamp_ns <= hi
}

/// File `k` holds an entry at slot `j`.
pub open spec fn entry_location(files: Seq<PcapFileIndex>, k: int, j: int) -> bool {
    0 <= k < files.len() && 0 <= j < files[k].data_packets@.len()
}

/// Location `(k1, j1)` comes strictly before `(k2, j2)`: an earlier file,
/// or an earlier slot of the same file.
pub open spec fn loc_before(k1: int, j1: int, k2: int, j2: int) -> bool {
    k1 < k2 || (k1 == k2 && j1 < j2)
}

/// No later entry carries the same timestamp: `(k, j)` is the last
/// occurrence of its timestamp in file order, then entry order.
pub open spec fn last_with_ts(files: Seq<PcapFileIndex>, k: int, j: int) -> bool {
    forall|k2: int, j2: int|
        #[trigger] entry_location(files, k2, j2) && files[k2].data_packets@[j2].timestamp_ns
            == files[k].data_packets@[j].timestamp_ns ==> !loc_before(k, j, k2, j2)
}

/// The pointer that the lookup table keeps for the entry at `(k, j)`.
pub open spec fn pointer_at(files: Seq<PcapFileIndex>, k: int, j: int) -> TimestampPointer {
    TimestampPointer { file_index: k as usize, entry: files[k].data_packets@[j] }
}

/// Every entry carries a timestamp of its own.
pub open spec fn all_ts_distinct(files: Seq<PcapFileIndex>) -> bool {
    forall|k1: int, j1: int, k2: int, j2: int|
        #[trigger] entry_location(files, k1, j1) && #[trigger] entry_location(files, k2, j2) && !(
        k1 == k2 && j1 == j2) ==> files[k1].data_packets@[j1].timestamp_ns
            != files[k2].data_packets@[j2].timestamp_ns
}

/// How many entries the files record in all.
pub open spec fn entries_total(files: Seq<PcapFileIndex>) -> int
    decreases files.len(),
{
    if files.len() == 0 {
        0
    } else {
        files[0].data_packets@.len() + entries_total(files.drop_first())
    }
}

/// Extending a prefix by one file adds its entry count to the total.
pub proof fn lemma_entries_total_take_step(files: Seq<PcapFileIndex>, i: int)
    requires
        0 <= i < files.len(),
    ensures
        entries_total(files.take(i + 1)) == entries_total(files.take(i)) + files[
            i
        ].data_packets@.len(),
    decreases i,
{
    reveal_with_fuel(entries_total, 3);
    if i == 0 {
        assert(files.take(1).drop_first() =~= Seq::<PcapFileIndex>::empty());
        assert(files.take(0) =~= Seq::<PcapFileIndex>::empty());
    } else {
        assert(files.take(i + 1).drop_first() =~= files.drop_first().take(i));
        assert(files.take(i).drop_first() =~= files.drop_first().take(i - 1));
        lemma_entries_total_take_step(files.drop_first(), i - 1);
    }
}

/// Some entry strictly before `(k, j)` carries this timestamp.
pub open spec fn prefix_has_entry_ts(files: Seq<PcapFileIndex>, k: int, j: int, ts: u64) -> bool {
    exists|k2: int, j2: int|
        #[trigger] entry_location(files, k2, j2) && loc_before(k2, j2, k, j) && files[
            k2
        ].data_packets@[j2].timestamp_ns == ts
}

impl PidxIndex {
    /// A fresh, empty index stamped with the current wall-clock time.
    pub fn new(description: Option<String>) -> (r: PidxIndex)
        ensures
            description matches Some(d) ==> r.description == d,
            description is None ==> r.description@.len() == 0,
            r.start_timestamp == 0,
            r.end_timestamp == 0,
            r.total_packets == 0,
            r.total_duration == 0,
            r.data_files.files@.len() == 0,
            r.timestamp_index@.len() == 0,
    {
        let description = match description {
            Some(d) => d,
            None => String::new(),
        };
        PidxIndex {
            description,
            created_time: now_rfc3339(),
            start_timestamp: 0,
            end_timestamp: 0,
            total_packets: 0,
            total_duration: 0,
            data_files: DataFiles { files: Vec::new() },
            timestamp_index: Vec::new(),
        }
    }

    /// Recomputes the dataset-wide time range from the per-file extrema:
    /// the earliest start, the latest end, and their distance.
    pub fn update_time_range(&mut self)
        ensures
            final(self).start_timestamp == min_start_of(old(self).data_files.files@),
            final(self).end_timestamp == max_end_of(old(self).data_files.files@),
            final(self).total_duration == if final(self).end_timestamp
                >= final(self).start_timestamp {
                final(self).end_timestamp - final(self).start_timestamp
            } else {
                0
            },
            final(self).description == old(self).description,
            final(self).created_time == old(self).created_time,
            final(self).total_packets == old(self).total_packets,
            final(self).data_files == old(self).data_files,
            final(self).timestamp_index == old(self).timestamp_index,
    {
        let n = self.data_files.files.len();
        if n == 0 {
            self.start_timestamp = 0;
            self.end_timestamp = 0;
            self.total_duration = 0;
            return ;
        }
        let mut start: u64 = self.data_files.files[0].start_timestamp;
        let mut end: u64 = self.data_files.files[0].end_timestamp;
        let mut i: usize = 1;
        proof {
            reveal_with_fuel(min_start_of, 2);
            reveal_with_fuel(max_end_of, 2);
            assert(self.data_files.files@.take(1).drop_first() =~= Seq::<PcapFileIndex>::empty());
        }
        while i < n
            invariant
                1 <= i <= n,
                n == self.data_files.files@.len(),
                start == min_start_of(self.data_files.files@.take(i as int)),
                end == max_end_of(self.data_files.files@.take(i as int)),
            decreases n - i,
        {
            proof {
                lemma_min_start_take_step(self.data_files.files@, i as int);
                lemma_max_end_take_step(self.data_files.files@, i as int);
            }
            let s = self.data_files.files[i].start_timestamp;
            let e = self.data_files.files[i].end_timestamp;
            if s < start {
                start = s;
            }
            if e > end {
                end = e;
            }
            i = i + 1;
        }
        proof {
            assert(self.data_files.files@.take(n as int) =~= self.data_files.files@);
        }
        self.start_timestamp = start;
        self.end_timestamp = end;
        self.total_duration = if end >= start {
            end - start
        } else {
            0
        };
    }

    /// Recomputes the dataset-wide packet total from the per-file counts.
    pub fn update_total_packets(&mut self)
        requires
            sum_counts(old(self).data_files.files@) <= u64::MAX,
        ensures
            final(self).total_packets == sum_counts(old(self).data_files.files@),
            final(self).description == old(self).description,
            final(self).created_time == old(self).created_time,
            final(self).start_timestamp == old(self).start_timestamp,
            final(self).end_timestamp == old(self).end_timestamp,
            final(self).total_duration == old(self).total_duration,
            final(self).data_files == old(self).data_files,
            final(self).timestamp_index == old(self).timestamp_index,
    {
        let n = self.data_files.files.len();
        let mut total: u64 = 0;
        let mut i: usize = 0;
        while i < n
            invariant
                i <= n,
                n == self.data_files.files@.len(),
                total == sum_counts(self.data_files.files@.take(i as int)),
                sum_counts(self.data_files.files@) <= u64::MAX,
            decreases n - i,
        {
            proof {
                lemma_sum_counts_take_step(self.data_files.files@, i as int);
                lemma_sum_counts_prefix_bound(self.data_files.files@, i + 1);
            }
            total = total + self.data_files.files[i].packet_count;
            i = i + 1;
        }
        proof {
            assert(self.data_files.files@.take(n as int) =~= self.data_files.files@);
        }
        self.total_packets = total;
    }
}

/// Extending a prefix by one file folds its start into the minimum.
proof fn lemma_min_start_take_step(files: Seq<PcapFileIndex>, i: int)
    requires
        1 <= i < files.len(),
    ensures
        min_start_of(files.take(i + 1)) == if files[i].start_timestamp < min_start_of(
            files.take(i),
        ) {
            files[i].start_timestamp
        } else {
            min_start_of(files.take(i))
        },
    decreases i,
{
    reveal_with_fuel(min_start_of, 3);
    reveal_with_fuel(max_end_of, 3);
    if i == 1 {
        assert(files.take(2).drop_first() =~= seq![files[1]]);
        assert(files.take(1).drop_first() =~= Seq::<PcapFileIndex>::empty());
        assert(seq![files[1int]].drop_first() =~= Seq::<PcapFileIndex>::empty());
    } else {
        assert(files.take(i + 1).drop_first() =~= files.drop_first().take(i));
        assert(files.take(i).drop_first() =~= files.drop_first().take(i - 1));
        lemma_min_start_take_step(files.drop_first(), i - 1);
        assert(files.drop_first().take(i - 1 + 1) =~= files.drop_first().take(i));
    }
}

/// Extending a prefix by one file folds its end into the maximum.
proof fn lemma_max_end_take_step(files: Seq<PcapFileIndex>, i: int)
    requires
        1 <= i < files.len(),
    ensures
        max_end_of(files.take(i + 1)) == if files[i].end_timestamp > max_end_of(files.take(i)) {
            files[i].end_timestamp
        } else {
            max_end_of(files.take(i))
        },
    decreases i,
{
    reveal_with_fuel(min_start_of, 3);
    reveal_with_fuel(max_end_of, 3);
    if i == 1 {
        assert(files.take(2).drop_first() =~= seq![files[1]]);
        assert(files.take(1).drop_first() =~= Seq::<PcapFileIndex>::empty());
        assert(seq![files[1int]].drop_first() =~= Seq::<PcapFileIndex>::empty());
    } else {
        assert(files.take(i + 1).drop_first() =~= files.drop_first().take(i));
        assert(files.take(i).drop_first() =~= files.drop_first().take(i - 1));
        lemma_max_end_take_step(files.drop_first(), i - 1);
        assert(files.drop_first().take(i - 1 + 1) =~= files.drop_first().take(i));
    }
}

/// Extending a prefix by one file adds its count to the sum.
proof fn lemma_sum_counts_take_step(files: Seq<PcapFileIndex>, i: int)
    requires
        0 <= i < files.len(),
    ensures
        sum_counts(files.take(i + 1)) == sum_counts(files.take(i)) + files[i].packet_count,
    decreases i,
{
    if i == 0 {
        assert(files.take(1).drop_first() =~= Seq::<PcapFileIndex>::empty());
        assert(files.take(0) =~= Seq::<PcapFileIndex>::empty());
    } else {
        assert(files.take(i + 1).drop_first() =~= files.drop_first().take(i));
        assert(files.take(i).drop_first() =~= files.drop_first().take(i - 1));
        lemma_sum_counts_take_step(files.drop_first(), i - 1);
    }
}

/// A prefix sum never exceeds the whole sum.
pub proof fn lemma_sum_counts_prefix_bound(files: Seq<PcapFileIndex>, i: int)
    requires
        0 <= i <= files.len(),
    ensures
        sum_counts(files.take(i)) <= sum_counts(files),
    decreases files.len(),
{
    lemma_sum_counts_nonneg(files);
    if i == 0 {
        assert(files.take(0) =~= Seq::<PcapFileIndex>::empty());
        lemma_sum_counts_nonneg(files);
    } else if files.len() > 0 {
        assert(files.take(i).drop_first() =~= files.drop_first().take(i - 1));
        lemma_sum_counts_prefix_bound(files.drop_first(), i - 1);
    }
}

/// Packet counts are unsigned, so the sum cannot be negative.
proof fn lemma_sum_counts_nonneg(files: Seq<PcapFileIndex>)
    ensures
        sum_counts(files) >= 0,
    decreases files.len(),
{
    if files.len() > 0 {
        lemma_sum_counts_nonneg(files.drop_first());
    }
}

/// Some pointer in the table has a timestamp at least `ts`.
pub open spec fn has_pointer_ge(ti: Seq<TimestampPointer>, ts: u64) -> bool {
    exists|i: int| 0 <= i < ti.len() && #[trigger] ti[i].entry.timestamp_ns >= ts
}

/// The index of the first pointer whose timestamp is at least `ts`.
fn lower_bound(ti: &Vec<TimestampPointer>, ts: u64) -> (r: usize)
    requires
        ts_index_sorted(ti@),
    ensures
        r <= ti@.len(),
        forall|i: int| 0 <= i < r ==> #[trigger] ti@[i].entry.timestamp_ns < ts,
        forall|i: int| r <= i < ti@.len() ==> #[trigger] ti@[i].entry.timestamp_ns >= ts,
{
    let mut lo: usize = 0;
    let mut hi: usize = ti.len();
    while lo < hi
        invariant
            lo <= hi <= ti@.len(),
            ts_index_sorted(ti@),
            forall|i: int| 0 <= i < lo ==> #[trigger] ti@[i].entry.timestamp_ns < ts,
            forall|i: int| hi <= i < ti@.len() ==> #[trigger] ti@[i].entry.timestamp_ns >= ts,
        decreases hi - lo,
    {
        let mid = lo + (hi - lo) / 2;
        if ti[mid].entry.timestamp_ns < ts {
            proof {
                assert forall|i: int| 0 <= i < mid + 1 implies #[trigger] ti@[i].entry.timestamp_ns
                    < ts by {
                    if i < mid {
                        assert(ti@[i].entry.timestamp_ns < ti@[mid as int].entry.timestamp_ns);
                    }
                }
            }
            lo = mid + 1;
        } else {
            proof {
                assert forall|i: int| mid <= i < ti@.len() implies #[trigger] ti@[i].entry.timestamp_ns
                    >= ts by {
                    if i > mid {
                        assert(ti@[mid as int].entry.timestamp_ns < ti@[i].entry.timestamp_ns);
                    }
                }
            }
            hi = mid;
        }
    }
    lo
}

/// Puts a pointer into the sorted table: replaces the pointer with the same
/// timestamp if one is there, inserts in order otherwise.
fn insert_pointer(ti: &mut Vec<TimestampPointer>, p: TimestampPointer)
    requires
        ts_index_sorted(old(ti)@),
    ensures
        ts_index_sorted(final(ti)@),
        forall|q: TimestampPointer| final(ti)@.contains(q) ==> old(ti)@.contains(q) || q == p,
        forall|ts2: u64|
            has_pointer_for(final(ti)@, ts2) <==> has_pointer_for(old(ti)@, ts2) || ts2
                == p.entry.timestamp_ns,
        final(ti)@.contains(p),
        forall|q: TimestampPointer|
            final(ti)@.contains(q) && q.entry.timestamp_ns == p.entry.timestamp_ns ==> q == p,
        forall|q: TimestampPointer|
            old(ti)@.contains(q) && q.entry.timestamp_ns != p.entry.timestamp_ns
                ==> final(ti)@.contains(q),
        has_pointer_for(old(ti)@, p.entry.timestamp_ns) ==> final(ti)@.len() == old(ti)@.len(),
        !has_pointer_for(old(ti)@, p.entry.timestamp_ns) ==> final(ti)@.len() == old(ti)@.len()
            + 1,
{
    let idx = lower_bound(ti, p.entry.timestamp_ns);
    if idx < ti.len() && ti[idx].entry.timestamp_ns == p.entry.timestamp_ns {
        ti.set(idx, p);
        proof {
            let told = old(ti)@;
            let tnew = ti@;
            assert forall|i: int, j: int| 0 <= i < j < tnew.len() implies #[trigger] tnew[i].entry.timestamp_ns
                < #[trigger] tnew[j].entry.timestamp_ns by {
                assert(told[i].entry.timestamp_ns < told[j].entry.timestamp_ns);
            }
            assert forall|q: TimestampPointer| tnew.contains(q) implies told.contains(q) || q
                == p by {
                let i = choose|i: int| 0 <= i < tnew.len() && tnew[i] == q;
                if i != idx {
                    assert(told[i] == q);
                }
            }
            assert forall|ts2: u64| has_pointer_for(tnew, ts2) implies (has_pointer_for(told, ts2)
                || ts2 == p.entry.timestamp_ns) by {
                let i = choose|i: int|
                    0 <= i < tnew.len() && #[trigger] tnew[i].entry.timestamp_ns == ts2;
                if i != idx {
                    assert(told[i].entry.timestamp_ns == ts2);
                }
            }
            assert forall|ts2: u64|
                has_pointer_for(told, ts2) || ts2 == p.entry.timestamp_ns implies has_pointer_for(
                tnew,
                ts2,
            ) by {
                if ts2 == p.entry.timestamp_ns {
                    assert(tnew[idx as int].entry.timestamp_ns == ts2);
                } else {
                    let i = choose|i: int|
                        0 <= i < told.len() && #[trigger] told[i].entry.timestamp_ns == ts2;
                    assert(tnew[i].entry.timestamp_ns == ts2);
                }
            }
            assert(tnew.contains(p)) by {
                assert(tnew[idx as int] == p);
            }
            assert forall|q: TimestampPointer|
                tnew.contains(q) && q.entry.timestamp_ns == p.entry.timestamp_ns implies q
                == p by {
                let i = choose|i: int| 0 <= i < tnew.len() && tnew[i] == q;
                if i != idx {
                    assert(tnew[i].entry.timestamp_ns != tnew[idx as int].entry.timestamp_ns);
                }
            }
            assert forall|q: TimestampPointer|
                told.contains(q) && q.entry.timestamp_ns != p.entry.timestamp_ns implies tnew.contains(
                q,
            ) by {
                let i = choose|i: int| 0 <= i < told.len() && told[i] == q;
                assert(i != idx);
                assert(tnew[i] == q);
            }
            assert(has_pointer_for(told, p.entry.timestamp_ns)) by {
                assert(told[idx as int].entry.timestamp_ns == p.entry.timestamp_ns);
            }
        }
    } else {
        ti.insert(idx, p);
        proof {
            let told = old(ti)@;
            let tnew = ti@;
            assert forall|i: int| 0 <= i < tnew.len() implies tnew[i] == (if i < idx {
                told[i]
            } else if i == idx {
                p
            } else {
                told[i - 1]
            }) by {}
            assert forall|i: int, j: int| 0 <= i < j < tnew.len() implies #[trigger] tnew[i].entry.timestamp_ns
                < #[trigger] tnew[j].entry.timestamp_ns by {
                if i < idx && j > idx {
                    assert(told[i].entry.timestamp_ns < p.entry.timestamp_ns);
                    assert(told[j - 1].entry.timestamp_ns >= p.entry.timestamp_ns);
                    assert(told[j - 1].entry.timestamp_ns != p.entry.timestamp_ns);
                }
                if i == idx && j > idx {
                    assert(told[j - 1].entry.timestamp_ns >= p.entry.timestamp_ns);
                    assert(told[j - 1].entry.timestamp_ns != p.entry.timestamp_ns);
                }
            }
            assert forall|q: TimestampPointer| tnew.contains(q) implies told.contains(q) || q
                == p by {
                let i = choose|i: int| 0 <= i < tnew.len() && tnew[i] == q;
                if i < idx {
                    assert(told[i] == q);
                } else if i > idx {
                    assert(told[i - 1] == q);
                }
            }
            assert forall|ts2: u64| has_pointer_for(tnew, ts2) implies (has_pointer_for(told, ts2)
                || ts2 == p.entry.timestamp_ns) by {
                let i = choose|i: int|
                    0 <= i < tnew.len() && #[trigger] tnew[i].entry.timestamp_ns == ts2;
                if i < idx {
                    assert(told[i].entry.timestamp_ns == ts2);
                } else if i > idx {
                    assert(told[i - 1].entry.timestamp_ns == ts2);
                }
            }
            assert forall|ts2: u64|
                has_pointer_for(told, ts2) || ts2 == p.entry.timestamp_ns implies has_pointer_for(
                tnew,
                ts2,
            ) by {
                if ts2 == p.entry.timestamp_ns {
                    assert(tnew[idx as int].entry.timestamp_ns == ts2);
                } else {
                    let i = choose|i: int|
                        0 <= i < told.len() && #[trigger] told[i].entry.timestamp_ns == ts2;
                    if i < idx {
                        assert(tnew[i].entry.timestamp_ns == ts2);
                    } else {
                        assert(tnew[i + 1].entry.timestamp_ns == ts2);
                    }
                }
            }
            assert(tnew.contains(p)) by {
                assert(tnew[idx as int] == p);
            }
            assert forall|q: TimestampPointer|
                tnew.contains(q) && q.entry.timestamp_ns == p.entry.timestamp_ns implies q
                == p by {
                let i = choose|i: int| 0 <= i < tnew.len() && tnew[i] == q;
                if i != idx {
                    assert(tnew[i].entry.timestamp_ns != tnew[idx as int].entry.timestamp_ns);
                }
            }
            assert forall|q: TimestampPointer|
                told.contains(q) && q.entry.timestamp_ns != p.entry.timestamp_ns implies tnew.contains(
                q,
            ) by {
                let i = choose|i: int| 0 <= i < told.len() && told[i] == q;
                if i < idx {
                    assert(tnew[i] == q);
                } else {
                    assert(tnew[i + 1] == q);
                }
            }
            assert(!has_pointer_for(told, p.entry.timestamp_ns)) by {
                if has_pointer_for(told, p.entry.timestamp_ns) {
                    let i = choose|i: int|
                        0 <= i < told.len() && #[trigger] told[i].entry.timestamp_ns
                            == p.entry.timestamp_ns;
                    if i > idx {
                        assert(told[idx as int].entry.timestamp_ns < told[i].entry.timestamp_ns);
                    }
                    assert(false);
                }
            }
        }
    }
}

impl PidxIndex {
    /// Rebuilds the timestamp lookup table from the per-file entries.  A
    /// timestamp recorded more than once keeps the pointer seen last, in
    /// file order then entry order.
    pub fn build_timestamp_index(&mut self)
        ensures
            ts_index_wf(final(self).timestamp_index@, final(self).data_files.files@),
            forall|k: int, j: int|
                #[trigger] entry_location(final(self).data_files.files@, k, j) && last_with_ts(
                    final(self).data_files.files@,
                    k,
                    j,
                ) ==> final(self).timestamp_index@.contains(
                    pointer_at(final(self).data_files.files@, k, j),
                ),
            all_ts_distinct(final(self).data_files.files@)
                ==> final(self).timestamp_index@.len() == entries_total(
                final(self).data_files.files@,
            ),
            final(self).description == old(self).description,
            final(self).created_time == old(self).created_time,
            final(self).start_timestamp == old(self).start_timestamp,
            final(self).end_timestamp == old(self).end_timestamp,
            final(self).total_packets == old(self).total_packets,
            final(self).total_duration == old(self).total_duration,
            final(self).data_files == old(self).data_files,
    {
        self.timestamp_index.clear();
        proof {
            reveal_with_fuel(entries_total, 2);
            assert(self.data_files.files@.take(0) =~= Seq::<PcapFileIndex>::empty());
        }
        let nf = self.data_files.files.len();
        let mut k: usize = 0;
        while k < nf
            invariant
                k <= nf,
                nf == self.data_files.files@.len(),
                self.data_files == old(self).data_files,
                self.description == old(self).description,
                self.created_time == old(self).created_time,
                self.start_timestamp == old(self).start_timestamp,
                self.end_timestamp == old(self).end_timestamp,
                self.total_packets == old(self).total_packets,
                self.total_duration == old(self).total_duration,
                ts_index_sorted(self.timestamp_index@),
                forall|i: int|
                    0 <= i < self.timestamp_index@.len() ==> pointer_matches(
                        self.data_files.files@,
                        #[trigger] self.timestamp_index@[i],
                    ),
                forall|k2: int, j2: int|
                    0 <= k2 < k && 0 <= j2 < self.data_files.files@[k2].data_packets@.len()
                        ==> has_pointer_for(
                        self.timestamp_index@,
                        #[trigger] self.data_files.files@[k2].data_packets@[j2].timestamp_ns,
                    ),
                forall|k2: int, j2: int|
                    #[trigger] entry_location(self.data_files.files@, k2, j2) && k2 < k
                        && last_with_ts(self.data_files.files@, k2, j2)
                        ==> self.timestamp_index@.contains(
                        pointer_at(self.data_files.files@, k2, j2),
                    ),
                forall|i: int|
                    0 <= i < self.timestamp_index@.len() ==> prefix_has_entry_ts(
                        self.data_files.files@,
                        k as int,
                        0,
                        (#[trigger] self.timestamp_index@[i]).entry.timestamp_ns,
                    ),
                all_ts_distinct(self.data_files.files@) ==> self.timestamp_index@.len()
                    == entries_total(self.data_files.files@.take(k as int)),
            decreases nf - k,
        {
            let np = self.data_files.files[k].data_packets.len();
            let mut j: usize = 0;
            while j < np
                invariant
                    k < nf,
                    j <= np,
                    nf == self.data_files.files@.len(),
                    np == self.data_files.files@[k as int].data_packets@.len(),
                    self.data_files == old(self).data_files,
                    self.description == old(self).description,
                    self.created_time == old(self).created_time,
                    self.start_timestamp == old(self).start_timestamp,
                    self.end_timestamp == old(self).end_timestamp,
                    self.total_packets == old(self).total_packets,
                    self.total_duration == old(self).total_duration,
                    ts_index_sorted(self.timestamp_index@),
                    forall|i: int|
                        0 <= i < self.timestamp_index@.len() ==> pointer_matches(
                            self.data_files.files@,
                            #[trigger] self.timestamp_index@[i],
                        ),
                    forall|k2: int, j2: int|
                        0 <= k2 < k && 0 <= j2 < self.data_files.files@[k2].data_packets@.len()
                            ==> has_pointer_for(
                            self.timestamp_index@,
                            #[trigger] self.data_files.files@[k2].data_packets@[j2].timestamp_ns,
                        ),
                    forall|j2: int|
                        0 <= j2 < j ==> has_pointer_for(
                            self.timestamp_index@,
                            #[trigger] self.data_files.files@[k as int].data_packets@[j2].timestamp_ns,
                        ),
                    forall|k2: int, j2: int|
                        #[trigger] entry_location(self.data_files.files@, k2, j2) && loc_before(
                            k2,
                            j2,
                            k as int,
                            j as int,
                        ) && last_with_ts(self.data_files.files@, k2, j2)
                            ==> self.timestamp_index@.contains(
                            pointer_at(self.data_files.files@, k2, j2),
                        ),
                    forall|i: int|
                        0 <= i < self.timestamp_index@.len() ==> prefix_has_entry_ts(
                            self.data_files.files@,
                            k as int,
                            j as int,
                            (#[trigger] self.timestamp_index@[i]).entry.timestamp_ns,
                        ),
                    all_ts_distinct(self.data_files.files@) ==> self.timestamp_index@.len()
                        == entries_total(self.data_files.files@.take(k as int)) + j,
                decreases np - j,
            {
                let entry = self.data_files.files[k].data_packets[j];
                let pointer = TimestampPointer { file_index: k, entry };
                proof {
                    assert(self.data_files.files@[k as int].data_packets@.contains(entry));
                }
                let ghost tprev = self.timestamp_index@;
                insert_pointer(&mut self.timestamp_index, pointer);
                proof {
                    let files = self.data_files.files@;
                    let ti = self.timestamp_index@;
                    assert(pointer == pointer_at(files, k as int, j as int));
                    assert forall|i: int| 0 <= i < ti.len() implies pointer_matches(
                        files,
                        #[trigger] ti[i],
                    ) by {
                        let q = ti[i];
                        assert(ti.contains(q));
                        if q == pointer {
                            assert(pointer_matches(files, pointer));
                        } else {
                            assert(tprev.contains(q));
                            let m = choose|m: int| 0 <= m < tprev.len() && tprev[m] == q;
                            assert(pointer_matches(files, tprev[m]));
                        }
                    }
                    assert forall|i: int| 0 <= i < ti.len() implies prefix_has_entry_ts(
                        files,
                        k as int,
                        j + 1,
                        (#[trigger] ti[i]).entry.timestamp_ns,
                    ) by {
                        let q = ti[i];
                        assert(ti.contains(q));
                        if q == pointer {
                            assert(entry_location(files, k as int, j as int));
                            assert(loc_before(k as int, j as int, k as int, j + 1));
                        } else {
                            assert(tprev.contains(q));
                            let m = choose|m: int| 0 <= m < tprev.len() && tprev[m] == q;
                            assert(prefix_has_entry_ts(
                                files,
                                k as int,
                                j as int,
                                tprev[m].entry.timestamp_ns,
                            ));
                            let (k2, j2) = choose|k2: int, j2: int|
                                #[trigger] entry_location(files, k2, j2) && loc_before(
                                    k2,
                                    j2,
                                    k as int,
                                    j as int,
                                ) && files[k2].data_packets@[j2].timestamp_ns
                                    == q.entry.timestamp_ns;
                            assert(loc_before(k2, j2, k as int, j + 1));
                        }
                    }
                    assert forall|k2: int, j2: int|
                        #[trigger] entry_location(files, k2, j2) && loc_before(
                            k2,
                            j2,
                            k as int,
                            j + 1,
                        ) && last_with_ts(files, k2, j2) implies ti.contains(
                        pointer_at(files, k2, j2),
                    ) by {
                        if k2 == k as int && j2 == j as int {
                            assert(ti.contains(pointer));
                        } else {
                            assert(loc_before(k2, j2, k as int, j as int));
                            let q = pointer_at(files, k2, j2);
                            assert(tprev.contains(q));
                            if q.entry.timestamp_ns == pointer.entry.timestamp_ns {
                                assert(entry_location(files, k as int, j as int));
                                assert(files[k as int].data_packets@[j as int].timestamp_ns
                                    == files[k2].data_packets@[j2].timestamp_ns);
                                assert(!loc_before(k2, j2, k as int, j as int));
                                assert(false);
                            }
                            assert(ti.contains(q));
                        }
                    }
                    if all_ts_distinct(files) {
                        assert(!has_pointer_for(tprev, pointer.entry.timestamp_ns)) by {
                            if has_pointer_for(tprev, pointer.entry.timestamp_ns) {
                                let i = choose|i: int|
                                    0 <= i < tprev.len() && (
                                    #[trigger] tprev[i].entry.timestamp_ns)
                                        == pointer.entry.timestamp_ns;
                                assert(prefix_has_entry_ts(
                                    files,
                                    k as int,
                                    j as int,
                                    tprev[i].entry.timestamp_ns,
                                ));
                                let (k2, j2) = choose|k2: int, j2: int|
                                    #[trigger] entry_location(files, k2, j2) && loc_before(
                                        k2,
                                        j2,
                                        k as int,
                                        j as int,
                                    ) && files[k2].data_packets@[j2].timestamp_ns
                                        == pointer.entry.timestamp_ns;
                                assert(entry_location(files, k as int, j as int));
                                assert(!(k2 == k as int && j2 == j as int));
                                assert(false);
                            }
                        }
                        assert(ti.len() == tprev.len() + 1);
                    }
                }
                j = j + 1;
            }
            proof {
                let files = self.data_files.files@;
                let ti = self.timestamp_index@;
                assert forall|k2: int, j2: int|
                    #[trigger] entry_location(files, k2, j2) && k2 < k + 1 && last_with_ts(
                        files,
                        k2,
                        j2,
                    ) implies ti.contains(pointer_at(files, k2, j2)) by {
                    assert(loc_before(k2, j2, k as int, np as int));
                }
                assert forall|i: int| 0 <= i < ti.len() implies prefix_has_entry_ts(
                    files,
                    k + 1,
                    0,
                    (#[trigger] ti[i]).entry.timestamp_ns,
                ) by {
                    assert(prefix_has_entry_ts(files, k as int, np as int, ti[i].entry.timestamp_ns));
                    let (k2, j2) = choose|k2: int, j2: int|
                        #[trigger] entry_location(files, k2, j2) && loc_before(
                            k2,
                            j2,
                            k as int,
                            np as int,
                        ) && files[k2].data_packets@[j2].timestamp_ns == ti[i].entry.timestamp_ns;
                    assert(loc_before(k2, j2, k + 1, 0));
                }
                if all_ts_distinct(files) {
                    lemma_entries_total_take_step(files, k as int);
                }
            }
            k = k + 1;
        }
        proof {
            let files = self.data_files.files@;
            let ti = self.timestamp_index@;
            assert forall|k2: int, j2: int|
                #[trigger] entry_location(files, k2, j2) && last_with_ts(files, k2, j2) implies ti.contains(
                pointer_at(files, k2, j2),
            ) by {
                assert(k2 < nf);
            }
            assert(files.take(nf as int) =~= files);
        }
    }

    /// Looks a timestamp up exactly.  Returns a pointer precisely when some
    /// table entry carries that timestamp.
    pub fn find_packet_by_timestamp(&self, timestamp_ns: u64) -> (r: Option<TimestampPointer>)
        requires
            ts_index_sorted(self.timestamp_index@),
        ensures
            r is Some <==> has_pointer_for(self.timestamp_index@, timestamp_ns),
            r matches Some(p) ==> self.timestamp_index@.contains(p) && p.entry.timestamp_ns
                == timestamp_ns,
    {
        let idx = lower_bound(&self.timestamp_index, timestamp_ns);
        if idx < self.timestamp_index.len() {
            let p = self.timestamp_index[idx];
            if p.entry.timestamp_ns == timestamp_ns {
                proof {
                    assert(self.timestamp_index@[idx as int].entry.timestamp_ns == timestamp_ns);
                }
                return Some(p);
            }
        }
        proof {
            assert forall|i: int|
                0 <= i < self.timestamp_index@.len() implies #[trigger] self.timestamp_index@[i].entry.timestamp_ns
                != timestamp_ns by {
                if i >= idx && idx < self.timestamp_index@.len() && i != idx {
                    assert(self.timestamp_index@[idx as int].entry.timestamp_ns
                        < self.timestamp_index@[i].entry.timestamp_ns);
                }
            }
        }
        None
    }

    /// Finds the pointer with the smallest timestamp at least `timestamp_ns`.
    /// Returns one precisely when any table entry reaches that far.
    pub fn find_ge(&self, timestamp_ns: u64) -> (r: Option<TimestampPointer>)
        requires
            ts_index_sorted(self.timestamp_index@),
        ensures
            r is Some <==> has_pointer_ge(self.timestamp_index@, timestamp_ns),
            r matches Some(p) ==> {
                &&& self.timestamp_index@.contains(p)
                &&& p.entry.timestamp_ns >= timestamp_ns
                &&& forall|i: int|
                    0 <= i < self.timestamp_index@.len()
                        ==> (#[trigger] self.timestamp_index@[i].entry.timestamp_ns < timestamp_ns
                        || self.timestamp_index@[i].entry.timestamp_ns >= p.entry.timestamp_ns)
            },
    {
        let idx = lower_bound(&self.timestamp_index, timestamp_ns);
        if idx < self.timestamp_index.len() {
            let p = self.timestamp_index[idx];
            proof {
                assert(self.timestamp_index@[idx as int].entry.timestamp_ns >= timestamp_ns);
                assert forall|i: int|
                    0 <= i < self.timestamp_index@.len() implies (
                #[trigger] self.timestamp_index@[i].entry.timestamp_ns < timestamp_ns
                    || self.timestamp_index@[i].entry.timestamp_ns >= p.entry.timestamp_ns) by {
                    if i > idx {
                        assert(self.timestamp_index@[idx as int].entry.timestamp_ns
                            < self.timestamp_index@[i].entry.timestamp_ns);
                    }
                }
            }
            Some(p)
        } else {
            None
        }
    }

    /// All pointers whose timestamp lies in `[start_ns, end_ns]`, ascending
    /// by timestamp.
    pub fn get_packets_in_range(&self, start_ns: u64, end_ns: u64) -> (r: Vec<TimestampPointer>)
        requires
            ts_index_sorted(self.timestamp_index@),
        ensures
            r@ == self.timestamp_index@.filter(in_range(start_ns, end_ns)),
            ts_index_sorted(r@),
    {
        let ti = &self.timestamp_index;
        let n = ti.len();
        let mut out: Vec<TimestampPointer> = Vec::new();
        let mut i: usize = 0;
        proof {
            assert(ti@.take(0) =~= Seq::<TimestampPointer>::empty());
            reveal(Seq::filter);
        }
        while i < n
            invariant
                i <= n,
                n == ti@.len(),
                ti == &self.timestamp_index,
                ts_index_sorted(ti@),
                out@ == ti@.take(i as int).filter(in_range(start_ns, end_ns)),
            decreases n - i,
        {
            let p = ti[i];
            proof {
                broadcast use vstd::seq::Seq::lemma_filter_push;

                assert(ti@.take(i + 1) =~= ti@.take(i as int).push(ti@[i as int]));
            }
            if start_ns <= p.entry.timestamp_ns && p.entry.timestamp_ns <= end_ns {
                out.push(p);
                proof {
                    assert(in_range(start_ns, end_ns)(ti@[i as int]));
                }
            } else {
                proof {
                    assert(!(in_range(start_ns, end_ns)(ti@[i as int])));
                }
            }
            i = i + 1;
        }
        proof {
            assert(ti@.take(n as int) =~= ti@);
            lemma_filter_keeps_sorted(ti@, in_range(start_ns, end_ns));
        }
        out
    }
}

/// Filtering a sorted table keeps it sorted, and every kept pointer comes
/// from the table.
pub proof fn lemma_filter_keeps_sorted(
    ti: Seq<TimestampPointer>,
    pred: spec_fn(TimestampPointer) -> bool,
)
    requires
        ts_index_sorted(ti),
    ensures
        ts_index_sorted(ti.filter(pred)),
        forall|i: int| 0 <= i < ti.filter(pred).len() ==> ti.contains(#[trigger] ti.filter(pred)[i]),
    decreases ti.len(),
{
    reveal(Seq::filter);
    if ti.len() == 0 {
    } else {
        let dl = ti.drop_last();
        assert forall|i: int, j: int| 0 <= i < j < dl.len() implies #[trigger] dl[i].entry.timestamp_ns
            < #[trigger] dl[j].entry.timestamp_ns by {
            assert(ti[i].entry.timestamp_ns < ti[j].entry.timestamp_ns);
        }
        lemma_filter_keeps_sorted(dl, pred);
        let f = dl.filter(pred);
        assert forall|i: int| 0 <= i < f.len() implies #[trigger] f[i].entry.timestamp_ns < ti.last().entry.timestamp_ns by {
            assert(dl.contains(f[i]));
            let k = choose|k: int| 0 <= k < dl.len() && dl[k] == f[i];
            assert(ti[k].entry.timestamp_ns < ti[ti.len() - 1].entry.timestamp_ns);
        }
        if pred(ti.last()) {
            let g = f.push(ti.last());
            assert(ti.filter(pred) == g);
            assert forall|i: int, j: int| 0 <= i < j < g.len() implies #[trigger] g[i].entry.timestamp_ns
                < #[trigger] g[j].entry.timestamp_ns by {
                if j < g.len() - 1 {
                    assert(f[i].entry.timestamp_ns < f[j].entry.timestamp_ns);
                }
            }
            assert forall|i: int| 0 <= i < g.len() implies ti.contains(#[trigger] g[i]) by {
                if i < g.len() - 1 {
                    assert(dl.contains(f[i]));
                    let k = choose|k: int| 0 <= k < dl.len() && dl[k] == f[i];
                    assert(ti[k] == g[i]);
                } else {
                    assert(ti[ti.len() - 1] == g[i]);
                }
            }
        } else {
            assert forall|i: int| 0 <= i < f.len() implies ti.contains(#[trigger] f[i]) by {
                assert(dl.contains(f[i]));
                let k = choose|k: int| 0 <= k < dl.len() && dl[k] == f[i];
                assert(ti[k] == f[i]);
            }
        }
    }
}


} // verus!
