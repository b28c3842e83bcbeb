//! Dataset-wide guarantees, stated as theorems over the same spec
//! functions the executable contracts use.

use vstd::prelude::*;

use crate::codec::{
    all_wf, container_bytes, container_packets, frame_ok_at, lemma_container_round_trip,
    lemma_frames_from_wf, packet_at, PcapFileHeader,
};
use crate::dataset::{
    count_prefix, dataset_packets, file_frames, lemma_global_index, ContainerFile,
};
use crate::index::{entry_of, PidxIndex, TimestampPointer};
use crate::manager::{
    content_equal, file_index_wf, index_wf, lemma_counts_agree, sidecar_matches,
};
use crate::packet::PacketModel;

verus! {

/// Round trip: a container file built from a packet sequence parses back
/// to exactly that sequence, in order, with every field intact.  Reading
/// a finalized dataset sequentially therefore yields the written packets:
/// `PcapWriter::finalize` ensures the files carry the written sequence,
/// and `PcapReader::read_packet` returns that sequence element by element.
pub proof fn law_round_trip(h: PcapFileHeader, ps: Seq<PacketModel>)
    requires
        h.valid(),
        all_wf(ps),
    ensures
        container_packets(container_bytes(h, ps)) == ps,
{
    lemma_container_round_trip(h, ps);
}

/// Index correspondence: decoding the frame that the index entry `j` of
/// file `f` points to yields exactly the packet that the `k`-th
/// sequential read returns, where `k` is the global position of that
/// entry.  Seeking by index and reading sequentially therefore agree.
pub proof fn law_index_correspondence(
    idx: PidxIndex,
    files: Seq<ContainerFile>,
    f: int,
    j: int,
    k: int,
)
    requires
        index_wf(idx, files),
        0 <= f < files.len(),
        0 <= j < idx.data_files.files@[f].data_packets@.len(),
        k == count_prefix(files, f) + j,
    ensures
        0 <= k < dataset_packets(files).len(),
        frame_ok_at(files[f].bytes@, idx.data_files.files@[f].data_packets@[j].byte_offset as int),
        packet_at(
            files[f].bytes@,
            idx.data_files.files@[f].data_packets@[j].byte_offset as int,
        ) == dataset_packets(files)[k],
{
    assert(file_index_wf(idx.data_files.files@[f], files[f]));
    assert(idx.data_files.files@[f].data_packets@[j] == entry_of(file_frames(files[f])[j]));
    lemma_frames_from_wf(files[f].bytes@, 24);
    lemma_global_index(files, f, j);
    let fr = file_frames(files[f])[j];
    assert(fr.packet == packet_at(files[f].bytes@, fr.off));
}

/// Timestamp exactness: every pointer of the lookup table leads to a
/// dataset packet carrying exactly the pointer's timestamp, so a strict
/// lookup by a written timestamp returns a packet with that timestamp
/// (`PcapReader::read_packet_by_timestamp` ensures the same equality on
/// its result).
pub proof fn law_timestamp_exactness(idx: PidxIndex, files: Seq<ContainerFile>, p: TimestampPointer)
    requires
        index_wf(idx, files),
        idx.timestamp_index@.contains(p),
    ensures
        exists|n: int|
            0 <= n < dataset_packets(files).len() && (#[trigger] dataset_packets(
                files,
            )[n]).timestamp_ns == p.entry.timestamp_ns,
{
    let i = choose|i: int|
        0 <= i < idx.timestamp_index@.len() && idx.timestamp_index@[i] == p;
    assert(crate::index::pointer_matches(idx.data_files.files@, idx.timestamp_index@[i]));
    let fi = p.file_index as int;
    assert(file_index_wf(idx.data_files.files@[fi], files[fi]));
    let entries = idx.data_files.files@[fi].data_packets@;
    assert(entries.contains(p.entry));
    let m = choose|m: int| 0 <= m < entries.len() && entries[m] == p.entry;
    assert(entries[m] == entry_of(file_frames(files[fi])[m]));
    lemma_global_index(files, fi, m);
    let n = count_prefix(files, fi) + m;
    assert(dataset_packets(files)[n].timestamp_ns == p.entry.timestamp_ns);
}

/// Idempotent regeneration: any two well-formed indexes over the same
/// files record the same content — the same file records, entry for
/// entry, and the same aggregates.  Only the description and creation
/// stamp may differ, so regenerating a fresh index reproduces the prior
/// sidecar's content.
pub proof fn law_regenerate_idempotent(a: PidxIndex, b: PidxIndex, files: Seq<ContainerFile>)
    requires
        index_wf(a, files),
        index_wf(b, files),
    ensures
        content_equal(a, b),
{
    assert forall|i: int| 0 <= i < a.data_files.files@.len() implies {
        let fa = #[trigger] a.data_files.files@[i];
        let fb = b.data_files.files@[i];
        &&& fa.file_name@ == fb.file_name@
        &&& fa.file_hash@ == fb.file_hash@
        &&& fa.file_size == fb.file_size
        &&& fa.packet_count == fb.packet_count
        &&& fa.start_timestamp == fb.start_timestamp
        &&& fa.end_timestamp == fb.end_timestamp
        &&& fa.data_packets@ == fb.data_packets@
    } by {
        assert(file_index_wf(a.data_files.files@[i], files[i]));
        assert(file_index_wf(b.data_files.files@[i], files[i]));
        assert(a.data_files.files@[i].data_packets@ =~= b.data_files.files@[i].data_packets@);
        assert(a.data_files.files@[i].start_timestamp == b.data_files.files@[i].start_timestamp);
    }
    lemma_counts_agree(a.data_files.files@, files, files.len() as int);
    lemma_counts_agree(b.data_files.files@, files, files.len() as int);
    lemma_extrema_agree(a.data_files.files@, b.data_files.files@);
}

/// Equal per-file extrema give equal dataset-wide extrema.
proof fn lemma_extrema_agree(
    a: Seq<crate::index::PcapFileIndex>,
    b: Seq<crate::index::PcapFileIndex>,
)
    requires
        a.len() == b.len(),
        forall|i: int|
            0 <= i < a.len() ==> (#[trigger] a[i]).start_timestamp == b[i].start_timestamp && a[
                i
            ].end_timestamp == b[i].end_timestamp,
    ensures
        crate::index::min_start_of(a) == crate::index::min_start_of(b),
        crate::index::max_end_of(a) == crate::index::max_end_of(b),
    decreases a.len(),
{
    if a.len() > 0 {
        assert forall|i: int|
            0 <= i < a.drop_first().len() implies (#[trigger] a.drop_first()[i]).start_timestamp
            == b.drop_first()[i].start_timestamp && a.drop_first()[i].end_timestamp
            == b.drop_first()[i].end_timestamp by {
            assert(a[i + 1].start_timestamp == b[i + 1].start_timestamp);
            assert(a[i + 1].end_timestamp == b[i + 1].end_timestamp);
        }
        lemma_extrema_agree(a.drop_first(), b.drop_first());
    }
}

/// Staleness, first half: an index built over one set of files never
/// matches a directory with a different number of container files, so
/// deleting a container file makes `needs_rebuild` report true.
pub proof fn law_stale_after_removal(
    idx: PidxIndex,
    files: Seq<ContainerFile>,
    remaining: Seq<ContainerFile>,
)
    requires
        index_wf(idx, files),
        remaining.len() != files.len(),
    ensures
        !sidecar_matches(idx, remaining),
{
}

/// Staleness, second half: a freshly regenerated index matches the files
/// it was built from, so `needs_rebuild` reports false right after
/// `regenerate`.
pub proof fn law_fresh_after_regenerate(idx: PidxIndex, files: Seq<ContainerFile>)
    requires
        index_wf(idx, files),
    ensures
        sidecar_matches(idx, files),
{
    assert forall|i: int| 0 <= i < files.len() implies {
        let fi = #[trigger] idx.data_files.files@[i];
        &&& fi.file_name@ == files[i].name@
        &&& fi.file_size == files[i].bytes@.len()
        &&& fi.file_hash@ == crate::digest::file_digest_spec(files[i].bytes@)
    } by {
        assert(file_index_wf(idx.data_files.files@[i], files[i]));
    }
}

} // verus!
