//! A dataset in memory: the ordered list of container files, and the
//! mathematical view of the packets they hold.

use vstd::prelude::*;

use crate::codec::{frame_end, frames_from, FrameModel, FILE_HEADER_SIZE, FRAME_HEADER_SIZE};
use crate::packet::PacketModel;

verus! {

/// One container file: its name and its full byte image.
#[derive(Debug, Clone)]
pub struct ContainerFile {
    pub name: String,
    pub bytes: Vec<u8>,
}

/// The frames a container file holds, in on-disk order.
pub open spec fn file_frames(f: ContainerFile) -> Seq<FrameModel> {
    frames_from(f.bytes@, FILE_HEADER_SIZE as int)
}

/// The packets a container file holds, in on-disk order.
pub open spec fn file_packets(f: ContainerFile) -> Seq<PacketModel> {
    file_frames(f).map_values(|fr: FrameModel| fr.packet)
}

/// All packets of the dataset, file by file, in order.
pub open spec fn dataset_packets(files: Seq<ContainerFile>) -> Seq<PacketModel>
    decreases files.len(),
{
    if files.len() == 0 {
        Seq::empty()
    } else {
        file_packets(files[0]) + dataset_packets(files.drop_first())
    }
}

/// No bytes dangle after the last frame: fewer than a frame header's
/// worth remain, so a sequential read ends cleanly at end of file.
pub open spec fn file_tail_clean(f: ContainerFile) -> bool {
    let fs = file_frames(f);
    let end = if fs.len() == 0 {
        FILE_HEADER_SIZE as int
    } else {
        frame_end(fs.last())
    };
    f.bytes@.len() - end < FRAME_HEADER_SIZE
}

/// Every container file ends cleanly.
pub open spec fn dataset_clean(files: Seq<ContainerFile>) -> bool {
    forall|i: int| 0 <= i < files.len() ==> file_tail_clean(#[trigger] files[i])
}

/// The number of packets in the first `k` files.
pub open spec fn count_prefix(files: Seq<ContainerFile>, k: int) -> int
    decreases k,
{
    if k <= 0 {
        0
    } else {
        count_prefix(files, k - 1) + file_frames(files[k - 1]).len()
    }
}

/// Appending a file appends its packets.
pub proof fn lemma_dataset_packets_push(files: Seq<ContainerFile>, f: ContainerFile)
    ensures
        dataset_packets(files.push(f)) == dataset_packets(files) + file_packets(f),
    decreases files.len(),
{
    reveal_with_fuel(dataset_packets, 3);
    if files.len() == 0 {
        assert(files.push(f).drop_first() =~= Seq::<ContainerFile>::empty());
        assert(dataset_packets(files.push(f)) =~= dataset_packets(files) + file_packets(f));
    } else {
        assert(files.push(f).drop_first() =~= files.drop_first().push(f));
        lemma_dataset_packets_push(files.drop_first(), f);
        assert(dataset_packets(files.push(f)) =~= dataset_packets(files) + file_packets(f));
    }
}

/// The prefix counts add up to the dataset's packet total.
pub proof fn lemma_count_prefix_total(files: Seq<ContainerFile>)
    ensures
        dataset_packets(files).len() == count_prefix(files, files.len() as int),
    decreases files.len(),
{
    if files.len() == 0 {
    } else {
        let dropped = files.drop_first();
        lemma_count_prefix_total(dropped);
        lemma_count_prefix_shift(files, files.len() as int);
    }
}

/// A prefix count over `files` equals the matching count over the tail,
/// plus the first file.
proof fn lemma_count_prefix_shift(files: Seq<ContainerFile>, k: int)
    requires
        files.len() > 0,
        1 <= k <= files.len(),
    ensures
        count_prefix(files, k) == file_frames(files[0]).len() + count_prefix(
            files.drop_first(),
            k - 1,
        ),
    decreases k,
{
    reveal_with_fuel(count_prefix, 3);
    if k == 1 {
    } else {
        lemma_count_prefix_shift(files, k - 1);
        assert(files.drop_first()[k - 2] == files[k - 1]);
    }
}

/// Where the `j`-th packet of file `k` sits in the global order.
pub proof fn lemma_global_index(files: Seq<ContainerFile>, k: int, j: int)
    requires
        0 <= k < files.len(),
        0 <= j < file_frames(files[k]).len(),
    ensures
        0 <= count_prefix(files, k) + j < dataset_packets(files).len(),
        dataset_packets(files)[count_prefix(files, k) + j] == file_frames(files[k])[j].packet,
        count_prefix(files, k) >= 0,
        count_prefix(files, k) + file_frames(files[k]).len() == count_prefix(files, k + 1),
        count_prefix(files, k + 1) <= dataset_packets(files).len(),
    decreases k,
{
    lemma_count_prefix_total(files);
    lemma_count_prefix_monotone(files, k + 1, files.len() as int);
    if k == 0 {
        assert(count_prefix(files, 0) == 0);
        assert(dataset_packets(files) == file_packets(files[0]) + dataset_packets(
            files.drop_first(),
        ));
        assert(dataset_packets(files)[j] == file_packets(files[0])[j]);
        assert(file_packets(files[0])[j] == file_frames(files[0])[j].packet);
    } else {
        let dropped = files.drop_first();
        assert(dropped[k - 1] == files[k]);
        lemma_global_index(dropped, k - 1, j);
        lemma_count_prefix_shift(files, k);
        lemma_count_prefix_shift(files, k + 1);
        assert(dataset_packets(files) == file_packets(files[0]) + dataset_packets(dropped));
        let n0 = file_packets(files[0]).len();
        assert(file_frames(files[0]).len() == n0);
        assert(dataset_packets(files)[n0 + (count_prefix(dropped, k - 1) + j)] == dataset_packets(
            dropped,
        )[count_prefix(dropped, k - 1) + j]);
    }
}

/// Frame `j` of file `k` exists.
pub open spec fn packet_location(files: Seq<ContainerFile>, k: int, j: int) -> bool {
    0 <= k < files.len() && 0 <= j < file_frames(files[k]).len()
}

/// Every global packet index falls inside exactly one file.
pub proof fn lemma_global_decompose(files: Seq<ContainerFile>, n: int)
    requires
        0 <= n < dataset_packets(files).len(),
    ensures
        exists|k: int, j: int|
            {
                &&& #[trigger] packet_location(files, k, j)
                &&& n == count_prefix(files, k) + j
                &&& dataset_packets(files)[n] == file_frames(files[k])[j].packet
            },
    decreases files.len(),
{
    let n0 = file_packets(files[0]).len() as int;
    assert(dataset_packets(files) == file_packets(files[0]) + dataset_packets(files.drop_first()));
    if n < n0 {
        let k = 0;
        let j = n;
        assert(count_prefix(files, 0) == 0);
        assert(dataset_packets(files)[n] == file_packets(files[0])[j]);
        assert(packet_location(files, k, j) && n == count_prefix(files, k) + j
            && dataset_packets(files)[n] == file_frames(files[k])[j].packet);
    } else {
        let dropped = files.drop_first();
        lemma_global_decompose(dropped, n - n0);
        let (k2, j2) = choose|k2: int, j2: int|
            {
                &&& #[trigger] packet_location(dropped, k2, j2)
                &&& n - n0 == count_prefix(dropped, k2) + j2
                &&& dataset_packets(dropped)[n - n0] == file_frames(dropped[k2])[j2].packet
            };
        let k = k2 + 1;
        let j = j2;
        assert(files[k] == dropped[k2]);
        lemma_count_prefix_shift(files, k);
        assert(dataset_packets(files)[n] == dataset_packets(dropped)[n - n0]);
        assert(packet_location(files, k, j) && n == count_prefix(files, k) + j
            && dataset_packets(files)[n] == file_frames(files[k])[j].packet);
    }
}

/// Prefix counts grow with the prefix.
pub proof fn lemma_count_prefix_monotone(files: Seq<ContainerFile>, a: int, b: int)
    requires
        a <= b,
    ensures
        count_prefix(files, a) <= count_prefix(files, b),
    decreases b - a,
{
    if a < b {
        lemma_count_prefix_monotone(files, a, b - 1);
    }
}

} // verus!
