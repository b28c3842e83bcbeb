//! The dataset reader: a cursor over the packets of a multi-file dataset,
//! with sequential reads, seeks by global index and by timestamp, ranged
//! reads, and skipping — switching container files as it goes.

use vstd::prelude::*;

use crate::codec::{frame_end, frame_ok_at, frames_from, header_valid, packet_at, FILE_HEADER_SIZE};
use crate::cache::{same_info, CacheStats, DatasetInfo, FileInfo, FileInfoCache};
use crate::config::ReaderConfig;
use crate::dataset::{
    count_prefix, dataset_clean, dataset_packets, file_frames, file_tail_clean,
    lemma_count_prefix_monotone, lemma_count_prefix_total, lemma_global_index, ContainerFile,
};
use crate::error::{PcapError, PcapResult};
use crate::file_reader::PcapFileReader;
use crate::index::{
    entry_of, has_pointer_for, has_pointer_ge, pointer_matches, ts_index_sorted, PacketIndexEntry,
    PcapFileIndex, PidxIndex, TimestampPointer,
};
use crate::manager::{file_index_wf, index_wf, sum_counts_fit, IndexManager};
use crate::packet::{DataPacket, ValidatedPacket};
use vstd::slice::slice_to_vec;
use vstd::string::StringExecFns;

verus! {

/// Every file opens with a valid header and the packet total is
/// countable: the dataset can be indexed.
pub open spec fn dataset_ok(files: Seq<ContainerFile>) -> bool {
    &&& forall|i: int| 0 <= i < files.len() ==> header_valid((#[trigger] files[i]).bytes@)
    &&& sum_counts_fit(files)
}

/// The packets the dataset serves.
pub open spec fn total_of(files: Seq<ContainerFile>) -> int {
    dataset_packets(files).len() as int
}

/// The byte offset of frame `j` in a container file; one past the last
/// frame, the offset where the next frame would begin.
pub open spec fn frame_offset(f: ContainerFile, j: int) -> int {
    let fs = file_frames(f);
    if j < fs.len() {
        fs[j].off
    } else if fs.len() == 0 {
        FILE_HEADER_SIZE as int
    } else {
        frame_end(fs.last())
    }
}

/// Every dataset packet whose timestamp lies in `[lo, hi]` is represented
/// in `v` by a packet with the same timestamp.
pub open spec fn covers_range(
    v: Seq<ValidatedPacket>,
    files: Seq<ContainerFile>,
    lo: u64,
    hi: u64,
) -> bool {
    forall|n: int|
        0 <= n < dataset_packets(files).len() && lo <= (#[trigger] dataset_packets(
            files,
        )[n]).timestamp_ns <= hi ==> exists|m: int|
            0 <= m < v.len() && (#[trigger] v[m]).packet@.timestamp_ns == dataset_packets(
                files,
            )[n].timestamp_ns
}

/// The absolute distance between two timestamps.
pub open spec fn dist(a: u64, b: u64) -> int {
    if a >= b {
        a - b
    } else {
        b - a
    }
}

/// The summed recorded sizes of the files, as an unbounded integer.
pub open spec fn sizes_sum(records: Seq<PcapFileIndex>) -> int
    decreases records.len(),
{
    if records.len() == 0 {
        0
    } else {
        records[0].file_size + sizes_sum(records.drop_first())
    }
}

/// Extending a prefix by one record adds its size to the sum.
proof fn lemma_sizes_sum_take_step(records: Seq<PcapFileIndex>, i: int)
    requires
        0 <= i < records.len(),
    ensures
        sizes_sum(records.take(i + 1)) == sizes_sum(records.take(i)) + records[i].file_size,
    decreases i,
{
    reveal_with_fuel(sizes_sum, 3);
    if i == 0 {
        assert(records.take(1).drop_first() =~= Seq::<PcapFileIndex>::empty());
        assert(records.take(0) =~= Seq::<PcapFileIndex>::empty());
    } else {
        assert(records.take(i + 1).drop_first() =~= records.drop_first().take(i));
        assert(records.take(i).drop_first() =~= records.drop_first().take(i - 1));
        lemma_sizes_sum_take_step(records.drop_first(), i - 1);
    }
}

/// The summary reports exactly what the index record holds; the creation
/// and modification stamps are wall-clock values and unconstrained.
pub open spec fn info_of_record(info: FileInfo, rec: PcapFileIndex) -> bool {
    &&& info.file_name@ == rec.file_name@
    &&& info.file_size == rec.file_size
    &&& info.packet_count == rec.packet_count
    &&& info.start_timestamp == (if rec.start_timestamp > 0 {
        Some(rec.start_timestamp)
    } else {
        None::<u64>
    })
    &&& info.end_timestamp == (if rec.end_timestamp > 0 {
        Some(rec.end_timestamp)
    } else {
        None::<u64>
    })
    &&& (info.file_hash matches Some(h) && h@ == rec.file_hash@)
    &&& info.is_valid
}

/// Compares two optional digest strings by content.
fn hash_eq(a: &Option<String>, b: &Option<String>) -> (r: bool)
    ensures
        a is Some && b is Some ==> r == ((a->0)@ == (b->0)@),
        a is None && b is None ==> r,
        (a is Some) != (b is Some) ==> !r,
{
    match (a, b) {
        (Some(x), Some(y)) => *x == *y,
        (None, None) => true,
        _ => false,
    }
}

/// Copies a summary field by field.
fn clone_info(e: &FileInfo) -> (r: FileInfo)
    ensures
        same_info(r, *e),
{
    FileInfo {
        file_name: e.file_name.clone(),
        file_size: e.file_size,
        packet_count: e.packet_count,
        start_timestamp: e.start_timestamp,
        end_timestamp: e.end_timestamp,
        file_hash: match &e.file_hash {
            Some(h) => Some(h.clone()),
            None => None,
        },
        created_time: e.created_time.clone(),
        modified_time: e.modified_time.clone(),
        is_valid: e.is_valid,
    }
}

/// Reads a finalized dataset held in memory.
pub struct PcapReader {
    dataset_name: String,
    files: Vec<ContainerFile>,
    index_manager: IndexManager,
    configuration: ReaderConfig,
    current_reader: Option<PcapFileReader>,
    current_file_index: usize,
    current_position: u64,
    file_info_cache: FileInfoCache,
    is_initialized: bool,
    in_file: Ghost<int>,
}

impl PcapReader {
    /// The dataset's container files.
    pub closed spec fn files_spec(self) -> Seq<ContainerFile> {
        self.files@
    }

    /// Whether the index has been loaded.
    pub closed spec fn initialized(self) -> bool {
        self.is_initialized
    }

    /// The global index of the next packet a sequential read returns.
    pub closed spec fn position(self) -> u64 {
        self.current_position
    }

    /// The loaded index.
    pub closed spec fn index_of(self) -> Option<PidxIndex> {
        self.index_manager.index_spec()
    }

    /// The open file reader stands at frame `j` of file `k`.
    pub closed spec fn reader_at(self, k: int, j: int) -> bool {
        &&& self.current_reader matches Some(r)
        &&& r.opened()
        &&& self.current_file_index == k
        &&& 0 <= k < self.files@.len()
        &&& r.contents() == self.files@[k].bytes@
        &&& self.in_file@ == j
        &&& 0 <= j <= file_frames(self.files@[k]).len()
        &&& r.pos() == frame_offset(self.files@[k], j)
        &&& frames_from(r.contents(), r.pos() as int) == file_frames(self.files@[k]).skip(j)
        &&& 0 <= r.pos() <= r.contents().len()
    }

    /// The cursor stands on a frame: the next sequential read is a packet
    /// of the current file.
    pub closed spec fn at_frame(self) -> bool {
        &&& self.current_reader is Some
        &&& self.in_file@ < file_frames(self.files@[self.current_file_index as int]).len()
    }

    /// The cursor is consistent: the loaded index describes the files, and
    /// the open file reader stands at a frame boundary of the current
    /// file, the global position adding the preceding files' packets.
    pub closed spec fn inv(self) -> bool {
        &&& (self.is_initialized ==> (self.index_manager.index_spec() matches Some(idx)
            && index_wf(idx, self.files@)))
        &&& (!self.is_initialized ==> self.current_reader is None)
        &&& (self.current_reader matches Some(r) ==> {
            &&& self.reader_at(self.current_file_index as int, self.in_file@)
            &&& self.current_position == count_prefix(self.files@, self.current_file_index as int)
                + self.in_file@
        })
        &&& (self.current_reader is None ==> self.current_position == 0)
        &&& self.file_info_cache.inv()
    }

    /// A reader over the given container files with the default
    /// configuration.
    pub fn new(files: Vec<ContainerFile>, dataset_name: &str) -> (r: PcapResult<PcapReader>)
        ensures
            r matches Ok(rd) ==> {
                &&& rd.inv()
                &&& !rd.initialized()
                &&& rd.files_spec() == files@
                &&& rd.position() == 0
                &&& rd.name_spec() == dataset_name@
            },
            r is Ok,
    {
        Self::new_with_config(files, dataset_name, ReaderConfig::default())
    }

    /// A reader over the given container files.  Fails exactly when the
    /// configuration breaks a validity rule.
    pub fn new_with_config(
        files: Vec<ContainerFile>,
        dataset_name: &str,
        configuration: ReaderConfig,
    ) -> (r: PcapResult<PcapReader>)
        ensures
            r is Ok <==> configuration.valid(),
            r matches Ok(rd) ==> {
                &&& rd.inv()
                &&& !rd.initialized()
                &&& rd.files_spec() == files@
                &&& rd.position() == 0
                &&& rd.name_spec() == dataset_name@
            },
            r matches Err(e) ==> e is InvalidArgument,
    {
        if let Err(m) = configuration.validate() {
            return Err(PcapError::InvalidArgument(m));
        }
        let cache = FileInfoCache::new(configuration.index_cache_size);
        Ok(
            PcapReader {
                dataset_name: String::from_str(dataset_name),
                files,
                index_manager: IndexManager::new(),
                configuration,
                current_reader: None,
                current_file_index: 0,
                current_position: 0,
                file_info_cache: cache,
                is_initialized: false,
                in_file: Ghost(0),
            },
        )
    }

    /// The dataset's name.
    pub fn dataset_name(&self) -> (r: &str)
        ensures
            r@ == self.name_spec(),
    {
        self.dataset_name.as_str()
    }

    /// Loads the index, rebuilding it from the files.  Succeeds exactly
    /// when the dataset can be indexed; does nothing when already
    /// initialized.
    pub fn initialize(&mut self) -> (r: PcapResult<()>)
        requires
            old(self).inv(),
        ensures
            final(self).inv(),
            r is Ok <==> old(self).initialized() || dataset_ok(old(self).files_spec()),
            r is Ok ==> final(self).initialized(),
            final(self).files_spec() == old(self).files_spec(),
            final(self).position() == old(self).position(),
            old(self).initialized() ==> *final(self) == *old(self),
            r is Err ==> !final(self).initialized() && final(self).index_of() == old(
                self,
            ).index_of(),
            r is Ok ==> (final(self).index_of() matches Some(idx) && index_wf(
                idx,
                final(self).files_spec(),
            )),
    {
        self.initialize_with(None)
    }

    /// Loads the index, keeping an offered sidecar when its content
    /// agrees with the files and rebuilding otherwise.
    pub fn initialize_with(&mut self, sidecar: Option<PidxIndex>) -> (r: PcapResult<()>)
        requires
            old(self).inv(),
        ensures
            final(self).inv(),
            r is Ok <==> old(self).initialized() || dataset_ok(old(self).files_spec()),
            r is Ok ==> final(self).initialized(),
            final(self).files_spec() == old(self).files_spec(),
            final(self).position() == old(self).position(),
            old(self).initialized() ==> *final(self) == *old(self),
            r is Err ==> !final(self).initialized() && final(self).index_of() == old(
                self,
            ).index_of(),
            r is Ok ==> (final(self).index_of() matches Some(idx) && index_wf(
                idx,
                final(self).files_spec(),
            )),
    {
        if self.is_initialized {
            return Ok(());
        }
        match self.index_manager.ensure_index(&self.files, sidecar) {
            Ok(_) => {
                self.is_initialized = true;
                Ok(())
            },
            Err(e) => Err(e),
        }
    }

    /// Opens the container file at `file_index` and leaves the cursor on
    /// its first frame.  The global position is not touched; callers
    /// re-establish it.
    fn open_file(&mut self, file_index: usize)
        requires
            old(self).inv(),
            old(self).initialized(),
            file_index < old(self).files_spec().len(),
        ensures
            final(self).initialized(),
            final(self).files_spec() == old(self).files_spec(),
            final(self).index_of() == old(self).index_of(),
            final(self).position() == old(self).position(),
            final(self).reader_at(file_index as int, 0),
            final(self).cache_ok(),
            final(self).inv() <==> final(self).position() == count_prefix(
                final(self).files_spec(),
                file_index as int,
            ),
    {
        proof {
            let idx = self.index_manager.index_spec()->0;
            assert(file_index_wf(
                idx.data_files.files@[file_index as int],
                self.files@[file_index as int],
            ));
        }
        let mut fr = PcapFileReader::new(self.configuration.clone());
        let bytes = slice_to_vec(self.files[file_index].bytes.as_slice());
        match fr.open(bytes) {
            Ok(_) => {},
            Err(_) => {
                proof {
                    assert(false);
                }
            },
        }
        proof {
            let b = self.files@[file_index as int].bytes@;
            let fs = file_frames(self.files@[file_index as int]);
            assert(frames_from(b, 24) =~= fs.skip(0));
            if fs.len() > 0 {
                crate::codec::lemma_frames_step(b, 24);
                assert(fs[0].off == 24);
            }
        }
        self.current_reader = Some(fr);
        self.current_file_index = file_index;
        self.in_file = Ghost(0);
    }

    /// Reads the next packet, switching to the next container file at end
    /// of file.  Returns `Ok(None)` once the cursor has passed the last
    /// packet.  On a dataset whose files end cleanly, a read never fails
    /// once the index can be loaded.
    #[verifier::rlimit(80)]
    pub fn read_packet(&mut self) -> (r: PcapResult<Option<ValidatedPacket>>)
        requires
            old(self).inv(),
        ensures
            final(self).inv(),
            final(self).files_spec() == old(self).files_spec(),
            r is Ok ==> final(self).initialized(),
            final(self).position() >= old(self).position(),
            r matches Ok(Some(vp)) ==> {
                &&& old(self).position() < total_of(old(self).files_spec())
                &&& vp.packet@ == dataset_packets(old(self).files_spec())[old(
                    self,
                ).position() as int]
                &&& vp.wf()
                &&& final(self).position() == old(self).position() + 1
            },
            r matches Ok(None) ==> {
                &&& final(self).position() == old(self).position()
                &&& old(self).position() == total_of(old(self).files_spec())
            },
            (old(self).initialized() || dataset_ok(old(self).files_spec())) && dataset_clean(
                old(self).files_spec(),
            ) ==> r is Ok,
            old(self).initialized() && old(self).at_frame() ==> r matches Ok(Some(_)),
            old(self).initialized() ==> final(self).index_of() == old(self).index_of(),
            r is Err ==> final(self).position() == old(self).position(),
    {
        if let Err(e) = self.initialize() {
            return Err(e);
        }
        if self.current_reader.is_none() {
            if self.files.len() == 0 {
                proof {
                    lemma_count_prefix_total(self.files@);
                }
                return Ok(None);
            }
            self.open_file(0);
        }
        loop
            invariant
                self.inv(),
                self.is_initialized,
                self.current_reader is Some,
                self.files@ == old(self).files_spec(),
                self.current_position == old(self).position(),
                old(self).initialized() ==> self.index_manager.index_spec() == old(
                    self,
                ).index_of(),
                old(self).initialized() && old(self).at_frame() ==> self.at_frame(),
            decreases self.files@.len() - self.current_file_index,
        {
            let ghost k = self.current_file_index as int;
            let ghost j = self.in_file@;
            let ghost fsk = file_frames(self.files@[k]);
            let reader = match &mut self.current_reader {
                Some(r) => r,
                None => {
                    return Err(PcapError::InvalidState(String::from_str("no file open")));
                },
            };
            let ghost b = reader.contents();
            let ghost pos_before = reader.pos() as int;
            let res = reader.read_packet();
            match res {
                Ok(Some(vp)) => {
                    proof {
                        assert(frames_from(b, pos_before) == fsk.skip(j));
                        assert(frames_from(b, pos_before).len() > 0) by {
                            if !(j < fsk.len()) {
                                assert(fsk.skip(j).len() == 0);
                                assert(!frame_ok_at(b, pos_before));
                            }
                        }
                        assert(j < fsk.len());
                        crate::codec::lemma_frames_step(b, pos_before);
                        assert(fsk.skip(j)[0] == fsk[j]);
                        assert(fsk[j].off == pos_before);
                        assert(vp.packet@ == packet_at(b, pos_before));
                        let idx = self.index_manager.index_spec()->0;
                        assert(file_index_wf(idx.data_files.files@[k], self.files@[k]));
                        assert(b.len() >= 24);
                        crate::codec::lemma_frames_from_wf(b, 24);
                        lemma_global_index(self.files@, k, j);
                        assert(vp.packet@ == dataset_packets(self.files@)[
                        self.current_position as int]) by {
                            assert(fsk[j].packet == packet_at(b, fsk[j].off));
                        }
                        assert(frames_from(b, frame_end(fsk[j])) =~= fsk.skip(j + 1)) by {
                            assert(frames_from(b, pos_before).drop_first() =~= fsk.skip(j + 1));
                        }
                        assert(self.current_position < total_of(self.files@)) by {
                            lemma_count_prefix_monotone(
                                self.files@,
                                k + 1,
                                self.files@.len() as int,
                            );
                            lemma_count_prefix_total(self.files@);
                        }
                        assert(total_of(self.files@) <= u64::MAX) by {
                            crate::manager::lemma_counts_agree(
                                idx.data_files.files@,
                                self.files@,
                                self.files@.len() as int,
                            );
                            lemma_count_prefix_total(self.files@);
                        }
                        if j + 1 < fsk.len() {
                            crate::codec::lemma_frames_step(b, frame_end(fsk[j]));
                            assert(fsk.skip(j + 1)[0] == fsk[j + 1]);
                        }
                    }
                    self.in_file = Ghost(j + 1);
                    self.current_position = self.current_position + 1;
                    return Ok(Some(vp));
                },
                Ok(None) => {
                    proof {
                        assert(frames_from(b, pos_before) == fsk.skip(j));
                        assert(frames_from(b, pos_before) =~= Seq::<
                            crate::codec::FrameModel,
                        >::empty());
                        assert(j == fsk.len());
                        lemma_count_prefix_total(self.files@);
                        lemma_count_prefix_monotone(self.files@, k + 1, self.files@.len() as int);
                        assert(count_prefix(self.files@, k + 1) == count_prefix(self.files@, k)
                            + fsk.len());
                    }
                    let n = self.files.len();
                    if self.current_file_index + 1 >= n {
                        proof {
                            assert(self.current_position == total_of(self.files@));
                        }
                        return Ok(None);
                    }
                    let next = self.current_file_index + 1;
                    self.open_file(next);
                },
                Err(e) => {
                    proof {
                        assert(frames_from(b, pos_before) == fsk.skip(j));
                        if dataset_clean(self.files@) {
                            assert(file_tail_clean(self.files@[k]));
                            if j < fsk.len() {
                                crate::codec::lemma_frames_step(b, pos_before);
                                assert(frame_ok_at(b, pos_before));
                                assert(false);
                            } else {
                                assert(pos_before == frame_offset(self.files@[k], j));
                                assert(b.len() - pos_before < 16);
                                assert(!crate::codec::frame_header_at(b, pos_before));
                                assert(false);
                            }
                        }
                    }
                    return Err(e);
                },
            }
        }
    }

    /// The index's packet total equals the dataset's.
    proof fn lemma_total(self)
        requires
            self.inv(),
            self.initialized(),
        ensures
            self.index_of() matches Some(idx) && idx.total_packets == total_of(self.files_spec()),
            total_of(self.files_spec()) <= u64::MAX,
    {
        let idx = self.index_of()->0;
        crate::manager::lemma_counts_agree(
            idx.data_files.files@,
            self.files@,
            self.files@.len() as int,
        );
        lemma_count_prefix_total(self.files@);
    }

    /// The cursor never stands past the end of the dataset.
    proof fn lemma_position_in_range(self)
        requires
            self.inv(),
        ensures
            self.position() <= total_of(self.files_spec()),
    {
        if self.current_reader is Some {
            let k = self.current_file_index as int;
            assert(count_prefix(self.files@, k + 1) == count_prefix(self.files@, k) + file_frames(
                self.files@[k],
            ).len());
            lemma_count_prefix_monotone(self.files@, k + 1, self.files@.len() as int);
            lemma_count_prefix_total(self.files@);
        } else {
            lemma_count_prefix_total(self.files@);
            crate::dataset::lemma_count_prefix_monotone(self.files@, 0, self.files@.len() as int);
        }
    }

    /// The packets of the first `file_index` files, from the index records.
    fn prefix_count(&self, file_index: usize) -> (r: u64)
        requires
            self.inv(),
            self.initialized(),
            file_index <= self.files_spec().len(),
        ensures
            r == count_prefix(self.files_spec(), file_index as int),
    {
        proof {
            self.lemma_total();
        }
        let ghost files = self.files@;
        let idx = match self.index_manager.get_index() {
            Some(idx) => idx,
            None => {
                proof {
                    assert(false);
                }
                return 0;
            },
        };
        let ghost records = idx.data_files.files@;
        let mut acc: u64 = 0;
        let mut f: usize = 0;
        while f < file_index
            invariant
                f <= file_index <= files.len(),
                self.inv(),
                self.initialized(),
                files == self.files_spec(),
                self.index_of() == Some(*idx),
                records == idx.data_files.files@,
                index_wf(*idx, files),
                acc == count_prefix(files, f as int),
                total_of(files) <= u64::MAX,
            decreases file_index - f,
        {
            proof {
                crate::manager::lemma_counts_agree(records.take(f + 1), files, f + 1);
                crate::manager::lemma_counts_agree(records.take(f as int), files, f as int);
                crate::manager::lemma_sum_counts_push(records.take(f as int), records[f as int]);
                assert(records.take(f as int).push(records[f as int]) =~= records.take(f + 1));
                assert forall|m: int| 0 <= m < f + 1 implies file_index_wf(
                    #[trigger] records.take(f + 1)[m],
                    files[m],
                ) by {
                    assert(file_index_wf(records[m], files[m]));
                }
                assert forall|m: int| 0 <= m < f implies file_index_wf(
                    #[trigger] records.take(f as int)[m],
                    files[m],
                ) by {
                    assert(file_index_wf(records[m], files[m]));
                }
                lemma_count_prefix_monotone(files, f + 1, files.len() as int);
                lemma_count_prefix_total(files);
            }
            acc = acc + idx.data_files.files[f].packet_count;
            f = f + 1;
        }
        acc
    }

    /// Positions the cursor on the packet with global index `target`.
    fn seek_global(&mut self, target: u64) -> (r: PcapResult<()>)
        requires
            old(self).inv(),
            old(self).initialized(),
        ensures
            final(self).inv(),
            final(self).files_spec() == old(self).files_spec(),
            final(self).initialized(),
            final(self).index_of() == old(self).index_of(),
            r is Ok <==> target < total_of(old(self).files_spec()),
            r is Ok ==> final(self).position() == target,
            r is Err ==> (final(self).position() == old(self).position() && (r matches Err(e)
                && e is InvalidArgument)),
    {
        proof {
            self.lemma_total();
        }
        let ghost files = self.files@;
        let mut found_file: usize = 0;
        let mut found_j: usize = 0;
        let mut byte_offset: u64 = 0;
        let mut found = false;
        {
            let idx = match self.index_manager.get_index() {
                Some(idx) => idx,
                None => {
                    proof {
                        assert(false);
                    }
                    return Err(PcapError::InvalidState(String::from_str("no index loaded")));
                },
            };
            let ghost records = idx.data_files.files@;
            if target >= idx.total_packets {
                return Err(
                    PcapError::InvalidArgument(String::from_str("packet index out of range")),
                );
            }
            let nf = idx.data_files.files.len();
            let mut acc: u64 = 0;
            let mut f: usize = 0;
            while !found && f < nf
                invariant
                    f <= nf,
                    nf == files.len(),
                    self.inv(),
                    self.initialized(),
                    files == self.files_spec(),
                    self.index_of() == Some(*idx),
                    records == idx.data_files.files@,
                    index_wf(*idx, files),
                    target < total_of(files),
                    total_of(files) <= u64::MAX,
                    !found ==> acc == count_prefix(files, f as int) && acc <= target,
                    found ==> {
                        &&& found_file < nf
                        &&& count_prefix(files, found_file as int) <= target
                        &&& found_j == target - count_prefix(files, found_file as int)
                        &&& found_j < file_frames(files[found_file as int]).len()
                        &&& byte_offset == records[found_file as int].data_packets@[
                            found_j as int
                        ].byte_offset
                    },
                decreases nf - f, (if found { 0int } else { 1int }),
            {
                let cnt = idx.data_files.files[f].packet_count;
                proof {
                    crate::manager::lemma_counts_agree(records.take(f + 1), files, f + 1);
                    crate::manager::lemma_counts_agree(records.take(f as int), files, f as int);
                    crate::manager::lemma_sum_counts_push(
                        records.take(f as int),
                        records[f as int],
                    );
                    assert(records.take(f as int).push(records[f as int]) =~= records.take(f + 1));
                    assert forall|m: int| 0 <= m < f + 1 implies file_index_wf(
                        #[trigger] records.take(f + 1)[m],
                        files[m],
                    ) by {
                        assert(file_index_wf(records[m], files[m]));
                    }
                    assert forall|m: int| 0 <= m < f implies file_index_wf(
                        #[trigger] records.take(f as int)[m],
                        files[m],
                    ) by {
                        assert(file_index_wf(records[m], files[m]));
                    }
                    lemma_count_prefix_monotone(files, f + 1, files.len() as int);
                    lemma_count_prefix_total(files);
                }
                if target < acc + cnt {
                    let j64 = target - acc;
                    let np = idx.data_files.files[f].data_packets.len();
                    proof {
                        assert(file_index_wf(records[f as int], files[f as int]));
                        assert(j64 < records[f as int].data_packets@.len());
                        assert(j64 < np);
                    }
                    found_file = f;
                    found_j = j64 as usize;
                    byte_offset = idx.data_files.files[f].data_packets[found_j].byte_offset;
                    found = true;
                } else {
                    acc = acc + cnt;
                    f = f + 1;
                }
            }
            proof {
                if !found {
                    lemma_count_prefix_total(files);
                    assert(acc == total_of(files));
                    assert(false);
                }
            }
        }
        let ghost k = found_file as int;
        let ghost j = found_j as int;
        proof {
            let idx = self.index_of()->0;
            assert(file_index_wf(idx.data_files.files@[k], files[k]));
            assert(idx.data_files.files@[k].data_packets@[j] == entry_of(file_frames(files[k])[j]));
            crate::codec::lemma_frames_from_wf(files[k].bytes@, 24);
            crate::codec::lemma_frames_suffix(files[k].bytes@, 24, j);
        }
        self.open_file(found_file);
        let reader = match &mut self.current_reader {
            Some(r) => r,
            None => {
                proof {
                    assert(false);
                }
                return Err(PcapError::InvalidState(String::from_str("no file open")));
            },
        };
        match reader.seek_to(byte_offset) {
            Ok(_) => {},
            Err(_) => {
                proof {
                    assert(false);
                }
            },
        }
        self.in_file = Ghost(j);
        self.current_position = target;
        proof {
            let fsk = file_frames(files[k]);
            assert(byte_offset as int == fsk[j].off);
            assert(frames_from(files[k].bytes@, fsk[j].off) == fsk.skip(j));
        }
        Ok(())
    }

    /// Positions the cursor on the packet with the given global index,
    /// counted from 0.  Fails with `InvalidArgument` exactly when the index
    /// is out of range.
    pub fn seek_to_packet(&mut self, packet_index: usize) -> (r: PcapResult<()>)
        requires
            old(self).inv(),
        ensures
            final(self).inv(),
            final(self).files_spec() == old(self).files_spec(),
            r is Ok <==> (old(self).initialized() || dataset_ok(old(self).files_spec()))
                && packet_index < total_of(old(self).files_spec()),
            r is Ok ==> final(self).position() == packet_index && final(self).initialized(),
            old(self).initialized() ==> final(self).index_of() == old(self).index_of(),
            old(self).initialized() && r is Err ==> (final(self).position() == old(self).position()
                && (r matches Err(e) && e is InvalidArgument)),
    {
        if let Err(e) = self.initialize() {
            return Err(e);
        }
        self.seek_global(packet_index as u64)
    }

    /// Rewinds the cursor to the first packet of the dataset.
    pub fn reset(&mut self) -> (r: PcapResult<()>)
        requires
            old(self).inv(),
        ensures
            final(self).inv(),
            final(self).files_spec() == old(self).files_spec(),
            r is Ok <==> old(self).initialized() || dataset_ok(old(self).files_spec()),
            r is Ok ==> final(self).position() == 0 && final(self).initialized(),
            old(self).initialized() ==> final(self).index_of() == old(self).index_of(),
    {
        if let Err(e) = self.initialize() {
            return Err(e);
        }
        if let Some(r) = &mut self.current_reader {
            r.close();
        }
        self.current_reader = None;
        self.current_position = 0;
        self.current_file_index = 0;
        self.in_file = Ghost(0);
        if self.files.len() > 0 {
            self.open_file(0);
            proof {
                assert(count_prefix(self.files@, 0) == 0);
            }
        }
        Ok(())
    }

    /// Whether the cursor has passed the last packet.  Before
    /// initialization this reports true exactly when no file is open.
    pub fn is_eof(&self) -> (r: bool)
        requires
            self.inv(),
        ensures
            self.initialized() ==> r == (self.position() >= total_of(self.files_spec())),
            !self.initialized() ==> r,
    {
        proof {
            if self.is_initialized {
                self.lemma_total();
            }
        }
        if !self.is_initialized {
            return self.current_reader.is_none();
        }
        match self.index_manager.get_index() {
            Some(idx) => self.current_position >= idx.total_packets,
            None => true,
        }
    }

    /// The dataset's packet total, once the index is loaded.
    pub fn total_packets(&self) -> (r: Option<usize>)
        requires
            self.inv(),
        ensures
            self.initialized() ==> (r matches Some(t) && t == total_of(self.files_spec()) as usize),
            !self.initialized() ==> r is None,
    {
        proof {
            if self.is_initialized {
                self.lemma_total();
            }
        }
        if !self.is_initialized {
            return None;
        }
        match self.index_manager.get_index() {
            Some(idx) => Some(#[verifier::truncate] (idx.total_packets as usize)),
            None => None,
        }
    }

    /// The global index of the next packet a sequential read returns.
    pub fn current_packet_index(&self) -> (r: u64)
        ensures
            r == self.position(),
    {
        self.current_position
    }

    /// The index manager, for direct index queries.  Only shared access
    /// is offered: handing out mutable access would let a caller break
    /// the agreement between the loaded index and the files that every
    /// navigation contract rests on.  To replace the index, initialize a
    /// fresh reader, offering a sidecar through `initialize_with`.
    pub fn index(&self) -> (r: &IndexManager)
        ensures
            r.index_spec() == self.index_of(),
    {
        &self.index_manager
    }

    /// Skips up to `count` packets, clamping the target to the last packet
    /// of the dataset, and returns how many were actually skipped.  The
    /// index is loaded on first use, like the other navigation calls.
    pub fn skip_packets(&mut self, count: usize) -> (r: PcapResult<usize>)
        requires
            old(self).inv(),
        ensures
            final(self).inv(),
            final(self).files_spec() == old(self).files_spec(),
            (old(self).initialized() || dataset_ok(old(self).files_spec())) <==> r is Ok,
            r is Ok ==> final(self).initialized(),
            old(self).initialized() ==> final(self).index_of() == old(self).index_of(),
            r is Err ==> final(self).position() == old(self).position(),
            r matches Ok(skipped) ==> {
                &&& (total_of(old(self).files_spec()) == 0 ==> skipped == 0
                    && final(self).position() == old(self).position())
                &&& (total_of(old(self).files_spec()) > 0 ==> {
                    let cap = total_of(old(self).files_spec()) - 1;
                    let target = if old(self).position() + count < cap {
                        old(self).position() + count
                    } else {
                        cap
                    };
                    &&& (target > old(self).position() ==> final(self).position() == target
                        && skipped == target - old(self).position())
                    &&& (target <= old(self).position() ==> skipped == 0
                        && final(self).position() == old(self).position())
                })
            },
    {
        if let Err(e) = self.initialize() {
            return Err(e);
        }
        proof {
            self.lemma_total();
        }
        let ghost files = self.files@;
        let total: u64 = match self.index_manager.get_index() {
            Some(idx) => idx.total_packets,
            None => {
                proof {
                    assert(false);
                }
                return Err(PcapError::InvalidState(String::from_str("no index loaded")));
            },
        };
        if total == 0 {
            return Ok(0);
        }
        let current = self.current_position;
        let sum = current.saturating_add(count as u64);
        let target = if sum < total - 1 {
            sum
        } else {
            total - 1
        };
        proof {
            assert(current + count >= total - 1 ==> target == total - 1);
            assert(current + count < total - 1 ==> sum == current + count && target == sum);
        }
        if target > current {
            match self.seek_global(target) {
                Ok(_) => {},
                Err(_) => {
                    proof {
                        assert(false);
                    }
                },
            }
            let skipped = target - current;
            proof {
                assert(skipped <= count);
            }
            Ok(skipped as usize)
        } else {
            Ok(0)
        }
    }
    /// Every packet of the dataset has a pointer in the lookup table.
    proof fn lemma_every_packet_indexed(self, n: int)
        requires
            self.inv(),
            self.initialized(),
            0 <= n < total_of(self.files_spec()),
        ensures
            self.index_of() matches Some(idx) && has_pointer_for(
                idx.timestamp_index@,
                dataset_packets(self.files_spec())[n].timestamp_ns,
            ),
    {
        let idx = self.index_of()->0;
        let files = self.files_spec();
        crate::dataset::lemma_global_decompose(files, n);
        let (k, j) = choose|k: int, j: int|
            {
                &&& #[trigger] crate::dataset::packet_location(files, k, j)
                &&& n == count_prefix(files, k) + j
                &&& dataset_packets(files)[n] == file_frames(files[k])[j].packet
            };
        assert(file_index_wf(idx.data_files.files@[k], files[k]));
        assert(idx.data_files.files@[k].data_packets@[j] == entry_of(file_frames(files[k])[j]));
        assert(has_pointer_for(
            idx.timestamp_index@,
            idx.data_files.files@[k].data_packets@[j].timestamp_ns,
        ));
    }

    /// Positions the cursor on the recorded entry of file `fi` that a
    /// lookup-table pointer names; the file must record that entry.
    fn seek_to_entry(&mut self, fi: usize, entry: PacketIndexEntry)
        requires
            old(self).inv(),
            old(self).initialized(),
            old(self).index_of() matches Some(idx) && {
                &&& fi < idx.data_files.files@.len()
                &&& idx.data_files.files@[fi as int].data_packets@.contains(entry)
            },
        ensures
            final(self).inv(),
            final(self).files_spec() == old(self).files_spec(),
            final(self).initialized(),
            final(self).index_of() == old(self).index_of(),
            final(self).at_frame(),
            final(self).position() < total_of(final(self).files_spec()),
            dataset_packets(final(self).files_spec())[final(self).position() as int].timestamp_ns
                == entry.timestamp_ns,
    {
        let ghost files = self.files@;
        proof {
            self.lemma_total();
        }
        let mut found_j: usize = 0;
        let mut found = false;
        {
            let idx = match self.index_manager.get_index() {
                Some(idx) => idx,
                None => {
                    proof {
                        assert(false);
                    }
                    return ;
                },
            };
            let ghost entries = idx.data_files.files@[fi as int].data_packets@;
            let np = idx.data_files.files[fi].data_packets.len();
            let mut m: usize = 0;
            while m < np && !found
                invariant
                    m <= np,
                    np == entries.len(),
                    entries == idx.data_files.files@[fi as int].data_packets@,
                    fi < idx.data_files.files@.len(),
                    !found ==> forall|q: int| 0 <= q < m ==> #[trigger] entries[q] != entry,
                    found ==> found_j < np && entries[found_j as int] == entry,
                    entries.contains(entry),
                decreases np - m, (if found { 0int } else { 1int }),
            {
                if idx.data_files.files[fi].data_packets[m] == entry {
                    found_j = m;
                    found = true;
                } else {
                    m = m + 1;
                }
            }
            proof {
                if !found {
                    assert(false);
                }
            }
        }
        let ghost j = found_j as int;
        proof {
            let idx = self.index_of()->0;
            assert(file_index_wf(idx.data_files.files@[fi as int], files[fi as int]));
            assert(idx.data_files.files@[fi as int].data_packets@[j] == entry_of(
                file_frames(files[fi as int])[j],
            ));
            crate::codec::lemma_frames_from_wf(files[fi as int].bytes@, 24);
            crate::codec::lemma_frames_suffix(files[fi as int].bytes@, 24, j);
            lemma_global_index(files, fi as int, j);
            lemma_count_prefix_total(files);
        }
        let base = self.prefix_count(fi);
        let byte_offset = match self.index_manager.get_index() {
            Some(idx) => idx.data_files.files[fi].data_packets[found_j].byte_offset,
            None => {
                proof {
                    assert(false);
                }
                return ;
            },
        };
        self.open_file(fi);
        let reader = match &mut self.current_reader {
            Some(r) => r,
            None => {
                proof {
                    assert(false);
                }
                return ;
            },
        };
        match reader.seek_to(byte_offset) {
            Ok(_) => {},
            Err(_) => {
                proof {
                    assert(false);
                }
            },
        }
        self.in_file = Ghost(j);
        self.current_position = base + found_j as u64;
        proof {
            let fsk = file_frames(files[fi as int]);
            assert(byte_offset as int == fsk[j].off);
            assert(frames_from(files[fi as int].bytes@, fsk[j].off) == fsk.skip(j));
        }
    }

    /// Moves the cursor to the packet with the given timestamp, or to the
    /// packet with the smallest larger one, and returns the timestamp
    /// landed on.  Fails with `InvalidArgument` exactly when no recorded
    /// timestamp reaches `timestamp_ns`.
    pub fn seek_to_timestamp(&mut self, timestamp_ns: u64) -> (r: PcapResult<u64>)
        requires
            old(self).inv(),
        ensures
            final(self).inv(),
            final(self).files_spec() == old(self).files_spec(),
            old(self).initialized() ==> final(self).index_of() == old(self).index_of(),
            r matches Ok(actual) ==> {
                &&& final(self).initialized()
                &&& final(self).at_frame()
                &&& actual >= timestamp_ns
                &&& final(self).position() < total_of(final(self).files_spec())
                &&& dataset_packets(final(self).files_spec())[
                final(self).position() as int].timestamp_ns == actual
                &&& forall|n: int|
                    0 <= n < total_of(final(self).files_spec()) ==> !(timestamp_ns <= (
                    #[trigger] dataset_packets(final(self).files_spec())[n]).timestamp_ns
                        < actual)
            },
            (old(self).initialized() || dataset_ok(old(self).files_spec())) ==> (r is Ok <==>
                exists|n: int|
                    0 <= n < total_of(old(self).files_spec()) && (#[trigger] dataset_packets(
                        old(self).files_spec(),
                    )[n]).timestamp_ns >= timestamp_ns),
            old(self).initialized() && r is Err ==> (r matches Err(e) && e is InvalidArgument),
            r is Err ==> final(self).position() == old(self).position(),
    {
        if let Err(e) = self.initialize() {
            return Err(e);
        }
        let ghost files = self.files@;
        let ghost idxg = self.index_of()->0;
        let pointer = {
            let idx = match self.index_manager.get_index() {
                Some(idx) => idx,
                None => {
                    proof {
                        assert(false);
                    }
                    return Err(PcapError::InvalidState(String::from_str("no index loaded")));
                },
            };
            idx.find_ge(timestamp_ns)
        };
        let p = match pointer {
            Some(p) => p,
            None => {
                proof {
                    assert forall|n: int|
                        0 <= n < total_of(files) implies !((#[trigger] dataset_packets(
                        files,
                    )[n]).timestamp_ns >= timestamp_ns) by {
                        self.lemma_every_packet_indexed(n);
                        let ts2 = dataset_packets(files)[n].timestamp_ns;
                        if ts2 >= timestamp_ns {
                            let i = choose|i: int|
                                0 <= i < idxg.timestamp_index@.len() && (
                                #[trigger] idxg.timestamp_index@[i]).entry.timestamp_ns == ts2;
                            assert(has_pointer_ge(idxg.timestamp_index@, timestamp_ns));
                        }
                    }
                }
                return Err(
                    PcapError::InvalidArgument(
                        String::from_str("no packet at or after this timestamp"),
                    ),
                );
            },
        };
        let actual = p.entry.timestamp_ns;
        proof {
            let ti = idxg.timestamp_index@;
            assert(ti.contains(p));
            let i = choose|i: int| 0 <= i < ti.len() && ti[i] == p;
            assert(pointer_matches(idxg.data_files.files@, ti[i]));
        }
        self.seek_to_entry(p.file_index, p.entry);
        proof {
            assert forall|n: int| 0 <= n < total_of(files) implies !(timestamp_ns <= (
            #[trigger] dataset_packets(files)[n]).timestamp_ns < actual) by {
                self.lemma_every_packet_indexed(n);
                let ts2 = dataset_packets(files)[n].timestamp_ns;
                if timestamp_ns <= ts2 < actual {
                    let idx2 = self.index_of()->0;
                    let ti = idx2.timestamp_index@;
                    let i = choose|i: int|
                        0 <= i < ti.len() && (#[trigger] ti[i]).entry.timestamp_ns == ts2;
                    assert(ti[i].entry.timestamp_ns < timestamp_ns || ti[i].entry.timestamp_ns
                        >= actual);
                    assert(false);
                }
            }
            assert(exists|n: int|
                0 <= n < total_of(files) && (#[trigger] dataset_packets(files)[n]).timestamp_ns
                    >= timestamp_ns) by {
                assert(dataset_packets(files)[self.position() as int].timestamp_ns == actual);
            }
        }
        Ok(actual)
    }

    /// The recorded pointer whose timestamp is closest to the given one,
    /// in absolute distance; `None` on an empty dataset.
    pub fn seek_by_timestamp(&mut self, timestamp_ns: u64) -> (r: PcapResult<
        Option<TimestampPointer>,
    >)
        requires
            old(self).inv(),
        ensures
            final(self).inv(),
            final(self).files_spec() == old(self).files_spec(),
            old(self).initialized() ==> *final(self) == *old(self),
            (old(self).initialized() || dataset_ok(old(self).files_spec())) <==> r is Ok,
            r matches Ok(p) ==> final(self).initialized(),
            r matches Ok(p) ==> (final(self).index_of() matches Some(idx) && {
                &&& (p matches Some(q) ==> idx.timestamp_index@.contains(q) && forall|i: int|
                    0 <= i < idx.timestamp_index@.len() ==> dist(q.entry.timestamp_ns, timestamp_ns)
                        <= dist(
                        (#[trigger] idx.timestamp_index@[i]).entry.timestamp_ns,
                        timestamp_ns,
                    ))
                &&& (p is None <==> idx.timestamp_index@.len() == 0)
            }),
    {
        if let Err(e) = self.initialize() {
            return Err(e);
        }
        let idx = match self.index_manager.get_index() {
            Some(idx) => idx,
            None => {
                proof {
                    assert(false);
                }
                return Err(PcapError::InvalidState(String::from_str("no index loaded")));
            },
        };
        let n = idx.timestamp_index.len();
        if n == 0 {
            return Ok(None);
        }
        let mut best: TimestampPointer = idx.timestamp_index[0];
        let mut i: usize = 1;
        while i < n
            invariant
                1 <= i <= n,
                n == idx.timestamp_index@.len(),
                idx.timestamp_index@.contains(best),
                forall|q: int|
                    0 <= q < i ==> dist(best.entry.timestamp_ns, timestamp_ns) <= dist(
                        (#[trigger] idx.timestamp_index@[q]).entry.timestamp_ns,
                        timestamp_ns,
                    ),
            decreases n - i,
        {
            let cand = idx.timestamp_index[i];
            let cand_diff = if cand.entry.timestamp_ns >= timestamp_ns {
                cand.entry.timestamp_ns - timestamp_ns
            } else {
                timestamp_ns - cand.entry.timestamp_ns
            };
            let best_diff = if best.entry.timestamp_ns >= timestamp_ns {
                best.entry.timestamp_ns - timestamp_ns
            } else {
                timestamp_ns - best.entry.timestamp_ns
            };
            if cand_diff < best_diff {
                best = cand;
            }
            i = i + 1;
        }
        Ok(Some(best))
    }

    /// Looks the timestamp up exactly and returns that packet, decoded
    /// from its container file.  `Ok(None)` when no packet carries it;
    /// `InvalidState` before initialization.  On success the cursor lands
    /// just past the packet returned, so a sequential read continues from
    /// there; on any other outcome it does not move.
    pub fn read_packet_by_timestamp(&mut self, timestamp_ns: u64) -> (r: PcapResult<
        Option<ValidatedPacket>,
    >)
        requires
            old(self).inv(),
        ensures
            final(self).inv(),
            final(self).files_spec() == old(self).files_spec(),
            final(self).index_of() == old(self).index_of(),
            !old(self).initialized() ==> (r matches Err(e) && e is InvalidState),
            r matches Ok(Some(vp)) ==> {
                &&& vp.packet@.timestamp_ns == timestamp_ns
                &&& vp.wf()
                &&& exists|n: int|
                    {
                        &&& 0 <= n < total_of(old(self).files_spec())
                        &&& #[trigger] dataset_packets(old(self).files_spec())[n] == vp.packet@
                        &&& final(self).position() == n + 1
                    }
            },
            r matches Ok(None) ==> final(self).position() == old(self).position(),
            r is Err ==> final(self).position() == old(self).position(),
            old(self).initialized() ==> (r matches Ok(Some(_)) <==> exists|n: int|
                0 <= n < total_of(old(self).files_spec()) && (#[trigger] dataset_packets(
                    old(self).files_spec(),
                )[n]).timestamp_ns == timestamp_ns),
            old(self).initialized() ==> r is Ok,
    {
        if !self.is_initialized {
            return Err(PcapError::InvalidState(String::from_str("index not loaded")));
        }
        let ghost files = self.files@;
        let ghost idxg = self.index_of()->0;
        let pointer = {
            let idx = match self.index_manager.get_index() {
                Some(idx) => idx,
                None => {
                    proof {
                        assert(false);
                    }
                    return Err(PcapError::InvalidState(String::from_str("no index loaded")));
                },
            };
            idx.find_packet_by_timestamp(timestamp_ns)
        };
        let p = match pointer {
            Some(p) => p,
            None => {
                proof {
                    assert forall|n: int|
                        0 <= n < total_of(files) implies (#[trigger] dataset_packets(
                        files,
                    )[n]).timestamp_ns != timestamp_ns by {
                        self.lemma_every_packet_indexed(n);
                    }
                }
                return Ok(None);
            },
        };
        proof {
            let ti = idxg.timestamp_index@;
            assert(ti.contains(p));
            let i = choose|i: int| 0 <= i < ti.len() && ti[i] == p;
            assert(pointer_matches(idxg.data_files.files@, ti[i]));
        }
        self.seek_to_entry(p.file_index, p.entry);
        let ghost pos = self.position();
        match self.read_packet() {
            Ok(Some(vp)) => {
                proof {
                    assert(dataset_packets(files)[pos as int] == vp.packet@);
                }
                if vp.packet.get_timestamp_ns() != timestamp_ns {
                    return Err(
                        PcapError::InvalidState(
                            String::from_str("decoded timestamp does not match the index"),
                        ),
                    );
                }
                Ok(Some(vp))
            },
            Ok(None) => {
                proof {
                    assert(false);
                }
                Ok(None)
            },
            Err(e) => {
                proof {
                    assert(false);
                }
                Err(e)
            },
        }
    }
    /// Reads every packet whose timestamp lies in the closed range,
    /// ascending by timestamp: one packet per recorded timestamp in the
    /// range, decoded from its container file.
    #[verifier::rlimit(100)]
    pub fn read_packets_by_time_range(&mut self, start_timestamp_ns: u64, end_timestamp_ns: u64) -> (r:
        PcapResult<Vec<ValidatedPacket>>)
        requires
            old(self).inv(),
        ensures
            final(self).inv(),
            final(self).files_spec() == old(self).files_spec(),
            old(self).initialized() ==> final(self).index_of() == old(self).index_of(),
            (old(self).initialized() || dataset_ok(old(self).files_spec())) <==> r is Ok,
            r matches Ok(v) ==> final(self).initialized(),
            r matches Ok(v) ==> forall|a: int, b: int|
                0 <= a < b < v@.len() ==> (#[trigger] v@[a]).packet@.timestamp_ns < (
                #[trigger] v@[b]).packet@.timestamp_ns,
            r matches Ok(v) ==> forall|m: int|
                0 <= m < v@.len() ==> {
                    &&& start_timestamp_ns <= (#[trigger] v@[m]).packet@.timestamp_ns
                        <= end_timestamp_ns
                    &&& v@[m].wf()
                    &&& exists|n: int|
                        0 <= n < total_of(old(self).files_spec()) && #[trigger] dataset_packets(
                            old(self).files_spec(),
                        )[n] == v@[m].packet@
                },
            r matches Ok(v) ==> covers_range(
                v@,
                old(self).files_spec(),
                start_timestamp_ns,
                end_timestamp_ns,
            ),
    {
        if let Err(e) = self.initialize() {
            return Err(e);
        }
        let ghost files = self.files@;
        let ghost idxg = self.index_of()->0;
        let ghost ti = idxg.timestamp_index@;
        let pointers = {
            let idx = match self.index_manager.get_index() {
                Some(idx) => idx,
                None => {
                    proof {
                        assert(false);
                    }
                    return Err(PcapError::InvalidState(String::from_str("no index loaded")));
                },
            };
            idx.get_packets_in_range(start_timestamp_ns, end_timestamp_ns)
        };
        proof {
            crate::index::lemma_filter_keeps_sorted(
                ti,
                crate::index::in_range(start_timestamp_ns, end_timestamp_ns),
            );
        }
        let mut out: Vec<ValidatedPacket> = Vec::new();
        let np = pointers.len();
        let mut m: usize = 0;
        while m < np
            invariant
                m <= np,
                self.inv(),
                self.initialized(),
                self.files_spec() == files,
                self.index_of() == Some(idxg),
                ti == idxg.timestamp_index@,
                np == pointers@.len(),
                pointers@ == ti.filter(
                    crate::index::in_range(start_timestamp_ns, end_timestamp_ns),
                ),
                ts_index_sorted(pointers@),
                forall|q: int| 0 <= q < np ==> ti.contains(#[trigger] pointers@[q]),
                out@.len() == m,
                forall|q: int|
                    0 <= q < m ==> (#[trigger] out@[q]).packet@.timestamp_ns == pointers@[
                        q
                    ].entry.timestamp_ns,
                forall|q: int|
                    0 <= q < m ==> {
                        &&& start_timestamp_ns <= (#[trigger] out@[q]).packet@.timestamp_ns
                            <= end_timestamp_ns
                        &&& out@[q].wf()
                        &&& exists|n: int|
                            0 <= n < total_of(files) && #[trigger] dataset_packets(files)[n]
                                == out@[q].packet@
                    },
            decreases np - m,
        {
            let p = pointers[m];
            proof {
                assert(ti.contains(p));
                let i = choose|i: int| 0 <= i < ti.len() && ti[i] == p;
                assert(pointer_matches(idxg.data_files.files@, ti[i]));
                assert(crate::index::in_range(start_timestamp_ns, end_timestamp_ns)(p)) by {
                    vstd::seq::Seq::lemma_filter_pred(
                        ti,
                        crate::index::in_range(start_timestamp_ns, end_timestamp_ns),
                        m as int,
                    );
                }
            }
            self.seek_to_entry(p.file_index, p.entry);
            let ghost pos = self.position();
            match self.read_packet() {
                Ok(Some(vp)) => {
                    proof {
                        assert(dataset_packets(files)[pos as int] == vp.packet@);
                    }
                    let ts = vp.packet.get_timestamp_ns();
                    if start_timestamp_ns <= ts && ts <= end_timestamp_ns {
                        out.push(vp);
                    } else {
                        proof {
                            assert(false);
                        }
                    }
                },
                Ok(None) => {
                    proof {
                        assert(false);
                    }
                },
                Err(_) => {
                    proof {
                        assert(false);
                    }
                },
            }
            m = m + 1;
        }
        proof {
            assert forall|n: int|
                0 <= n < total_of(files) && start_timestamp_ns <= (#[trigger] dataset_packets(
                    files,
                )[n]).timestamp_ns <= end_timestamp_ns implies exists|q: int|
                0 <= q < out@.len() && (#[trigger] out@[q]).packet@.timestamp_ns == dataset_packets(
                    files,
                )[n].timestamp_ns by {
                self.lemma_every_packet_indexed(n);
                let ts2 = dataset_packets(files)[n].timestamp_ns;
                let i = choose|i: int|
                    0 <= i < ti.len() && (#[trigger] ti[i]).entry.timestamp_ns == ts2;
                vstd::seq::Seq::lemma_filter_contains(
                    ti,
                    crate::index::in_range(start_timestamp_ns, end_timestamp_ns),
                    i,
                );
                assert(pointers@.contains(ti[i]));
                let q = choose|q: int| 0 <= q < pointers@.len() && pointers@[q] == ti[i];
                assert(out@[q].packet@.timestamp_ns == ts2);
            }
            assert(files == old(self).files_spec());
            assert(covers_range(out@, old(self).files_spec(), start_timestamp_ns, end_timestamp_ns));
            assert forall|a: int, b: int|
                0 <= a < b < out@.len() implies (#[trigger] out@[a]).packet@.timestamp_ns < (
            #[trigger] out@[b]).packet@.timestamp_ns by {
                assert(pointers@[a].entry.timestamp_ns < pointers@[b].entry.timestamp_ns);
            }
        }
        Ok(out)
    }

    /// Reads the next packet and returns only the packet itself.
    pub fn read_packet_data_only(&mut self) -> (r: PcapResult<Option<DataPacket>>)
        requires
            old(self).inv(),
        ensures
            final(self).inv(),
            final(self).files_spec() == old(self).files_spec(),
            old(self).initialized() ==> final(self).index_of() == old(self).index_of(),
            r matches Ok(Some(p)) ==> {
                &&& old(self).position() < total_of(old(self).files_spec())
                &&& p@ == dataset_packets(old(self).files_spec())[old(self).position() as int]
                &&& final(self).position() == old(self).position() + 1
            },
            r matches Ok(None) ==> {
                &&& final(self).position() == old(self).position()
                &&& old(self).position() == total_of(old(self).files_spec())
            },
            (old(self).initialized() || dataset_ok(old(self).files_spec())) && dataset_clean(
                old(self).files_spec(),
            ) ==> r is Ok,
            old(self).initialized() && old(self).at_frame() ==> r matches Ok(Some(_)),
    {
        match self.read_packet() {
            Ok(Some(vp)) => Ok(Some(vp.packet)),
            Ok(None) => Ok(None),
            Err(e) => Err(e),
        }
    }

    /// Reads up to `count` packets from the cursor, stopping early at the
    /// end of the dataset.
    pub fn read_packets(&mut self, count: usize) -> (r: PcapResult<Vec<ValidatedPacket>>)
        requires
            old(self).inv(),
        ensures
            final(self).inv(),
            final(self).files_spec() == old(self).files_spec(),
            old(self).initialized() ==> final(self).index_of() == old(self).index_of(),
            r matches Ok(v) ==> {
                &&& final(self).initialized()
                &&& v@.len() <= count
                &&& final(self).position() == old(self).position() + v@.len()
                &&& forall|q: int|
                    0 <= q < v@.len() ==> (#[trigger] v@[q]).packet@ == dataset_packets(
                        old(self).files_spec(),
                    )[old(self).position() + q] && v@[q].wf()
                &&& (v@.len() < count ==> final(self).position() == total_of(
                    old(self).files_spec(),
                ))
            },
            r is Ok ==> final(self).position() <= total_of(old(self).files_spec()),
            (old(self).initialized() || dataset_ok(old(self).files_spec())) && dataset_clean(
                old(self).files_spec(),
            ) ==> r is Ok,
    {
        if let Err(e) = self.initialize() {
            return Err(e);
        }
        proof {
            self.lemma_position_in_range();
        }
        let ghost files = self.files@;
        let mut out: Vec<ValidatedPacket> = Vec::new();
        let mut i: usize = 0;
        while i < count
            invariant
                i <= count,
                self.inv(),
                self.initialized(),
                self.files_spec() == files,
                files == old(self).files_spec(),
                old(self).initialized() ==> self.index_of() == old(self).index_of(),
                out@.len() == i,
                self.position() == old(self).position() + i,
                self.position() <= total_of(files),
                forall|q: int|
                    0 <= q < i ==> (#[trigger] out@[q]).packet@ == dataset_packets(files)[old(
                        self,
                    ).position() + q] && out@[q].wf(),
            decreases count - i,
        {
            match self.read_packet() {
                Ok(Some(vp)) => {
                    out.push(vp);
                    i = i + 1;
                },
                Ok(None) => {
                    return Ok(out);
                },
                Err(e) => {
                    return Err(e);
                },
            }
        }
        Ok(out)
    }

    /// Reads up to `count` packets, returning only the packets.
    pub fn read_packets_data_only(&mut self, count: usize) -> (r: PcapResult<Vec<DataPacket>>)
        requires
            old(self).inv(),
        ensures
            final(self).inv(),
            final(self).files_spec() == old(self).files_spec(),
            old(self).initialized() ==> final(self).index_of() == old(self).index_of(),
            r matches Ok(v) ==> {
                &&& final(self).initialized()
                &&& v@.len() <= count
                &&& final(self).position() == old(self).position() + v@.len()
                &&& forall|q: int|
                    0 <= q < v@.len() ==> (#[trigger] v@[q])@ == dataset_packets(
                        old(self).files_spec(),
                    )[old(self).position() + q]
                &&& (v@.len() < count ==> final(self).position() == total_of(
                    old(self).files_spec(),
                ))
            },
            r is Ok ==> final(self).position() <= total_of(old(self).files_spec()),
            (old(self).initialized() || dataset_ok(old(self).files_spec())) && dataset_clean(
                old(self).files_spec(),
            ) ==> r is Ok,
    {
        let packets = match self.read_packets(count) {
            Ok(v) => v,
            Err(e) => {
                return Err(e);
            },
        };
        let ghost packets_view = packets@;
        let mut out: Vec<DataPacket> = Vec::new();
        let mut rest = packets;
        while rest.len() > 0
            invariant
                out@.len() + rest@.len() == packets_view.len(),
                rest@ == packets_view.skip(out@.len() as int),
                forall|q: int| 0 <= q < out@.len() ==> #[trigger] out@[q]@ == packets_view[q].packet@,
            decreases rest@.len(),
        {
            let ghost done = out@.len() as int;
            let vp = rest.remove(0);
            proof {
                assert(vp == packets_view[done]);
                assert(rest@ =~= packets_view.skip(done + 1));
            }
            out.push(vp.packet);
        }
        Ok(out)
    }

    /// A summary of the dataset from the loaded index.  `total_size` adds
    /// the recorded file sizes, saturating only past the 64-bit range.
    pub fn get_dataset_info(&mut self) -> (r: PcapResult<DatasetInfo>)
        requires
            old(self).inv(),
        ensures
            final(self).inv(),
            final(self).files_spec() == old(self).files_spec(),
            final(self).position() == old(self).position(),
            old(self).initialized() ==> final(self).index_of() == old(self).index_of(),
            (old(self).initialized() || dataset_ok(old(self).files_spec())) <==> r is Ok,
            r matches Ok(info) ==> (final(self).index_of() matches Some(idx) && {
                &&& info.file_count == idx.data_files.files@.len()
                &&& info.total_packets == idx.total_packets
                &&& info.start_timestamp == (if idx.start_timestamp > 0 {
                    Some(idx.start_timestamp)
                } else {
                    None::<u64>
                })
                &&& info.end_timestamp == (if idx.end_timestamp > 0 {
                    Some(idx.end_timestamp)
                } else {
                    None::<u64>
                })
                &&& info.name@ == final(self).name_spec()
                &&& info.has_index
                &&& (sizes_sum(idx.data_files.files@) <= u64::MAX ==> info.total_size == sizes_sum(
                    idx.data_files.files@,
                ))
            }),
    {
        if let Err(e) = self.initialize() {
            return Err(e);
        }
        let created = crate::stamp::now_rfc3339();
        let modified = crate::stamp::now_rfc3339();
        let idx = match self.index_manager.get_index() {
            Some(idx) => idx,
            None => {
                proof {
                    assert(false);
                }
                return Err(PcapError::InvalidState(String::from_str("no index loaded")));
            },
        };
        let nf = idx.data_files.files.len();
        let ghost records = idx.data_files.files@;
        let mut total_size: u64 = 0;
        let mut i: usize = 0;
        while i < nf
            invariant
                i <= nf,
                nf == records.len(),
                records == idx.data_files.files@,
                total_size == (if sizes_sum(records.take(i as int)) > u64::MAX {
                    u64::MAX as int
                } else {
                    sizes_sum(records.take(i as int))
                }),
            decreases nf - i,
        {
            proof {
                lemma_sizes_sum_take_step(records, i as int);
            }
            total_size = total_size.saturating_add(idx.data_files.files[i].file_size);
            i = i + 1;
        }
        proof {
            assert(records.take(nf as int) =~= records);
        }
        Ok(
            DatasetInfo {
                name: self.dataset_name.clone(),
                file_count: nf,
                total_packets: idx.total_packets,
                total_size,
                start_timestamp: if idx.start_timestamp > 0 {
                    Some(idx.start_timestamp)
                } else {
                    None
                },
                end_timestamp: if idx.end_timestamp > 0 {
                    Some(idx.end_timestamp)
                } else {
                    None
                },
                created_time: created,
                modified_time: modified,
                has_index: true,
            },
        )
    }

    /// One summary per container file, drawn from the index records.  A
    /// cached summary is reused only when it still agrees with the record
    /// it describes.
    pub fn get_file_info_list(&mut self) -> (r: PcapResult<Vec<FileInfo>>)
        requires
            old(self).inv(),
        ensures
            final(self).inv(),
            final(self).files_spec() == old(self).files_spec(),
            final(self).position() == old(self).position(),
            old(self).initialized() ==> final(self).index_of() == old(self).index_of(),
            (old(self).initialized() || dataset_ok(old(self).files_spec())) <==> r is Ok,
            r matches Ok(v) ==> (final(self).index_of() matches Some(idx) && {
                &&& v@.len() == idx.data_files.files@.len()
                &&& forall|i: int|
                    0 <= i < v@.len() ==> info_of_record(#[trigger] v@[i], idx.data_files.files@[i])
            }),
    {
        if let Err(e) = self.initialize() {
            return Err(e);
        }
        let ghost idxg = self.index_of()->0;
        let nf = match self.index_manager.get_index() {
            Some(idx) => idx.data_files.files.len(),
            None => {
                proof {
                    assert(false);
                }
                return Err(PcapError::InvalidState(String::from_str("no index loaded")));
            },
        };
        let mut out: Vec<FileInfo> = Vec::new();
        let mut i: usize = 0;
        while i < nf
            invariant
                i <= nf,
                self.inv(),
                self.initialized(),
                self.index_of() == Some(idxg),
                self.files_spec() == old(self).files_spec(),
                self.position() == old(self).position(),
                nf == idxg.data_files.files@.len(),
                out@.len() == i,
                forall|q: int|
                    0 <= q < i ==> info_of_record(#[trigger] out@[q], idxg.data_files.files@[q]),
            decreases nf - i,
        {
            let (name, fresh) = {
                let idx = match self.index_manager.get_index() {
                    Some(idx) => idx,
                    None => {
                        proof {
                            assert(false);
                        }
                        return Err(PcapError::InvalidState(String::from_str("no index loaded")));
                    },
                };
                let rec = &idx.data_files.files[i];
                let fresh = FileInfo {
                    file_name: rec.file_name.clone(),
                    file_size: rec.file_size,
                    packet_count: rec.packet_count,
                    start_timestamp: if rec.start_timestamp > 0 {
                        Some(rec.start_timestamp)
                    } else {
                        None
                    },
                    end_timestamp: if rec.end_timestamp > 0 {
                        Some(rec.end_timestamp)
                    } else {
                        None
                    },
                    file_hash: Some(rec.file_hash.clone()),
                    created_time: crate::stamp::now_rfc3339(),
                    modified_time: crate::stamp::now_rfc3339(),
                    is_valid: true,
                };
                (rec.file_name.clone(), fresh)
            };
            let info = match self.file_info_cache.get(&name) {
                Some(cached) => {
                    if cached.file_size == fresh.file_size && cached.packet_count
                        == fresh.packet_count && cached.start_timestamp == fresh.start_timestamp
                        && cached.end_timestamp == fresh.end_timestamp && cached.is_valid
                        && hash_eq(&cached.file_hash, &fresh.file_hash) && cached.file_name
                        == fresh.file_name {
                        cached
                    } else {
                        self.file_info_cache.insert(name.as_str(), clone_info(&fresh));
                        fresh
                    }
                },
                None => {
                    self.file_info_cache.insert(name.as_str(), clone_info(&fresh));
                    fresh
                },
            };
            out.push(info);
            i = i + 1;
        }
        Ok(out)
    }

    /// The per-file cache's counters.
    pub fn get_cache_stats(&self) -> (r: CacheStats)
        ensures
            r.capacity == self.cache_capacity(),
    {
        self.file_info_cache.get_cache_stats()
    }

    /// The capacity of the per-file cache.
    pub closed spec fn cache_capacity(self) -> usize {
        self.file_info_cache.capacity_spec()
    }

    /// The dataset name as a sequence of characters.
    pub closed spec fn name_spec(self) -> Seq<char> {
        self.dataset_name@
    }

    /// The per-file cache stays within its capacity.
    pub closed spec fn cache_ok(self) -> bool {
        self.file_info_cache.inv()
    }

    /// Empties the per-file cache; results of later queries are
    /// unaffected.
    pub fn clear_cache(&mut self) -> (r: PcapResult<()>)
        requires
            old(self).inv(),
        ensures
            final(self).inv(),
            r is Ok,
            final(self).files_spec() == old(self).files_spec(),
            final(self).position() == old(self).position(),
            final(self).index_of() == old(self).index_of(),
            final(self).initialized() == old(self).initialized(),
    {
        self.file_info_cache.clear();
        Ok(())
    }


}

} // verus!
