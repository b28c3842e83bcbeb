//! The dataset writer: appends packets, rolls the active container file
//! over by packet count or predicted size, and finalizes by building the
//! sidecar index over the finished files.

use vstd::prelude::*;

use crate::codec::{all_wf, container_bytes, header_valid, new_header};
use crate::config::WriterConfig;
use crate::dataset::{dataset_clean, dataset_packets, file_tail_clean, ContainerFile};
use crate::error::{PcapError, PcapResult};
use crate::file_writer::PcapFileWriter;
use crate::index::PidxIndex;
use crate::manager::{index_wf, IndexManager};
use crate::packet::{DataPacket, PacketModel};
use crate::stamp::{container_file_name, container_name_of};
use vstd::string::StringExecFns;

verus! {

/// Writes a packet stream into a growing list of container files.
pub struct PcapWriter {
    dataset_name: String,
    configuration: WriterConfig,
    file_writer: PcapFileWriter,
    files: Vec<ContainerFile>,
    current_name: Option<String>,
    index_manager: IndexManager,
    is_initialized: bool,
    is_finalized: bool,
    written: Ghost<Seq<PacketModel>>,
    current: Ghost<Seq<PacketModel>>,
}

impl PcapWriter {
    /// Every packet accepted so far, in order.
    pub closed spec fn written(self) -> Seq<PacketModel> {
        self.written@
    }

    /// The packets of the file under construction.
    pub closed spec fn current_packets(self) -> Seq<PacketModel> {
        self.current@
    }

    /// The finished container files.
    pub closed spec fn files_spec(self) -> Seq<ContainerFile> {
        self.files@
    }

    /// Whether a container file is under construction.
    pub closed spec fn active(self) -> bool {
        self.file_writer.opened()
    }

    /// The name of the file under construction.
    pub closed spec fn active_name(self) -> Seq<char> {
        self.current_name->0@
    }

    /// Packets in the file under construction.
    pub closed spec fn active_count(self) -> u64 {
        self.file_writer.count()
    }

    /// Bytes in the file under construction.
    pub closed spec fn active_size(self) -> int {
        self.file_writer.contents().len() as int
    }

    pub closed spec fn initialized(self) -> bool {
        self.is_initialized
    }

    pub closed spec fn finalized(self) -> bool {
        self.is_finalized
    }

    /// The index built at finalize.
    pub closed spec fn index_of(self) -> Option<PidxIndex> {
        self.index_manager.index_spec()
    }

    /// The writer's configuration.
    pub closed spec fn config_spec(self) -> WriterConfig {
        self.configuration
    }

    /// The dataset name as a sequence of characters.
    pub closed spec fn name_spec(self) -> Seq<char> {
        self.dataset_name@
    }

    /// Internal consistency: the buffered file holds exactly the frames of
    /// the current packets after a fresh header, the finished files hold
    /// the earlier packets, and every accepted packet is well formed.
    pub closed spec fn inv(self) -> bool {
        &&& self.file_writer.inv()
        &&& self.configuration.valid()
        &&& all_wf(self.written@)
        &&& self.written@ == dataset_packets(self.files@) + self.current@
        &&& (self.current_name is Some <==> self.file_writer.opened())
        &&& (self.file_writer.opened() ==> {
            &&& self.file_writer.contents() == container_bytes(new_header(0), self.current@)
            &&& self.file_writer.count() == self.current@.len()
        })
        &&& (!self.file_writer.opened() ==> self.current@.len() == 0)
        &&& forall|i: int|
            0 <= i < self.files@.len() ==> header_valid((#[trigger] self.files@[i]).bytes@)
        &&& forall|i: int| 0 <= i < self.files@.len() ==> file_tail_clean(#[trigger] self.files@[i])
        &&& (!self.is_initialized ==> !self.file_writer.opened() && self.written@.len() == 0
            && self.files@.len() == 0)
        &&& (self.is_finalized ==> !self.file_writer.opened() && self.is_initialized)
        &&& (self.is_finalized ==> (self.index_manager.index_spec() matches Some(idx) && index_wf(
            idx,
            self.files@,
        )))
    }

    /// A writer for a named dataset with the default configuration.
    pub fn new(dataset_name: &str) -> (r: PcapResult<PcapWriter>)
        ensures
            r matches Ok(w) ==> {
                &&& w.inv()
                &&& !w.initialized()
                &&& !w.finalized()
                &&& w.written().len() == 0
                &&& w.name_spec() == dataset_name@
            },
            r is Ok,
    {
        Self::new_with_config(dataset_name, WriterConfig::default())
    }

    /// A writer for a named dataset.  Fails exactly when the configuration
    /// breaks a validity rule.
    pub fn new_with_config(dataset_name: &str, configuration: WriterConfig) -> (r: PcapResult<
        PcapWriter,
    >)
        ensures
            r is Ok <==> configuration.valid(),
            r matches Ok(w) ==> {
                &&& w.inv()
                &&& !w.initialized()
                &&& !w.finalized()
                &&& w.written().len() == 0
                &&& w.config_spec() == configuration
                &&& w.name_spec() == dataset_name@
            },
            r matches Err(e) ==> e is InvalidArgument,
    {
        if let Err(m) = configuration.validate() {
            return Err(PcapError::InvalidArgument(m));
        }
        let fw = PcapFileWriter::new(configuration.clone());
        Ok(
            PcapWriter {
                dataset_name: String::from_str(dataset_name),
                configuration,
                file_writer: fw,
                files: Vec::new(),
                current_name: None,
                index_manager: IndexManager::new(),
                is_initialized: false,
                is_finalized: false,
                written: Ghost(Seq::empty()),
                current: Ghost(Seq::empty()),
            },
        )
    }

    /// The dataset's name.
    pub fn dataset_name(&self) -> (r: &str)
        ensures
            r@ == self.name_spec(),
    {
        self.dataset_name.as_str()
    }

    /// Makes the writer ready to accept packets.  Fails exactly when the
    /// writer was already finalized.
    pub fn initialize(&mut self) -> (r: PcapResult<()>)
        requires
            old(self).inv(),
        ensures
            final(self).inv(),
            r is Ok <==> !old(self).finalized(),
            r is Ok ==> {
                &&& final(self).initialized()
                &&& !final(self).finalized()
                &&& final(self).written() == old(self).written()
                &&& final(self).files_spec() == old(self).files_spec()
            },
            r is Err ==> *final(self) == *old(self),
    {
        if self.is_finalized {
            return Err(PcapError::InvalidState(String::from_str("writer already finalized")));
        }
        self.is_initialized = true;
        Ok(())
    }

    /// The active file must roll over before this packet: it is full, or a
    /// size limit is set and the frame would push the file past it.
    pub open spec fn rolls_before(self, p: PacketModel) -> bool {
        self.active() && (self.active_count() >= self.config_spec().max_packets_per_file
            || (self.config_spec().max_file_size_bytes > 0 && self.active_size() + 16 + p.data.len()
            > self.config_spec().max_file_size_bytes))
    }

    /// Appends one packet.
    ///
    /// The first packet opens a container file named for its timestamp;
    /// when the roll-over rule fires, the active file is finished and a
    /// new one is opened, again named for the incoming packet.  Fails
    /// exactly when the writer is not initialized or already finalized.
    pub fn write_packet(&mut self, packet: &DataPacket) -> (r: PcapResult<()>)
        requires
            old(self).inv(),
            packet@.wf(),
        ensures
            final(self).inv(),
            r is Ok <==> old(self).initialized() && !old(self).finalized(),
            r is Err ==> (*final(self) == *old(self) && (r matches Err(e) && e is InvalidState)),
            r is Ok ==> {
                &&& final(self).written() == old(self).written().push(packet@)
                &&& final(self).initialized()
                &&& !final(self).finalized()
                &&& (!old(self).active() ==> {
                    &&& final(self).files_spec() == old(self).files_spec()
                    &&& final(self).current_packets() == seq![packet@]
                    &&& final(self).active_name() == container_name_of(packet@.timestamp_ns)
                })
                &&& (old(self).rolls_before(packet@) ==> {
                    &&& final(self).files_spec().len() == old(self).files_spec().len() + 1
                    &&& final(self).files_spec() == old(self).files_spec().push(
                        final(self).files_spec().last(),
                    )
                    &&& final(self).files_spec().last().name@ == old(self).active_name()
                    &&& final(self).files_spec().last().bytes@ == container_bytes(
                        new_header(0),
                        old(self).current_packets(),
                    )
                    &&& final(self).current_packets() == seq![packet@]
                    &&& final(self).active_name() == container_name_of(packet@.timestamp_ns)
                })
                &&& (old(self).active() && !old(self).rolls_before(packet@) ==> {
                    &&& final(self).files_spec() == old(self).files_spec()
                    &&& final(self).current_packets() == old(self).current_packets().push(
                        packet@,
                    )
                })
                &&& final(self).active()
            },
    {
        if !self.is_initialized {
            return Err(PcapError::InvalidState(String::from_str("writer not initialized")));
        }
        if self.is_finalized {
            return Err(PcapError::InvalidState(String::from_str("writer already finalized")));
        }
        let must_roll: bool = if self.current_name.is_some() {
            let count_full = self.file_writer.packet_count()
                >= self.configuration.max_packets_per_file as u64;
            let size_full = self.configuration.max_file_size_bytes > 0
                && (self.file_writer.total_size() as u128) + 16 + (packet.data.len() as u128) > (
            self.configuration.max_file_size_bytes as u128);
            count_full || size_full
        } else {
            false
        };
        if must_roll {
            self.finish_active_file();
        }
        if self.current_name.is_none() {
            let name = container_file_name(packet.get_timestamp_ns());
            self.current_name = Some(name);
            self.file_writer.create(0);
            self.current = Ghost(Seq::empty());
            proof {
                assert(self.file_writer.contents() =~= container_bytes(
                    new_header(0),
                    Seq::empty(),
                ));
            }
        }
        let ghost cur_before = self.current@;
        let ghost written_before = self.written@;
        match self.file_writer.write_packet(packet) {
            Ok(_) => {},
            Err(_) => {
                return Err(PcapError::InvalidState(String::from_str("no active file")));
            },
        }
        self.current = Ghost(cur_before.push(packet@));
        self.written = Ghost(written_before.push(packet@));
        proof {
            crate::codec::lemma_frames_bytes_push(cur_before, packet@);
            assert(self.file_writer.contents() =~= container_bytes(new_header(0), self.current@));
            assert(self.written@ =~= dataset_packets(self.files@) + self.current@);
            assert(all_wf(self.written@)) by {
                assert forall|i: int| 0 <= i < self.written@.len() implies (
                #[trigger] self.written@[i]).wf() by {
                    if i < self.written@.len() - 1 {
                        assert(written_before[i].wf());
                    }
                }
            }
        }
        Ok(())
    }

    /// Moves the active file, if any, into the finished list.
    fn finish_active_file(&mut self)
        requires
            old(self).inv(),
            old(self).initialized(),
            !old(self).finalized(),
        ensures
            final(self).inv(),
            !final(self).active(),
            final(self).written() == old(self).written(),
            final(self).current_packets().len() == 0,
            old(self).active() ==> {
                &&& final(self).files_spec() == old(self).files_spec().push(
                    final(self).files_spec().last(),
                )
                &&& final(self).files_spec().last().name@ == old(self).active_name()
                &&& final(self).files_spec().last().bytes@ == container_bytes(
                    new_header(0),
                    old(self).current_packets(),
                )
            },
            !old(self).active() ==> final(self).files_spec() == old(self).files_spec(),
            final(self).initialized(),
            !final(self).finalized(),
            final(self).index_of() == old(self).index_of(),
    {
        let name = match self.current_name.take() {
            Some(n) => n,
            None => {
                return ;
            },
        };
        let bytes = self.file_writer.take_bytes();
        let finished = ContainerFile { name, bytes };
        proof {
            assert(all_wf(self.current@)) by {
                assert forall|i: int| 0 <= i < self.current@.len() implies (
                #[trigger] self.current@[i]).wf() by {
                    let n = dataset_packets(self.files@).len();
                    assert(self.written@[n + i] == self.current@[i]);
                    assert(self.written@[n + i].wf());
                }
            }
            crate::codec::lemma_container_round_trip(new_header(0), self.current@);
            crate::dataset::lemma_dataset_packets_push(self.files@, finished);
            assert(crate::dataset::file_packets(finished) =~= self.current@);
            assert(file_tail_clean(finished));
        }
        self.files.push(finished);
        self.current = Ghost(Seq::empty());
        proof {
            assert(self.written@ =~= dataset_packets(self.files@) + self.current@);
        }
    }

    /// Flushing is immediate for in-memory buffers; the writer is left
    /// unchanged.
    pub fn flush(&mut self) -> (r: PcapResult<()>)
        ensures
            r is Ok,
            *final(self) == *old(self),
    {
        Ok(())
    }

    /// Closes the active file and builds the sidecar index over the
    /// finished files.  After this the writer is terminal.  Fails exactly
    /// when the writer is not initialized, already finalized, or the
    /// packet total overflows the index counter.
    pub fn finalize(&mut self) -> (r: PcapResult<()>)
        requires
            old(self).inv(),
        ensures
            final(self).inv(),
            r is Ok <==> old(self).initialized() && !old(self).finalized() && old(
                self,
            ).written().len() <= u64::MAX,
            r is Ok ==> {
                &&& final(self).finalized()
                &&& dataset_packets(final(self).files_spec()) == old(self).written()
                &&& final(self).written() == old(self).written()
                &&& (final(self).index_of() matches Some(idx) && index_wf(
                    idx,
                    final(self).files_spec(),
                ))
                &&& dataset_clean(final(self).files_spec())
                &&& (old(self).active() ==> {
                    &&& final(self).files_spec() == old(self).files_spec().push(
                        final(self).files_spec().last(),
                    )
                    &&& final(self).files_spec().last().name@ == old(self).active_name()
                    &&& final(self).files_spec().last().bytes@ == container_bytes(
                        new_header(0),
                        old(self).current_packets(),
                    )
                })
                &&& (!old(self).active() ==> final(self).files_spec() == old(self).files_spec())
            },
    {
        if !self.is_initialized {
            return Err(PcapError::InvalidState(String::from_str("writer not initialized")));
        }
        if self.is_finalized {
            return Err(PcapError::InvalidState(String::from_str("writer already finalized")));
        }
        self.finish_active_file();
        proof {
            assert(self.written@ =~= dataset_packets(self.files@));
        }
        let r = self.index_manager.regenerate(&self.files);
        match r {
            Ok(_) => {
                self.is_finalized = true;
                proof {
                    crate::dataset::lemma_count_prefix_total(self.files@);
                }
                Ok(())
            },
            Err(e) => {
                proof {
                    assert forall|i: int| 0 <= i < self.files@.len() implies header_valid(
                        (#[trigger] self.files@[i]).bytes@,
                    ) by {}
                    crate::dataset::lemma_count_prefix_total(self.files@);
                }
                Err(e)
            },
        }
    }

    /// The finished container files; complete once `finalize` succeeded.
    pub fn files(&self) -> (r: &Vec<ContainerFile>)
        ensures
            r@ == self.files_spec(),
    {
        &self.files
    }

    /// The sidecar index built at finalize.
    pub fn index(&self) -> (r: Option<&PidxIndex>)
        ensures
            r matches Some(idx) ==> self.index_of() == Some(*idx),
            r is Some <==> self.index_of() is Some,
    {
        self.index_manager.get_index()
    }
}

} // verus!
