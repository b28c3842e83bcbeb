//! Writes one container file into an in-memory buffer: the 24-byte header,
//! then one frame per packet.  Handing the finished buffer to storage is the
//! embedding program's task.

use vstd::prelude::*;

use crate::codec::{
    frame_bytes_of, header_bytes_of, new_header, DataPacketHeader, PcapFileHeader,
    FILE_HEADER_SIZE,
};
use crate::config::WriterConfig;
use crate::packet::DataPacket;
use vstd::string::StringExecFns;

verus! {

/// Builds the byte image of a single container file.
pub struct PcapFileWriter {
    buffer: Vec<u8>,
    is_open: bool,
    packet_count: u64,
    total_size: u64,
    configuration: WriterConfig,
}

impl PcapFileWriter {
    /// Every byte written so far, header included.
    pub closed spec fn contents(self) -> Seq<u8> {
        self.buffer@
    }

    /// Whether a file is being built.
    pub closed spec fn opened(self) -> bool {
        self.is_open
    }

    /// Packets framed so far.
    pub closed spec fn count(self) -> u64 {
        self.packet_count
    }

    /// Internal consistency: the cached size mirrors the buffer, and the
    /// packet count cannot outgrow it.
    pub closed spec fn inv(self) -> bool {
        &&& self.total_size == self.buffer@.len()
        &&& 16 * self.packet_count <= self.buffer@.len()
        &&& (self.is_open ==> self.buffer@.len() >= FILE_HEADER_SIZE)
    }

    /// A writer with no file under construction.
    pub fn new(configuration: WriterConfig) -> (r: PcapFileWriter)
        ensures
            r.inv(),
            !r.opened(),
    {
        PcapFileWriter {
            buffer: Vec::new(),
            is_open: false,
            packet_count: 0,
            total_size: 0,
            configuration,
        }
    }

    /// Starts a fresh container file: an empty buffer holding only the
    /// 24-byte file header with the given snap length.
    pub fn create(&mut self, snaplen: u32)
        ensures
            final(self).inv(),
            final(self).opened(),
            final(self).contents() == header_bytes_of(new_header(snaplen)),
            final(self).count() == 0,
    {
        let header = PcapFileHeader::new(snaplen);
        let buffer = header.to_bytes();
        let n = buffer.len();
        self.buffer = buffer;
        self.is_open = true;
        self.packet_count = 0;
        self.total_size = n as u64;
    }

    /// Appends one framed packet and returns the byte offset at which its
    /// frame begins — the offset the index records.  Fails exactly when no
    /// file is under construction.
    pub fn write_packet(&mut self, packet: &DataPacket) -> (r: Result<u64, String>)
        requires
            old(self).inv(),
            packet@.wf(),
        ensures
            final(self).inv(),
            r is Ok <==> old(self).opened(),
            r matches Ok(offset) ==> {
                &&& offset == old(self).contents().len()
                &&& final(self).contents() == old(self).contents() + frame_bytes_of(packet@)
                &&& final(self).count() == old(self).count() + 1
                &&& final(self).opened()
            },
            r is Err ==> *final(self) == *old(self),
    {
        if !self.is_open {
            return Err(String::from_str("file not open"));
        }
        let offset = self.total_size;
        let header = DataPacketHeader {
            timestamp_seconds: (packet.timestamp_ns / 1_000_000_000) as u32,
            timestamp_nanoseconds: (packet.timestamp_ns % 1_000_000_000) as u32,
            packet_length: packet.data.len() as u32,
            checksum: packet.checksum,
        };
        let mut frame = header.to_bytes();
        frame.extend_from_slice(packet.data.as_slice());
        proof {
            assert(frame@ =~= frame_bytes_of(packet@));
        }
        self.buffer.append(&mut frame);
        let n = self.buffer.len();
        self.packet_count = self.packet_count + 1;
        self.total_size = n as u64;
        Ok(offset)
    }

    /// Packets framed into the current buffer.
    pub fn packet_count(&self) -> (r: u64)
        ensures
            r == self.count(),
    {
        self.packet_count
    }

    /// Bytes written so far, header included.
    pub fn total_size(&self) -> (r: u64)
        requires
            self.inv(),
        ensures
            r == self.contents().len(),
    {
        self.total_size
    }

    /// Flushing is immediate for an in-memory buffer; the writer is left
    /// unchanged.
    pub fn flush(&mut self) -> (r: Result<(), String>)
        ensures
            r is Ok,
            *final(self) == *old(self),
    {
        Ok(())
    }

    /// Ends the current file and hands its bytes over.
    pub fn take_bytes(&mut self) -> (r: Vec<u8>)
        ensures
            final(self).inv(),
            r@ == old(self).contents(),
            !final(self).opened(),
            final(self).contents().len() == 0,
    {
        let mut out: Vec<u8> = Vec::new();
        core::mem::swap(&mut out, &mut self.buffer);
        self.is_open = false;
        self.packet_count = 0;
        self.total_size = 0;
        out
    }

    /// Discards the current file, if any.
    pub fn close(&mut self)
        ensures
            final(self).inv(),
            !final(self).opened(),
            final(self).contents().len() == 0,
    {
        self.buffer = Vec::new();
        self.is_open = false;
        self.packet_count = 0;
        self.total_size = 0;
    }
}

} // verus!
