//! Reads one container file from an in-memory buffer: validates the file
//! header on open, then decodes frames at the byte cursor.  A checksum
//! mismatch is reported, not refused: the packet comes back with its
//! `valid` flag cleared.

use vstd::prelude::*;

use crate::codec::{
    frame_header_at, frame_len_at, frame_ok_at, header_valid, le32_at, packet_at, DataPacketHeader,
    FILE_HEADER_SIZE, FRAME_HEADER_SIZE,
};
use crate::config::ReaderConfig;
use crate::digest::calculate_crc32;
use crate::error::{PcapError, PcapResult};
use crate::packet::{DataPacket, ValidatedPacket, NANOS_PER_SECOND};
use vstd::slice::{slice_subrange, slice_to_vec};
use vstd::string::StringExecFns;

verus! {

/// Decodes a single container file held in memory.
pub struct PcapFileReader {
    bytes: Vec<u8>,
    is_open: bool,
    position: u64,
    configuration: ReaderConfig,
}

impl PcapFileReader {
    /// The bytes of the open container file.
    pub closed spec fn contents(self) -> Seq<u8> {
        self.bytes@
    }

    /// Whether a file is open.
    pub closed spec fn opened(self) -> bool {
        self.is_open
    }

    /// The byte offset of the next read.
    pub closed spec fn pos(self) -> u64 {
        self.position
    }

    /// A reader with no file open.
    pub fn new(configuration: ReaderConfig) -> (r: PcapFileReader)
        ensures
            !r.opened(),
    {
        PcapFileReader { bytes: Vec::new(), is_open: false, position: 0, configuration }
    }

    /// Takes ownership of a container file's bytes.  Succeeds exactly when
    /// the buffer opens with a well-formed file header; the cursor is then
    /// placed just past that header.  A header that fails its size, magic
    /// or version check is rejected as `CorruptedHeader`.
    pub fn open(&mut self, bytes: Vec<u8>) -> (r: PcapResult<()>)
        ensures
            r is Ok <==> header_valid(bytes@),
            r is Ok ==> {
                &&& final(self).opened()
                &&& final(self).contents() == bytes@
                &&& final(self).pos() == FILE_HEADER_SIZE
            },
            r is Err ==> *final(self) == *old(self),
            r matches Err(e) ==> e is CorruptedHeader,
    {
        if bytes.len() < 24 {
            return Err(
                PcapError::CorruptedHeader(
                    String::from_str("file too small to hold a container header"),
                ),
            );
        }
        let magic = crate::codec::read_u32_at(&bytes, 0);
        let major = crate::codec::read_u16_at(&bytes, 4);
        let minor = crate::codec::read_u16_at(&bytes, 6);
        if !(magic == 0xD4C3B2A1 && major == 2 && minor == 4) {
            return Err(PcapError::CorruptedHeader(String::from_str("wrong magic or version")));
        }
        self.bytes = bytes;
        self.is_open = true;
        self.position = 24;
        Ok(())
    }

    /// Decodes the frame at the cursor and advances past it.
    ///
    /// Returns `Ok(None)` at end of file (fewer than 16 bytes remain), the
    /// decoded packet otherwise.  An out-of-range nanoseconds field fails
    /// with `TimestampParseError`; a declared payload longer than the
    /// remaining bytes fails with `PacketSizeExceedsRemainingBytes` before
    /// any payload is touched.  With no file open, `InvalidState`.
    pub fn read_packet(&mut self) -> (r: PcapResult<Option<ValidatedPacket>>)
        ensures
            final(self).contents() == old(self).contents(),
            final(self).opened() == old(self).opened(),
            !old(self).opened() ==> (r matches Err(e) && e is InvalidState && *final(self)
                == *old(self)),
            old(self).opened() ==> {
                let b = old(self).contents();
                let pos = old(self).pos() as int;
                &&& (!frame_header_at(b, pos) ==> (r matches Ok(p) && p is None && *final(self)
                    == *old(self)))
                &&& (frame_header_at(b, pos) && le32_at(b, pos + 4) >= NANOS_PER_SECOND ==> {
                    &&& r matches Err(e)
                    &&& e matches PcapError::TimestampParseError { position, .. } && position
                        == old(self).pos()
                    &&& *final(self) == *old(self)
                })
                &&& (frame_header_at(b, pos) && le32_at(b, pos + 4) < NANOS_PER_SECOND
                    && !frame_ok_at(b, pos) ==> {
                    &&& r matches Err(e)
                    &&& e matches PcapError::PacketSizeExceedsRemainingBytes {
                        expected,
                        remaining,
                        position,
                    } && expected == le32_at(b, pos + 8) && remaining == b.len() - pos
                        - FRAME_HEADER_SIZE && position == old(self).pos() + FRAME_HEADER_SIZE
                    &&& *final(self) == *old(self)
                })
                &&& (frame_ok_at(b, pos) ==> {
                    &&& r matches Ok(p)
                    &&& p matches Some(vp)
                    &&& vp.packet@ == packet_at(b, pos)
                    &&& vp.wf()
                    &&& final(self).pos() == pos + FRAME_HEADER_SIZE + frame_len_at(b, pos)
                })
            },
    {
        if !self.is_open {
            return Err(PcapError::InvalidState(String::from_str("file not open")));
        }
        let len = self.bytes.len();
        if self.position >= len as u64 || len as u64 - self.position < 16 {
            return Ok(None);
        }
        let pos = self.position as usize;
        let header = match DataPacketHeader::from_bytes_at(&self.bytes, pos) {
            Ok(h) => h,
            Err(m) => {
                return Err(PcapError::TimestampParseError { message: m, position: self.position });
            },
        };
        let remaining_after = len as u64 - self.position - 16;
        if header.packet_length as u64 > remaining_after {
            return Err(
                PcapError::PacketSizeExceedsRemainingBytes {
                    expected: header.packet_length,
                    remaining: remaining_after,
                    position: self.position + 16,
                },
            );
        }
        let start = pos + 16;
        let data = slice_to_vec(
            slice_subrange(self.bytes.as_slice(), start, start + header.packet_length as usize),
        );
        let crc = calculate_crc32(&data);
        let valid = crc == header.checksum;
        let timestamp_ns = (header.timestamp_seconds as u64) * 1_000_000_000 + (
        header.timestamp_nanoseconds as u64);
        let packet = DataPacket { timestamp_ns, data, checksum: header.checksum };
        self.position = self.position + 16 + header.packet_length as u64;
        Ok(Some(ValidatedPacket { packet, valid }))
    }

    /// Repositions the byte cursor, unconditionally.  Fails only when no
    /// file is open.
    pub fn seek_to(&mut self, offset: u64) -> (r: PcapResult<()>)
        ensures
            final(self).contents() == old(self).contents(),
            final(self).opened() == old(self).opened(),
            r is Ok <==> old(self).opened(),
            r is Ok ==> final(self).pos() == offset,
            r matches Err(e) ==> e is InvalidState && *final(self) == *old(self),
    {
        if !self.is_open {
            return Err(PcapError::InvalidState(String::from_str("file not open")));
        }
        self.position = offset;
        Ok(())
    }

    /// Seeks to `offset` and decodes the frame there.  End of file is an
    /// error here: a frame is owed at the given offset.
    pub fn read_packet_at(&mut self, offset: u64) -> (r: PcapResult<ValidatedPacket>)
        ensures
            final(self).contents() == old(self).contents(),
            final(self).opened() == old(self).opened(),
            r matches Ok(vp) <==> old(self).opened() && frame_ok_at(
                old(self).contents(),
                offset as int,
            ),
            r matches Ok(vp) ==> {
                &&& vp.packet@ == packet_at(old(self).contents(), offset as int)
                &&& vp.wf()
                &&& final(self).pos() == offset + FRAME_HEADER_SIZE + frame_len_at(
                    old(self).contents(),
                    offset as int,
                )
            },
    {
        self.seek_to(offset)?;
        match self.read_packet()? {
            Some(packet) => Ok(packet),
            None => Err(PcapError::InvalidState(String::from_str("no packet at this offset"))),
        }
    }

    /// Closes the file and discards its bytes.
    pub fn close(&mut self)
        ensures
            !final(self).opened(),
    {
        self.bytes = Vec::new();
        self.is_open = false;
        self.position = 0;
    }
}

} // verus!
