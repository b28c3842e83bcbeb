//! The in-memory packet: a nanosecond timestamp, opaque payload bytes, and
//! the CRC32 checksum carried alongside them.

use vstd::prelude::*;

use crate::digest::{calculate_crc32, crc32_spec};
use crate::error::{PcapError, PcapResult};
use vstd::string::StringExecFns;

verus! {

/// Nanoseconds per second; frame timestamps are split at this radix.
pub const NANOS_PER_SECOND: u64 = 1_000_000_000;

/// The largest representable timestamp: the seconds part must fit in 32
/// bits, the nanoseconds part stays below one second.
pub const MAX_TIMESTAMP_NS: u64 = 0xFFFFFFFF * 1_000_000_000 + 999_999_999;

/// The mathematical image of a packet: what the contracts speak about.
pub struct PacketModel {
    pub timestamp_ns: u64,
    pub data: Seq<u8>,
    pub checksum: u32,
}

impl PacketModel {
    /// A packet that can be framed: the payload length fits the 32-bit
    /// length field and the timestamp splits into 32-bit seconds.
    pub open spec fn wf(self) -> bool {
        &&& self.data.len() <= u32::MAX
        &&& self.timestamp_ns <= MAX_TIMESTAMP_NS
    }

    /// The seconds part of the timestamp, as stored on the wire.
    pub open spec fn seconds(self) -> u32 {
        (self.timestamp_ns / NANOS_PER_SECOND) as u32
    }

    /// The nanoseconds-within-second part of the timestamp.
    pub open spec fn nanoseconds(self) -> u32 {
        (self.timestamp_ns % NANOS_PER_SECOND) as u32
    }
}

/// A timestamped packet of opaque bytes.  `checksum` is the CRC32 recorded
/// for the payload; on a freshly built packet it equals the payload's CRC32,
/// while a packet decoded from a damaged file may carry a mismatched value.
#[derive(Debug, Clone)]
pub struct DataPacket {
    pub timestamp_ns: u64,
    pub data: Vec<u8>,
    pub checksum: u32,
}

impl View for DataPacket {
    type V = PacketModel;

    open spec fn view(&self) -> PacketModel {
        PacketModel { timestamp_ns: self.timestamp_ns, data: self.data@, checksum: self.checksum }
    }
}

impl DataPacket {
    /// Builds a packet from split timestamp fields, computing the checksum.
    /// Rejects a nanoseconds field of a full second or more, and a payload
    /// too long for the 32-bit length field.
    pub fn from_timestamp(seconds: u32, nanoseconds: u32, data: Vec<u8>) -> (r: PcapResult<
        DataPacket,
    >)
        ensures
            r matches Ok(p) <==> nanoseconds < NANOS_PER_SECOND && data@.len() <= u32::MAX,
            r matches Ok(p) ==> {
                &&& p@.timestamp_ns == seconds * NANOS_PER_SECOND + nanoseconds
                &&& p@.data == data@
                &&& p@.checksum == crc32_spec(data@)
                &&& p@.wf()
            },
            r matches Err(e) ==> e is InvalidArgument,
    {
        if nanoseconds >= 1_000_000_000 {
            return Err(
                PcapError::InvalidArgument(
                    String::from_str("nanoseconds field must stay below one second"),
                ),
            );
        }
        if data.len() > u32::MAX as usize {
            return Err(
                PcapError::InvalidArgument(
                    String::from_str("payload too long for the 32-bit length field"),
                ),
            );
        }
        let timestamp_ns = (seconds as u64) * 1_000_000_000 + (nanoseconds as u64);
        let checksum = calculate_crc32(&data);
        Ok(DataPacket { timestamp_ns, data, checksum })
    }

    /// Builds a packet from a combined nanosecond timestamp, computing the
    /// checksum.  Rejects timestamps whose seconds part overflows 32 bits,
    /// and payloads too long for the 32-bit length field.
    pub fn from_timestamp_ns(timestamp_ns: u64, data: Vec<u8>) -> (r: PcapResult<DataPacket>)
        ensures
            r matches Ok(p) <==> timestamp_ns <= MAX_TIMESTAMP_NS && data@.len() <= u32::MAX,
            r matches Ok(p) ==> {
                &&& p@.timestamp_ns == timestamp_ns
                &&& p@.data == data@
                &&& p@.checksum == crc32_spec(data@)
                &&& p@.wf()
            },
            r matches Err(e) ==> e is InvalidArgument,
    {
        if timestamp_ns > MAX_TIMESTAMP_NS {
            return Err(
                PcapError::InvalidArgument(
                    String::from_str("timestamp seconds part overflows 32 bits"),
                ),
            );
        }
        if data.len() > u32::MAX as usize {
            return Err(
                PcapError::InvalidArgument(
                    String::from_str("payload too long for the 32-bit length field"),
                ),
            );
        }
        let checksum = calculate_crc32(&data);
        Ok(DataPacket { timestamp_ns, data, checksum })
    }

    /// The packet's timestamp in nanoseconds since the Unix epoch.
    pub fn get_timestamp_ns(&self) -> (r: u64)
        ensures
            r == self@.timestamp_ns,
    {
        self.timestamp_ns
    }

    /// The payload length in bytes.
    pub fn packet_length(&self) -> (r: usize)
        ensures
            r == self@.data.len(),
    {
        self.data.len()
    }

    /// The recorded CRC32 checksum.
    pub fn checksum(&self) -> (r: u32)
        ensures
            r == self@.checksum,
    {
        self.checksum
    }
}

/// A packet decoded from a container file, together with the outcome of the
/// checksum verification: `valid` holds exactly when the recorded checksum
/// matches the payload's CRC32.
#[derive(Debug, Clone)]
pub struct ValidatedPacket {
    pub packet: DataPacket,
    pub valid: bool,
}

impl ValidatedPacket {
    /// The flag agrees with a fresh CRC32 of the payload.
    pub open spec fn wf(self) -> bool {
        self.valid == (self.packet@.checksum == crc32_spec(self.packet@.data))
    }

    /// Wraps a decoded packet with its verification outcome.
    pub fn new(packet: DataPacket, valid: bool) -> (r: ValidatedPacket)
        ensures
            r.packet == packet,
            r.valid == valid,
    {
        ValidatedPacket { packet, valid }
    }
}

} // verus!
