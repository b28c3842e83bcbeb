//! Common constants and the error-code enumeration shared by every layer.

use vstd::prelude::*;

verus! {

/// File identification magic, first four bytes of every container file.
pub const PCAP_MAGIC_NUMBER: u32 = 0xD4C3B2A1;

/// Major format version.
pub const MAJOR_VERSION: u16 = 2;

/// Minor format version; 4 marks nanosecond-resolution timestamps.
pub const MINOR_VERSION: u16 = 4;

/// Default cap on the number of packets per container file.
pub const DEFAULT_MAX_PACKETS_PER_FILE: usize = 500;

/// Largest accepted I/O buffer size in bytes (50 MiB).
pub const MAX_BUFFER_SIZE: usize = 50 * 1024 * 1024;

/// Coarse classification of failures, mirroring the variants of `PcapError`.
#[derive(Debug, Clone, Copy, PartialEq, Eq, Structural)]
pub enum PcapErrorCode {
    Unknown,
    FileNotFound,
    DirectoryNotFound,
    InvalidFormat,
    CorruptedHeader,
    CorruptedData,
    ChecksumMismatch,
    InvalidPacketSize,
    PacketSizeExceedsRemainingBytes,
    TimestampParseError,
    InvalidArgument,
    InvalidState,
}

/// The short description attached to each error class.
pub open spec fn code_message(c: PcapErrorCode) -> Seq<char> {
    match c {
        PcapErrorCode::Unknown => "unknown error"@,
        PcapErrorCode::FileNotFound => "file not found"@,
        PcapErrorCode::DirectoryNotFound => "directory not found"@,
        PcapErrorCode::InvalidFormat => "invalid file format"@,
        PcapErrorCode::CorruptedHeader => "corrupted file header"@,
        PcapErrorCode::CorruptedData => "corrupted packet data"@,
        PcapErrorCode::ChecksumMismatch => "checksum mismatch"@,
        PcapErrorCode::InvalidPacketSize => "invalid packet size"@,
        PcapErrorCode::PacketSizeExceedsRemainingBytes => {
            "packet length exceeds remaining bytes"@
        },
        PcapErrorCode::TimestampParseError => "timestamp parse error"@,
        PcapErrorCode::InvalidArgument => "invalid argument"@,
        PcapErrorCode::InvalidState => "invalid state"@,
    }
}

impl PcapErrorCode {
    /// A short human-readable description of the error class.
    pub fn message(&self) -> (r: &'static str)
        ensures
            r@ == code_message(*self),
    {
        match self {
            PcapErrorCode::Unknown => "unknown error",
            PcapErrorCode::FileNotFound => "file not found",
            PcapErrorCode::DirectoryNotFound => "directory not found",
            PcapErrorCode::InvalidFormat => "invalid file format",
            PcapErrorCode::CorruptedHeader => "corrupted file header",
            PcapErrorCode::CorruptedData => "corrupted packet data",
            PcapErrorCode::ChecksumMismatch => "checksum mismatch",
            PcapErrorCode::InvalidPacketSize => "invalid packet size",
            PcapErrorCode::PacketSizeExceedsRemainingBytes => {
                "packet length exceeds remaining bytes"
            },
            PcapErrorCode::TimestampParseError => "timestamp parse error",
            PcapErrorCode::InvalidArgument => "invalid argument",
            PcapErrorCode::InvalidState => "invalid state",
        }
    }
}

} // verus!
