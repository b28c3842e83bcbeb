//! An append-only, multi-file packet-capture dataset engine.
//!
//! Packets are timestamped opaque byte strings.  They are framed into
//! container files (a fixed 24-byte header followed by length-prefixed,
//! CRC32-checked frames, little-endian throughout), and a sidecar index maps
//! timestamps and global packet positions to a container file and byte
//! offset.  Every data structure here works over in-memory byte buffers, so
//! the framing, indexing and navigation logic is verified; reading and
//! writing the actual files is left to the embedding program.

pub mod cache;
pub mod codec;
pub mod config;
pub mod dataset;
pub mod digest;
pub mod error;
pub mod file_reader;
pub mod file_writer;
pub mod index;
pub mod laws;
pub mod manager;
pub mod packet;
pub mod reader;
pub mod stamp;
pub mod types;
pub mod writer;

pub use cache::CacheStats;
pub use cache::DatasetInfo;
pub use cache::FileInfo;
pub use cache::FileInfoCache;
pub use codec::DataPacketHeader;
pub use codec::PcapFileHeader;
pub use config::ReaderConfig;
pub use config::WriterConfig;
pub use dataset::ContainerFile;
pub use error::ErrorResult;
pub use error::PcapError;
pub use error::PcapResult;
pub use file_reader::PcapFileReader;
pub use file_writer::PcapFileWriter;
pub use index::DataFiles;
pub use index::PacketIndexEntry;
pub use index::PcapFileIndex;
pub use index::PidxIndex;
pub use index::TimestampPointer;
pub use manager::IndexManager;
pub use packet::DataPacket;
pub use packet::ValidatedPacket;
pub use reader::PcapReader;
pub use types::PcapErrorCode;
pub use writer::PcapWriter;
