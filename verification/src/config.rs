//! Reader and writer configuration, with the validity rules the public
//! constructors enforce.

use vstd::prelude::*;

use crate::types::{DEFAULT_MAX_PACKETS_PER_FILE, MAX_BUFFER_SIZE};
use vstd::string::StringExecFns;

verus! {

/// The default file-name pattern: the first packet's UTC wall-clock time
/// down to 100-nanosecond units.
pub open spec fn default_name_format() -> Seq<char> {
    "yyMMdd_HHmmss_fffffff"@
}

/// Reader options.
#[derive(Debug, Clone, PartialEq, Eq, Structural)]
pub struct ReaderConfig {
    /// I/O buffer size in bytes; at least 1024, at most 50 MiB.
    pub buffer_size: usize,
    /// Capacity of the per-file info cache; positive.
    pub index_cache_size: usize,
}

impl ReaderConfig {
    /// The rules `validate` enforces.
    pub open spec fn valid(self) -> bool {
        &&& 1024 <= self.buffer_size <= MAX_BUFFER_SIZE
        &&& self.index_cache_size > 0
    }

    /// Checks the configuration; returns a description of the first rule
    /// broken, if any.
    pub fn validate(&self) -> (r: Result<(), String>)
        ensures
            r is Ok <==> self.valid(),
    {
        if self.buffer_size < 1024 {
            return Err(String::from_str("buffer size must be at least 1024 bytes"));
        }
        if self.buffer_size > MAX_BUFFER_SIZE {
            return Err(String::from_str("buffer size must not exceed 50 MiB"));
        }
        if self.index_cache_size == 0 {
            return Err(String::from_str("index cache size must be positive"));
        }
        Ok(())
    }

    /// Restores the default configuration.
    pub fn reset(&mut self)
        ensures
            *final(self) == Self::default_spec(),
    {
        *self = Self::default();
    }

    /// The default configuration as a value.
    pub open spec fn default_spec() -> ReaderConfig {
        ReaderConfig { buffer_size: 8192, index_cache_size: 1000 }
    }
}

impl Default for ReaderConfig {
    /// 8 KiB buffers and a 1000-entry cache.
    fn default() -> (r: Self)
        ensures
            r == Self::default_spec(),
            r.valid(),
    {
        ReaderConfig { buffer_size: 8192, index_cache_size: 1000 }
    }
}

/// Writer options: the reader options plus the roll-over policy.
#[derive(Debug, Clone)]
pub struct WriterConfig {
    /// I/O buffer size in bytes; at least 1024, at most 50 MiB.
    pub buffer_size: usize,
    /// Capacity of the per-file info cache; positive.
    pub index_cache_size: usize,
    /// Close the active file once it holds this many packets; positive.
    pub max_packets_per_file: usize,
    /// Extra roll-over trigger on predicted file size; 0 disables it,
    /// otherwise at least 1024.
    pub max_file_size_bytes: u64,
    /// Pattern applied to the first packet's timestamp to name a file;
    /// non-empty.
    pub file_name_format: String,
    /// Flush after every write.
    pub auto_flush: bool,
}

impl WriterConfig {
    /// The rules `validate` enforces.
    pub open spec fn valid(self) -> bool {
        &&& 1024 <= self.buffer_size <= MAX_BUFFER_SIZE
        &&& self.index_cache_size > 0
        &&& self.max_packets_per_file > 0
        &&& (self.max_file_size_bytes == 0 || self.max_file_size_bytes >= 1024)
        &&& self.file_name_format@.len() > 0
    }

    /// Checks the configuration; returns a description of the first rule
    /// broken, if any.
    pub fn validate(&self) -> (r: Result<(), String>)
        ensures
            r is Ok <==> self.valid(),
    {
        if self.buffer_size < 1024 {
            return Err(String::from_str("buffer size must be at least 1024 bytes"));
        }
        if self.buffer_size > MAX_BUFFER_SIZE {
            return Err(String::from_str("buffer size must not exceed 50 MiB"));
        }
        if self.index_cache_size == 0 {
            return Err(String::from_str("index cache size must be positive"));
        }
        if self.max_packets_per_file == 0 {
            return Err(String::from_str("max packets per file must be positive"));
        }
        if self.max_file_size_bytes > 0 && self.max_file_size_bytes < 1024 {
            return Err(String::from_str("file size limit must be at least 1024 bytes"));
        }
        if self.file_name_format.as_str().is_empty() {
            return Err(String::from_str("file name format must not be empty"));
        }
        Ok(())
    }

    /// Restores the default configuration.
    pub fn reset(&mut self)
        ensures
            final(self).buffer_size == 8192,
            final(self).index_cache_size == 1000,
            final(self).max_packets_per_file == DEFAULT_MAX_PACKETS_PER_FILE,
            final(self).max_file_size_bytes == 0,
            final(self).file_name_format@ == default_name_format(),
            final(self).auto_flush,
    {
        *self = Self::default();
    }
}

impl Default for WriterConfig {
    /// 8 KiB buffers, a 1000-entry cache, 500 packets per file, no size
    /// limit, the default name pattern, and flushing after every write.
    fn default() -> (r: Self)
        ensures
            r.buffer_size == 8192,
            r.index_cache_size == 1000,
            r.max_packets_per_file == DEFAULT_MAX_PACKETS_PER_FILE,
            r.max_file_size_bytes == 0,
            r.file_name_format@ == default_name_format(),
            r.auto_flush,
            r.valid(),
    {
        proof {
            reveal_strlit("yyMMdd_HHmmss_fffffff");
        }
        WriterConfig {
            buffer_size: 8192,
            index_cache_size: 1000,
            max_packets_per_file: DEFAULT_MAX_PACKETS_PER_FILE,
            max_file_size_bytes: 0,
            file_name_format: String::from_str("yyMMdd_HHmmss_fffffff"),
            auto_flush: true,
        }
    }
}

} // verus!
