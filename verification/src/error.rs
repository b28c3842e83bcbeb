//! The error type shared by every operation, and a flat result record for
//! callers that prefer status fields over `Result`.

use vstd::prelude::*;

use crate::types::{code_message, PcapErrorCode};
use vstd::string::StringExecFns;

verus! {

/// A failure of a dataset operation.  String payloads carry free-form
/// context; positions are byte offsets within a container file.
#[derive(Debug, Clone)]
pub enum PcapError {
    FileNotFound(String),
    DirectoryNotFound(String),
    InvalidFormat(String),
    CorruptedHeader(String),
    CorruptedData { message: String, position: u64 },
    ChecksumMismatch { expected: String, actual: String, position: u64 },
    InvalidPacketSize { message: String, position: u64 },
    PacketSizeExceedsRemainingBytes { expected: u32, remaining: u64, position: u64 },
    TimestampParseError { message: String, position: u64 },
    InvalidArgument(String),
    InvalidState(String),
    Io(String),
    Serialization(String),
    Unknown(String),
}

/// Result alias used throughout the crate.
pub type PcapResult<T> = Result<T, PcapError>;

/// The error code that classifies each `PcapError` variant.
pub open spec fn code_of(e: PcapError) -> PcapErrorCode {
    match e {
        PcapError::FileNotFound(_) => PcapErrorCode::FileNotFound,
        PcapError::DirectoryNotFound(_) => PcapErrorCode::DirectoryNotFound,
        PcapError::InvalidFormat(_) => PcapErrorCode::InvalidFormat,
        PcapError::CorruptedHeader(_) => PcapErrorCode::CorruptedHeader,
        PcapError::CorruptedData { .. } => PcapErrorCode::CorruptedData,
        PcapError::ChecksumMismatch { .. } => PcapErrorCode::ChecksumMismatch,
        PcapError::InvalidPacketSize { .. } => PcapErrorCode::InvalidPacketSize,
        PcapError::PacketSizeExceedsRemainingBytes { .. } => PcapErrorCode::CorruptedData,
        PcapError::TimestampParseError { .. } => PcapErrorCode::CorruptedData,
        PcapError::InvalidArgument(_) => PcapErrorCode::InvalidArgument,
        PcapError::InvalidState(_) => PcapErrorCode::InvalidState,
        PcapError::Io(_) => PcapErrorCode::Unknown,
        PcapError::Serialization(_) => PcapErrorCode::InvalidFormat,
        PcapError::Unknown(_) => PcapErrorCode::Unknown,
    }
}

/// The free-form context carried by an error value.
pub open spec fn detail_of(e: PcapError) -> Seq<char> {
    match e {
        PcapError::FileNotFound(m) => m@,
        PcapError::DirectoryNotFound(m) => m@,
        PcapError::InvalidFormat(m) => m@,
        PcapError::CorruptedHeader(m) => m@,
        PcapError::CorruptedData { message, .. } => message@,
        PcapError::ChecksumMismatch { expected, .. } => expected@,
        PcapError::InvalidPacketSize { message, .. } => message@,
        PcapError::PacketSizeExceedsRemainingBytes { .. } => Seq::<char>::empty(),
        PcapError::TimestampParseError { message, .. } => message@,
        PcapError::InvalidArgument(m) => m@,
        PcapError::InvalidState(m) => m@,
        PcapError::Io(m) => m@,
        PcapError::Serialization(m) => m@,
        PcapError::Unknown(m) => m@,
    }
}

impl PcapError {
    /// The error code that classifies this error.
    pub fn error_code(&self) -> (r: PcapErrorCode)
        ensures
            r == code_of(*self),
    {
        match self {
            PcapError::FileNotFound(_) => PcapErrorCode::FileNotFound,
            PcapError::DirectoryNotFound(_) => PcapErrorCode::DirectoryNotFound,
            PcapError::InvalidFormat(_) => PcapErrorCode::InvalidFormat,
            PcapError::CorruptedHeader(_) => PcapErrorCode::CorruptedHeader,
            PcapError::CorruptedData { .. } => PcapErrorCode::CorruptedData,
            PcapError::ChecksumMismatch { .. } => PcapErrorCode::ChecksumMismatch,
            PcapError::InvalidPacketSize { .. } => PcapErrorCode::InvalidPacketSize,
            PcapError::PacketSizeExceedsRemainingBytes { .. } => PcapErrorCode::CorruptedData,
            PcapError::TimestampParseError { .. } => PcapErrorCode::CorruptedData,
            PcapError::InvalidArgument(_) => PcapErrorCode::InvalidArgument,
            PcapError::InvalidState(_) => PcapErrorCode::InvalidState,
            PcapError::Io(_) => PcapErrorCode::Unknown,
            PcapError::Serialization(_) => PcapErrorCode::InvalidFormat,
            PcapError::Unknown(_) => PcapErrorCode::Unknown,
        }
    }

    /// The free-form context carried by this error.
    pub fn detail(&self) -> (r: String)
        ensures
            r@ == detail_of(*self),
    {
        match self {
            PcapError::FileNotFound(m) => m.clone(),
            PcapError::DirectoryNotFound(m) => m.clone(),
            PcapError::InvalidFormat(m) => m.clone(),
            PcapError::CorruptedHeader(m) => m.clone(),
            PcapError::CorruptedData { message, .. } => message.clone(),
            PcapError::ChecksumMismatch { expected, .. } => expected.clone(),
            PcapError::InvalidPacketSize { message, .. } => message.clone(),
            PcapError::PacketSizeExceedsRemainingBytes { .. } => String::new(),
            PcapError::TimestampParseError { message, .. } => message.clone(),
            PcapError::InvalidArgument(m) => m.clone(),
            PcapError::InvalidState(m) => m.clone(),
            PcapError::Io(m) => m.clone(),
            PcapError::Serialization(m) => m.clone(),
            PcapError::Unknown(m) => m.clone(),
        }
    }

    /// A readable description: the error class followed by its context.
    pub fn detailed_message(&self) -> (r: String)
        ensures
            r@ == code_message(code_of(*self)) + ": "@ + detail_of(*self),
    {
        let code = self.error_code();
        let mut out = String::from_str(code.message());
        out.append(": ");
        let detail = self.detail();
        out.append(detail.as_str());
        out
    }
}

/// A flat success-or-failure record.
#[derive(Debug, Clone)]
pub struct ErrorResult {
    pub success: bool,
    pub error_message: Option<String>,
    pub error_code: Option<PcapErrorCode>,
}

impl ErrorResult {
    /// The successful outcome: no message, no code.
    pub fn success() -> (r: ErrorResult)
        ensures
            r.success,
            r.error_message is None,
            r.error_code is None,
    {
        ErrorResult { success: true, error_message: None, error_code: None }
    }

    /// A failed outcome carrying the given message and optional code.
    pub fn failure(error_message: String, error_code: Option<PcapErrorCode>) -> (r: ErrorResult)
        ensures
            !r.success,
            r.error_message == Some(error_message),
            r.error_code == error_code,
    {
        ErrorResult { success: false, error_message: Some(error_message), error_code }
    }

    /// A failed outcome describing the given error.
    pub fn from_error(error: PcapError) -> (r: ErrorResult)
        ensures
            !r.success,
            r.error_message matches Some(m) && m@ == code_message(code_of(error)) + ": "@ + detail_of(error),
            r.error_code == Some(code_of(error)),
    {
        let message = error.detailed_message();
        let code = error.error_code();
        Self::failure(message, Some(code))
    }

    /// A readable description of the outcome.
    pub fn message(&self) -> (r: String)
        ensures
            self.success ==> r@ == "operation succeeded"@,
            !self.success ==> (self.error_message matches Some(m) ==> r@ == "operation failed: "@
                + m@),
            !self.success && self.error_message is None ==> r@ == "operation failed"@,
    {
        if self.success {
            String::from_str("operation succeeded")
        } else {
            match &self.error_message {
                Some(m) => {
                    let mut out = String::from_str("operation failed: ");
                    out.append(m.as_str());
                    out
                },
                None => String::from_str("operation failed"),
            }
        }
    }
}

} // verus!
