use vstd::prelude::*;

verus! {

/// Why a packaging run stopped. Any of these aborts the whole run at once:
/// no entry is skipped or retried, and no truncated-but-valid archive is
/// attempted.
#[derive(Debug, Clone, Copy, PartialEq, Eq, Structural)]
pub enum EncodeError {
    /// A source path does not exist.
    SourceNotFound,
    /// A source path exists but is not a regular file.
    SourceNotRegularFile,
    /// An I/O failure was hit while streaming a source file.
    ReadError,
    /// Internal header/descriptor construction failure: a size or offset
    /// counter left the range its field can carry.
    Encode,
    /// The consuming side dropped its end of the conduit, so produced
    /// chunks can no longer be delivered.
    ChannelClosed,
    /// The file destination rejected a write.
    SinkWriteError,
    /// The HTTP upload failed; carries the response status code, or 0 for a
    /// transport-level failure (connection, name resolution, timeout).
    UploadError(u16),
}

/// The process exit status reported for an error, one per failure category.
pub open spec fn spec_exit_code(e: EncodeError) -> i32 {
    match e {
        EncodeError::SourceNotFound => 10,
        EncodeError::SourceNotRegularFile => 11,
        EncodeError::ReadError => 12,
        EncodeError::Encode => 13,
        EncodeError::ChannelClosed => 14,
        EncodeError::SinkWriteError => 15,
        EncodeError::UploadError(_) => 16,
    }
}

/// The human-readable cause reported for an error.
pub open spec fn spec_describe(e: EncodeError) -> Seq<char> {
    match e {
        EncodeError::SourceNotFound => "a source path does not exist"@,
        EncodeError::SourceNotRegularFile => "a source path is not a regular file"@,
        EncodeError::ReadError => "reading a source file failed"@,
        EncodeError::Encode => "archive record construction failed"@,
        EncodeError::ChannelClosed => "the output side closed the conduit"@,
        EncodeError::SinkWriteError => "writing to the destination file failed"@,
        EncodeError::UploadError(_) => "the upload was not accepted"@,
    }
}

impl EncodeError {
    /// Distinct process exit status per failure category.
    pub fn exit_code(&self) -> (code: i32)
        ensures
            code == spec_exit_code(*self),
    {
        match self {
            EncodeError::SourceNotFound => 10,
            EncodeError::SourceNotRegularFile => 11,
            EncodeError::ReadError => 12,
            EncodeError::Encode => 13,
            EncodeError::ChannelClosed => 14,
            EncodeError::SinkWriteError => 15,
            EncodeError::UploadError(_) => 16,
        }
    }

    /// A short human-readable cause.
    pub fn describe(&self) -> (msg: &'static str)
        ensures
            msg@ == spec_describe(*self),
    {
        match self {
            EncodeError::SourceNotFound => "a source path does not exist",
            EncodeError::SourceNotRegularFile => "a source path is not a regular file",
            EncodeError::ReadError => "reading a source file failed",
            EncodeError::Encode => "archive record construction failed",
            EncodeError::ChannelClosed => "the output side closed the conduit",
            EncodeError::SinkWriteError => "writing to the destination file failed",
            EncodeError::UploadError(_) => "the upload was not accepted",
        }
    }
}

} // verus!
