use vstd::prelude::*;

verus! {

/// How a download can fail. Every failure aborts the whole operation:
/// nothing is retried at this layer, and no partial output is cleaned up.
#[derive(Clone, Copy, Debug, PartialEq, Eq, Structural)]
pub enum DownloadError {
    /// The chunk size handed to the planner was zero.
    Configuration,
    /// The metadata probe's response carried no content-length header.
    MissingLengthHeader,
    /// A content-length header was present but was not a base-10 `u64`.
    InvalidLengthValue,
    /// The transport failed while a request was in flight.
    Transport,
    /// A ranged request was answered with a status other than 206.
    Protocol { status: u16 },
    /// Appending to the local output sink failed.
    Io,
}

} // verus!
