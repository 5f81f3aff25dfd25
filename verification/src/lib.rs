//! Ranged download of a single remote resource.
//!
//! The resource is split into fixed-size byte ranges; each range is
//! requested on its own through the HTTP `Range` mechanism and the
//! responses are appended, in order, to one output sink. This crate
//! holds the computation: the range planner, the wire formatting of a
//! range selector, the acceptance check on a response status, and the
//! parsing of a content-length header. The transport and the sink are
//! collaborators that the caller supplies.

pub mod errors;
pub mod planner;
pub mod protocol;
