//! Chunked upload of one file to an object store, without the I/O.
//!
//! The crate holds the decisions of a multipart upload: how a file of a given
//! size is cut into parts, which request comes next, how many bytes are done,
//! and whether the collected part tokens may be committed. The caller performs
//! the requests and reports their outcomes.

pub mod driver;
pub mod error;
pub mod plan;
pub mod progress;
pub mod session;
pub mod trace;
