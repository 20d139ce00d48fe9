//! Packs a file or a one-level directory tree into a single compressed
//! stream and reverses the operation. The compression codec is an external
//! collaborator reached through a small trusted boundary; everything built
//! on top of it is verified: the archive framing that multiplexes paths and
//! contents into one linear stream, the chunked encoding that cuts a large
//! input into independently compressed frames closed by a size footer, the
//! lossy output-naming scheme, and the outcome rules of the two operations.

pub mod chunks;
pub mod codec;
pub mod framing;
pub mod naming;
pub mod ops;
pub mod scan;
