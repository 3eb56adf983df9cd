//! Demultiplexes a stream of barcode-tagged alignment records into
//! per-destination output files, according to a caller-supplied routing table.
//!
//! The library models records, headers and the routing table as plain values;
//! reading and writing the compressed container format is left to the caller.
#![verifier::loop_isolation(false)]

pub mod bytes;
pub mod header;
pub mod laws;
pub mod pipeline;
pub mod pool;
pub mod record;
pub mod router;
pub mod routing;
