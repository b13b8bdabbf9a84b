//! Packets on their way to local applications.

pub mod heap;
pub mod runs;
pub mod streams;
pub mod writer;
pub mod writer_tso;
pub mod batch;
pub mod interface;
