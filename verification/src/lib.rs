//! Verified core of a native camera RAW decoder that wraps libraw.
//!
//! The foreign calls into libraw and the encoding of results for the BEAM
//! live outside this crate; what is here is the logic that decides what
//! those calls mean and in which order they are made.

pub mod error;
pub mod raw;
pub mod pipeline;
