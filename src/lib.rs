//! Routing of tagged-union values between streams.
//!
//! A demultiplexer takes one stream of tagged values and hands each payload
//! to the channel bound to its tag; a multiplexer wraps the items of several
//! typed streams under their tags and merges them into one channel. The
//! decisions of both engines are made here, one item at a time; the loops
//! that pull items from asynchronous sources live with the caller.

pub mod tagged;
pub mod binding;
pub mod channel;
pub mod demux;
pub mod mux;
