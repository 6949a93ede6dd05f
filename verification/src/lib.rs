//! A manifest-driven, content-addressed artifact puller: the rules that turn a
//! declared set of (path, content identifier, size) entries into a durable,
//! atomically published directory tree.
//!
//! Every decision is a function from plain values to plain values, so that the
//! program around the library only performs the network and filesystem work
//! that the library asks for.

pub mod diagnostics;
pub mod error;
pub mod failover;
pub mod layout;
pub mod manifest;
pub mod origins;
pub mod paths;
pub mod pipeline;
pub mod response;
pub mod text;
pub mod traces;
pub mod tree;
