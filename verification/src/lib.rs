//! A transactional key-value map layer: typed, prefix-isolated maps over one
//! ordered byte store, with a nestable atomic batch protocol.

pub mod bytes;
pub mod codec;
pub mod confirmed;
pub mod error;
pub mod id;
pub mod laws;
pub mod map;
pub mod model;
pub mod overlay;
pub mod plaintext;
pub mod prefix;
pub mod program;
pub mod scope;
