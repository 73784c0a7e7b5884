//! Verified core of a FlatBuffers / Protocol Buffers binary visualizer.

pub mod text;
pub mod hex;
pub mod buffer;
pub mod cli;
pub mod decoder;
pub mod effects;
pub mod encoder;
pub mod filter;
pub mod permalink;
pub mod json;
pub mod output;
pub mod proto;
pub mod region;
pub mod schema;
pub mod url;
pub mod state;
pub mod templates;
pub mod view;
