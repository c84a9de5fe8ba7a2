//! A reader and writer for the binary FBX format, versions 7.4 and 7.5.
//!
//! The layers are: a position-tracking byte reader, the low-level wire
//! records, a pull parser that yields node events, a tree loader that builds
//! an indexed node graph, and a writer that emits a conformant file. The laws
//! that tie the writer to the parser are in `round_trip`.

pub mod wire;
pub mod reader;
pub mod low;
pub mod zlib;
pub mod attribute;
pub mod loaders;
pub mod writer;
pub mod error;
pub mod parser;
pub mod tree;
pub mod round_trip;
