//! Decoding of LXOB scene files: a "FORM" container whose header is followed
//! by a stream of tagged, even-aligned chunks.

pub mod geom;
pub mod lemmas;
pub mod lxob;
pub mod parser;
pub mod reader;
