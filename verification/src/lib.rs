//! HDR10+ dynamic metadata in AV1 bitstreams.

pub mod bitstream;
pub mod detect;
pub mod encode;
pub mod error;
pub mod frames;
pub mod inject;
pub mod inject_laws;
pub mod inject_run_laws;
pub mod inject_stream;
pub mod ivf;
pub mod leb128;
pub mod metadata;
pub mod obu;
pub mod parser;
pub mod progress;
pub mod reader;
pub mod remove;
pub mod remove_laws;
pub mod stream;
