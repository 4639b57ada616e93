//! The logic of a screen recorder for Windows: choosing a monitor, starting and stopping
//! a recording, timing its frames, converting and marking pictures, and cutting an
//! encoded stream into NAL units.
#![allow(unused_imports)]

pub mod bgra_to_nv12;
pub mod d3d11;
pub mod error;
pub mod memory_byte_stream;
pub mod mf_writer;
pub mod recorder;
pub mod startup;
pub mod streaming_encoder;
pub mod watermark;
