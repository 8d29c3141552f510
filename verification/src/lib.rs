//! Inspector for ISO Base Media File Format containers (`.mp4`, `.mov`,
//! `.m4a`, and friends).
//!
//! The library walks the recursive box structure of a container held in
//! memory, decodes the sample-table boxes (`stts`, `ctts`, `stsc`, `stsz`,
//! `stss`, `stco`, `co64`, `mdhd`, `hdlr`, `stsd`), and reconstructs, for
//! every media sample of every track, its decode time, presentation time,
//! file offset, size and sync flag.  A small report layer flattens the box
//! tree into plain records, and a hex-window helper serves byte ranges for
//! display.  All parsing and arithmetic is verified; file reading is left
//! to callers.

pub mod boxes;
pub mod bytes;
pub mod errors;
pub mod json_api;
pub mod known_boxes;
pub mod parser;
pub mod registry;
pub mod samples;
pub mod strings;
pub mod util;

pub use boxes::{BoxHeader, BoxKey, BoxRef, FourCC, NodeKind};
pub use parser::{parse_children, read_box_header};
pub use registry::{BoxValue, Registry};
pub use json_api::JsonBox;
pub use util::{hex_range, HexDump};

pub use bytes::{be_uint, be_u16, be_u32, be_u64, be_i32};
