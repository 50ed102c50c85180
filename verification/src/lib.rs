//! Reader and writer for the FreeArc archive container format, with the
//! decision logic of the cellar game launcher around it.
//!
//! Archive side: variable-length integers (`varint`), the footer and
//! its descriptors (`footer`), the control-block list (`reader`), the
//! directory block (`dir`), codec dispatch and chains (`decompress`,
//! `cls_host`, `cls_callback`), extraction planning (`extract`), the
//! writer (`writer`) and the laws tying the writer to the reader
//! (`roundtrip`), block scanning (`scan`), surveys (`survey`) and what
//! the archive tools print (`listing`).
//!
//! Launcher side: the `cellar` module.

pub mod error;
pub mod varint;
pub mod bytes;
pub mod chars;
pub mod footer;
pub mod dir;
pub mod cls_host;
pub mod decompress;
pub mod writer;
pub mod reader;

pub use reader::{open, read_control_block, type_label, ArchiveSummary, ControlBlockEntry};
pub mod roundtrip;
pub mod extract;
pub mod scan;
pub use scan::{method_histogram, scan_blocks, BlockHeader, MAGIC};
pub mod cellar;
pub mod survey;
pub mod cls_callback;
pub mod listing;
