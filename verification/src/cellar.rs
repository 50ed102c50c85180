//! The decision logic of the cellar game launcher: its game library,
//! per-game profiles, installer and bottle handling, prerequisite
//! checks and archive inspection. Processes, the file system and the
//! user interface stay with the caller.

pub mod archive;
pub mod d3dmetal;
pub mod installer;
pub mod library;
pub mod order;
pub mod prereq;
pub mod profiles;
pub mod runtime;
pub mod tools;
pub mod watch;
pub mod wine;
