//! Logic of an archive extraction tool: byte-string paths with Unix
//! semantics, safe joining of archive entry paths, archive type detection,
//! per-entry extraction plans and configuration decisions.

pub mod path;
pub mod fs_utils;
pub mod extract;
pub mod config;
pub mod cli;
