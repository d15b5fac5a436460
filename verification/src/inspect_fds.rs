//! What a process has open: the files behind its descriptors, and the
//! processes that `ps` and `pgrep` report.

pub mod open_file;
pub mod process;
pub mod ps_utils;
