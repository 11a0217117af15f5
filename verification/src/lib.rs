//! Backing up directories to a drive with rsync: the configuration and its
//! rules, the check that sources and destination stay apart, the rsync command
//! line for a run, and what a run came to. Paths are Unix paths, held as text.

pub mod config;
pub mod path;
pub mod sync;
pub mod text;
