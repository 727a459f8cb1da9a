//! Filesystem: what a watch on files and directories is interested in.

pub mod watch;
