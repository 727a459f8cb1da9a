//! Options used when spawning processes.

pub mod options;
