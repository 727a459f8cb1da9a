//! Verified core of the Heph runtime: the data structures and algorithms that
//! schedule processes, track wake-ups and parse host information.

pub mod bitmap;
pub mod bits;
pub mod coordinator;
pub mod error;
pub mod fs;
pub mod info;
pub mod io;
pub mod io_error;
pub mod metrics;
pub mod net;
pub mod rt;
pub mod scheduler;
pub mod setup;
pub mod shared;
pub mod spawn;
pub mod text;
pub mod time;
