//! The decisions of eat, a `bat`-flavoured `cat`, and of the command line of the
//! editor that it belongs to: what to read, what to write, and what to do when
//! something changes. Reading, writing and waiting are left to the caller.
pub mod args;
pub mod cli;
pub mod double;
pub mod duration;
pub mod escape;
pub mod filename;
pub mod follow;
pub mod git;
pub mod header;
pub mod listing;
pub mod numeral;
pub mod plan;
pub mod quirks;
pub mod size;
pub mod snapshot;
pub mod status;
pub mod stream;
pub mod text;
pub mod viewer;
pub mod watch;
pub mod wheel;
