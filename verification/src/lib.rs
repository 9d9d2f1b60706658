//! `krt` records the network path to a destination, hop by hop.
//!
//! This crate holds the rules of the tool: how a command line resolves, how
//! a duration reads and writes, how a recorded file folds into runs, which
//! addresses a hunt may draw, how the paths of a hunt rank, and how the live
//! display answers the keys of its reader.

pub mod text;

pub mod period;
pub mod addr;
pub mod record;
pub mod count;
pub mod order;
pub mod clock;
pub mod config;
pub mod session;
pub mod blocks;
pub mod draw;
pub mod summary;
pub mod score;
pub mod live;
pub mod names;
pub mod hunt;
