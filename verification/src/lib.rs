//! The core of a branchless workflow for Git.
//!
//! Every change to the repository is recorded as an event. From the log of
//! events the library tells what the repository looked like at any point, draws
//! the commits that are being worked on, and finds the events that take the
//! repository back to an earlier point.
//!
//! Reading the repository, storing the log and talking to the terminal are left
//! to the program around the library. The library decides; its decisions are
//! stated in contracts and proved.

pub mod describe;
pub mod event;
pub mod graph;
pub mod hooks;
pub mod install;
pub mod lines;
pub mod mergebase;
pub mod oid;
pub mod replay;
pub mod restore;
pub mod roots;
pub mod row;
pub mod select;
pub mod smartlog;
pub mod styled;
pub mod text;
pub mod undo;
pub mod walk;
