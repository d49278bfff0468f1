//! The core of a monitor for the file events of Linux: what fanotify reports
//! is decoded, filtered and printed, and the requests that wait for a
//! permission are answered.
//!
//! The crate does no input or output of its own. Its caller reads the
//! notification handle and the control channel, hands the bytes and lines
//! over, and takes the steps that come back:
//!
//! - [`c_enum`] and [`events`] hold the tables of named flags: the events that
//!   can be watched and the answers to a permission request.
//! - [`record`] decodes the binary records of one read, and [`event_loop`]
//!   decides what a read and a wait lead to.
//! - [`entry`] turns a record and its resolved path into the printed line and
//!   decides whether the descriptor is closed at once or kept for an answer.
//! - [`flags`] completes the options of a run and filters events by the
//!   watched paths, which [`path`] compares name by name.
//! - [`command`] reads a line of the operator and encodes the answer.
//! - [`action`] names the steps that the caller takes.
//! - [`kernel`] reads the constants of the kernel from `libc`; it is the one
//!   part that is trusted and not proved.
pub mod action;
pub mod c_enum;
pub mod command;
pub mod entry;
pub mod event_loop;
pub mod events;
pub mod flags;
pub mod kernel;
pub mod path;
pub mod record;
pub mod text;
