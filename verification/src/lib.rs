//! Core of a personal time-tracking utility.
//!
//! A session is started and stopped; completed sessions are kept as an
//! append-only collection of start/end timestamp pairs, persisted as small
//! JSON documents; a reporter sums the time of sessions that started within
//! a requested window. The file system work itself (creating the marker
//! file, reading and rewriting the collection file) is left to the caller;
//! this crate computes every byte that is written and interprets every byte
//! that is read.

pub mod cli;
pub mod codec;
pub mod error;
pub mod flatfile;
pub mod report_fmt;
pub mod reporter;
pub mod tracker;
