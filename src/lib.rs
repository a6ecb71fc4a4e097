//! Extraction of compiler diagnostics from the output of a command as it streams.
//!
//! Each line is tried against an ordered set of regular expressions together with the
//! line after it, so that diagnostics written over two lines are found; every match
//! becomes a record whose byte span points into the whole stream.
pub mod cli;
pub mod error;
pub mod groups;
pub mod laws;
pub mod matcher;
pub mod message;
pub mod number;
pub mod pattern;
pub mod report;
pub mod text;
