//! Verified core of a log-file tailing monitor.
//!
//! The library tracks how far a growing text log has been consumed, turns
//! newly appended bytes into complete lines, recognises join/leave events in
//! each line, and formats the notification requests that an unverified outer
//! loop delivers. All file watching, file reading and network delivery live
//! outside the library; the library is handed plain byte buffers and sizes
//! and returns plain values.

pub mod cursor;
pub mod dispatch;
pub mod line;
pub mod matcher;
