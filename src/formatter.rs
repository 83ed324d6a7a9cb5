//! Canonical, comment-preserving rendering of MON documents.

pub mod advanced;
pub mod comments;
pub mod config;
pub mod format;
pub mod style;
pub mod watch;
