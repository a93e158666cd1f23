//! Verified parser for access logs emitted by a cloud HTTP load balancer.
//!
//! Each log line is a space-separated sequence of fields: a timestamp, the
//! balancer's name, two IPv4 endpoints, three processing times, two HTTP
//! status codes, two byte counts, and a quoted request group.  The core of
//! the crate is [`parser::parse_line`], which turns one line into either a
//! fully populated [`parser::ELBLogEntry`] or a [`parser::ParsingErrors`]
//! value listing every field that failed to parse.

pub mod chars;
pub mod endpoint;
pub mod floattok;
pub mod numbers;
pub mod parser;
pub mod timestamp;
pub mod tokenize;
pub mod walk;
