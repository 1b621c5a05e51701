//! Detects, among the followers of a target account, which accounts block a
//! given authenticated account, and reciprocally blocks them.
//!
//! The core is a scan-and-dispatch pipeline: a paginating follower scanner
//! classifies each page and feeds candidate ids to a queue-and-retry block
//! dispatcher through a one-way channel, under a rate-limit gate derived from
//! response headers, persisting scan progress after every page so that an
//! interrupted run resumes at the last completed page.
//!
//! Everything here is pure decision logic: the surrounding binary performs
//! the HTTP requests, the timer waits and the database statements, and hands
//! this library plain values.

pub mod auth;
pub mod common;
pub mod query;
pub mod dispatcher;
pub mod scanner;
pub mod store;
pub mod twitter;
