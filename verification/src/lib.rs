//! Core of a self-hosted push-notification server.
//!
//! Publishers submit short messages under an application or a topic;
//! subscribers receive them over live streams or by paging history.
//! This crate holds the verified core: validation, token handling and
//! classification, topic-pattern access control, header-metadata parsing,
//! the token-bucket rate limiter, the message pipeline's decisions, and
//! the semantics of the persistent store's operations.  Network, disk and
//! database plumbing live outside, calling into these functions with plain
//! values.
#![allow(unused_imports)]

pub mod acl;
pub mod authz;
pub mod error;
pub mod headers;
pub mod migrate;
pub mod models;
pub mod outgoing;
pub mod password;
pub mod pipeline;
pub mod ratelimit;
pub mod sanitize;
pub mod store;
pub mod strutil;
pub mod timeutil;
pub mod tokens;

