//! Watches one search query on a syndication feed and works out, poll after
//! poll, which postings have not been seen before.
//!
//! The crate holds the decisions only: it forms the request address, reads a
//! fetched document into entries, normalises each entry into a posting, keeps
//! a bounded least-recently-used memory of the identities it has met, and
//! withholds the backlog that the first successful poll brings. Fetching,
//! mailing, sleeping and logging are left to the program around it.

pub mod config;
pub mod dispatch;
pub mod error;
pub mod feed;
pub mod job;
pub mod markup;
pub mod nesting;
pub mod seen;
