//! A sandboxed filesystem access library: a path guard that confines every
//! operation to a set of permitted root directories, a text/binary content
//! classifier, and a content-search engine with result caps and timeouts.
//!
//! - [`path_guard`]: the permitted-directory set and path validation.
//! - [`classify`]: text-or-binary decisions by extension and content sample.
//! - [`query`], [`pattern`], [`matches`], [`engine`]: the content search,
//!   from the query and its compiled pattern to the aggregated result.
//! - [`edit`]: in-memory edit operations on text.
//! - [`strutil`]: shared string splitting, joining and ordering.

pub mod classify;
pub mod edit;
pub mod engine;
pub mod matches;
pub mod path_guard;
pub mod pattern;
pub mod query;
pub mod strutil;
