//! A browsable index over a container registry's repository catalog.
//!
//! - `path`: the segments of a slash-separated repository path.
//! - `order`: string order and sorting.
//! - `tree`: the path index built from the repository names.
//! - `auth`: the registry's bearer-token challenge.
//! - `retry`: one request's exchange with the registry, with a single retry
//!   after a challenge.
//! - `registry`: the catalog, tag lists and image metadata, and how the
//!   registry's answers turn into them.
//! - `cache`: the published catalog snapshot and its refresh cycle.

pub mod auth;
pub mod cache;
pub mod order;
pub mod path;
pub mod registry;
pub mod retry;
pub mod tree;
