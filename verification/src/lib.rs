//! Verified core of a cloud-notebook exporter: a reader for cursor-paginated
//! collections, a depth-first crawler over notebooks, sections and pages that
//! survives failing branches, and a downloader that retries failed pages
//! round by round.
//!
//! Nothing in this crate performs I/O. Each component is a state machine: it
//! names the request to make, and the caller hands back what the server said.
//!
//! - [`reader`]: pages of a collection, accumulated and handed out in order.
//! - [`json`]: the boundary to `serde_json`.
//! - [`listing`]: one page of a listing, read from the server's answer.
//! - [`tree`]: notebooks, sections and pages as they are exported.
//! - [`crawler`]: the crawl, one request at a time.
//! - [`soundness`]: what holds of a crawl at every step.
//! - [`semantics`]: what a crawl gathers from a server, and that the crawler
//!   gathers it.
//! - [`download`]: the pages still to download, and the rounds of attempts.
//! - [`export`]: the tree as a JSON document, and back.
//! - [`graph`], [`todo`]: plain resource types, endpoint addresses, task
//!   lists.

pub mod crawler;
pub mod download;
pub mod export;
pub mod graph;
pub mod json;
pub mod listing;
pub mod reader;
pub mod semantics;
pub mod soundness;
pub mod todo;
pub mod tree;
