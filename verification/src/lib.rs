//! A declarative web-scraping engine for structured record extraction.
//!
//! Operators describe how to locate a record on a remote HTML source as a
//! tree of named nodes, each carrying a small command script (CSS-selector
//! navigation, DOM traversal, string transforms, regex operations). The
//! engine walks that tree against fetched documents, accumulates captured
//! values in a runtime variable store, chains follow-up requests driven by
//! captured URLs, and finally binds the store into a caller-defined record.
//!
//! Fetching itself is left to the caller: a [`session::CrawlSession`] hands
//! out the next URL to fetch and consumes the fetched body, so the engine
//! itself never touches the network and every crawl step is checked
//! against the walk relation over the fetched documents.

pub mod binder;
pub mod config;
pub mod dom;
pub mod errors;
pub mod file_txn;
pub mod image;
pub mod interp;
pub mod nfo;
pub mod organizer;
pub mod parser;
pub mod regex_ops;
pub mod runner;
pub mod script;
pub mod session;
pub mod template;
pub mod template_parser;
pub mod text;
pub mod translator;
pub mod vars;

pub use errors::{CrawlerErr, CrawlerParseError};
