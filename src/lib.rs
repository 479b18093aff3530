//! A depth-bounded web crawler: link normalization, same-host filtering and
//! the breadth-first crawl state machine, all proved against their contracts.
pub mod text;
pub mod web_url;
pub mod link;
pub mod origin;
pub mod page;
pub mod crawl;
pub mod cli;
pub mod crawler;
