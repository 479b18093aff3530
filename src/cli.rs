//! The options of a crawl, as given on the command line.
use vstd::prelude::*;

verus! {

/// Options of a crawl.
pub struct Args {
    /// The start URL.
    pub url: String,
    /// The `User-Agent` header sent with each request.
    pub user_agent: String,
    /// A proxy for every request, if any.
    pub proxy: Option<String>,
    /// The last round that is fetched; zero fetches the start page alone.
    pub depth: u8,
    /// Follow links to any host, not only the start URL's.
    pub no_domain_filter: bool,
    /// Accept invalid TLS certificates on the proxy connection.
    pub insecure_proxy: bool,
}

} // verus!
