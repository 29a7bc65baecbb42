//! Command-line arguments of the benchmark tool, as plain values.

use vstd::prelude::*;

verus! {

/// The arguments the benchmark is started with.
pub struct Args {
    /// Target URL to bench
    pub url: String,
    /// HTTP method
    pub method: Method,
    /// Number of concurrent connections
    pub concurrency: usize,
    /// Total number of requests
    pub requests: Option<usize>,
    /// Test duration (e.g. 10s, 1m)
    pub duration: Option<String>,
    /// HTTP header (repeatable)
    pub headers: Vec<String>,
    /// Request body
    pub body: Option<String>,
    /// Request timeout in seconds
    pub timeout: u64,
    /// Target requests per second (rate limit)
    pub rate: Option<u64>,
}

/// HTTP method as it is chosen on the command line.
#[derive(Clone, Copy, Debug, PartialEq, Eq, Structural)]
pub enum Method {
    Get,
    Post,
    Put,
    Delete,
    Patch,
    Head,
    Options,
}

} // verus!
