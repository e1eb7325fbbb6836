//! What the HTTP interface receives, and why it can fail to start.
use vstd::prelude::*;

use crate::config::Indexer;
use crate::request::concat;
use crate::streams::Stream;
use crate::text::{decimal, decimal_string};

verus! {

/// A request to configure an indexer.
#[derive(Debug, Clone)]
pub struct CreateIndexerRequest {
    pub indexer: Indexer,
}

/// A request to remove the indexer named `name`.
#[derive(Debug, Clone)]
pub struct DeleteIndexerRequest {
    pub name: String,
}

/// A request for the streams an indexer finds at a page.
#[derive(Debug, Clone)]
pub struct StreamsRequest {
    pub indexer_name: String,
    pub input_url: String,
}

/// A request to download a stream into `output_file`.
#[derive(Debug, Clone)]
pub struct DownloadRequest {
    pub indexer_name: String,
    pub stream: Stream,
    pub output_file: String,
}

/// The path of a download's status: its id.
#[derive(Debug, Clone, Copy)]
pub struct DownloadStatusPath {
    pub id: u32,
}

/// Why the HTTP server could not start.
#[derive(Debug, Clone)]
pub enum RouteError {
    FailedToBind { port: u16, error: String },
}

/// The text that describes a route error.
pub open spec fn route_error_text(e: RouteError) -> Seq<char> {
    match e {
        RouteError::FailedToBind { port, error } => "Failed to bind to port "@ + decimal(port as nat)
            + " with error: "@ + error@ + "."@,
    }
}

impl RouteError {
    /// The human-readable description of this error.
    pub fn message(&self) -> (s: String)
        ensures
            s@ == route_error_text(*self),
    {
        match self {
            RouteError::FailedToBind { port, error } => {
                let p = decimal_string(*port as u64);
                let mut s = concat("Failed to bind to port ", p.as_str());
                s.append(" with error: ");
                s.append(error.as_str());
                s.append(".");
                s
            },
        }
    }
}

/// The address the HTTP server listens on: every interface, at `port`.
pub fn listen_address(port: u16) -> (a: String)
    ensures
        a@ == "0.0.0.0:"@ + decimal(port as nat),
{
    let p = decimal_string(port as u64);
    concat("0.0.0.0:", p.as_str())
}

} // verus!
