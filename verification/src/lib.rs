//! A verified HTTP/1.1 wire-protocol core: a byte-level request parser with
//! a strict error taxonomy, a response serializer with computed
//! `Content-Length` and `Content-Type` framing, the two content-negotiated
//! body accessors, and the routing decisions of a one-request-per-connection
//! dispatcher. The socket and the file system stay outside; everything that
//! decides on bytes is specified and proved here.

pub mod helpers;
pub mod http_request;
pub mod http_response;
pub mod jsonio;
pub mod kv;
pub mod laws;
pub mod lit;
pub mod pairs;
pub mod request_parser;
pub mod scan;
pub mod server;

use vstd::prelude::*;

verus! {

/// The nine request methods of HTTP/1.1 that a request line may carry.
/// Any other method token is rejected by the request parser.
#[derive(Clone, Copy, Debug, PartialEq, Eq, Structural)]
pub enum HttpMethod {
    Get,
    Post,
    Put,
    Delete,
    Patch,
    Head,
    Options,
    Trace,
    Connect,
}

} // verus!
