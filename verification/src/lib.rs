//! A `no_std` HTTP server toolkit: the parsing, routing and framing logic, with its contracts.
use vstd::prelude::*;

pub mod extract;
pub mod fs;
pub mod futures;
pub mod io;
pub mod json;
pub mod mem;
pub mod request;
pub mod response;
pub mod routing;
pub mod server;
pub mod sse;
pub mod status;
pub mod text;
pub mod time;
pub mod url_encoded;
pub mod ws;

verus! {

} // verus!
