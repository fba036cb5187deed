//! Moonbeam: the request/response core of a single-threaded HTTP/1.1 server.
//!
//! The modules here hold the parsing, routing helpers and response building of the
//! server, each with its contract. Sockets, executors and compression streams live
//! with the caller.
pub mod text;
pub mod http;
pub mod server;
pub mod forms;
pub mod assets;
pub mod router;
pub mod tracing;
pub mod json;

use vstd::prelude::*;

verus! {

} // verus!
