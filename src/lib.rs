//! A load-testing client for HTTP/1.1 servers: a request encoder and an
//! incremental response decoder, with the decisions of the connection workers
//! and of the coordinator that stops them.
use vstd::prelude::*;

pub mod buffer;
pub mod coordinator;
pub mod decimal;
pub mod simple_http;
pub mod target;
pub mod worker;

verus! {

/// The endpoint under test and the request sent to it: `host` is `host[:port]`,
/// `path` starts with `/`, `method` is a standard HTTP verb.
#[derive(Clone, Debug)]
pub struct Payload {
    pub host: String,
    pub path: String,
    pub method: String,
    pub body: String,
}

/// Whether the run goes on; it only ever turns from `RUNNING` to `TERMINATE`.
#[derive(Clone, Copy, Debug, PartialEq, Eq, Structural)]
pub enum ProcStatus {
    RUNNING,
    TERMINATE,
}

} // verus!
