//! The two procedures that clients call, with their requests and the
//! response they share.

use crate::time::Timestamp;
use vstd::prelude::*;

verus! {

/// The request methods that a procedure can answer to.
#[derive(Clone, Copy, Debug, PartialEq, Eq, Structural)]
pub enum HttpMethod {
    Get,
    Head,
    Post,
    Put,
    Delete,
}

/// The path under which spans are started.
pub const START_SPAN_PATH: &'static str = "start_span";

/// The path under which spans are finished.
pub const FINISH_PATH: &'static str = "finish";

/// The procedure that starts a span.
#[derive(Debug)]
pub struct StartSpanProcedure;

impl StartSpanProcedure {
    /// The method that the procedure answers to.
    pub fn method() -> (method: HttpMethod)
        ensures
            method == HttpMethod::Get,
    {
        HttpMethod::Get
    }

    /// The one segment of the procedure's path.
    pub fn entry_point() -> (path: &'static str)
        ensures
            path == START_SPAN_PATH,
    {
        START_SPAN_PATH
    }
}

/// What a client says when it starts a span.
#[derive(Debug)]
pub struct StartSpanQuery {
    pub operation_name: String,
    pub span_id: u64,
    pub child_of: Option<u64>,
    pub follows_from: Option<u64>,
    /// The span's tags as `key:value` pairs joined by commas.
    pub tags: String,
    pub time: Option<Timestamp>,
}

/// A request to start a span.
#[derive(Debug)]
pub struct StartSpanRequest {
    pub query: StartSpanQuery,
}

impl StartSpanRequest {
    /// The request's body, which is empty: all it says is in the query.
    pub fn body(&self) -> (bytes: Vec<u8>)
        ensures
            bytes@ == Seq::<u8>::empty(),
    {
        Vec::new()
    }
}

/// The procedure that finishes a span.
#[derive(Debug)]
pub struct FinishProcedure;

impl FinishProcedure {
    /// The method that the procedure answers to.
    pub fn method() -> (method: HttpMethod)
        ensures
            method == HttpMethod::Get,
    {
        HttpMethod::Get
    }

    /// The one segment of the procedure's path.
    pub fn entry_point() -> (path: &'static str)
        ensures
            path == FINISH_PATH,
    {
        FINISH_PATH
    }
}

/// What a client says when it finishes a span.
#[derive(Debug)]
pub struct FinishQuery {
    pub span_id: u64,
    pub time: Option<Timestamp>,
}

/// A request to finish a span.
#[derive(Debug)]
pub struct FinishRequest {
    pub query: FinishQuery,
}

impl FinishRequest {
    /// The request's body, which is empty: all it says is in the query.
    pub fn body(&self) -> (bytes: Vec<u8>)
        ensures
            bytes@ == Seq::<u8>::empty(),
    {
        Vec::new()
    }
}

/// The answer to either procedure. It carries a status and no body.
#[derive(Clone, Copy, Debug, PartialEq, Eq, Structural)]
pub enum EmptyResponse {
    /// The command was taken into the queue.
    Okay,
    /// The transport failed before the command could be queued.
    InternalServerError,
}

impl EmptyResponse {
    /// The response's body, which is empty.
    pub fn body(&self) -> (bytes: Vec<u8>)
        ensures
            bytes@ == Seq::<u8>::empty(),
    {
        Vec::new()
    }

    /// Takes a body and drops it: the response stays as it is.
    pub fn set_body(&mut self, bytes: Vec<u8>)
        ensures
            *final(self) == *old(self),
    {
    }
}

} // verus!
