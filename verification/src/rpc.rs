//! The query service: the stateless read path. It answers free-text
//! queries from the engine's last committed state and never consults the
//! write buffer, so readers never block on, nor observe, an in-flight
//! batch. An authentication layer can wrap [`LookrService::query`] as a
//! request interceptor without touching the indexing pipeline.

use vstd::prelude::*;
use crate::engine::IndexEngine;
use crate::index::IndexError;
use crate::index::distinct_seq;

verus! {

/// A query request: the free text, and pagination hints.
#[derive(Debug)]
pub struct QueryReq {
    pub query: String,
    pub count: i32,
    pub offset: i32,
}

/// A query response: the matching document identities.
#[derive(Debug)]
pub struct QueryResp {
    pub results: Vec<String>,
}

/// The service front of the read path.
#[derive(Debug)]
pub struct LookrService {}

impl LookrService {
    /// A stateless service; every call reads the engine it is handed.
    pub fn new() -> (s: LookrService) {
        LookrService {  }
    }

    /// Answers one request from the last committed state. The `count`
    /// and `offset` hints are accepted but ignored: the response is the
    /// full, deduplicated, unranked match set, whatever the hints say.
    /// An engine failure surfaces as the error, never as a crash; the
    /// in-memory engine always answers.
    pub fn query(&self, engine: &IndexEngine, req: &QueryReq) -> (r: Result<
        QueryResp,
        IndexError,
    >)
        ensures
            r is Ok,
            distinct_seq(r->Ok_0.results.deep_view()),
            forall|v: Seq<char>|
                r->Ok_0.results.deep_view().contains(v) <==> engine.committed().matches(
                    req.query@,
                    v,
                ),
    {
        match engine.query(req.query.as_str()) {
            Ok(results) => Ok(QueryResp { results }),
            Err(e) => Err(e),
        }
    }
}

} // verus!
