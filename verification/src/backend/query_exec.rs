//! The query-execution capability.  The core does not parse SQL or plan
//! queries: it hands the literal query text to a `QueryExec` implementation
//! and relays the completion tag or error report it gets back.

use vstd::prelude::*;

use crate::proto::messages::backend::{
    fields_len, CommandComplete, CommandTag, ErrorResponse, Field,
};
use crate::proto::Encode;

verus! {

/// The outcome of executing one simple query: a completion report, or the
/// error report to send in its place.
pub type QueryResult = Result<CommandComplete, ErrorResponse>;

/// Executes the literal text of a simple query.  The decision is a function
/// of the text alone, pinned down by `spec_execute`; either outcome is
/// well-formed enough to be framed.
pub trait QueryExec {
    /// The execution outcome, as a function of the query text: the command
    /// tag on success, the error report's fields on failure.
    spec fn spec_execute(&self, query: Seq<u8>) -> Result<Seq<u8>, Seq<(Field, Seq<u8>)>>;

    fn execute(&self, query: &[u8]) -> (r: QueryResult)
        ensures
            (match r {
                Ok(c) => self.spec_execute(query@) == Ok::<Seq<u8>, Seq<(Field, Seq<u8>)>>(c@)
                    && c.enc_wf(),
                Err(e) => self.spec_execute(query@) == Err::<Seq<u8>, Seq<(Field, Seq<u8>)>>(e@)
                    && fields_len(e@) <= 0x3fff_ffff,
            }),
    ;
}

/// An executor that completes every query as an empty `SELECT`.
pub struct NoopQueryExec {}

impl NoopQueryExec {
    pub fn new() -> (r: NoopQueryExec) {
        NoopQueryExec {}
    }
}

impl QueryExec for NoopQueryExec {
    open spec fn spec_execute(&self, query: Seq<u8>) -> Result<Seq<u8>, Seq<(Field, Seq<u8>)>> {
        Ok(CommandTag::Select(0).spec_render())
    }

    fn execute(&self, query: &[u8]) -> (r: QueryResult) {
        let tag = CommandTag::Select(0);
        let c = CommandComplete::new(tag.render());
        proof {
            assert(c@.len() == 8);
        }
        Ok(c)
    }
}

} // verus!
