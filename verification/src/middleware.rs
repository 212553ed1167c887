//! The ordered middleware chain's cursor.
//!
//! A chain is an ordered sequence of handler units plus a single-use
//! cursor. Each pipeline pass advances the cursor at most once per
//! position, so no unit can be invoked twice within one pass; when the
//! chain is exhausted without a terminal response, a `500` fallback
//! response stands in. The handlers are opaque values: the caller takes
//! the next position from the cursor and runs the unit itself.

use vstd::prelude::*;

use crate::http::StatusCode;
use crate::response::Response;
use vstd::utf8::encode_utf8;

verus! {

/// A cursor into the remaining middleware chain for a single request.
pub struct Next<H> {
    handlers: Vec<H>,
    index: usize,
}

impl<H> Next<H> {
    /// The ordered handler units of the chain.
    pub closed spec fn spec_handlers(&self) -> Seq<H> {
        self.handlers@
    }

    /// The current cursor position.
    pub closed spec fn spec_index(&self) -> int {
        self.index as int
    }

    /// Creates a cursor positioned at the start of the given chain.
    pub fn new(handlers: Vec<H>) -> (r: Self)
        ensures
            r.spec_handlers() == handlers@,
            r.spec_index() == 0,
    {
        Next { handlers, index: 0 }
    }

    /// Takes the next position and advances the cursor by one, or reports
    /// exhaustion. The cursor only ever moves forward, so a given
    /// position can be taken at most once per pass.
    pub fn advance(&mut self) -> (r: Option<usize>)
        ensures
            final(self).spec_handlers() == old(self).spec_handlers(),
            match r {
                Some(i) => {
                    &&& old(self).spec_index() < old(self).spec_handlers().len()
                    &&& i as int == old(self).spec_index()
                    &&& final(self).spec_index() == old(self).spec_index() + 1
                },
                None => {
                    &&& old(self).spec_index() >= old(self).spec_handlers().len()
                    &&& final(self).spec_index() == old(self).spec_index()
                },
            },
    {
        if self.index < self.handlers.len() {
            let i = self.index;
            self.index = self.index + 1;
            Some(i)
        } else {
            None
        }
    }

    /// Returns the handler unit at the given position.
    pub fn handler(&self, i: usize) -> (r: &H)
        requires
            i < self.spec_handlers().len(),
        ensures
            *r == self.spec_handlers()[i as int],
    {
        &self.handlers[i]
    }

    /// Number of handler units in the chain.
    pub fn len(&self) -> (r: usize)
        ensures
            r == self.spec_handlers().len(),
    {
        self.handlers.len()
    }

    /// The response returned when the chain is exhausted without any unit
    /// producing a terminal response: a `500` naming the
    /// misconfiguration.
    pub fn fallback() -> (r: Response)
        ensures
            r.spec_status() == StatusCode::InternalServerError,
            r.spec_body() == encode_utf8("No response generated by middleware pipeline"@),
            r.spec_headers() == Seq::<(Seq<char>, Seq<char>)>::empty(),
            r.spec_keep_alive(),
    {
        Response::new(StatusCode::InternalServerError).body(
            "No response generated by middleware pipeline",
        )
    }
}

} // verus!
