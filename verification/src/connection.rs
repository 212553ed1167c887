//! The per-connection engine.
//!
//! A connection owns a growable byte buffer. Each batch of bytes read
//! from the socket is handed to [`Connection::on_data`], which enforces
//! the size cap, attempts a parse, waits for the declared body, and — on
//! a complete request — drains exactly the consumed bytes, keeping any
//! excess for the next request on the same connection. Socket reads and
//! writes themselves happen outside the library.

use vstd::prelude::*;

use crate::http::StatusCode;
use crate::request::{
    content_length_spec, head_model, parse_ok, term_from, Request, RequestError,
};
use crate::response::Response;
use crate::text::{append_bytes, chars_of};
use vstd::utf8::encode_utf8;

verus! {

/// Maximum size of a buffered request (head and body) before it is
/// rejected with `413 Payload Too Large`.
pub const MAX_REQUEST_SIZE: usize = 8 * 1024 * 1024;

/// How far one `on_data` step got.
pub enum Progress {
    /// The buffered bytes do not yet hold a complete request: read more.
    NeedMore,
    /// The connection must answer with the carried response and close.
    Reject(Response),
    /// A complete request was extracted; its bytes have been drained
    /// from the buffer.
    Dispatch(Request),
}

/// The total byte length needed for the buffered request — head plus its
/// declared content length — when the head parses.
pub open spec fn declared_total(b: Seq<u8>) -> Option<int> {
    match term_from(b, 0) {
        None => None,
        Some(t) => match head_model(b.take(t)) {
            None => None,
            Some(hm) => {
                let hs = hm.3.map_values(|p: (Seq<u8>, Seq<u8>)| (chars_of(p.0), chars_of(p.1)));
                let cl = match content_length_spec(hs) {
                    Some(n) => n,
                    None => 0,
                };
                Some(t + 4 + cl)
            },
        },
    }
}

/// Per-connection state: the accumulated bytes and the size cap.
pub struct Connection {
    buf: Vec<u8>,
    limit: usize,
}

impl Connection {
    /// The bytes buffered so far.
    pub closed spec fn spec_buf(&self) -> Seq<u8> {
        self.buf@
    }

    /// The size cap.
    pub closed spec fn spec_limit(&self) -> int {
        self.limit as int
    }

    /// Creates a connection with the default size cap.
    pub fn new() -> (r: Self)
        ensures
            r.spec_buf() == Seq::<u8>::empty(),
            r.spec_limit() == MAX_REQUEST_SIZE as int,
    {
        Connection { buf: Vec::new(), limit: MAX_REQUEST_SIZE }
    }

    /// Creates a connection with a chosen size cap.
    pub fn with_limit(limit: usize) -> (r: Self)
        ensures
            r.spec_buf() == Seq::<u8>::empty(),
            r.spec_limit() == limit as int,
    {
        Connection { buf: Vec::new(), limit }
    }

    /// Number of bytes currently buffered.
    pub fn buffered_len(&self) -> (r: usize)
        ensures
            r == self.spec_buf().len(),
    {
        self.buf.len()
    }

    /// Feeds one batch of bytes read from the socket and reports how far
    /// the connection got: a size-cap violation answers `413 Payload Too
    /// Large` and closes; malformed bytes answer `400 Bad Request` and
    /// close; an incomplete head or body waits for more data; a complete
    /// request is handed out and its bytes drained, excess bytes staying
    /// buffered for the next request.
    pub fn on_data(&mut self, chunk: &[u8]) -> (r: Progress)
        requires
            old(self).spec_buf().len() + chunk@.len() <= usize::MAX,
        ensures
            final(self).spec_limit() == old(self).spec_limit(),
            ({
                let b = old(self).spec_buf() + chunk@;
                match r {
                    Progress::NeedMore => {
                        &&& final(self).spec_buf() == b
                        &&& b.len() <= old(self).spec_limit()
                        &&& (term_from(b, 0) is None || (match declared_total(b) {
                            Some(need) => b.len() < need,
                            None => false,
                        }))
                    },
                    Progress::Reject(resp) => {
                        &&& final(self).spec_buf() == b
                        &&& !resp.spec_keep_alive()
                        &&& if b.len() > old(self).spec_limit() {
                            &&& resp.spec_status() == StatusCode::PayloadTooLarge
                            &&& resp.spec_body() == encode_utf8("Request entity too large"@)
                        } else {
                            &&& resp.spec_status() == StatusCode::BadRequest
                            &&& resp.spec_body() == encode_utf8("Bad Request: malformed head"@)
                            &&& match term_from(b, 0) {
                                Some(t) => head_model(b.take(t)) is None,
                                None => false,
                            }
                        }
                    },
                    Progress::Dispatch(req) => {
                        &&& b.len() <= old(self).spec_limit()
                        &&& match declared_total(b) {
                            Some(need) => b.len() >= need && final(self).spec_buf() == b.skip(
                                need,
                            ),
                            None => false,
                        }
                        &&& match term_from(b, 0) {
                            Some(t) => parse_ok(b, req, t + 4),
                            None => false,
                        }
                    },
                }
            }),
    {
        append_bytes(&mut self.buf, chunk);
        if self.buf.len() > self.limit {
            let resp = Response::new(StatusCode::PayloadTooLarge).body(
                "Request entity too large",
            ).keep_alive(false);
            return Progress::Reject(resp);
        }
        let parsed = Request::parse(self.buf.as_slice());
        match parsed {
            Err(RequestError::Incomplete) => Progress::NeedMore,
            Err(_) => {
                let resp = Response::new(StatusCode::BadRequest).body(
                    "Bad Request: malformed head",
                ).keep_alive(false);
                Progress::Reject(resp)
            },
            Ok(p) => {
                let (req, off) = p;
                let cl = match req.content_length() {
                    Some(n) => n,
                    None => 0,
                };
                match off.checked_add(cl) {
                    None => Progress::NeedMore,
                    Some(need) => {
                        if self.buf.len() < need {
                            Progress::NeedMore
                        } else {
                            let rest = vstd::slice::slice_to_vec(
                                vstd::slice::slice_subrange(self.buf.as_slice(), need,
                                self.buf.len()),
                            );
                            proof {
                                assert(rest@ =~= self.buf@.skip(need as int));
                            }
                            self.buf = rest;
                            Progress::Dispatch(req)
                        }
                    },
                }
            },
        }
    }
}

} // verus!
