//! HTTP/1.1 response builder and serializer.
//!
//! A response is built up from a status code, headers, a body and a
//! keep-alive flag, then serialized once into its exact wire bytes.

use vstd::prelude::*;

use crate::headers::{has_name, Headers};
use crate::http::{code_of, reason_of, StatusCode};
use crate::text::{append_bytes, dec_bytes, push_dec};
use vstd::string::StringSliceAdditionalSpecFns;
use vstd::utf8::encode_utf8;

verus! {

/// The two-byte line terminator of the wire format.
pub open spec fn crlf() -> Seq<u8> {
    seq![13u8, 10u8]
}

/// Wire bytes of the status line: `HTTP/1.1 <code> <reason>\r\n`.
pub open spec fn status_line_bytes(st: StatusCode) -> Seq<u8> {
    encode_utf8("HTTP/1.1 "@) + dec_bytes(code_of(st) as nat) + encode_utf8(" "@) + encode_utf8(
        reason_of(st),
    ) + crlf()
}

/// Wire bytes of a header block: one `name: value\r\n` line per entry, in
/// order.
pub open spec fn header_block_bytes(hs: Seq<(Seq<char>, Seq<char>)>) -> Seq<u8>
    decreases hs.len(),
{
    if hs.len() == 0 {
        Seq::empty()
    } else {
        encode_utf8(hs[0].0) + encode_utf8(": "@) + encode_utf8(hs[0].1) + crlf()
            + header_block_bytes(hs.drop_first())
    }
}

/// The headers the serializer appends on its own: a default `Content-Type`
/// when a body is present and none was set, and the `Connection` header.
pub open spec fn extra_headers(
    hs: Seq<(Seq<char>, Seq<char>)>,
    body_len: nat,
    keep_alive: bool,
) -> Seq<(Seq<char>, Seq<char>)> {
    (if body_len > 0 && !has_name(hs, "content-type"@) {
        seq![("Content-Type"@, "text/plain; charset=utf-8"@)]
    } else {
        Seq::empty()
    }) + seq![
        ("Connection"@, if keep_alive {
            "keep-alive"@
        } else {
            "close"@
        }),
    ]
}

/// The exact wire bytes of a serialized response: status line, the caller's
/// headers in insertion order, the automatic headers, a `Content-Length`
/// line that is always last, the blank-line terminator, then the body.
pub open spec fn serialized_bytes(
    st: StatusCode,
    hs: Seq<(Seq<char>, Seq<char>)>,
    body: Seq<u8>,
    keep_alive: bool,
) -> Seq<u8> {
    status_line_bytes(st) + header_block_bytes(hs + extra_headers(hs, body.len(), keep_alive))
        + encode_utf8("Content-Length: "@) + dec_bytes(body.len()) + crlf() + crlf() + body
}

/// An HTTP/1.1 response, ready to be serialized and sent.
#[derive(Debug)]
pub struct Response {
    status: StatusCode,
    headers: Headers,
    body: Vec<u8>,
    keep_alive: bool,
}

impl Response {
    /// The status code of this response.
    pub closed spec fn spec_status(&self) -> StatusCode {
        self.status
    }

    /// The header entries of this response, in insertion order.
    pub closed spec fn spec_headers(&self) -> Seq<(Seq<char>, Seq<char>)> {
        self.headers@
    }

    /// The body bytes of this response.
    pub closed spec fn spec_body(&self) -> Seq<u8> {
        self.body@
    }

    /// Whether this response keeps the connection alive.
    pub closed spec fn spec_keep_alive(&self) -> bool {
        self.keep_alive
    }

    /// Creates a new response with the given status and an empty body.
    /// Keep-alive defaults to `true`.
    pub fn new(status: StatusCode) -> (r: Self)
        ensures
            r.spec_status() == status,
            r.spec_headers() == Seq::<(Seq<char>, Seq<char>)>::empty(),
            r.spec_body() == Seq::<u8>::empty(),
            r.spec_keep_alive(),
    {
        Response { status, headers: Headers::new(), body: Vec::new(), keep_alive: true }
    }

    /// Appends a response header. Multiple calls with the same name are
    /// additive.
    pub fn header(self, name: &str, value: &str) -> (r: Self)
        ensures
            r.spec_status() == self.spec_status(),
            r.spec_headers() == self.spec_headers().push((name@, value@)),
            r.spec_body() == self.spec_body(),
            r.spec_keep_alive() == self.spec_keep_alive(),
    {
        let mut this = self;
        this.headers.insert(name, value);
        this
    }

    /// Appends a header in place, for middleware that decorates a response
    /// coming back from further down the chain.
    pub fn add_header(&mut self, name: &str, value: &str)
        ensures
            final(self).spec_status() == old(self).spec_status(),
            final(self).spec_headers() == old(self).spec_headers().push((name@, value@)),
            final(self).spec_body() == old(self).spec_body(),
            final(self).spec_keep_alive() == old(self).spec_keep_alive(),
    {
        self.headers.insert(name, value);
    }

    /// Sets the response body from a string; the bytes are its UTF-8
    /// encoding. `Content-Length` is computed at serialization time.
    pub fn body(self, body: &str) -> (r: Self)
        ensures
            r.spec_status() == self.spec_status(),
            r.spec_headers() == self.spec_headers(),
            r.spec_body() == encode_utf8(body@),
            r.spec_keep_alive() == self.spec_keep_alive(),
    {
        let mut this = self;
        this.body = vstd::slice::slice_to_vec(body.as_bytes());
        this
    }

    /// Sets the response body from raw bytes.
    pub fn body_bytes(self, body: &[u8]) -> (r: Self)
        ensures
            r.spec_status() == self.spec_status(),
            r.spec_headers() == self.spec_headers(),
            r.spec_body() == body@,
            r.spec_keep_alive() == self.spec_keep_alive(),
    {
        let mut this = self;
        this.body = vstd::slice::slice_to_vec(body);
        this
    }

    /// Controls whether `Connection: keep-alive` or `Connection: close` is
    /// written at serialization time.
    pub fn keep_alive(self, keep_alive: bool) -> (r: Self)
        ensures
            r.spec_status() == self.spec_status(),
            r.spec_headers() == self.spec_headers(),
            r.spec_body() == self.spec_body(),
            r.spec_keep_alive() == keep_alive,
    {
        let mut this = self;
        this.keep_alive = keep_alive;
        this
    }

    /// Returns the status code of this response.
    pub fn status(&self) -> (r: StatusCode)
        ensures
            r == self.spec_status(),
    {
        self.status
    }

    /// Serializes the response into its exact HTTP/1.1 wire bytes,
    /// consuming it.
    ///
    /// Automatically adds `Content-Type: text/plain; charset=utf-8` if the
    /// body is non-empty and no `Content-Type` was set, the `Connection`
    /// header, and an authoritative `Content-Length` as the last header.
    pub fn into_bytes(self) -> (r: Vec<u8>)
        ensures
            r@ == serialized_bytes(
                self.spec_status(),
                self.spec_headers(),
                self.spec_body(),
                self.spec_keep_alive(),
            ),
    {
        let ghost st0 = self.status;
        let ghost hs0 = self.headers@;
        let ghost body0 = self.body@;
        let ghost ka0 = self.keep_alive;
        let mut this = self;
        let content_length = this.body.len();
        if content_length > 0 && !this.headers.contains("content-type") {
            this.headers.insert("Content-Type", "text/plain; charset=utf-8");
        }
        let connection: &str = if this.keep_alive {
            "keep-alive"
        } else {
            "close"
        };
        this.headers.insert("Connection", connection);
        proof {
            assert(this.headers@ =~= hs0 + extra_headers(hs0, body0.len(), ka0));
        }
        let ghost hs = this.headers@;

        let mut out: Vec<u8> = Vec::new();
        append_bytes(&mut out, "HTTP/1.1 ".as_bytes());
        push_dec(&mut out, this.status.as_u16() as u64);
        append_bytes(&mut out, " ".as_bytes());
        append_bytes(&mut out, this.status.canonical_reason().as_bytes());
        out.push(13);
        out.push(10);
        proof {
            assert(out@ =~= status_line_bytes(st0));
        }

        let items = this.headers.iter();
        let n = items.len();
        let ghost base = out@;
        let mut i: usize = 0;
        proof {
            assert(hs.skip(0) =~= hs);
        }
        while i < n
            invariant
                n == items@.len(),
                items@.map_values(|p: (&str, &str)| (p.0@, p.1@)) == hs,
                i <= n,
                base + header_block_bytes(hs) == out@ + header_block_bytes(hs.skip(i as int)),
            decreases n - i,
        {
            proof {
                assert(hs.skip(i as int).drop_first() =~= hs.skip(i + 1));
                assert(hs.skip(i as int)[0] == hs[i as int]);
                assert(hs[i as int] == (items@[i as int].0@, items@[i as int].1@));
            }
            let name: &str = items[i].0;
            let value: &str = items[i].1;
            append_bytes(&mut out, name.as_bytes());
            append_bytes(&mut out, ": ".as_bytes());
            append_bytes(&mut out, value.as_bytes());
            out.push(13);
            out.push(10);
            proof {
                assert(base + header_block_bytes(hs) =~= out@ + header_block_bytes(
                    hs.skip(i + 1),
                ));
            }
            i += 1;
        }
        proof {
            assert(hs.skip(n as int) =~= Seq::<(Seq<char>, Seq<char>)>::empty());
            assert(out@ =~= base + header_block_bytes(hs));
        }

        append_bytes(&mut out, "Content-Length: ".as_bytes());
        push_dec(&mut out, content_length as u64);
        out.push(13);
        out.push(10);
        out.push(13);
        out.push(10);
        append_bytes(&mut out, this.body.as_slice());
        proof {
            assert(out@ =~= serialized_bytes(st0, hs0, body0, ka0));
        }
        out
    }
}

impl Default for Response {
    fn default() -> (r: Self)
        ensures
            r.spec_status() == StatusCode::Okay,
            r.spec_headers() == Seq::<(Seq<char>, Seq<char>)>::empty(),
            r.spec_body() == Seq::<u8>::empty(),
            r.spec_keep_alive(),
    {
        Response::new(StatusCode::Okay)
    }
}

/// Law: serializing a response always writes a `Content-Length` equal to
/// the exact body length, as the last header line, and the body bytes
/// themselves end the output unaltered.
pub proof fn lemma_serialized_content_length(
    st: StatusCode,
    hs: Seq<(Seq<char>, Seq<char>)>,
    body: Seq<u8>,
    keep_alive: bool,
)
    ensures
        ({
            let out = serialized_bytes(st, hs, body, keep_alive);
            let tail = encode_utf8("Content-Length: "@) + dec_bytes(body.len()) + crlf() + crlf()
                + body;
            out.len() >= tail.len() && out.skip(out.len() - tail.len()) =~= tail
        }),
{
    let out = serialized_bytes(st, hs, body, keep_alive);
    let tail = encode_utf8("Content-Length: "@) + dec_bytes(body.len()) + crlf() + crlf() + body;
    let head = status_line_bytes(st) + header_block_bytes(
        hs + extra_headers(hs, body.len(), keep_alive),
    );
    assert(out =~= head + tail);
    assert(out.skip(out.len() - tail.len()) =~= tail);
}

} // verus!
