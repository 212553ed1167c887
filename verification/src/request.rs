//! HTTP/1.1 request parsing.
//!
//! The wire grammar is modelled by spec functions over byte sequences: a
//! request is a head block terminated by a blank CRLF line — a request line
//! and up to [`MAX_HEADERS`] header lines — followed by the body bytes. The
//! executable parser is proved to return exactly what the model describes.

use vstd::prelude::*;

use crate::headers::{first_value, Headers};
use crate::http::{is_method_of, Method};
use crate::text::{bytes_to_string, chars_of, ieq, parse_usize, parse_usize_spec, str_ieq};

verus! {

/// Maximum number of headers accepted per request.
pub const MAX_HEADERS: usize = 64;

/// Errors that can occur while parsing an HTTP/1.1 request.
#[derive(Debug, Clone, PartialEq, Eq)]
pub enum RequestError {
    /// The header block is not terminated yet — more data is needed.
    Incomplete,
    /// The data is malformed and cannot be parsed.
    Parse,
    /// A required field (method, path, version) is absent.
    MissingField { field: &'static str },
    /// The body exceeds the maximum allowed size.
    BodyTooLarge { max_bytes: usize },
}

// ---------------------------------------------------------------------------
// Byte-level grammar model
// ---------------------------------------------------------------------------
/// Whether the blank-line terminator `\r\n\r\n` starts at position `i`.
pub open spec fn is_term_at(b: Seq<u8>, i: int) -> bool {
    &&& 0 <= i
    &&& i + 4 <= b.len()
    &&& b[i] == 13
    &&& b[i + 1] == 10
    &&& b[i + 2] == 13
    &&& b[i + 3] == 10
}

/// Position of the first header-block terminator at or after `i`, if any.
pub open spec fn term_from(b: Seq<u8>, i: int) -> Option<int>
    decreases b.len() - i,
{
    if i < 0 || i + 4 > b.len() {
        None
    } else if is_term_at(b, i) {
        Some(i)
    } else {
        term_from(b, i + 1)
    }
}

/// Position of the first occurrence of byte `x` at or after `i`, if any.
pub open spec fn find_byte_from(s: Seq<u8>, x: u8, i: int) -> Option<int>
    decreases s.len() - i,
{
    if i < 0 || i >= s.len() {
        None
    } else if s[i] == x {
        Some(i)
    } else {
        find_byte_from(s, x, i + 1)
    }
}

/// The head block split at each CRLF, in order. There is always at least
/// one line; a CRLF at the very end contributes a final empty line.
pub open spec fn split_lines(h: Seq<u8>) -> Seq<Seq<u8>>
    decreases h.len(),
{
    if h.len() >= 2 && h[0] == 13 && h[1] == 10 {
        seq![Seq::<u8>::empty()] + split_lines(h.skip(2))
    } else if h.len() >= 1 {
        let rest = split_lines(h.skip(1));
        seq![seq![h[0]] + rest[0]] + rest.skip(1)
    } else {
        seq![Seq::<u8>::empty()]
    }
}

/// `split_lines` always yields at least one line.
pub proof fn lemma_split_lines_len(h: Seq<u8>)
    ensures
        split_lines(h).len() >= 1,
    decreases h.len(),
{
    if h.len() >= 2 && h[0] == 13 && h[1] == 10 {
        lemma_split_lines_len(h.skip(2));
    } else if h.len() >= 1 {
        lemma_split_lines_len(h.skip(1));
    }
}

/// Printable ASCII, the bytes accepted in the request line.
pub open spec fn is_print_byte(b: u8) -> bool {
    33 <= b <= 126
}

/// Bytes accepted in a header name: printable ASCII except the colon.
pub open spec fn is_name_byte(b: u8) -> bool {
    33 <= b <= 126 && b != 58
}

/// Bytes accepted in a header value: horizontal tab, space and printable
/// ASCII.
pub open spec fn is_value_byte(b: u8) -> bool {
    b == 9 || (32 <= b <= 126)
}

/// Optional whitespace around a header value: space or horizontal tab.
pub open spec fn is_ows(b: u8) -> bool {
    b == 32 || b == 9
}

pub open spec fn all_print(s: Seq<u8>) -> bool {
    forall|i: int| 0 <= i < s.len() ==> is_print_byte(#[trigger] s[i])
}

pub open spec fn all_name(s: Seq<u8>) -> bool {
    forall|i: int| 0 <= i < s.len() ==> is_name_byte(#[trigger] s[i])
}

pub open spec fn all_value(s: Seq<u8>) -> bool {
    forall|i: int| 0 <= i < s.len() ==> is_value_byte(#[trigger] s[i])
}

/// The minor version named by a version field: `HTTP/1.0` or `HTTP/1.1`.
pub open spec fn version_minor(v: Seq<u8>) -> Option<int> {
    if chars_of(v) == "HTTP/1.0"@ {
        Some(0int)
    } else if chars_of(v) == "HTTP/1.1"@ {
        Some(1int)
    } else {
        None
    }
}

/// Model of the request line `METHOD SP TARGET SP VERSION`: the method and
/// target are nonempty printable tokens, exactly two spaces occur, and the
/// version field names a supported version.
pub open spec fn request_line_model(l: Seq<u8>) -> Option<(Seq<u8>, Seq<u8>, int)> {
    match find_byte_from(l, 32, 0) {
        None => None,
        Some(i) => match find_byte_from(l, 32, i + 1) {
            None => None,
            Some(j) => {
                let m = l.take(i);
                let t = l.subrange(i + 1, j);
                let v = l.skip(j + 1);
                if m.len() > 0 && all_print(m) && t.len() > 0 && all_print(t) && find_byte_from(
                    l,
                    32,
                    j + 1,
                ) is None {
                    match version_minor(v) {
                        Some(mv) => Some((m, t, mv)),
                        None => None,
                    }
                } else {
                    None
                }
            },
        },
    }
}

/// Leading optional whitespace removed.
pub open spec fn trim_front(v: Seq<u8>) -> Seq<u8>
    decreases v.len(),
{
    if v.len() > 0 && is_ows(v[0]) {
        trim_front(v.drop_first())
    } else {
        v
    }
}

/// Trailing optional whitespace removed.
pub open spec fn trim_back(v: Seq<u8>) -> Seq<u8>
    decreases v.len(),
{
    if v.len() > 0 && is_ows(v[v.len() - 1]) {
        trim_back(v.take(v.len() - 1))
    } else {
        v
    }
}

/// Optional whitespace removed from both ends.
pub open spec fn trim_ows(v: Seq<u8>) -> Seq<u8> {
    trim_back(trim_front(v))
}

/// Model of one header line `name: value`: the name before the first
/// colon, nonempty and of name bytes; the value after it with surrounding
/// whitespace trimmed, of value bytes.
pub open spec fn header_line_model(l: Seq<u8>) -> Option<(Seq<u8>, Seq<u8>)> {
    match find_byte_from(l, 58, 0) {
        None => None,
        Some(c) => {
            let name = l.take(c);
            let val = trim_ows(l.skip(c + 1));
            if name.len() > 0 && all_name(name) && all_value(val) {
                Some((name, val))
            } else {
                None
            }
        },
    }
}

/// Model of a sequence of header lines: all lines must parse.
pub open spec fn headers_model(ls: Seq<Seq<u8>>) -> Option<Seq<(Seq<u8>, Seq<u8>)>>
    decreases ls.len(),
{
    if ls.len() == 0 {
        Some(Seq::<(Seq<u8>, Seq<u8>)>::empty())
    } else {
        match header_line_model(ls[0]) {
            None => None,
            Some(h) => match headers_model(ls.drop_first()) {
                None => None,
                Some(rest) => Some(seq![h] + rest),
            },
        }
    }
}

/// Model of a complete head block (without its terminator): the method,
/// target and minor version of the request line, and the parsed headers,
/// of which there are at most [`MAX_HEADERS`].
pub open spec fn head_model(h: Seq<u8>) -> Option<(Seq<u8>, Seq<u8>, int, Seq<(Seq<u8>, Seq<u8>)>)> {
    let ls = split_lines(h);
    if ls.len() - 1 > MAX_HEADERS as int {
        None
    } else {
        match request_line_model(ls[0]) {
            None => None,
            Some(rl) => match headers_model(ls.skip(1)) {
                None => None,
                Some(hs) => Some((rl.0, rl.1, rl.2, hs)),
            },
        }
    }
}

/// The part of the request target before the first `?`.
pub open spec fn target_path(t: Seq<u8>) -> Seq<u8> {
    match find_byte_from(t, 63, 0) {
        None => t,
        Some(q) => t.take(q),
    }
}

/// The part of the request target after the first `?`, if any.
pub open spec fn target_query(t: Seq<u8>) -> Option<Seq<u8>> {
    match find_byte_from(t, 63, 0) {
        None => None,
        Some(q) => Some(t.skip(q + 1)),
    }
}

// ---------------------------------------------------------------------------
// Executable scanners, proved against the model
// ---------------------------------------------------------------------------
/// Finds the first header-block terminator in `b`.
fn find_terminator(b: &[u8]) -> (r: Option<usize>)
    ensures
        match r {
            Some(j) => term_from(b@, 0) == Some(j as int),
            None => term_from(b@, 0) is None,
        },
{
    let n = b.len();
    if n < 4 {
        return None;
    }
    let mut i: usize = 0;
    while i <= n - 4
        invariant
            n == b@.len(),
            4 <= n,
            i <= n - 3,
            term_from(b@, 0) == term_from(b@, i as int),
        decreases n - i,
    {
        if b[i] == 13 && b[i + 1] == 10 && b[i + 2] == 13 && b[i + 3] == 10 {
            return Some(i);
        }
        i += 1;
    }
    None
}

/// Finds the first occurrence of `x` in `s` at or after `from`.
fn find_byte(s: &[u8], x: u8, from: usize) -> (r: Option<usize>)
    ensures
        match r {
            Some(j) => find_byte_from(s@, x, from as int) == Some(j as int) && from <= j < s@.len(),
            None => find_byte_from(s@, x, from as int) is None,
        },
{
    let n = s.len();
    let mut i: usize = from;
    while i < n
        invariant
            n == s@.len(),
            from <= i,
            find_byte_from(s@, x, from as int) == find_byte_from(s@, x, i as int),
        decreases n - i,
    {
        if s[i] == x {
            return Some(i);
        }
        i += 1;
    }
    None
}

/// Splits the head block into its CRLF-separated lines.
fn split_head_lines(h: &[u8]) -> (r: Vec<Vec<u8>>)
    ensures
        r@.map_values(|v: Vec<u8>| v@) == split_lines(h@),
{
    let n = h.len();
    let mut done: Vec<Vec<u8>> = Vec::new();
    let mut cur: Vec<u8> = Vec::new();
    let mut i: usize = 0;
    proof {
        lemma_split_lines_len(h@.skip(0));
        assert(h@.skip(0) =~= h@);
        assert(done@.map_values(|v: Vec<u8>| v@) + seq![cur@ + split_lines(h@)[0]] + split_lines(
            h@,
        ).skip(1) =~= split_lines(h@));
    }
    while i < n
        invariant
            n == h@.len(),
            i <= n,
            split_lines(h@) == done@.map_values(|v: Vec<u8>| v@) + seq![
                cur@ + split_lines(h@.skip(i as int))[0],
            ] + split_lines(h@.skip(i as int)).skip(1),
        decreases n - i,
    {
        let ghost rem = h@.skip(i as int);
        proof {
            lemma_split_lines_len(rem);
            assert(rem[0] == h@[i as int]);
        }
        if i + 1 < n && h[i] == 13 && h[i + 1] == 10 {
            proof {
                assert(rem.len() >= 2 && rem[0] == 13 && rem[1] == 10);
                assert(rem.skip(2) =~= h@.skip(i + 2));
                lemma_split_lines_len(h@.skip(i + 2));
            }
            let ghost prevdone = done@;
            let ghost prevcur = cur@;
            done.push(cur);
            cur = Vec::new();
            proof {
                assert(done@.map_values(|v: Vec<u8>| v@) =~= prevdone.map_values(|v: Vec<u8>| v@)
                    + seq![prevcur]);
                assert(split_lines(h@) =~= done@.map_values(|v: Vec<u8>| v@) + seq![
                    cur@ + split_lines(h@.skip(i + 2))[0],
                ] + split_lines(h@.skip(i + 2)).skip(1));
            }
            i += 2;
        } else {
            proof {
                assert(!(rem.len() >= 2 && rem[0] == 13 && rem[1] == 10));
                assert(rem.skip(1) =~= h@.skip(i + 1));
                lemma_split_lines_len(h@.skip(i + 1));
            }
            let ghost prevcur = cur@;
            cur.push(h[i]);
            proof {
                assert(cur@ =~= prevcur.push(h@[i as int]));
                assert(cur@ + split_lines(h@.skip(i + 1))[0] =~= prevcur + (seq![h@[i as int]]
                    + split_lines(h@.skip(i + 1))[0]));
                assert(split_lines(rem) =~= seq![seq![rem[0]] + split_lines(rem.skip(1))[0]]
                    + split_lines(rem.skip(1)).skip(1));
                assert(split_lines(h@) =~= done@.map_values(|v: Vec<u8>| v@) + seq![
                    cur@ + split_lines(h@.skip(i + 1))[0],
                ] + split_lines(h@.skip(i + 1)).skip(1));
            }
            i += 1;
        }
    }
    proof {
        assert(h@.skip(n as int) =~= Seq::<u8>::empty());
        assert(split_lines(h@.skip(n as int)) =~= seq![Seq::<u8>::empty()]);
        assert(cur@ + split_lines(h@.skip(n as int))[0] =~= cur@);
    }
    let ghost prevdone = done@;
    done.push(cur);
    proof {
        assert(done@.map_values(|v: Vec<u8>| v@) =~= prevdone.map_values(|v: Vec<u8>| v@)
            + seq![cur@]);
        assert(done@.map_values(|v: Vec<u8>| v@) =~= split_lines(h@));
    }
    done
}

/// Checks that every byte is printable ASCII.
fn all_print_exec(s: &[u8]) -> (r: bool)
    ensures
        r == all_print(s@),
{
    let n = s.len();
    let mut i: usize = 0;
    while i < n
        invariant
            n == s@.len(),
            i <= n,
            forall|j: int| 0 <= j < i ==> is_print_byte(#[trigger] s@[j]),
        decreases n - i,
    {
        if s[i] < 33 || s[i] > 126 {
            proof {
                assert(!is_print_byte(s@[i as int]));
            }
            return false;
        }
        i += 1;
    }
    true
}

/// Checks that every byte is a header-name byte.
fn all_name_exec(s: &[u8]) -> (r: bool)
    ensures
        r == all_name(s@),
{
    let n = s.len();
    let mut i: usize = 0;
    while i < n
        invariant
            n == s@.len(),
            i <= n,
            forall|j: int| 0 <= j < i ==> is_name_byte(#[trigger] s@[j]),
        decreases n - i,
    {
        if s[i] < 33 || s[i] > 126 || s[i] == 58 {
            proof {
                assert(!is_name_byte(s@[i as int]));
            }
            return false;
        }
        i += 1;
    }
    true
}

/// Checks that every byte is a header-value byte.
fn all_value_exec(s: &[u8]) -> (r: bool)
    ensures
        r == all_value(s@),
{
    let n = s.len();
    let mut i: usize = 0;
    while i < n
        invariant
            n == s@.len(),
            i <= n,
            forall|j: int| 0 <= j < i ==> is_value_byte(#[trigger] s@[j]),
        decreases n - i,
    {
        if !(s[i] == 9 || (32 <= s[i] && s[i] <= 126)) {
            proof {
                assert(!is_value_byte(s@[i as int]));
            }
            return false;
        }
        i += 1;
    }
    true
}

/// Parses the request line into method, target bytes and minor version.
fn parse_request_line(l: &[u8]) -> (r: Option<(Method, Vec<u8>, u8)>)
    ensures
        match r {
            Some(p) => match request_line_model(l@) {
                Some(rl) => is_method_of(chars_of(rl.0), p.0) && p.1@ == rl.1 && p.2 as int
                    == rl.2,
                None => false,
            },
            None => request_line_model(l@) is None,
        },
{
    let n = l.len();
    let i = match find_byte(l, 32, 0) {
        None => {
            return None;
        },
        Some(i) => i,
    };
    let j = match find_byte(l, 32, i + 1) {
        None => {
            return None;
        },
        Some(j) => j,
    };
    match find_byte(l, 32, j + 1) {
        Some(_) => {
            return None;
        },
        None => {},
    }
    let m = vstd::slice::slice_subrange(l, 0, i);
    let t = vstd::slice::slice_subrange(l, i + 1, j);
    let v = vstd::slice::slice_subrange(l, j + 1, l.len());
    if m.len() == 0 || !all_print_exec(m) {
        return None;
    }
    if t.len() == 0 || !all_print_exec(t) {
        return None;
    }
    proof {
        assert(v@ =~= l@.skip(j + 1));
    }
    let vs = bytes_to_string(v);
    let minor: u8 = if crate::text::str_eq(vs.as_str(), "HTTP/1.0") {
        0
    } else if crate::text::str_eq(vs.as_str(), "HTTP/1.1") {
        1
    } else {
        return None;
    };
    let ms = bytes_to_string(m);
    let method = Method::parse(ms.as_str());
    let target = vstd::slice::slice_to_vec(t);
    Some((method, target, minor))
}

/// Parses one header line into its name and trimmed value.
fn parse_header_line(l: &[u8]) -> (r: Option<(String, String)>)
    ensures
        match r {
            Some(p) => match header_line_model(l@) {
                Some(h) => p.0@ == chars_of(h.0) && p.1@ == chars_of(h.1),
                None => false,
            },
            None => header_line_model(l@) is None,
        },
{
    let c = match find_byte(l, 58, 0) {
        None => {
            return None;
        },
        Some(c) => c,
    };
    let name_b = vstd::slice::slice_subrange(l, 0, c);
    proof {
        assert(name_b@ =~= l@.take(c as int));
    }
    if name_b.len() == 0 || !all_name_exec(name_b) {
        return None;
    }
    let n = l.len();
    let mut a = c + 1;
    proof {
        assert(trim_front(l@.skip(c + 1)) == trim_front(l@.skip(a as int)));
    }
    while a < n && (l[a] == 32 || l[a] == 9)
        invariant
            n == l@.len(),
            c + 1 <= a <= n,
            trim_front(l@.skip(c + 1)) == trim_front(l@.skip(a as int)),
        decreases n - a,
    {
        proof {
            assert(l@.skip(a as int)[0] == l@[a as int]);
            assert(l@.skip(a as int).drop_first() =~= l@.skip(a + 1));
        }
        a += 1;
    }
    proof {
        assert(trim_front(l@.skip(c + 1)) =~= l@.skip(a as int));
    }
    let mut b = n;
    proof {
        assert(l@.subrange(a as int, b as int) =~= l@.skip(a as int));
    }
    while b > a && (l[b - 1] == 32 || l[b - 1] == 9)
        invariant
            n == l@.len(),
            a <= b <= n,
            trim_back(l@.skip(a as int)) == trim_back(l@.subrange(a as int, b as int)),
        decreases b,
    {
        proof {
            let sub = l@.subrange(a as int, b as int);
            assert(sub[sub.len() - 1] == l@[b - 1]);
            assert(sub.take(sub.len() - 1) =~= l@.subrange(a as int, b - 1));
        }
        b -= 1;
    }
    proof {
        assert(trim_back(l@.subrange(a as int, b as int)) =~= l@.subrange(a as int, b as int));
        assert(trim_ows(l@.skip(c + 1)) =~= l@.subrange(a as int, b as int));
    }
    let val_b = vstd::slice::slice_subrange(l, a, b);
    if !all_value_exec(val_b) {
        return None;
    }
    Some((bytes_to_string(name_b), bytes_to_string(val_b)))
}

/// A found terminator is a real terminator, at or after the start index.
pub proof fn lemma_term_from_some(b: Seq<u8>, i: int)
    ensures
        match term_from(b, i) {
            Some(j) => is_term_at(b, j) && i <= j,
            None => true,
        },
    decreases b.len() - i,
{
    if !(i < 0 || i + 4 > b.len()) && !is_term_at(b, i) {
        lemma_term_from_some(b, i + 1);
    }
}

// ---------------------------------------------------------------------------
// Query strings
// ---------------------------------------------------------------------------
/// One character of query decoding: `+` becomes a space.
pub open spec fn plus_char(c: char) -> char {
    if c == '+' {
        ' '
    } else {
        c
    }
}

/// Query decoding of a string: every `+` becomes a space.
pub open spec fn plus_to_space(s: Seq<char>) -> Seq<char> {
    s.map_values(|c: char| plus_char(c))
}

/// Key and value of one `&`-separated query segment: split at the first
/// `=`, a missing value defaults to empty, `+` decodes to space in both.
pub open spec fn pair_of(seg: Seq<char>) -> (Seq<char>, Seq<char>)
    decreases seg.len(),
{
    if seg.len() == 0 {
        (Seq::<char>::empty(), Seq::<char>::empty())
    } else if seg[0] == '=' {
        (Seq::<char>::empty(), plus_to_space(seg.drop_first()))
    } else {
        let rest = pair_of(seg.drop_first());
        (seq![plus_char(seg[0])] + rest.0, rest.1)
    }
}

/// The `&`-separated segments of a query string, in order. An empty query
/// has one empty segment.
pub open spec fn qs_segments(q: Seq<char>) -> Seq<Seq<char>>
    decreases q.len(),
{
    if q.len() == 0 {
        seq![Seq::<char>::empty()]
    } else if q[0] == '&' {
        seq![Seq::<char>::empty()] + qs_segments(q.drop_first())
    } else {
        let rest = qs_segments(q.drop_first());
        seq![seq![q[0]] + rest[0]] + rest.skip(1)
    }
}

/// `qs_segments` always yields at least one segment.
pub proof fn lemma_qs_segments_len(q: Seq<char>)
    ensures
        qs_segments(q).len() >= 1,
    decreases q.len(),
{
    if q.len() > 0 {
        lemma_qs_segments_len(q.drop_first());
    }
}

/// All key/value pairs of a query string, in order, duplicates kept.
pub open spec fn qs_pairs(q: Seq<char>) -> Seq<(Seq<char>, Seq<char>)> {
    qs_segments(q).map_values(|s: Seq<char>| pair_of(s))
}

/// The value of the last pair with the given key, if any: on repeated
/// keys the last occurrence wins in point lookups.
pub open spec fn last_pair_value(ps: Seq<(Seq<char>, Seq<char>)>, key: Seq<char>) -> Option<
    Seq<char>,
>
    decreases ps.len(),
{
    if ps.len() == 0 {
        None
    } else if ps[ps.len() - 1].0 == key {
        Some(ps[ps.len() - 1].1)
    } else {
        last_pair_value(ps.take(ps.len() - 1), key)
    }
}

/// Builds the query decoding of a string: every `+` replaced by a space.
fn plus_str(s: &str) -> (r: String)
    ensures
        r@ == plus_to_space(s@),
{
    let n = s.unicode_len();
    let mut out = String::new();
    let mut i: usize = 0;
    proof {
        assert(out@ =~= plus_to_space(s@.take(0)));
    }
    while i < n
        invariant
            n == s@.len(),
            i <= n,
            out@ == plus_to_space(s@.take(i as int)),
        decreases n - i,
    {
        let ghost prev = out@;
        if s.get_char(i) == '+' {
            out.append(" ");
            proof {
                reveal_strlit(" ");
                assert(" "@ =~= seq![' ']);
            }
        } else {
            let piece = s.substring_char(i, i + 1);
            out.append(piece);
            proof {
                assert(piece@ =~= seq![s@[i as int]]);
            }
        }
        proof {
            assert(out@ =~= prev.push(plus_char(s@[i as int])));
            assert(plus_to_space(s@.take(i + 1)) =~= plus_to_space(s@.take(i as int)).push(
                plus_char(s@[i as int]),
            ));
        }
        i += 1;
    }
    proof {
        assert(s@.take(n as int) =~= s@);
    }
    out
}

/// Splits one query segment into its decoded key and value.
fn parse_pair(seg: &str) -> (r: (String, String))
    ensures
        (r.0@, r.1@) == pair_of(seg@),
{
    let n = seg.unicode_len();
    let mut key = String::new();
    let mut i: usize = 0;
    proof {
        assert(seg@.skip(0) =~= seg@);
        assert(key@ + pair_of(seg@).0 =~= pair_of(seg@).0);
    }
    while i < n
        invariant
            n == seg@.len(),
            i <= n,
            pair_of(seg@).0 == key@ + pair_of(seg@.skip(i as int)).0,
            pair_of(seg@).1 == pair_of(seg@.skip(i as int)).1,
        decreases n - i,
    {
        let ghost rem = seg@.skip(i as int);
        proof {
            assert(rem[0] == seg@[i as int]);
            assert(rem.drop_first() =~= seg@.skip(i + 1));
        }
        let c = seg.get_char(i);
        if c == '=' {
            let tail = seg.substring_char(i + 1, n);
            let value = plus_str(tail);
            proof {
                assert(tail@ =~= seg@.skip(i + 1));
                assert(pair_of(rem).0 =~= Seq::<char>::empty());
                assert(key@ + pair_of(rem).0 =~= key@);
            }
            return (key, value);
        }
        let ghost prevkey = key@;
        if c == '+' {
            key.append(" ");
            proof {
                reveal_strlit(" ");
                assert(" "@ =~= seq![' ']);
            }
        } else {
            let piece = seg.substring_char(i, i + 1);
            key.append(piece);
            proof {
                assert(piece@ =~= seq![seg@[i as int]]);
            }
        }
        proof {
            assert(key@ =~= prevkey.push(plus_char(seg@[i as int])));
            assert(pair_of(rem).0 =~= seq![plus_char(rem[0])] + pair_of(seg@.skip(i + 1)).0);
            assert(key@ + pair_of(seg@.skip(i + 1)).0 =~= prevkey + pair_of(rem).0);
        }
        i += 1;
    }
    proof {
        assert(seg@.skip(n as int) =~= Seq::<char>::empty());
        assert(pair_of(seg@.skip(n as int)).0 =~= Seq::<char>::empty());
        assert(key@ + pair_of(seg@.skip(n as int)).0 =~= key@);
    }
    (key, String::new())
}

/// Parses a URL query string (`key=value&key2=value2`) into its pairs, in
/// order, duplicates kept. `+` decodes to a space in keys and values; a
/// missing value defaults to the empty string. Point lookups elsewhere
/// return the last occurrence of a repeated key.
pub fn parse_query_string(query: &str) -> (r: Vec<(String, String)>)
    ensures
        r@.map_values(|p: (String, String)| (p.0@, p.1@)) == qs_pairs(query@),
{
    let n = query.unicode_len();
    let mut segs: Vec<&str> = Vec::new();
    let mut start: usize = 0;
    let mut i: usize = 0;
    proof {
        lemma_qs_segments_len(query@.skip(0));
        assert(query@.skip(0) =~= query@);
        assert(segs@.map_values(|s: &str| s@) + seq![
            query@.subrange(0, 0) + qs_segments(query@)[0],
        ] + qs_segments(query@).skip(1) =~= qs_segments(query@));
    }
    while i < n
        invariant
            n == query@.len(),
            start <= i <= n,
            qs_segments(query@) == segs@.map_values(|s: &str| s@) + seq![
                query@.subrange(start as int, i as int) + qs_segments(query@.skip(i as int))[0],
            ] + qs_segments(query@.skip(i as int)).skip(1),
        decreases n - i,
    {
        let ghost rem = query@.skip(i as int);
        proof {
            lemma_qs_segments_len(rem);
            assert(rem[0] == query@[i as int]);
            assert(rem.drop_first() =~= query@.skip(i + 1));
            lemma_qs_segments_len(query@.skip(i + 1));
        }
        if query.get_char(i) == '&' {
            let ghost prevsegs = segs@;
            let piece = query.substring_char(start, i);
            segs.push(piece);
            proof {
                assert(piece@ =~= query@.subrange(start as int, i as int));
                assert(segs@.map_values(|s: &str| s@) =~= prevsegs.map_values(|s: &str| s@)
                    + seq![query@.subrange(start as int, i as int)]);
                assert(qs_segments(rem) =~= seq![Seq::<char>::empty()] + qs_segments(
                    query@.skip(i + 1),
                ));
                assert(qs_segments(query@) =~= segs@.map_values(|s: &str| s@) + seq![
                    query@.subrange(i + 1, i + 1) + qs_segments(query@.skip(i + 1))[0],
                ] + qs_segments(query@.skip(i + 1)).skip(1));
            }
            start = i + 1;
        } else {
            proof {
                assert(qs_segments(rem) =~= seq![seq![rem[0]] + qs_segments(query@.skip(i + 1))[0]]
                    + qs_segments(query@.skip(i + 1)).skip(1));
                assert(query@.subrange(start as int, i + 1) + qs_segments(query@.skip(i + 1))[0]
                    =~= query@.subrange(start as int, i as int) + (seq![query@[i as int]]
                    + qs_segments(query@.skip(i + 1))[0]));
                assert(qs_segments(query@) =~= segs@.map_values(|s: &str| s@) + seq![
                    query@.subrange(start as int, i + 1) + qs_segments(query@.skip(i + 1))[0],
                ] + qs_segments(query@.skip(i + 1)).skip(1));
            }
        }
        i += 1;
    }
    let ghost prevsegs = segs@;
    let piece = query.substring_char(start, n);
    segs.push(piece);
    proof {
        assert(query@.skip(n as int) =~= Seq::<char>::empty());
        assert(qs_segments(query@.skip(n as int)) =~= seq![Seq::<char>::empty()]);
        assert(piece@ =~= query@.subrange(start as int, n as int));
        assert(piece@ =~= query@.subrange(start as int, n as int) + qs_segments(
            query@.skip(n as int),
        )[0]);
        assert(segs@.map_values(|s: &str| s@) =~= qs_segments(query@));
    }
    let m = segs.len();
    let mut out: Vec<(String, String)> = Vec::new();
    let mut k: usize = 0;
    proof {
        assert(out@.map_values(|p: (String, String)| (p.0@, p.1@)) =~= qs_pairs(query@).take(0));
    }
    while k < m
        invariant
            m == segs@.len(),
            k <= m,
            segs@.map_values(|s: &str| s@) == qs_segments(query@),
            out@.map_values(|p: (String, String)| (p.0@, p.1@)) == qs_pairs(query@).take(k as int),
        decreases m - k,
    {
        let ghost prevout = out@;
        let pair = parse_pair(segs[k]);
        out.push(pair);
        proof {
            assert(qs_pairs(query@)[k as int] == pair_of(qs_segments(query@)[k as int]));
            assert(segs@[k as int]@ == qs_segments(query@)[k as int]);
            assert(out@.map_values(|p: (String, String)| (p.0@, p.1@)) =~= prevout.map_values(
                |p: (String, String)| (p.0@, p.1@),
            ).push(pair_of(qs_segments(query@)[k as int])));
            assert(qs_pairs(query@).take(k + 1) =~= qs_pairs(query@).take(k as int).push(
                qs_pairs(query@)[k as int],
            ));
        }
        k += 1;
    }
    proof {
        assert(qs_pairs(query@).take(m as int) =~= qs_pairs(query@));
    }
    out
}

// ---------------------------------------------------------------------------
// The request type
// ---------------------------------------------------------------------------
/// A fully parsed HTTP/1.1 request, created by [`Request::parse`].
#[derive(Debug)]
pub struct Request {
    method: Method,
    path: String,
    version: u8,
    headers: Headers,
    query: Option<String>,
    body: Vec<u8>,
    params: Vec<(String, String)>,
}

impl Request {
    /// The request method.
    pub closed spec fn spec_method(&self) -> Method {
        self.method
    }

    /// The request path, without the query string.
    pub closed spec fn spec_path(&self) -> Seq<char> {
        self.path@
    }

    /// The HTTP minor version: 0 or 1.
    pub closed spec fn spec_version(&self) -> u8 {
        self.version
    }

    /// The header entries, in wire order.
    pub closed spec fn spec_headers(&self) -> Seq<(Seq<char>, Seq<char>)> {
        self.headers@
    }

    /// The raw query string, without the leading `?`, if any.
    pub closed spec fn spec_query(&self) -> Option<Seq<char>> {
        match self.query {
            Some(ref q) => Some(q@),
            None => None,
        }
    }

    /// The body bytes.
    pub closed spec fn spec_body(&self) -> Seq<u8> {
        self.body@
    }

    /// The decoded query pairs, in order, duplicates kept.
    pub closed spec fn spec_params(&self) -> Seq<(Seq<char>, Seq<char>)> {
        self.params@.map_values(|p: (String, String)| (p.0@, p.1@))
    }
}

/// What a successful parse returns: the offset is just past the first
/// header-block terminator, and every field of the request is the one the
/// head model describes, with the body being every byte after the
/// terminator.
pub open spec fn parse_ok(b: Seq<u8>, req: Request, off: int) -> bool {
    &&& term_from(b, 0) == Some(off - 4)
    &&& match head_model(b.take(off - 4)) {
        None => false,
        Some(hm) => {
            &&& is_method_of(chars_of(hm.0), req.spec_method())
            &&& req.spec_path() == chars_of(target_path(hm.1))
            &&& req.spec_version() as int == hm.2
            &&& req.spec_headers() == hm.3.map_values(
                |p: (Seq<u8>, Seq<u8>)| (chars_of(p.0), chars_of(p.1)),
            )
            &&& req.spec_query() == match target_query(hm.1) {
                None => None::<Seq<char>>,
                Some(q) => Some(chars_of(q)),
            }
            &&& req.spec_params() == match target_query(hm.1) {
                None => Seq::<(Seq<char>, Seq<char>)>::empty(),
                Some(q) => qs_pairs(chars_of(q)),
            }
            &&& req.spec_body() == b.skip(off)
        },
    }
}

impl Request {
    /// Parses a raw HTTP/1.1 request from a byte buffer.
    ///
    /// On success returns the request and the byte offset where the body
    /// begins, right after the blank-line terminator. `Incomplete` means
    /// the terminator has not arrived yet — read more and retry; `Parse`
    /// means the head block is malformed.
    pub fn parse(buf: &[u8]) -> (r: Result<(Request, usize), RequestError>)
        ensures
            match r {
                Ok(p) => parse_ok(buf@, p.0, p.1 as int),
                Err(e) => match e {
                    RequestError::Incomplete => term_from(buf@, 0) is None,
                    RequestError::Parse => match term_from(buf@, 0) {
                        Some(t) => head_model(buf@.take(t)) is None,
                        None => false,
                    },
                    _ => false,
                },
            },
    {
        let buf_len = buf.len();
        let ti = match find_terminator(buf) {
            None => {
                return Err(RequestError::Incomplete);
            },
            Some(t) => t,
        };
        proof {
            lemma_term_from_some(buf@, 0);
        }
        let off = ti + 4;
        let head = vstd::slice::slice_subrange(buf, 0, ti);
        let ghost hseq = buf@.take(ti as int);
        proof {
            assert(head@ =~= hseq);
        }
        let lines = split_head_lines(head);
        let ghost lsv = lines@.map_values(|v: Vec<u8>| v@);
        proof {
            lemma_split_lines_len(hseq);
        }
        let nlines = lines.len();
        if nlines - 1 > MAX_HEADERS {
            return Err(RequestError::Parse);
        }
        let rl = match parse_request_line(lines[0].as_slice()) {
            None => {
                proof {
                    assert(lsv[0] == lines@[0]@);
                }
                return Err(RequestError::Parse);
            },
            Some(rl) => rl,
        };
        proof {
            assert(lsv[0] == lines@[0]@);
        }
        let (method, target, minor) = rl;

        let mut hmap = Headers::new();
        let ghost mut done: Seq<(Seq<u8>, Seq<u8>)> = Seq::empty();
        let mut i: usize = 1;
        proof {
            assert(hmap@ =~= done.map_values(|p: (Seq<u8>, Seq<u8>)| (chars_of(p.0), chars_of(
                p.1,
            ))));
            if headers_model(lsv.skip(1)) is Some {
                assert(done + headers_model(lsv.skip(1)).unwrap() =~= headers_model(
                    lsv.skip(1),
                ).unwrap());
            }
        }
        while i < nlines
            invariant
                1 <= i <= nlines,
                nlines == lines@.len(),
                lsv == lines@.map_values(|v: Vec<u8>| v@),
                term_from(buf@, 0) == Some(ti as int),
                hseq == buf@.take(ti as int),
                split_lines(hseq) == lsv,
                hmap@ == done.map_values(|p: (Seq<u8>, Seq<u8>)| (chars_of(p.0), chars_of(p.1))),
                match headers_model(lsv.skip(i as int)) {
                    Some(rest) => headers_model(lsv.skip(1)) == Some(done + rest),
                    None => headers_model(lsv.skip(1)) is None,
                },
            decreases nlines - i,
        {
            proof {
                assert(lsv.skip(i as int)[0] == lsv[i as int]);
                assert(lsv.skip(i as int).drop_first() =~= lsv.skip(i + 1));
                assert(lsv[i as int] == lines@[i as int]@);
            }
            match parse_header_line(lines[i].as_slice()) {
                None => {
                    proof {
                        assert(headers_model(lsv.skip(i as int)) is None);
                        assert(split_lines(hseq) == lsv);
                        assert(head_model(hseq) is None);
                    }
                    return Err(RequestError::Parse);
                },
                Some(p) => {
                    let (name, value) = p;
                    let ghost h = choose|h: (Seq<u8>, Seq<u8>)|
                        header_line_model(lsv[i as int]) == Some(h);
                    let ghost prevdone = done;
                    let ghost prevmap = hmap@;
                    hmap.insert(name.as_str(), value.as_str());
                    proof {
                        done = done.push(h);
                        assert(hmap@ =~= prevmap.push((chars_of(h.0), chars_of(h.1))));
                        assert(done.map_values(
                            |p: (Seq<u8>, Seq<u8>)| (chars_of(p.0), chars_of(p.1)),
                        ) =~= prevdone.map_values(
                            |p: (Seq<u8>, Seq<u8>)| (chars_of(p.0), chars_of(p.1)),
                        ).push((chars_of(h.0), chars_of(h.1))));
                        match headers_model(lsv.skip(i + 1)) {
                            Some(rest) => {
                                assert(headers_model(lsv.skip(i as int)) == Some(
                                    seq![h] + rest,
                                ));
                                assert(prevdone + (seq![h] + rest) =~= done + rest);
                            },
                            None => {},
                        }
                    }
                },
            }
            i += 1;
        }
        proof {
            assert(lsv.skip(nlines as int) =~= Seq::<Seq<u8>>::empty());
            assert(headers_model(lsv.skip(nlines as int)) == Some(
                Seq::<(Seq<u8>, Seq<u8>)>::empty(),
            ));
            assert(done + Seq::<(Seq<u8>, Seq<u8>)>::empty() =~= done);
        }

        let tlen = target.len();
        let qpos = find_byte(target.as_slice(), 63, 0);
        let (path_s, query_opt, params): (String, Option<String>, Vec<(String, String)>) =
            match qpos {
            None => (bytes_to_string(target.as_slice()), None, Vec::new()),
            Some(q) => {
                let pb = vstd::slice::slice_subrange(target.as_slice(), 0, q);
                let qb = vstd::slice::slice_subrange(target.as_slice(), q + 1, tlen);
                let qs = bytes_to_string(qb);
                let ps = parse_query_string(qs.as_str());
                proof {
                    assert(pb@ =~= target@.take(q as int));
                    assert(qb@ =~= target@.skip(q + 1));
                }
                (bytes_to_string(pb), Some(qs), ps)
            },
        };

        let body = vstd::slice::slice_to_vec(vstd::slice::slice_subrange(buf, off, buf_len));
        proof {
            assert(buf@.subrange(off as int, buf@.len() as int) =~= buf@.skip(off as int));
        }

        let req = Request {
            method,
            path: path_s,
            version: minor,
            headers: hmap,
            query: query_opt,
            body,
            params,
        };
        proof {
            assert(split_lines(hseq) == lsv);
            let rlm = choose|rlm: (Seq<u8>, Seq<u8>, int)|
                request_line_model(lsv[0]) == Some(rlm);
            assert(head_model(hseq) == Some((rlm.0, rlm.1, rlm.2, done)));
            assert(req.spec_params() =~= req.params@.map_values(
                |p: (String, String)| (p.0@, p.1@),
            ));
            match find_byte_from(rlm.1, 63, 0) {
                None => {
                    assert(req.spec_params() =~= Seq::<(Seq<char>, Seq<char>)>::empty());
                },
                Some(_) => {},
            }
            assert(parse_ok(buf@, req, off as int));
        }
        Ok((req, off))
    }

    /// Returns the HTTP method.
    pub fn method(&self) -> (r: &Method)
        ensures
            *r == self.spec_method(),
    {
        &self.method
    }

    /// Returns the request path (without the query string).
    pub fn path(&self) -> (r: &str)
        ensures
            r@ == self.spec_path(),
    {
        self.path.as_str()
    }

    /// Returns the HTTP minor version number (0 = HTTP/1.0, 1 = HTTP/1.1).
    pub fn version(&self) -> (r: u8)
        ensures
            r == self.spec_version(),
    {
        self.version
    }

    /// Returns the request headers.
    pub fn headers(&self) -> (r: &Headers)
        ensures
            r@ == self.spec_headers(),
    {
        &self.headers
    }

    /// Returns the raw query string (without the leading `?`), if any.
    pub fn query_string(&self) -> (r: Option<&str>)
        ensures
            match r {
                Some(q) => self.spec_query() == Some(q@),
                None => self.spec_query() is None,
            },
    {
        match &self.query {
            Some(q) => Some(q.as_str()),
            None => None,
        }
    }

    /// Returns a decoded query parameter by key; on repeated keys the last
    /// occurrence wins.
    pub fn query_param(&self, key: &str) -> (r: Option<&str>)
        ensures
            match r {
                Some(v) => last_pair_value(self.spec_params(), key@) == Some(v@),
                None => last_pair_value(self.spec_params(), key@) is None,
            },
    {
        let n = self.params.len();
        let mut i = n;
        proof {
            assert(self.spec_params().take(n as int) =~= self.spec_params());
        }
        while i > 0
            invariant
                i <= n,
                n == self.params@.len(),
                last_pair_value(self.spec_params(), key@) == last_pair_value(
                    self.spec_params().take(i as int),
                    key@,
                ),
            decreases i,
        {
            i -= 1;
            proof {
                assert(self.spec_params().take(i + 1)[i as int] == self.spec_params()[i as int]);
                assert(self.spec_params().take(i + 1).take(i as int) =~= self.spec_params().take(
                    i as int,
                ));
            }
            if crate::text::str_eq(self.params[i].0.as_str(), key) {
                return Some(self.params[i].1.as_str());
            }
        }
        None
    }

    /// Returns the request body bytes.
    pub fn body(&self) -> (r: &Vec<u8>)
        ensures
            r@ == self.spec_body(),
    {
        &self.body
    }

    /// Whether the connection should be kept alive after this request: an
    /// explicit `Connection` header decides case-insensitively; without
    /// one, HTTP/1.1 keeps the connection and HTTP/1.0 closes it.
    pub fn is_keep_alive(&self) -> (r: bool)
        ensures
            r == keep_alive_spec(self.spec_headers(), self.spec_version()),
    {
        match self.headers.get("connection") {
            Some(conn) => str_ieq(conn, "keep-alive"),
            None => self.version == 1,
        }
    }

    /// Returns the value of the `Content-Length` header parsed as a
    /// `usize`, if present and well-formed.
    pub fn content_length(&self) -> (r: Option<usize>)
        ensures
            match r {
                Some(n) => content_length_spec(self.spec_headers()) == Some(n as int),
                None => content_length_spec(self.spec_headers()) is None,
            },
    {
        match self.headers.get("content-length") {
            None => None,
            Some(v) => parse_usize(v),
        }
    }
}

/// The keep-alive determination of a request.
pub open spec fn keep_alive_spec(hs: Seq<(Seq<char>, Seq<char>)>, version: u8) -> bool {
    match first_value(hs, "connection"@) {
        Some(v) => ieq(v, "keep-alive"@),
        None => version == 1,
    }
}

/// The declared content length of a request, if present and well-formed.
pub open spec fn content_length_spec(hs: Seq<(Seq<char>, Seq<char>)>) -> Option<int> {
    match first_value(hs, "content-length"@) {
        None => None,
        Some(v) => parse_usize_spec(v),
    }
}

} // verus!
