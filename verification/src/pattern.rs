//! Route patterns: compilation of a pattern string into a matcher, and
//! matching of candidate paths with named captures.
//!
//! Three pattern styles exist: an exact literal path (`/users`), a
//! parameterized path with `:name` captures (`/users/:id`), and a prefix
//! wildcard (`/files/*`). A trailing slash (except on the bare root) is
//! stripped from both patterns and paths, so `/users/` and `/users` are
//! equivalent.

use vstd::prelude::*;

use crate::context::{assoc_insert, assoc_insert_all, lemma_assoc_insert_all_snoc, PathParams};
use crate::text::str_eq;

verus! {

/// A single path segment of a parameterized pattern: a literal or a named
/// capture.
#[derive(Debug, Clone)]
pub enum Segment {
    Static(String),
    Parameter(String),
}

/// Compiled representation of a route pattern string.
#[derive(Debug, Clone)]
pub enum Pattern {
    /// Matches one exact path.
    Exact(String),
    /// Matches a fixed number of segments, some of which may be captures.
    Parameterized { segments: Vec<Segment> },
    /// Matches any path starting with the stored prefix.
    Wildcard(String),
}

/// A pattern or path with one trailing slash stripped, except on the bare
/// root.
pub open spec fn normalize(p: Seq<char>) -> Seq<char> {
    if p.len() > 1 && p[p.len() - 1] == '/' {
        p.take(p.len() - 1)
    } else {
        p
    }
}

/// The `sep`-separated parts of a string, in order; empty parts kept.
pub open spec fn split_on(s: Seq<char>, sep: char) -> Seq<Seq<char>>
    decreases s.len(),
{
    if s.len() == 0 {
        seq![Seq::<char>::empty()]
    } else if s[0] == sep {
        seq![Seq::<char>::empty()] + split_on(s.drop_first(), sep)
    } else {
        let rest = split_on(s.drop_first(), sep);
        seq![seq![s[0]] + rest[0]] + rest.skip(1)
    }
}

/// `split_on` always yields at least one part.
pub proof fn lemma_split_on_len(s: Seq<char>, sep: char)
    ensures
        split_on(s, sep).len() >= 1,
    decreases s.len(),
{
    if s.len() > 0 {
        lemma_split_on_len(s.drop_first(), sep);
    }
}

/// The nonempty parts, in order.
pub open spec fn nonempty(parts: Seq<Seq<char>>) -> Seq<Seq<char>>
    decreases parts.len(),
{
    if parts.len() == 0 {
        Seq::empty()
    } else if parts[0].len() > 0 {
        seq![parts[0]] + nonempty(parts.drop_first())
    } else {
        nonempty(parts.drop_first())
    }
}

/// A pattern segment as capture flag and text: `:name` is a capture of
/// `name`, anything else a literal.
pub open spec fn seg_of(s: Seq<char>) -> (bool, Seq<char>) {
    if s.len() > 0 && s[0] == ':' {
        (true, s.drop_first())
    } else {
        (false, s)
    }
}

/// The capture flag and text of a compiled segment.
pub open spec fn seg_model(s: Segment) -> (bool, Seq<char>) {
    match s {
        Segment::Static(t) => (false, t@),
        Segment::Parameter(n) => (true, n@),
    }
}

/// Whether a string contains the character `c`.
pub open spec fn has_char(p: Seq<char>, c: char) -> bool {
    exists|i: int| 0 <= i < p.len() && p[i] == c
}

/// Relates a raw pattern string to its compiled form, checked in order:
/// a normalized pattern ending in `/*` compiles to a wildcard on the
/// prefix; one containing `:` compiles to the sequence of its nonempty
/// segments; anything else to an exact literal.
pub open spec fn is_pattern_of(p0: Seq<char>, pat: Pattern) -> bool {
    let p = normalize(p0);
    if p.len() >= 2 && p[p.len() - 2] == '/' && p[p.len() - 1] == '*' {
        pat matches Pattern::Wildcard(prefix) && prefix@ == p.take(p.len() - 2)
    } else if has_char(p, ':') {
        pat matches Pattern::Parameterized { segments } && segments@.map_values(
            |s: Segment| seg_model(s),
        ) == nonempty(split_on(p, '/')).map_values(|s: Seq<char>| seg_of(s))
    } else {
        pat matches Pattern::Exact(e) && e@ == p
    }
}

/// Matches pattern segments against path parts: counts must agree,
/// literals must be equal, captures bind their part.
pub open spec fn match_segments(segs: Seq<(bool, Seq<char>)>, parts: Seq<Seq<char>>) -> Option<
    Seq<(Seq<char>, Seq<char>)>,
>
    decreases segs.len(),
{
    if segs.len() != parts.len() {
        None
    } else if segs.len() == 0 {
        Some(Seq::<(Seq<char>, Seq<char>)>::empty())
    } else {
        let rest = match_segments(segs.drop_first(), parts.drop_first());
        if segs[0].0 {
            match rest {
                Some(r) => Some(seq![(segs[0].1, parts[0])] + r),
                None => None,
            }
        } else if segs[0].1 == parts[0] {
            rest
        } else {
            None
        }
    }
}

/// The captures of matching a pattern against a (raw) path: `None` when
/// the path does not match; otherwise the name/value capture list, empty
/// for exact patterns, and the remainder under the name `wildcard` for
/// wildcard patterns.
pub open spec fn pat_match(pat: Pattern, path0: Seq<char>) -> Option<Seq<(Seq<char>, Seq<char>)>> {
    let path = normalize(path0);
    match pat {
        Pattern::Exact(e) => if e@ == path {
            Some(Seq::<(Seq<char>, Seq<char>)>::empty())
        } else {
            None
        },
        Pattern::Parameterized { segments } => match_segments(
            segments@.map_values(|s: Segment| seg_model(s)),
            nonempty(split_on(path, '/')),
        ),
        Pattern::Wildcard(prefix) => if prefix@.len() <= path.len() && path.take(
            prefix@.len() as int,
        ) == prefix@ {
            Some(seq![("wildcard"@, path.skip(prefix@.len() as int))])
        } else {
            None
        },
    }
}

/// The trailing-slash-stripped form of a string slice.
fn normalize_exec<'a>(s: &'a str) -> (r: &'a str)
    ensures
        r@ == normalize(s@),
{
    let n = s.unicode_len();
    if n > 1 && s.get_char(n - 1) == '/' {
        s.substring_char(0, n - 1)
    } else {
        s
    }
}

/// Whether `s` contains the character `c`.
fn contains_char(s: &str, c: char) -> (r: bool)
    ensures
        r == has_char(s@, c),
{
    let n = s.unicode_len();
    let mut i: usize = 0;
    while i < n
        invariant
            n == s@.len(),
            i <= n,
            forall|j: int| 0 <= j < i ==> s@[j] != c,
        decreases n - i,
    {
        if s.get_char(i) == c {
            return true;
        }
        i += 1;
    }
    false
}

/// Splits `s` at every `sep`, keeping empty parts.
fn split_all<'a>(s: &'a str, sep: char) -> (r: Vec<&'a str>)
    ensures
        r@.map_values(|p: &str| p@) == split_on(s@, sep),
{
    let n = s.unicode_len();
    let mut parts: Vec<&str> = Vec::new();
    let mut start: usize = 0;
    let mut i: usize = 0;
    proof {
        lemma_split_on_len(s@.skip(0), sep);
        assert(s@.skip(0) =~= s@);
        assert(parts@.map_values(|p: &str| p@) + seq![s@.subrange(0, 0) + split_on(s@, sep)[0]]
            + split_on(s@, sep).skip(1) =~= split_on(s@, sep));
    }
    while i < n
        invariant
            n == s@.len(),
            start <= i <= n,
            split_on(s@, sep) == parts@.map_values(|p: &str| p@) + seq![
                s@.subrange(start as int, i as int) + split_on(s@.skip(i as int), sep)[0],
            ] + split_on(s@.skip(i as int), sep).skip(1),
        decreases n - i,
    {
        let ghost rem = s@.skip(i as int);
        proof {
            lemma_split_on_len(rem, sep);
            assert(rem[0] == s@[i as int]);
            assert(rem.drop_first() =~= s@.skip(i + 1));
            lemma_split_on_len(s@.skip(i + 1), sep);
        }
        if s.get_char(i) == sep {
            let ghost prev = parts@;
            let piece = s.substring_char(start, i);
            parts.push(piece);
            proof {
                assert(piece@ =~= s@.subrange(start as int, i as int));
                assert(parts@.map_values(|p: &str| p@) =~= prev.map_values(|p: &str| p@)
                    + seq![s@.subrange(start as int, i as int)]);
                assert(split_on(rem, sep) =~= seq![Seq::<char>::empty()] + split_on(
                    s@.skip(i + 1),
                    sep,
                ));
                assert(split_on(s@, sep) =~= parts@.map_values(|p: &str| p@) + seq![
                    s@.subrange(i + 1, i + 1) + split_on(s@.skip(i + 1), sep)[0],
                ] + split_on(s@.skip(i + 1), sep).skip(1));
            }
            start = i + 1;
        } else {
            proof {
                assert(split_on(rem, sep) =~= seq![seq![rem[0]] + split_on(s@.skip(i + 1), sep)[0]]
                    + split_on(s@.skip(i + 1), sep).skip(1));
                assert(s@.subrange(start as int, i + 1) + split_on(s@.skip(i + 1), sep)[0] =~=
                    s@.subrange(start as int, i as int) + (seq![s@[i as int]] + split_on(
                    s@.skip(i + 1),
                    sep,
                )[0]));
                assert(split_on(s@, sep) =~= parts@.map_values(|p: &str| p@) + seq![
                    s@.subrange(start as int, i + 1) + split_on(s@.skip(i + 1), sep)[0],
                ] + split_on(s@.skip(i + 1), sep).skip(1));
            }
        }
        i += 1;
    }
    let ghost prev = parts@;
    let piece = s.substring_char(start, n);
    parts.push(piece);
    proof {
        assert(s@.skip(n as int) =~= Seq::<char>::empty());
        assert(split_on(s@.skip(n as int), sep) =~= seq![Seq::<char>::empty()]);
        assert(piece@ =~= s@.subrange(start as int, n as int));
        assert(piece@ =~= s@.subrange(start as int, n as int) + split_on(
            s@.skip(n as int),
            sep,
        )[0]);
        assert(parts@.map_values(|p: &str| p@) =~= split_on(s@, sep));
    }
    parts
}

/// Keeps the nonempty parts.
fn filter_nonempty<'a>(parts: Vec<&'a str>) -> (r: Vec<&'a str>)
    ensures
        r@.map_values(|p: &str| p@) == nonempty(parts@.map_values(|p: &str| p@)),
{
    let n = parts.len();
    let ghost pv = parts@.map_values(|p: &str| p@);
    let mut out: Vec<&str> = Vec::new();
    let mut i: usize = 0;
    proof {
        assert(pv.skip(0) =~= pv);
        assert(out@.map_values(|p: &str| p@) + nonempty(pv) =~= nonempty(pv));
    }
    while i < n
        invariant
            n == parts@.len(),
            i <= n,
            pv == parts@.map_values(|p: &str| p@),
            nonempty(pv) == out@.map_values(|p: &str| p@) + nonempty(pv.skip(i as int)),
        decreases n - i,
    {
        proof {
            assert(pv.skip(i as int)[0] == pv[i as int]);
            assert(pv.skip(i as int).drop_first() =~= pv.skip(i + 1));
        }
        let ghost prev = out@;
        if !parts[i].is_empty() {
            out.push(parts[i]);
            proof {
                assert(out@.map_values(|p: &str| p@) =~= prev.map_values(|p: &str| p@) + seq![
                    pv[i as int],
                ]);
            }
        }
        i += 1;
    }
    proof {
        assert(pv.skip(n as int) =~= Seq::<Seq<char>>::empty());
        assert(out@.map_values(|p: &str| p@) =~= out@.map_values(|p: &str| p@) + nonempty(
            pv.skip(n as int),
        ));
    }
    out
}

impl Pattern {
    /// Compiles a route pattern string: a trailing slash is stripped
    /// first; a pattern ending in `/*` becomes a wildcard on its prefix;
    /// one containing `:` becomes a sequence of literal and capture
    /// segments; anything else an exact literal.
    pub fn parse(pattern: &str) -> (r: Pattern)
        ensures
            is_pattern_of(pattern@, r),
    {
        let norm = normalize_exec(pattern);
        let m = norm.unicode_len();
        if m >= 2 && norm.get_char(m - 2) == '/' && norm.get_char(m - 1) == '*' {
            let prefix = norm.substring_char(0, m - 2);
            proof {
                assert(prefix@ =~= normalize(pattern@).take(normalize(pattern@).len() - 2));
            }
            return Pattern::Wildcard(prefix.to_owned());
        }
        if contains_char(norm, ':') {
            let parts = filter_nonempty(split_all(norm, '/'));
            let ghost target = nonempty(split_on(norm@, '/')).map_values(
                |s: Seq<char>| seg_of(s),
            );
            let np = parts.len();
            let mut segments: Vec<Segment> = Vec::new();
            let mut i: usize = 0;
            proof {
                assert(segments@.map_values(|s: Segment| seg_model(s)) =~= target.take(0));
            }
            while i < np
                invariant
                    np == parts@.len(),
                    i <= np,
                    parts@.map_values(|p: &str| p@) == nonempty(split_on(norm@, '/')),
                    target == nonempty(split_on(norm@, '/')).map_values(|s: Seq<char>| seg_of(s)),
                    segments@.map_values(|s: Segment| seg_model(s)) == target.take(i as int),
                decreases np - i,
            {
                let ghost prev = segments@;
                let part = parts[i];
                let plen = part.unicode_len();
                if plen > 0 && part.get_char(0) == ':' {
                    let name = part.substring_char(1, plen);
                    segments.push(Segment::Parameter(name.to_owned()));
                    proof {
                        assert(name@ =~= part@.drop_first());
                    }
                } else {
                    segments.push(Segment::Static(part.to_owned()));
                }
                proof {
                    assert(target[i as int] == seg_of(parts@[i as int]@));
                    assert(segments@.map_values(|s: Segment| seg_model(s)) =~= prev.map_values(
                        |s: Segment| seg_model(s),
                    ).push(seg_of(parts@[i as int]@)));
                    assert(target.take(i + 1) =~= target.take(i as int).push(target[i as int]));
                }
                i += 1;
            }
            proof {
                assert(target.take(np as int) =~= target);
            }
            return Pattern::Parameterized { segments };
        }
        Pattern::Exact(norm.to_owned())
    }

    /// Tries to match `path` against this pattern, returning the
    /// extracted parameters on success.
    pub fn matches(&self, path: &str) -> (r: Option<PathParams>)
        ensures
            match r {
                Some(pp) => match pat_match(*self, path@) {
                    Some(caps) => pp@ == assoc_insert_all(
                        Seq::<(Seq<char>, Seq<char>)>::empty(),
                        caps,
                    ),
                    None => false,
                },
                None => pat_match(*self, path@) is None,
            },
    {
        let norm = normalize_exec(path);
        match self {
            Pattern::Exact(e) => {
                if str_eq(e.as_str(), norm) {
                    Some(PathParams::new())
                } else {
                    None
                }
            },
            Pattern::Parameterized { segments } => {
                let parts = filter_nonempty(split_all(norm, '/'));
                let ghost sm = segments@.map_values(|s: Segment| seg_model(s));
                let ghost pm = parts@.map_values(|p: &str| p@);
                let ns = segments.len();
                if ns != parts.len() {
                    return None;
                }
                let mut pp = PathParams::new();
                let ghost mut caps: Seq<(Seq<char>, Seq<char>)> = Seq::empty();
                let mut i: usize = 0;
                proof {
                    assert(sm.skip(0) =~= sm);
                    assert(pm.skip(0) =~= pm);
                }
                while i < ns
                    invariant
                        ns == segments@.len(),
                        ns == parts@.len(),
                        i <= ns,
                        sm == segments@.map_values(|s: Segment| seg_model(s)),
                        pm == parts@.map_values(|p: &str| p@),
                        pat_match(*self, path@) == match_segments(sm, pm),
                        pp@ == assoc_insert_all(Seq::<(Seq<char>, Seq<char>)>::empty(), caps),
                        match match_segments(sm.skip(i as int), pm.skip(i as int)) {
                            Some(rest) => match_segments(sm, pm) == Some(caps + rest),
                            None => match_segments(sm, pm) is None,
                        },
                    decreases ns - i,
                {
                    proof {
                        assert(sm.skip(i as int)[0] == sm[i as int]);
                        assert(sm.skip(i as int).drop_first() =~= sm.skip(i + 1));
                        assert(pm.skip(i as int)[0] == pm[i as int]);
                        assert(pm.skip(i as int).drop_first() =~= pm.skip(i + 1));
                    }
                    match &segments[i] {
                        Segment::Static(s) => {
                            if !str_eq(s.as_str(), parts[i]) {
                                proof {
                                    assert(match_segments(
                                        sm.skip(i as int),
                                        pm.skip(i as int),
                                    ) is None);
                                }
                                return None;
                            }
                            proof {
                                match match_segments(sm.skip(i + 1), pm.skip(i + 1)) {
                                    Some(rest) => {
                                        assert(match_segments(
                                            sm.skip(i as int),
                                            pm.skip(i as int),
                                        ) == Some(rest));
                                    },
                                    None => {},
                                }
                            }
                        },
                        Segment::Parameter(name) => {
                            let ghost prevcaps = caps;
                            pp.insert(name.as_str(), parts[i]);
                            proof {
                                caps = caps.push((name@, parts@[i as int]@));
                                lemma_assoc_insert_all_snoc(
                                    Seq::<(Seq<char>, Seq<char>)>::empty(),
                                    prevcaps,
                                    name@,
                                    parts@[i as int]@,
                                );
                                match match_segments(sm.skip(i + 1), pm.skip(i + 1)) {
                                    Some(rest) => {
                                        assert(match_segments(
                                            sm.skip(i as int),
                                            pm.skip(i as int),
                                        ) == Some(seq![(name@, pm[i as int])] + rest));
                                        assert(prevcaps + (seq![(name@, pm[i as int])] + rest)
                                            =~= caps + rest);
                                    },
                                    None => {},
                                }
                            }
                        },
                    }
                    i += 1;
                }
                proof {
                    assert(sm.skip(ns as int) =~= Seq::<(bool, Seq<char>)>::empty());
                    assert(pm.skip(ns as int) =~= Seq::<Seq<char>>::empty());
                    assert(match_segments(sm.skip(ns as int), pm.skip(ns as int)) == Some(
                        Seq::<(Seq<char>, Seq<char>)>::empty(),
                    ));
                    assert(caps + Seq::<(Seq<char>, Seq<char>)>::empty() =~= caps);
                }
                Some(pp)
            },
            Pattern::Wildcard(prefix) => {
                let plen = prefix.as_str().unicode_len();
                let nlen = norm.unicode_len();
                if plen > nlen {
                    return None;
                }
                let head = norm.substring_char(0, plen);
                if !str_eq(prefix.as_str(), head) {
                    proof {
                        assert(head@ =~= normalize(path@).take(prefix@.len() as int));
                    }
                    return None;
                }
                let suffix = norm.substring_char(plen, nlen);
                let mut pp = PathParams::new();
                pp.insert("wildcard", suffix);
                proof {
                    assert(head@ =~= normalize(path@).take(prefix@.len() as int));
                    assert(suffix@ =~= normalize(path@).skip(prefix@.len() as int));
                    let caps = seq![("wildcard"@, suffix@)];
                    assert(caps[0] == ("wildcard"@, suffix@));
                    assert(caps.drop_first() =~= Seq::<(Seq<char>, Seq<char>)>::empty());
                    let one = assoc_insert(
                        Seq::<(Seq<char>, Seq<char>)>::empty(),
                        "wildcard"@,
                        suffix@,
                    );
                    assert(assoc_insert_all(Seq::<(Seq<char>, Seq<char>)>::empty(), caps)
                        == assoc_insert_all(one, caps.drop_first()));
                    assert(assoc_insert_all(one, Seq::<(Seq<char>, Seq<char>)>::empty()) == one);
                    assert(pp@ =~= assoc_insert_all(
                        Seq::<(Seq<char>, Seq<char>)>::empty(),
                        caps,
                    ));
                }
                Some(pp)
            },
        }
    }
}

/// Law: compiling a pattern with a trailing slash and compiling it
/// without one yields matchers that accept exactly the same paths, with
/// the same captures.
pub proof fn lemma_trailing_slash_equivalent(
    p: Seq<char>,
    pat1: Pattern,
    pat2: Pattern,
    path: Seq<char>,
)
    requires
        p.len() > 0,
        p[p.len() - 1] != '/',
        is_pattern_of(p, pat1),
        is_pattern_of(p.push('/'), pat2),
    ensures
        pat_match(pat1, path) == pat_match(pat2, path),
{
    assert(normalize(p) == p);
    assert(p.push('/').len() > 1);
    assert(p.push('/')[p.push('/').len() - 1] == '/');
    assert(normalize(p.push('/')) =~= p);
}

} // verus!
