//! Case-insensitive, order-preserving, multi-valued HTTP header map.
//!
//! Header names compare case-insensitively in every lookup, removal and
//! containment check; insertion order is preserved; duplicate names are legal
//! and stand for multiple values of the same header.

use vstd::prelude::*;

use crate::text::{ieq, str_ieq};

verus! {

/// First value whose name matches `name` case-insensitively, if any.
pub open spec fn first_value(s: Seq<(Seq<char>, Seq<char>)>, name: Seq<char>) -> Option<Seq<char>>
    decreases s.len(),
{
    if s.len() == 0 {
        None
    } else if ieq(s[0].0, name) {
        Some(s[0].1)
    } else {
        first_value(s.drop_first(), name)
    }
}

/// All values whose name matches `name` case-insensitively, in order.
pub open spec fn values_of(s: Seq<(Seq<char>, Seq<char>)>, name: Seq<char>) -> Seq<Seq<char>>
    decreases s.len(),
{
    if s.len() == 0 {
        Seq::empty()
    } else if ieq(s[0].0, name) {
        seq![s[0].1] + values_of(s.drop_first(), name)
    } else {
        values_of(s.drop_first(), name)
    }
}

/// The entries whose name does not match `name` case-insensitively, in order.
pub open spec fn without_name(s: Seq<(Seq<char>, Seq<char>)>, name: Seq<char>) -> Seq<
    (Seq<char>, Seq<char>),
>
    decreases s.len(),
{
    if s.len() == 0 {
        Seq::empty()
    } else if ieq(s[0].0, name) {
        without_name(s.drop_first(), name)
    } else {
        seq![s[0]] + without_name(s.drop_first(), name)
    }
}

/// Whether some entry's name matches `name` case-insensitively.
pub open spec fn has_name(s: Seq<(Seq<char>, Seq<char>)>, name: Seq<char>) -> bool {
    exists|i: int| 0 <= i < s.len() && ieq(s[i].0, name)
}

/// A case-insensitive, multi-value HTTP header map.
///
/// Preserves insertion order and allows multiple values per header name,
/// matching the semantics of HTTP/1.1 header fields.
#[derive(Debug)]
pub struct Headers {
    inner: Vec<(String, String)>,
}

impl View for Headers {
    type V = Seq<(Seq<char>, Seq<char>)>;

    closed spec fn view(&self) -> Seq<(Seq<char>, Seq<char>)> {
        self.inner@.map_values(|p: (String, String)| (p.0@, p.1@))
    }
}

impl Clone for Headers {
    fn clone(&self) -> (r: Self)
        ensures
            r@ == self@,
    {
        let n = self.inner.len();
        let mut copied: Vec<(String, String)> = Vec::new();
        let mut i: usize = 0;
        while i < n
            invariant
                n == self.inner.len(),
                i <= n,
                copied@ == self.inner@.take(i as int),
            decreases n - i,
        {
            copied.push((self.inner[i].0.clone(), self.inner[i].1.clone()));
            proof {
                assert(self.inner@.take(i + 1) =~= self.inner@.take(i as int).push(
                    self.inner@[i as int],
                ));
            }
            i += 1;
        }
        proof {
            assert(self.inner@.take(n as int) =~= self.inner@);
        }
        Headers { inner: copied }
    }
}

impl Default for Headers {
    fn default() -> (r: Self)
        ensures
            r@ == Seq::<(Seq<char>, Seq<char>)>::empty(),
    {
        Headers { inner: Vec::new() }
    }
}

impl Headers {
    /// Creates an empty header map.
    pub fn new() -> (r: Self)
        ensures
            r@ == Seq::<(Seq<char>, Seq<char>)>::empty(),
    {
        Headers { inner: Vec::new() }
    }

    /// Creates an empty header map with room reserved for `capacity` entries.
    pub fn with_capacity(capacity: usize) -> (r: Self)
        ensures
            r@ == Seq::<(Seq<char>, Seq<char>)>::empty(),
    {
        Headers { inner: Vec::with_capacity(capacity) }
    }

    /// Appends a header entry. Existing entries with the same name stay.
    pub fn insert(&mut self, name: &str, value: &str)
        ensures
            final(self)@ == old(self)@.push((name@, value@)),
    {
        self.inner.push((name.to_owned(), value.to_owned()));
        assert(final(self)@ =~= old(self)@.push((name@, value@)));
    }

    /// Returns the first value for the given header name (case-insensitive),
    /// or `None`.
    pub fn get(&self, name: &str) -> (r: Option<&str>)
        ensures
            match r {
                Some(v) => first_value(self@, name@) == Some(v@),
                None => first_value(self@, name@) is None,
            },
    {
        let n = self.inner.len();
        let mut i: usize = 0;
        proof {
            assert(self@.skip(0) =~= self@);
        }
        while i < n
            invariant
                n == self.inner.len(),
                i <= n,
                first_value(self@, name@) == first_value(self@.skip(i as int), name@),
            decreases n - i,
        {
            proof {
                assert(self@.skip(i as int).drop_first() =~= self@.skip(i + 1));
                assert(self@.skip(i as int)[0] == self@[i as int]);
            }
            if str_ieq(self.inner[i].0.as_str(), name) {
                return Some(self.inner[i].1.as_str());
            }
            i += 1;
        }
        proof {
            assert(self@.skip(n as int) =~= Seq::<(Seq<char>, Seq<char>)>::empty());
        }
        None
    }

    /// Returns all values for the given header name (case-insensitive), in
    /// insertion order.
    pub fn get_all(&self, name: &str) -> (r: Vec<&str>)
        ensures
            r@.map_values(|v: &str| v@) == values_of(self@, name@),
    {
        let n = self.inner.len();
        let mut out: Vec<&str> = Vec::new();
        let mut i: usize = 0;
        proof {
            assert(self@.skip(0) =~= self@);
            assert(out@.map_values(|v: &str| v@) + values_of(self@, name@) =~= values_of(
                self@,
                name@,
            ));
        }
        while i < n
            invariant
                n == self.inner.len(),
                i <= n,
                values_of(self@, name@) == out@.map_values(|v: &str| v@) + values_of(
                    self@.skip(i as int),
                    name@,
                ),
            decreases n - i,
        {
            proof {
                assert(self@.skip(i as int).drop_first() =~= self@.skip(i + 1));
                assert(self@.skip(i as int)[0] == self@[i as int]);
            }
            let ghost prev = out@;
            if str_ieq(self.inner[i].0.as_str(), name) {
                out.push(self.inner[i].1.as_str());
                proof {
                    assert(out@.map_values(|v: &str| v@) =~= prev.map_values(|v: &str| v@)
                        + seq![self@[i as int].1]);
                }
            }
            i += 1;
        }
        proof {
            assert(self@.skip(n as int) =~= Seq::<(Seq<char>, Seq<char>)>::empty());
            assert(out@.map_values(|v: &str| v@) =~= out@.map_values(|v: &str| v@) + values_of(
                self@.skip(n as int),
                name@,
            ));
        }
        out
    }

    /// Removes all entries with the given header name (case-insensitive).
    ///
    /// Returns `true` if any entries were removed.
    pub fn remove(&mut self, name: &str) -> (r: bool)
        ensures
            final(self)@ == without_name(old(self)@, name@),
            r == has_name(old(self)@, name@),
    {
        let n = self.inner.len();
        let mut kept: Vec<(String, String)> = Vec::new();
        let mut found = false;
        let mut i: usize = 0;
        proof {
            assert(self@.skip(0) =~= self@);
            assert(kept@.map_values(|p: (String, String)| (p.0@, p.1@)) + without_name(
                self@,
                name@,
            ) =~= without_name(self@, name@));
        }
        while i < n
            invariant
                n == self.inner.len(),
                i <= n,
                without_name(old(self)@, name@) == kept@.map_values(
                    |p: (String, String)| (p.0@, p.1@),
                ) + without_name(self@.skip(i as int), name@),
                found == exists|j: int| 0 <= j < i && ieq(self@[j].0, name@),
                self@ == old(self)@,
            decreases n - i,
        {
            proof {
                assert(self@.skip(i as int).drop_first() =~= self@.skip(i + 1));
                assert(self@.skip(i as int)[0] == self@[i as int]);
            }
            let ghost prev = kept@;
            if str_ieq(self.inner[i].0.as_str(), name) {
                found = true;
            } else {
                let pair = (self.inner[i].0.clone(), self.inner[i].1.clone());
                kept.push(pair);
                proof {
                    assert(kept@.map_values(|p: (String, String)| (p.0@, p.1@)) =~= prev.map_values(
                        |p: (String, String)| (p.0@, p.1@),
                    ) + seq![self@[i as int]]);
                }
            }
            i += 1;
        }
        proof {
            assert(self@.skip(n as int) =~= Seq::<(Seq<char>, Seq<char>)>::empty());
            assert(without_name(old(self)@, name@) =~= kept@.map_values(
                |p: (String, String)| (p.0@, p.1@),
            ));
        }
        self.inner = kept;
        found
    }

    /// Returns `true` if the map contains at least one entry with the given
    /// name (case-insensitive).
    pub fn contains(&self, name: &str) -> (r: bool)
        ensures
            r == has_name(self@, name@),
    {
        let n = self.inner.len();
        let mut i: usize = 0;
        while i < n
            invariant
                n == self.inner.len(),
                i <= n,
                forall|j: int| 0 <= j < i ==> !ieq(self@[j].0, name@),
            decreases n - i,
        {
            if str_ieq(self.inner[i].0.as_str(), name) {
                proof {
                    assert(ieq(self@[i as int].0, name@));
                }
                return true;
            }
            i += 1;
        }
        false
    }

    /// Returns the total number of header entries (not unique names).
    pub fn len(&self) -> (r: usize)
        ensures
            r == self@.len(),
    {
        self.inner.len()
    }

    /// Returns `true` if there are no header entries.
    pub fn is_empty(&self) -> (r: bool)
        ensures
            r == (self@.len() == 0),
    {
        self.inner.is_empty()
    }

    /// Returns all `(name, value)` pairs in insertion order.
    pub fn iter(&self) -> (r: Vec<(&str, &str)>)
        ensures
            r@.map_values(|p: (&str, &str)| (p.0@, p.1@)) == self@,
    {
        let n = self.inner.len();
        let mut out: Vec<(&str, &str)> = Vec::new();
        let mut i: usize = 0;
        while i < n
            invariant
                n == self.inner.len(),
                i <= n,
                out@.map_values(|p: (&str, &str)| (p.0@, p.1@)) == self@.take(i as int),
            decreases n - i,
        {
            let ghost prev = out@;
            out.push((self.inner[i].0.as_str(), self.inner[i].1.as_str()));
            proof {
                assert(out@.map_values(|p: (&str, &str)| (p.0@, p.1@)) =~= prev.map_values(
                    |p: (&str, &str)| (p.0@, p.1@),
                ).push(self@[i as int]));
                assert(self@.take(i + 1) =~= self@.take(i as int).push(self@[i as int]));
            }
            i += 1;
        }
        proof {
            assert(self@.take(n as int) =~= self@);
        }
        out
    }
}

/// Law: header lookup, containment, enumeration and removal are
/// case-insensitive in the name — two names that are equal up to ASCII case
/// give identical results on every map.
pub proof fn lemma_header_ops_case_insensitive(
    s: Seq<(Seq<char>, Seq<char>)>,
    a: Seq<char>,
    b: Seq<char>,
)
    requires
        ieq(a, b),
    ensures
        first_value(s, a) == first_value(s, b),
        values_of(s, a) == values_of(s, b),
        has_name(s, a) == has_name(s, b),
        without_name(s, a) == without_name(s, b),
    decreases s.len(),
{
    assert forall|k: Seq<char>| ieq(k, a) implies ieq(k, b) by {}
    assert forall|k: Seq<char>| ieq(k, b) implies ieq(k, a) by {}
    if s.len() > 0 {
        lemma_header_ops_case_insensitive(s.drop_first(), a, b);
    }
    if has_name(s, a) {
        let i = choose|i: int| 0 <= i < s.len() && ieq(s[i].0, a);
        assert(ieq(s[i].0, b));
    }
    if has_name(s, b) {
        let i = choose|i: int| 0 <= i < s.len() && ieq(s[i].0, b);
        assert(ieq(s[i].0, a));
    }
}

} // verus!
