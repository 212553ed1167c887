//! Per-request context: path parameters extracted by the router, a
//! closed per-request value store, and the bundle of both with the request
//! that is handed to handlers.

use vstd::prelude::*;

use crate::request::Request;
use crate::text::str_eq;
use vstd::pervasive::VecAdditionalExecFns;

verus! {

/// First value bound to `k`, if any.
pub open spec fn assoc_find(s: Seq<(Seq<char>, Seq<char>)>, k: Seq<char>) -> Option<Seq<char>>
    decreases s.len(),
{
    if s.len() == 0 {
        None
    } else if s[0].0 == k {
        Some(s[0].1)
    } else {
        assoc_find(s.drop_first(), k)
    }
}

/// Binding of `k` to `v`: replaces an existing binding in place, else
/// appends.
pub open spec fn assoc_insert(
    s: Seq<(Seq<char>, Seq<char>)>,
    k: Seq<char>,
    v: Seq<char>,
) -> Seq<(Seq<char>, Seq<char>)>
    decreases s.len(),
{
    if s.len() == 0 {
        seq![(k, v)]
    } else if s[0].0 == k {
        seq![(k, v)] + s.drop_first()
    } else {
        seq![s[0]] + assoc_insert(s.drop_first(), k, v)
    }
}

/// All bindings except `k`, in order.
pub open spec fn assoc_remove(s: Seq<(Seq<char>, Seq<char>)>, k: Seq<char>) -> Seq<
    (Seq<char>, Seq<char>),
>
    decreases s.len(),
{
    if s.len() == 0 {
        Seq::empty()
    } else if s[0].0 == k {
        assoc_remove(s.drop_first(), k)
    } else {
        seq![s[0]] + assoc_remove(s.drop_first(), k)
    }
}

/// All of `caps` inserted into `m`, in order.
pub open spec fn assoc_insert_all(
    m: Seq<(Seq<char>, Seq<char>)>,
    caps: Seq<(Seq<char>, Seq<char>)>,
) -> Seq<(Seq<char>, Seq<char>)>
    decreases caps.len(),
{
    if caps.len() == 0 {
        m
    } else {
        assoc_insert_all(assoc_insert(m, caps[0].0, caps[0].1), caps.drop_first())
    }
}

/// Inserting a capture list extended by one more binding is inserting the
/// list, then the binding.
pub proof fn lemma_assoc_insert_all_snoc(
    m: Seq<(Seq<char>, Seq<char>)>,
    caps: Seq<(Seq<char>, Seq<char>)>,
    k: Seq<char>,
    v: Seq<char>,
)
    ensures
        assoc_insert_all(m, caps.push((k, v))) == assoc_insert(assoc_insert_all(m, caps), k, v),
    decreases caps.len(),
{
    assert(caps.push((k, v))[0] == (if caps.len() == 0 {
        (k, v)
    } else {
        caps[0]
    }));
    if caps.len() == 0 {
        assert(caps.push((k, v)).drop_first() =~= Seq::<(Seq<char>, Seq<char>)>::empty());
        assert(assoc_insert_all(m, caps.push((k, v))) == assoc_insert_all(
            assoc_insert(m, k, v),
            caps.push((k, v)).drop_first(),
        ));
    } else {
        assert(caps.push((k, v)).drop_first() =~= caps.drop_first().push((k, v)));
        lemma_assoc_insert_all_snoc(assoc_insert(m, caps[0].0, caps[0].1), caps.drop_first(), k, v);
    }
}

/// At the first binding of `key`, inserting any value is replacing that
/// entry in place.
proof fn lemma_assoc_insert_at(s: Seq<(Seq<char>, Seq<char>)>, key: Seq<char>, i: int)
    requires
        0 <= i < s.len(),
        s[i].0 == key,
        forall|j: int| 0 <= j < i ==> (#[trigger] s[j]).0 != key,
    ensures
        forall|x: Seq<char>|
            #[trigger] assoc_insert(s, key, x) =~= s.update(i, (key, x)),
    decreases i,
{
    if i == 0 {
        assert forall|x: Seq<char>| #[trigger] assoc_insert(s, key, x) =~= s.update(
            i,
            (key, x),
        ) by {
            assert(assoc_insert(s, key, x) == seq![(key, x)] + s.drop_first());
        }
    } else {
        lemma_assoc_insert_at(s.drop_first(), key, i - 1);
        assert forall|x: Seq<char>| #[trigger] assoc_insert(s, key, x) =~= s.update(
            i,
            (key, x),
        ) by {
            assert(s[0].0 != key);
            assert(assoc_insert(s, key, x) == seq![s[0]] + assoc_insert(s.drop_first(), key, x));
            assert(assoc_insert(s.drop_first(), key, x) =~= s.drop_first().update(i - 1, (key, x)));
        }
    }
}

/// Path parameters extracted from the matched route (for a route
/// `/users/:id` matched against `/users/42`, `id` is bound to `"42"`).
///
/// Distinct from query parameters, which are read with
/// [`Request::query_param`].
#[derive(Default, Debug, Clone)]
pub struct PathParams {
    entries: Vec<(String, String)>,
}

impl View for PathParams {
    type V = Seq<(Seq<char>, Seq<char>)>;

    closed spec fn view(&self) -> Seq<(Seq<char>, Seq<char>)> {
        self.entries@.map_values(|p: (String, String)| (p.0@, p.1@))
    }
}

impl PathParams {
    /// Creates a new empty path parameters map.
    pub fn new() -> (r: Self)
        ensures
            r@ == Seq::<(Seq<char>, Seq<char>)>::empty(),
    {
        PathParams { entries: Vec::new() }
    }

    /// Binds a path parameter, replacing an existing binding of the same
    /// name.
    pub fn insert(&mut self, key: &str, value: &str)
        ensures
            final(self)@ == assoc_insert(old(self)@, key@, value@),
    {
        let n = self.entries.len();
        let mut i: usize = 0;
        proof {
            assert(self@.skip(0) =~= self@);
        }
        while i < n
            invariant
                n == self.entries@.len(),
                i <= n,
                self@ == old(self)@,
                forall|j: int| 0 <= j < i ==> (#[trigger] self@[j]).0 != key@,
                assoc_insert(old(self)@, key@, value@) == old(self)@.take(i as int) + assoc_insert(
                    self@.skip(i as int),
                    key@,
                    value@,
                ),
            decreases n - i,
        {
            proof {
                assert(self@.skip(i as int)[0] == self@[i as int]);
                assert(self@.skip(i as int).drop_first() =~= self@.skip(i + 1));
            }
            if str_eq(self.entries[i].0.as_str(), key) {
                let ghost pre = self@;
                self.entries.set(i, (key.to_owned(), value.to_owned()));
                proof {
                    assert(assoc_insert(pre.skip(i as int), key@, value@) =~= seq![(key@, value@)]
                        + pre.skip(i + 1));
                    assert(self@ =~= pre.take(i as int) + (seq![(key@, value@)] + pre.skip(
                        i + 1,
                    )));
                    assert(self@ =~= assoc_insert(old(self)@, key@, value@));
                }
                return ;
            }
            proof {
                assert(assoc_insert(self@.skip(i as int), key@, value@) =~= seq![self@[i as int]]
                    + assoc_insert(self@.skip(i + 1), key@, value@));
                assert(old(self)@.take(i + 1) =~= old(self)@.take(i as int).push(
                    self@[i as int],
                ));
                assert(old(self)@.take(i as int) + (seq![self@[i as int]] + assoc_insert(
                    self@.skip(i + 1),
                    key@,
                    value@,
                )) =~= old(self)@.take(i + 1) + assoc_insert(self@.skip(i + 1), key@, value@));
            }
            i += 1;
        }
        let ghost pre = self@;
        self.entries.push((key.to_owned(), value.to_owned()));
        proof {
            assert(pre.skip(n as int) =~= Seq::<(Seq<char>, Seq<char>)>::empty());
            assert(assoc_insert(pre.skip(n as int), key@, value@) =~= seq![(key@, value@)]);
            assert(pre.take(n as int) =~= pre);
            assert(self@ =~= pre.push((key@, value@)));
            assert(self@ =~= assoc_insert(old(self)@, key@, value@));
        }
    }

    /// Gets a path parameter value by name.
    pub fn get(&self, key: &str) -> (r: Option<&str>)
        ensures
            match r {
                Some(v) => assoc_find(self@, key@) == Some(v@),
                None => assoc_find(self@, key@) is None,
            },
    {
        let n = self.entries.len();
        let mut i: usize = 0;
        proof {
            assert(self@.skip(0) =~= self@);
        }
        while i < n
            invariant
                n == self.entries@.len(),
                i <= n,
                assoc_find(self@, key@) == assoc_find(self@.skip(i as int), key@),
            decreases n - i,
        {
            proof {
                assert(self@.skip(i as int)[0] == self@[i as int]);
                assert(self@.skip(i as int).drop_first() =~= self@.skip(i + 1));
            }
            if str_eq(self.entries[i].0.as_str(), key) {
                return Some(self.entries[i].1.as_str());
            }
            i += 1;
        }
        proof {
            assert(self@.skip(n as int) =~= Seq::<(Seq<char>, Seq<char>)>::empty());
        }
        None
    }

    /// Gets a mutable reference to a path parameter value.
    pub fn get_mut(&mut self, key: &str) -> (r: Option<&mut String>)
        ensures
            match r {
                Some(v) => {
                    &&& assoc_find(old(self)@, key@) == Some((*v)@)
                    &&& final(self)@ == assoc_insert(old(self)@, key@, (*final(v))@)
                },
                None => {
                    &&& assoc_find(old(self)@, key@) is None
                    &&& final(self)@ == old(self)@
                },
            },
    {
        let n = self.entries.len();
        let mut i: usize = 0;
        proof {
            assert(self@.skip(0) =~= self@);
        }
        while i < n
            invariant
                n == self.entries@.len(),
                i <= n,
                self@ == old(self)@,
                forall|j: int| 0 <= j < i ==> (#[trigger] old(self)@[j]).0 != key@,
                assoc_find(old(self)@, key@) == assoc_find(self@.skip(i as int), key@),
            decreases n - i,
        {
            proof {
                assert(self@.skip(i as int)[0] == self@[i as int]);
                assert(self@.skip(i as int).drop_first() =~= self@.skip(i + 1));
            }
            if str_eq(self.entries[i].0.as_str(), key) {
                proof {
                    lemma_assoc_insert_at(old(self)@, key@, i as int);
                }
                let v = &mut self.entries[i].1;
                return Some(v);
            }
            i += 1;
        }
        proof {
            assert(self@.skip(n as int) =~= Seq::<(Seq<char>, Seq<char>)>::empty());
        }
        None
    }

    /// Removes a path parameter, returning its value if present.
    pub fn remove(&mut self, key: &str) -> (r: Option<String>)
        ensures
            final(self)@ == assoc_remove(old(self)@, key@),
            match r {
                Some(v) => assoc_find(old(self)@, key@) == Some(v@),
                None => assoc_find(old(self)@, key@) is None,
            },
    {
        let n = self.entries.len();
        let mut kept: Vec<(String, String)> = Vec::new();
        let mut found: Option<String> = None;
        let mut i: usize = 0;
        proof {
            assert(self@.skip(0) =~= self@);
            assert(kept@.map_values(|p: (String, String)| (p.0@, p.1@)) + assoc_remove(
                self@,
                key@,
            ) =~= assoc_remove(self@, key@));
        }
        while i < n
            invariant
                n == self.entries@.len(),
                i <= n,
                self@ == old(self)@,
                assoc_remove(old(self)@, key@) == kept@.map_values(
                    |p: (String, String)| (p.0@, p.1@),
                ) + assoc_remove(self@.skip(i as int), key@),
                match found {
                    Some(v) => assoc_find(old(self)@, key@) == Some(v@),
                    None => assoc_find(old(self)@, key@) == assoc_find(
                        self@.skip(i as int),
                        key@,
                    ),
                },
            decreases n - i,
        {
            proof {
                assert(self@.skip(i as int)[0] == self@[i as int]);
                assert(self@.skip(i as int).drop_first() =~= self@.skip(i + 1));
            }
            let ghost prevkept = kept@;
            if str_eq(self.entries[i].0.as_str(), key) {
                if found.is_none() {
                    found = Some(self.entries[i].1.clone());
                }
            } else {
                kept.push((self.entries[i].0.clone(), self.entries[i].1.clone()));
                proof {
                    assert(kept@.map_values(|p: (String, String)| (p.0@, p.1@)) =~=
                        prevkept.map_values(|p: (String, String)| (p.0@, p.1@)) + seq![
                        self@[i as int],
                    ]);
                }
            }
            i += 1;
        }
        proof {
            assert(self@.skip(n as int) =~= Seq::<(Seq<char>, Seq<char>)>::empty());
            assert(assoc_remove(old(self)@, key@) =~= kept@.map_values(
                |p: (String, String)| (p.0@, p.1@),
            ));
        }
        self.entries = kept;
        found
    }
}

/// A value attachable to a request's processing context. The set of kinds
/// is a closed, explicit contract: one value of each kind can be attached
/// at a time.
#[derive(Debug, Clone, PartialEq)]
pub enum ExtValue {
    U32(u32),
    U64(u64),
    I64(i64),
    Flag(bool),
    Text(String),
    Bytes(Vec<u8>),
}

/// The kind tag of an [`ExtValue`].
#[derive(Debug, Clone, Copy, PartialEq, Eq, Structural)]
pub enum ExtKind {
    U32,
    U64,
    I64,
    Flag,
    Text,
    Bytes,
}

/// The kind of a stored value.
pub open spec fn kind_of(v: ExtValue) -> ExtKind {
    match v {
        ExtValue::U32(_) => ExtKind::U32,
        ExtValue::U64(_) => ExtKind::U64,
        ExtValue::I64(_) => ExtKind::I64,
        ExtValue::Flag(_) => ExtKind::Flag,
        ExtValue::Text(_) => ExtKind::Text,
        ExtValue::Bytes(_) => ExtKind::Bytes,
    }
}

/// Returns the kind tag of a value.
pub fn value_kind(v: &ExtValue) -> (r: ExtKind)
    ensures
        r == kind_of(*v),
{
    match v {
        ExtValue::U32(_) => ExtKind::U32,
        ExtValue::U64(_) => ExtKind::U64,
        ExtValue::I64(_) => ExtKind::I64,
        ExtValue::Flag(_) => ExtKind::Flag,
        ExtValue::Text(_) => ExtKind::Text,
        ExtValue::Bytes(_) => ExtKind::Bytes,
    }
}

/// First stored value of the given kind, if any.
pub open spec fn ext_find(s: Seq<ExtValue>, k: ExtKind) -> Option<ExtValue>
    decreases s.len(),
{
    if s.len() == 0 {
        None
    } else if kind_of(s[0]) == k {
        Some(s[0])
    } else {
        ext_find(s.drop_first(), k)
    }
}

/// The stored values with the one of kind `k` replaced in place by `v`,
/// or `v` appended when none was stored.
pub open spec fn ext_insert(s: Seq<ExtValue>, v: ExtValue) -> Seq<ExtValue>
    decreases s.len(),
{
    if s.len() == 0 {
        seq![v]
    } else if kind_of(s[0]) == kind_of(v) {
        seq![v] + s.drop_first()
    } else {
        seq![s[0]] + ext_insert(s.drop_first(), v)
    }
}

/// The stored values without the first one of kind `k`.
pub open spec fn ext_remove(s: Seq<ExtValue>, k: ExtKind) -> Seq<ExtValue>
    decreases s.len(),
{
    if s.len() == 0 {
        Seq::empty()
    } else if kind_of(s[0]) == k {
        s.drop_first()
    } else {
        seq![s[0]] + ext_remove(s.drop_first(), k)
    }
}

/// Per-request value store: at most one value of each kind, used to hand
/// state between middleware and handlers without coupling them.
#[derive(Default, Debug)]
pub struct Extensions {
    items: Vec<ExtValue>,
}

impl View for Extensions {
    type V = Seq<ExtValue>;

    closed spec fn view(&self) -> Seq<ExtValue> {
        self.items@
    }
}

impl Extensions {
    /// Creates a new empty store.
    pub fn new() -> (r: Self)
        ensures
            r@ == Seq::<ExtValue>::empty(),
    {
        Extensions { items: Vec::new() }
    }

    /// Attaches a value, returning the previous value of the same kind if
    /// one was stored.
    pub fn insert(&mut self, value: ExtValue) -> (r: Option<ExtValue>)
        ensures
            final(self)@ == ext_insert(old(self)@, value),
            r == ext_find(old(self)@, kind_of(value)),
    {
        let k = value_kind(&value);
        let n = self.items.len();
        let mut i: usize = 0;
        proof {
            assert(self@.skip(0) =~= self@);
        }
        while i < n
            invariant
                n == self.items@.len(),
                i <= n,
                self@ == old(self)@,
                k == kind_of(value),
                forall|j: int| 0 <= j < i ==> kind_of(#[trigger] self@[j]) != k,
                ext_insert(old(self)@, value) == old(self)@.take(i as int) + ext_insert(
                    self@.skip(i as int),
                    value,
                ),
                ext_find(old(self)@, k) == ext_find(self@.skip(i as int), k),
            decreases n - i,
        {
            proof {
                assert(self@.skip(i as int)[0] == self@[i as int]);
                assert(self@.skip(i as int).drop_first() =~= self@.skip(i + 1));
            }
            if value_kind(&self.items[i]) == k {
                let ghost pre = self@;
                let mut slot = value;
                self.items.set_and_swap(i, &mut slot);
                proof {
                    assert(ext_insert(pre.skip(i as int), value) =~= seq![value] + pre.skip(
                        i + 1,
                    ));
                    assert(self@ =~= pre.take(i as int) + (seq![value] + pre.skip(i + 1)));
                    assert(self@ =~= ext_insert(old(self)@, value));
                }
                return Some(slot);
            }
            proof {
                assert(ext_insert(self@.skip(i as int), value) =~= seq![self@[i as int]]
                    + ext_insert(self@.skip(i + 1), value));
                assert(old(self)@.take(i + 1) =~= old(self)@.take(i as int).push(
                    self@[i as int],
                ));
                assert(old(self)@.take(i as int) + (seq![self@[i as int]] + ext_insert(
                    self@.skip(i + 1),
                    value,
                )) =~= old(self)@.take(i + 1) + ext_insert(self@.skip(i + 1), value));
            }
            i += 1;
        }
        let ghost pre = self@;
        self.items.push(value);
        proof {
            assert(pre.skip(n as int) =~= Seq::<ExtValue>::empty());
            assert(ext_insert(pre.skip(n as int), value) =~= seq![value]);
            assert(pre.take(n as int) =~= pre);
            assert(self@ =~= pre.push(value));
            assert(self@ =~= ext_insert(old(self)@, value));
        }
        None
    }

    /// Returns `true` if a value of the given kind is stored.
    pub fn contains(&self, kind: ExtKind) -> (r: bool)
        ensures
            r == (ext_find(self@, kind) is Some),
    {
        let n = self.items.len();
        let mut i: usize = 0;
        proof {
            assert(self@.skip(0) =~= self@);
        }
        while i < n
            invariant
                n == self.items@.len(),
                i <= n,
                ext_find(self@, kind) == ext_find(self@.skip(i as int), kind),
            decreases n - i,
        {
            proof {
                assert(self@.skip(i as int)[0] == self@[i as int]);
                assert(self@.skip(i as int).drop_first() =~= self@.skip(i + 1));
            }
            if value_kind(&self.items[i]) == kind {
                return true;
            }
            i += 1;
        }
        proof {
            assert(self@.skip(n as int) =~= Seq::<ExtValue>::empty());
        }
        false
    }

    /// Gets a shared reference to the stored value of the given kind.
    pub fn get(&self, kind: ExtKind) -> (r: Option<&ExtValue>)
        ensures
            match r {
                Some(v) => ext_find(self@, kind) == Some(*v),
                None => ext_find(self@, kind) is None,
            },
    {
        let n = self.items.len();
        let mut i: usize = 0;
        proof {
            assert(self@.skip(0) =~= self@);
        }
        while i < n
            invariant
                n == self.items@.len(),
                i <= n,
                ext_find(self@, kind) == ext_find(self@.skip(i as int), kind),
            decreases n - i,
        {
            proof {
                assert(self@.skip(i as int)[0] == self@[i as int]);
                assert(self@.skip(i as int).drop_first() =~= self@.skip(i + 1));
            }
            if value_kind(&self.items[i]) == kind {
                return Some(&self.items[i]);
            }
            i += 1;
        }
        proof {
            assert(self@.skip(n as int) =~= Seq::<ExtValue>::empty());
        }
        None
    }

    /// Gets a mutable reference to the stored value of the given kind.
    pub fn get_mut(&mut self, kind: ExtKind) -> (r: Option<&mut ExtValue>)
        ensures
            match r {
                Some(v) => exists|i: int|
                    {
                        &&& 0 <= i < old(self)@.len()
                        &&& kind_of(old(self)@[i]) == kind
                        &&& *v == old(self)@[i]
                        &&& final(self)@ == old(self)@.update(i, *final(v))
                    },
                None => {
                    &&& ext_find(old(self)@, kind) is None
                    &&& final(self)@ == old(self)@
                },
            },
    {
        let n = self.items.len();
        let mut i: usize = 0;
        proof {
            assert(self@.skip(0) =~= self@);
        }
        while i < n
            invariant
                n == self.items@.len(),
                i <= n,
                self@ == old(self)@,
                ext_find(old(self)@, kind) == ext_find(self@.skip(i as int), kind),
            decreases n - i,
        {
            proof {
                assert(self@.skip(i as int)[0] == self@[i as int]);
                assert(self@.skip(i as int).drop_first() =~= self@.skip(i + 1));
            }
            if value_kind(&self.items[i]) == kind {
                let v = &mut self.items[i];
                return Some(v);
            }
            i += 1;
        }
        proof {
            assert(self@.skip(n as int) =~= Seq::<ExtValue>::empty());
        }
        None
    }

    /// Removes the stored value of the given kind, returning it if
    /// present.
    pub fn remove(&mut self, kind: ExtKind) -> (r: Option<ExtValue>)
        ensures
            final(self)@ == ext_remove(old(self)@, kind),
            r == ext_find(old(self)@, kind),
    {
        let n = self.items.len();
        let mut i: usize = 0;
        proof {
            assert(self@.skip(0) =~= self@);
        }
        while i < n
            invariant
                n == self.items@.len(),
                i <= n,
                self@ == old(self)@,
                forall|j: int| 0 <= j < i ==> kind_of(#[trigger] self@[j]) != kind,
                ext_find(old(self)@, kind) == ext_find(self@.skip(i as int), kind),
                ext_remove(old(self)@, kind) == old(self)@.take(i as int) + ext_remove(
                    self@.skip(i as int),
                    kind,
                ),
            decreases n - i,
        {
            proof {
                assert(self@.skip(i as int)[0] == self@[i as int]);
                assert(self@.skip(i as int).drop_first() =~= self@.skip(i + 1));
            }
            if value_kind(&self.items[i]) == kind {
                let ghost pre = self@;
                let v = self.items.remove(i);
                proof {
                    assert(ext_remove(pre.skip(i as int), kind) =~= pre.skip(i + 1));
                    assert(self@ =~= pre.take(i as int) + pre.skip(i + 1));
                    assert(self@ =~= ext_remove(old(self)@, kind));
                }
                return Some(v);
            }
            proof {
                assert(ext_remove(self@.skip(i as int), kind) =~= seq![self@[i as int]]
                    + ext_remove(self@.skip(i + 1), kind));
                assert(old(self)@.take(i + 1) =~= old(self)@.take(i as int).push(
                    self@[i as int],
                ));
                assert(old(self)@.take(i as int) + (seq![self@[i as int]] + ext_remove(
                    self@.skip(i + 1),
                    kind,
                )) =~= old(self)@.take(i + 1) + ext_remove(self@.skip(i + 1), kind));
            }
            i += 1;
        }
        proof {
            assert(self@.skip(n as int) =~= Seq::<ExtValue>::empty());
            assert(old(self)@.take(n as int) =~= old(self)@);
            assert(ext_remove(old(self)@, kind) =~= old(self)@);
        }
        None
    }
}

/// Per-request context: bundles the [`Request`] with [`PathParams`] and
/// [`Extensions`], the unit of value handed to each handler.
pub struct Context {
    request: Request,
    params: PathParams,
    extensions: Extensions,
}

impl Context {
    /// The request carried by this context.
    pub closed spec fn spec_request(&self) -> Request {
        self.request
    }

    /// The path parameters carried by this context.
    pub closed spec fn spec_params(&self) -> PathParams {
        self.params
    }

    /// The extensions carried by this context.
    pub closed spec fn spec_extensions(&self) -> Extensions {
        self.extensions
    }

    /// Creates a context from a request with empty params and extensions.
    pub fn new(request: Request) -> (r: Self)
        ensures
            r.spec_request() == request,
            r.spec_params()@ == Seq::<(Seq<char>, Seq<char>)>::empty(),
            r.spec_extensions()@ == Seq::<ExtValue>::empty(),
    {
        Context { request, params: PathParams::new(), extensions: Extensions::new() }
    }

    /// Creates a context with pre-populated path parameters, as the router
    /// does after a successful match.
    pub fn with_params(request: Request, params: PathParams) -> (r: Self)
        ensures
            r.spec_request() == request,
            r.spec_params() == params,
            r.spec_extensions()@ == Seq::<ExtValue>::empty(),
    {
        Context { request, params, extensions: Extensions::new() }
    }

    /// Returns a shared reference to the underlying request.
    pub fn request(&self) -> (r: &Request)
        ensures
            *r == self.spec_request(),
    {
        &self.request
    }

    /// Returns a shared reference to the path parameters.
    pub fn params(&self) -> (r: &PathParams)
        ensures
            *r == self.spec_params(),
    {
        &self.params
    }

    /// Returns a mutable reference to the path parameters.
    pub fn params_mut(&mut self) -> (r: &mut PathParams)
        ensures
            *r == old(self).spec_params(),
            final(self).spec_request() == old(self).spec_request(),
            final(self).spec_extensions() == old(self).spec_extensions(),
            final(self).spec_params() == *final(r),
    {
        &mut self.params
    }

    /// Returns a shared reference to the extensions store.
    pub fn extensions(&self) -> (r: &Extensions)
        ensures
            *r == self.spec_extensions(),
    {
        &self.extensions
    }

    /// Returns a mutable reference to the extensions store.
    pub fn extensions_mut(&mut self) -> (r: &mut Extensions)
        ensures
            *r == old(self).spec_extensions(),
            final(self).spec_request() == old(self).spec_request(),
            final(self).spec_params() == old(self).spec_params(),
            final(self).spec_extensions() == *final(r),
    {
        &mut self.extensions
    }
}

} // verus!
