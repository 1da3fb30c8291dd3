//! The interner, which maps validated path strings to dense integer
//! handles, and the registry, a handle-keyed store of typed values layered
//! on an interner of its own.

use vstd::prelude::*;

use crate::Id;
use crate::paths::{valid_path, is_valid_path};

verus! {

/// Well-formedness of an interner's contents: every stored path is valid,
/// no path is stored twice, and the number of entries fits in a `u32`
/// handle.
pub open spec fn wf_paths(paths: Seq<Seq<char>>) -> bool {
    &&& forall|i: int| 0 <= i < paths.len() ==> valid_path(#[trigger] paths[i])
    &&& forall|i: int, j: int| 0 <= i < j < paths.len() ==> paths[i] != paths[j]
    &&& paths.len() <= u32::MAX as int
}

/// What `intern` does to an interner holding `paths`: an already-interned
/// path is a pure lookup; a new valid path is appended (its handle is the
/// old number of entries); an invalid path, or one that would not fit a
/// `u32` handle, changes nothing and gets no handle.
pub open spec fn spec_intern(paths: Seq<Seq<char>>, p: Seq<char>) -> (Seq<Seq<char>>, Option<int>) {
    if paths.contains(p) {
        (paths, Some(paths.index_of(p)))
    } else if valid_path(p) && paths.len() < u32::MAX as int {
        (paths.push(p), Some(paths.len() as int))
    } else {
        (paths, None)
    }
}

/// What `lookup` returns for an interner holding `paths`.
pub open spec fn spec_lookup(paths: Seq<Seq<char>>, p: Seq<char>) -> Option<int> {
    if paths.contains(p) {
        Some(paths.index_of(p))
    } else {
        None
    }
}

/// What `resolve` returns for an interner holding `paths`.
pub open spec fn spec_resolve(paths: Seq<Seq<char>>, id: int) -> Option<Seq<char>> {
    if 0 <= id < paths.len() {
        Some(paths[id])
    } else {
        None
    }
}

/// How a `register` call stores `v` under handle `id`: an existing handle's
/// slot is overwritten, a freshly allocated handle (one past the end) gets a
/// new slot.
pub open spec fn spec_store<T>(vals: Seq<Option<T>>, id: int, v: T) -> Seq<Option<T>> {
    if 0 <= id < vals.len() {
        vals.update(id, Some(v))
    } else {
        vals.push(Some(v))
    }
}

/// What `register` does to a registry holding `paths` and `vals`: the path
/// is interned (allocating a handle only for a new valid path), and on
/// success the value is stored under the handle, overwriting any previous
/// value.
pub open spec fn spec_register<T>(
    paths: Seq<Seq<char>>,
    vals: Seq<Option<T>>,
    p: Seq<char>,
    v: T,
) -> (Seq<Seq<char>>, Seq<Option<T>>, Option<int>) {
    let (paths1, r) = spec_intern(paths, p);
    match r {
        Some(id) => (paths1, spec_store(vals, id, v), Some(id)),
        None => (paths1, vals, None),
    }
}

/// Bidirectional mapping between validated path strings and dense `Id`
/// handles. Handles are assigned sequentially at first interning and are
/// never removed or renumbered; its abstract value is the sequence of
/// interned paths, where the handle of a path is its position.
pub struct IdInterner {
    strings: Vec<String>,
}

impl View for IdInterner {
    type V = Seq<Seq<char>>;

    closed spec fn view(&self) -> Seq<Seq<char>> {
        self.strings@.map_values(|s: String| s@)
    }
}

impl IdInterner {
    /// Creates an empty interner.
    pub fn new() -> (r: IdInterner)
        ensures
            r@ == Seq::<Seq<char>>::empty(),
            wf_paths(r@),
    {
        let r = IdInterner { strings: Vec::new() };
        proof {
            assert(r@ =~= Seq::<Seq<char>>::empty());
        }
        r
    }

    /// The number of paths interned so far; handles allocated so far are
    /// exactly those below this count.
    pub fn len(&self) -> (r: usize)
        ensures
            r == self@.len(),
    {
        proof {
            assert(self@.len() == self.strings@.len());
        }
        self.strings.len()
    }

    /// Position of `path` among the interned strings, if present.
    fn find(&self, path: &str) -> (r: Option<usize>)
        ensures
            match r {
                Some(i) => i < self@.len() && self@[i as int] == path@,
                None => !self@.contains(path@),
            },
    {
        let owned: String = path.to_owned();
        let n = self.strings.len();
        let mut i: usize = 0;
        while i < n
            invariant
                i <= n,
                n == self.strings@.len(),
                owned@ == path@,
                self@.len() == self.strings@.len(),
                forall|j: int| 0 <= j < i ==> self@[j] != path@,
            decreases n - i,
        {
            proof {
                assert(self@[i as int] == self.strings@[i as int]@);
            }
            if owned.eq(&self.strings[i]) {
                return Some(i);
            }
            i = i + 1;
        }
        proof {
            assert(!self@.contains(path@));
        }
        None
    }

    /// Interns `path`: returns the existing handle if `path` was interned
    /// before; otherwise validates it against the path grammar and, if it is
    /// valid, allocates the next sequential handle for it. Invalid paths get
    /// no handle and leave the interner unchanged.
    pub fn intern(&mut self, path: &str) -> (r: Option<Id>)
        requires
            wf_paths(old(self)@),
        ensures
            wf_paths(final(self)@),
            final(self)@ == spec_intern(old(self)@, path@).0,
            match r {
                Some(id) => Some(id.0 as int) == spec_intern(old(self)@, path@).1,
                None => spec_intern(old(self)@, path@).1 is None,
            },
    {
        match self.find(path) {
            Some(i) => {
                proof {
                    let p = path@;
                    assert(old(self)@.contains(p));
                    let j = old(self)@.index_of(p);
                    assert(old(self)@[j] == p);
                    assert(j == i as int);
                }
                Some(Id(i as u32))
            },
            None => {
                if !is_valid_path(path) {
                    return None;
                }
                if self.strings.len() >= u32::MAX as usize {
                    return None;
                }
                let id = Id(self.strings.len() as u32);
                self.strings.push(path.to_owned());
                proof {
                    assert(self@ =~= old(self)@.push(path@));
                }
                Some(id)
            },
        }
    }

    /// Read-only lookup of `path`; never allocates; `None` both for invalid
    /// and for never-interned paths.
    pub fn lookup(&self, path: &str) -> (r: Option<Id>)
        requires
            wf_paths(self@),
        ensures
            match r {
                Some(id) => Some(id.0 as int) == spec_lookup(self@, path@),
                None => spec_lookup(self@, path@) is None,
            },
    {
        match self.find(path) {
            Some(i) => {
                proof {
                    let p = path@;
                    let j = self@.index_of(p);
                    assert(self@[j] == p);
                    assert(j == i as int);
                }
                Some(Id(i as u32))
            },
            None => None,
        }
    }

    /// Read-only reverse lookup: the path that `id` was allocated for, or
    /// `None` if this interner never allocated `id`.
    pub fn resolve(&self, id: Id) -> (r: Option<&str>)
        ensures
            match r {
                Some(s) => Some(s@) == spec_resolve(self@, id.0 as int),
                None => spec_resolve(self@, id.0 as int) is None,
            },
    {
        let i = id.0 as usize;
        if i < self.strings.len() {
            proof {
                assert(self@[i as int] == self.strings@[i as int]@);
            }
            Some(self.strings[i].as_str())
        } else {
            None
        }
    }
}

/// A keyed store of values of type `T`, addressed by interned handle; owns
/// its own interner, so a path's handle is comparable across every user of
/// this registry instance.
pub struct Registry<T> {
    map: Vec<Option<T>>,
    interner: IdInterner,
}

impl<T> Registry<T> {
    /// The interned paths; the handle of a path is its position here.
    pub closed spec fn paths(&self) -> Seq<Seq<char>> {
        self.interner@
    }

    /// The stored values, slot `i` belonging to handle `i`.
    pub closed spec fn vals(&self) -> Seq<Option<T>> {
        self.map@
    }

    /// Well-formedness: the interner is well-formed and there is one value
    /// slot per interned path.
    pub open spec fn wf(&self) -> bool {
        &&& wf_paths(self.paths())
        &&& self.vals().len() == self.paths().len()
    }

    /// The value stored under handle `id`, if any.
    pub open spec fn spec_get(&self, id: int) -> Option<T> {
        if 0 <= id < self.vals().len() {
            self.vals()[id]
        } else {
            None
        }
    }

    /// Creates an empty registry.
    pub fn new() -> (r: Registry<T>)
        ensures
            r.wf(),
            r.paths() == Seq::<Seq<char>>::empty(),
            r.vals() == Seq::<Option<T>>::empty(),
    {
        let r = Registry { map: Vec::new(), interner: IdInterner::new() };
        proof {
            assert(r.vals() =~= Seq::<Option<T>>::empty());
        }
        r
    }

    /// Interns `path` (propagating interning failure), then stores `value`
    /// under the resulting handle, overwriting any previous value; returns
    /// the handle. Registering under an invalid path is a no-op returning
    /// `None`.
    pub fn register(&mut self, path: &str, value: T) -> (r: Option<Id>)
        requires
            old(self).wf(),
        ensures
            final(self).wf(),
            ({
                let (paths2, vals2, r2) = spec_register(
                    old(self).paths(),
                    old(self).vals(),
                    path@,
                    value,
                );
                &&& final(self).paths() == paths2
                &&& final(self).vals() == vals2
                &&& match r {
                    Some(id) => r2 == Some(id.0 as int),
                    None => r2 is None,
                }
            }),
    {
        match self.interner.intern(path) {
            Some(id) => {
                let idx = id.0 as usize;
                if idx < self.map.len() {
                    self.map.set(idx, Some(value));
                } else {
                    self.map.push(Some(value));
                }
                Some(id)
            },
            None => None,
        }
    }

    /// Read-only lookup of `path`'s handle; never allocates; `None` both
    /// for invalid and for never-registered paths.
    pub fn lookup(&self, path: &str) -> (r: Option<Id>)
        requires
            self.wf(),
        ensures
            match r {
                Some(id) => Some(id.0 as int) == spec_lookup(self.paths(), path@),
                None => spec_lookup(self.paths(), path@) is None,
            },
    {
        self.interner.lookup(path)
    }

    /// Read-only reverse lookup of a handle's path.
    pub fn resolve(&self, id: Id) -> (r: Option<&str>)
        ensures
            match r {
                Some(s) => Some(s@) == spec_resolve(self.paths(), id.0 as int),
                None => spec_resolve(self.paths(), id.0 as int) is None,
            },
    {
        self.interner.resolve(id)
    }

    /// The value registered under handle `id`, if any.
    pub fn get(&self, id: Id) -> (r: Option<&T>)
        ensures
            match r {
                Some(v) => self.spec_get(id.0 as int) == Some(*v),
                None => self.spec_get(id.0 as int) is None,
            },
    {
        let i = id.0 as usize;
        if i < self.map.len() {
            match &self.map[i] {
                Some(v) => Some(v),
                None => None,
            }
        } else {
            None
        }
    }

    /// The value registered under `path`, if any.
    pub fn get_by_path(&self, path: &str) -> (r: Option<&T>)
        requires
            self.wf(),
        ensures
            match spec_lookup(self.paths(), path@) {
                Some(id) => match r {
                    Some(v) => self.spec_get(id) == Some(*v),
                    None => self.spec_get(id) is None,
                },
                None => r is None,
            },
    {
        match self.lookup(path) {
            Some(id) => self.get(id),
            None => None,
        }
    }

    /// Whether `id` was ever allocated by this registry's interner.
    pub fn contains(&self, id: Id) -> (r: bool)
        ensures
            r == (0 <= id.0 < self.paths().len()),
    {
        match self.resolve(id) {
            Some(_) => true,
            None => false,
        }
    }

    /// Whether `path` has been registered (ever obtained a handle).
    pub fn contains_path(&self, path: &str) -> (r: bool)
        requires
            self.wf(),
        ensures
            r == self.paths().contains(path@),
    {
        match self.lookup(path) {
            Some(_) => true,
            None => false,
        }
    }

    /// All (handle, value) pairs present in the store, in increasing handle
    /// order. Callers must not rely on any particular order.
    pub fn iter(&self) -> (r: Vec<(Id, &T)>)
        requires
            self.wf(),
        ensures
            forall|k: int|
                0 <= k < r@.len() ==> {
                    &&& 0 <= (#[trigger] r@[k]).0.0 < self.vals().len()
                    &&& self.vals()[r@[k].0.0 as int] == Some(*r@[k].1)
                },
            forall|i: int|
                0 <= i < self.vals().len() && (#[trigger] self.vals()[i]) is Some ==> exists|k: int|
                    0 <= k < r@.len() && (#[trigger] r@[k]).0.0 == i,
            forall|k1: int, k2: int| 0 <= k1 < k2 < r@.len() ==> r@[k1].0.0 < r@[k2].0.0,
    {
        let mut out: Vec<(Id, &T)> = Vec::new();
        let n = self.map.len();
        let mut i: usize = 0;
        while i < n
            invariant
                i <= n,
                n == self.vals().len(),
                self.wf(),
                forall|k: int|
                    0 <= k < out@.len() ==> {
                        &&& 0 <= (#[trigger] out@[k]).0.0 < i
                        &&& self.vals()[out@[k].0.0 as int] == Some(*out@[k].1)
                    },
                forall|j: int|
                    0 <= j < i && (#[trigger] self.vals()[j]) is Some ==> exists|k: int|
                        0 <= k < out@.len() && (#[trigger] out@[k]).0.0 == j,
                forall|k1: int, k2: int| 0 <= k1 < k2 < out@.len() ==> out@[k1].0.0 < out@[k2].0.0,
            decreases n - i,
        {
            let ghost out0 = out@;
            match &self.map[i] {
                Some(v) => {
                    out.push((Id(i as u32), v));
                },
                None => {},
            }
            proof {
                assert forall|j: int|
                    0 <= j < i + 1 && (#[trigger] self.vals()[j]) is Some implies exists|k: int|
                    0 <= k < out@.len() && (#[trigger] out@[k]).0.0 == j by {
                    if j == i && self.vals()[i as int] is Some {
                        assert(out@[out@.len() - 1].0.0 == i);
                    } else {
                        let k = choose|k: int|
                            0 <= k < out0.len() && (#[trigger] out0[k]).0.0 == j;
                        assert(out@[k] == out0[k]);
                    }
                }
            }
            i = i + 1;
        }
        out
    }

    /// Replaces the value stored under handle `id`, if one is present;
    /// returns whether a value was replaced. Handles and paths are never
    /// changed.
    pub fn set(&mut self, id: Id, value: T) -> (r: bool)
        ensures
            final(self).paths() == old(self).paths(),
            r == (old(self).spec_get(id.0 as int) is Some),
            if r {
                final(self).vals() == old(self).vals().update(id.0 as int, Some(value))
            } else {
                final(self).vals() == old(self).vals()
            },
    {
        let i = id.0 as usize;
        if i < self.map.len() {
            match &self.map[i] {
                Some(_) => {
                    self.map.set(i, Some(value));
                    true
                },
                None => false,
            }
        } else {
            false
        }
    }
}

/// Idempotence: once `intern` has given a path a handle, every further
/// `intern` of that path returns the same handle and leaves the interner
/// unchanged.
pub proof fn lemma_intern_idempotent(paths: Seq<Seq<char>>, p: Seq<char>)
    requires
        wf_paths(paths),
    ensures
        ({
            let (paths1, r1) = spec_intern(paths, p);
            let (paths2, r2) = spec_intern(paths1, p);
            r1 is Some ==> paths2 == paths1 && r2 == r1
        }),
{
    let (paths1, r1) = spec_intern(paths, p);
    if r1 is Some {
        if paths.contains(p) {
        } else if valid_path(p) && paths.len() < u32::MAX as int {
            assert(paths1[paths.len() as int] == p);
            assert(paths1.contains(p));
            let j = paths1.index_of(p);
            assert(paths1[j] == p);
            if j < paths.len() {
                assert(paths[j] == p);
                assert(paths.contains(p));
                assert(false);
            }
            assert(j == paths.len() as int);
        }
    }
}

/// Round-trip: whenever `intern` returns a handle for `p`, resolving that
/// handle afterwards yields `p` itself.
pub proof fn lemma_intern_resolve_round_trip(paths: Seq<Seq<char>>, p: Seq<char>)
    requires
        wf_paths(paths),
    ensures
        ({
            let (paths1, r1) = spec_intern(paths, p);
            r1 matches Some(id) ==> spec_resolve(paths1, id) == Some(p)
        }),
{
    let (paths1, r1) = spec_intern(paths, p);
    if r1 is Some {
        if paths.contains(p) {
            let j = paths.index_of(p);
            assert(paths[j] == p);
        }
    }
}

/// Rejection: an invalid path never obtains a handle, and interning it
/// mutates nothing.
pub proof fn lemma_intern_rejects_invalid(paths: Seq<Seq<char>>, p: Seq<char>)
    requires
        wf_paths(paths),
        !valid_path(p),
    ensures
        spec_intern(paths, p) == (paths, Option::<int>::None),
{
    if paths.contains(p) {
        let j = paths.index_of(p);
        assert(paths[j] == p);
        assert(valid_path(paths[j]));
        assert(false);
    }
}

/// Uniqueness: no two distinct handles of a well-formed interner resolve to
/// the same path.
pub proof fn lemma_handles_unique(paths: Seq<Seq<char>>, i: int, j: int)
    requires
        wf_paths(paths),
        0 <= i < paths.len(),
        0 <= j < paths.len(),
        i != j,
    ensures
        paths[i] != paths[j],
        spec_resolve(paths, i) != spec_resolve(paths, j),
{
    if i < j {
        assert(paths[i] != paths[j]);
    } else {
        assert(paths[j] != paths[i]);
    }
}

/// Uniqueness across interning: two distinct paths never share a handle.
/// Whenever both obtain one, the handles differ, and each resolves back to
/// its own path.
pub proof fn lemma_distinct_paths_distinct_handles(paths: Seq<Seq<char>>, p: Seq<char>, q: Seq<char>)
    requires
        wf_paths(paths),
        p != q,
    ensures
        ({
            let (paths1, r1) = spec_intern(paths, p);
            let (paths2, r2) = spec_intern(paths1, q);
            (r1 is Some && r2 is Some) ==> {
                &&& r1 != r2
                &&& spec_resolve(paths2, r1->0) == Some(p)
                &&& spec_resolve(paths2, r2->0) == Some(q)
            }
        }),
{
    let (paths1, r1) = spec_intern(paths, p);
    let (paths2, r2) = spec_intern(paths1, q);
    lemma_intern_preserves_wf(paths, p);
    lemma_intern_resolve_round_trip(paths, p);
    lemma_intern_resolve_round_trip(paths1, q);
    if r1 is Some && r2 is Some {
        let i = r1->0;
        let j = r2->0;
        assert(paths1[i] == p);
        assert(paths2[j] == q);
        assert(0 <= i < paths1.len());
        assert(paths2[i] == p);
        if i == j {
            assert(false);
        }
    }
}

/// The interner state reached by interning each path of `ps`, in order,
/// starting from `paths`.
pub open spec fn spec_intern_all(paths: Seq<Seq<char>>, ps: Seq<Seq<char>>) -> Seq<Seq<char>>
    decreases ps.len(),
{
    if ps.len() == 0 {
        paths
    } else {
        spec_intern(spec_intern_all(paths, ps.drop_last()), ps.last()).0
    }
}

/// Sequential allocation: interning N distinct valid paths into a fresh
/// interner, in order, stores exactly those paths in that order — the
/// k-th call returns handle k, so the N calls hand out exactly the
/// handles 0 through N-1, and afterwards each handle resolves back to its
/// own path.
pub proof fn lemma_intern_sequence(ps: Seq<Seq<char>>)
    requires
        forall|i: int| 0 <= i < ps.len() ==> valid_path(#[trigger] ps[i]),
        forall|i: int, j: int| 0 <= i < j < ps.len() ==> ps[i] != ps[j],
        ps.len() <= u32::MAX as int,
    ensures
        spec_intern_all(Seq::<Seq<char>>::empty(), ps) == ps,
        forall|k: int|
            0 <= k < ps.len() ==> spec_intern(
                spec_intern_all(Seq::<Seq<char>>::empty(), ps.take(k)),
                #[trigger] ps[k],
            ).1 == Some(k),
        forall|k: int| 0 <= k < ps.len() ==> spec_resolve(ps, k) == Some(#[trigger] ps[k]),
    decreases ps.len(),
{
    if ps.len() == 0 {
        assert(spec_intern_all(Seq::<Seq<char>>::empty(), ps) =~= ps);
    } else {
        let dl = ps.drop_last();
        let last = ps.last();
        assert forall|i: int| 0 <= i < dl.len() implies valid_path(#[trigger] dl[i]) by {
            assert(dl[i] == ps[i]);
        }
        assert forall|i: int, j: int| 0 <= i < j < dl.len() implies dl[i] != dl[j] by {
            assert(dl[i] == ps[i]);
            assert(dl[j] == ps[j]);
        }
        lemma_intern_sequence(dl);
        // the final call starts from a state holding exactly the prefix
        assert(spec_intern_all(Seq::<Seq<char>>::empty(), dl) == dl);
        if dl.contains(last) {
            let w = choose|i: int| 0 <= i < dl.len() && dl[i] == last;
            assert(dl[w] == last);
            assert(ps[w] == ps[ps.len() - 1]);
            assert(false);
        }
        assert(valid_path(last));
        assert(spec_intern(dl, last).0 == dl.push(last));
        assert(dl.push(last) =~= ps);
        assert forall|k: int|
            0 <= k < ps.len() implies spec_intern(
            spec_intern_all(Seq::<Seq<char>>::empty(), ps.take(k)),
            #[trigger] ps[k],
        ).1 == Some(k) by {
            if k < ps.len() - 1 {
                assert(ps.take(k) =~= dl.take(k));
                assert(ps[k] == dl[k]);
            } else {
                assert(ps.take(k) =~= dl);
                assert(spec_intern(dl, last).1 == Some(dl.len() as int));
            }
        }
    }
}

/// Interning preserves well-formedness: validity of every stored path,
/// distinctness, and the handle bound.
pub proof fn lemma_intern_preserves_wf(paths: Seq<Seq<char>>, p: Seq<char>)
    requires
        wf_paths(paths),
    ensures
        wf_paths(spec_intern(paths, p).0),
{
    let paths1 = spec_intern(paths, p).0;
    if !paths.contains(p) && valid_path(p) && paths.len() < u32::MAX as int {
        assert forall|i: int, j: int| 0 <= i < j < paths1.len() implies paths1[i] != paths1[j] by {
            if j == paths.len() as int {
                if paths1[i] == p {
                    assert(paths.contains(p));
                }
            }
        }
    }
}

/// Overwrite: registering the same path twice with different values leaves
/// the second value in the store, under the handle the first call
/// allocated; the interner is untouched by the second call.
pub proof fn lemma_register_overwrite<T>(
    paths: Seq<Seq<char>>,
    vals: Seq<Option<T>>,
    p: Seq<char>,
    v1: T,
    v2: T,
)
    requires
        wf_paths(paths),
        vals.len() == paths.len(),
    ensures
        ({
            let (pa1, va1, r1) = spec_register(paths, vals, p, v1);
            let (pa2, va2, r2) = spec_register(pa1, va1, p, v2);
            r1 matches Some(id) ==> {
                &&& r2 == r1
                &&& pa2 == pa1
                &&& 0 <= id < va2.len()
                &&& va2[id] == Some(v2)
            }
        }),
{
    let (pa1, va1, r1) = spec_register(paths, vals, p, v1);
    lemma_intern_idempotent(paths, p);
    lemma_intern_resolve_round_trip(paths, p);
    if r1 is Some {
        let id = spec_intern(paths, p).1->0;
        assert(pa1[id] == p);
        assert(pa1.contains(p));
    }
}

} // verus!
