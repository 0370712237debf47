//! The identity-keyed type cache: a stable arena of memoized entries keyed
//! by canonical identifier, deduplicating every resolution of the same
//! identifier into one shared entry.

use vstd::prelude::*;

use crate::class::{common_superclass_id, super_walk, Class};
use crate::classpath::ClassPath;
use crate::errors::HierError;
use crate::provider::{root_id, Provider};
use crate::text::str_eq;

verus! {

/// One cached type: the provider handle, the canonical identifier it was
/// keyed under, and the lazily computed facts, each memoized at most once.
pub(crate) struct EntryData<P: Provider> {
    pub(crate) handle: P::Handle,
    pub(crate) id: String,
    pub(crate) name: Option<String>,
    pub(crate) modifiers: Option<u16>,
    pub(crate) superclass: Option<Option<usize>>,
    pub(crate) interfaces: Option<Vec<usize>>,
}

/// How many arena slots hold a live entry.
pub(crate) open spec fn count_live<P: Provider>(s: Seq<Option<EntryData<P>>>) -> nat
    decreases s.len(),
{
    if s.len() == 0 {
        0
    } else {
        count_live(s.drop_last()) + if s.last() is Some {
            1nat
        } else {
            0nat
        }
    }
}

/// The registry mapping each canonical identifier to one shared, memoized
/// entry. Entries live in a stable arena: a [`Class`] is an index into it,
/// [`ClassPool::clear`] vacates every slot at once, and vacated slots are
/// never reused, so a cleared-out entry can never be confused with a fresh
/// one.
pub struct ClassPool<P: Provider> {
    provider: P,
    slots: Vec<Option<EntryData<P>>>,
}

impl<P: Provider> ClassPool<P> {
    /// The hierarchy the pool's provider answers from.
    pub closed spec fn hier(&self) -> crate::provider::Hierarchy {
        self.provider.hier()
    }

    /// `c` points at a live entry of this pool.
    pub closed spec fn valid(&self, c: Class) -> bool {
        c.slot < self.slots@.len() && self.slots@[c.slot as int] is Some
    }

    /// The canonical identifier of the entry `c` points at.
    pub closed spec fn id_of(&self, c: Class) -> Seq<char> {
        self.slots@[c.slot as int]->0.id@
    }

    pub(crate) closed spec fn entry_at(&self, i: int) -> EntryData<P> {
        self.slots@[i]->0
    }

    /// Some live entry is keyed under `id`.
    pub closed spec fn has_id(&self, id: Seq<char>) -> bool {
        exists|i: int|
            0 <= i < self.slots@.len() && self.slots@[i] is Some && (#[trigger] self.entry_at(
                i,
            )).id@ == id
    }

    /// The number of live entries.
    pub closed spec fn len_spec(&self) -> nat {
        count_live(self.slots@)
    }

    /// Everything the memoized fields of the entry at slot `i` claim agrees
    /// with the hierarchy, and every slot they point at is live and keyed by
    /// the fact they memoize.
    pub(crate) closed spec fn slot_ok(&self, i: int) -> bool {
        let e = self.entry_at(i);
        let h = self.provider.hier();
        &&& h.types.contains_key(e.id@)
        &&& P::handle_id(&e.handle) == e.id@
        &&& (e.name matches Some(s) ==> s@ == e.id@)
        &&& (e.modifiers matches Some(m) ==> m == h.types[e.id@].modifiers)
        &&& (e.superclass matches Some(opt) ==> match opt {
            None => h.types[e.id@].superclass is None,
            Some(j) => j < self.slots@.len() && self.slots@[j as int] is Some && h.types[
                e.id@
            ].superclass == Some(self.entry_at(j as int).id@),
        })
        &&& (e.interfaces matches Some(v) ==> v@.len() == h.types[e.id@].interfaces.len() && forall|
            k: int,
        |
            0 <= k < v@.len() ==> (#[trigger] v@[k]) < self.slots@.len() && self.slots@[v@[
                k
            ] as int] is Some && self.entry_at(v@[k] as int).id@ == h.types[e.id@].interfaces[k])
    }

    /// The pool invariant: a well-formed hierarchy, every live entry
    /// consistent with it, and at most one live entry per identifier.
    pub closed spec fn wf(&self) -> bool {
        &&& self.provider.hier().wf()
        &&& (forall|i: int|
            0 <= i < self.slots@.len() && self.slots@[i] is Some ==> #[trigger] self.slot_ok(i))
        &&& (forall|i: int, j: int|
            #![trigger self.entry_at(i), self.entry_at(j)]
            0 <= i < j < self.slots@.len() && self.slots@[i] is Some && self.slots@[j] is Some
                ==> self.entry_at(i).id@ != self.entry_at(j).id@)
    }

    /// Every entry live in `prev` is still live here, under the same
    /// identifier; the arena only grows or memoizes.
    pub closed spec fn extends(&self, prev: Self) -> bool {
        &&& self.slots@.len() >= prev.slots@.len()
        &&& forall|i: int|
            0 <= i < prev.slots@.len() && prev.slots@[i] is Some ==> #[trigger] self.slots@[
                i
            ] is Some && self.entry_at(i).id@ == prev.entry_at(i).id@
    }

    proof fn lemma_extends_trans(&self, mid: Self, prev: Self)
        requires
            self.extends(mid),
            mid.extends(prev),
        ensures
            self.extends(prev),
    {
    }

    /// Rebuilding the invariant after one entry's fields changed under an
    /// unchanged identifier.
    proof fn lemma_wf_entry_update(&self, prev: Self, i: int)
        requires
            prev.wf(),
            self.provider.hier() == prev.provider.hier(),
            self.slots@.len() == prev.slots@.len(),
            forall|j: int| 0 <= j < prev.slots@.len() && j != i ==> self.slots@[j] == prev.slots@[j],
            0 <= i < self.slots@.len(),
            self.slots@[i] is Some,
            prev.slots@[i] is Some,
            self.entry_at(i).id@ == prev.entry_at(i).id@,
            self.slot_ok(i),
        ensures
            self.wf(),
            self.extends(prev),
            self.len_spec() == prev.len_spec(),
    {
        lemma_count_live_same_shape::<P>(self.slots@, prev.slots@);
        assert forall|j: int|
            0 <= j < self.slots@.len() && self.slots@[j] is Some implies #[trigger] self.slot_ok(
            j,
        ) by {
            if j != i {
                assert(prev.slot_ok(j));
                assert(self.entry_at(j) == prev.entry_at(j));
                let e = self.entry_at(j);
                match e.superclass {
                    Some(Some(k)) => {
                        assert(self.slots@[k as int] is Some && self.entry_at(k as int).id@
                            == prev.entry_at(k as int).id@);
                    },
                    _ => {},
                }
                match e.interfaces {
                    Some(v) => {
                        assert forall|k: int| 0 <= k < v@.len() implies (#[trigger] v@[k])
                            < self.slots@.len() && self.slots@[v@[k] as int] is Some
                            && self.entry_at(v@[k] as int).id@ == self.provider.hier().types[
                            e.id@
                        ].interfaces[k] by {
                            assert(prev.slots@[v@[k] as int] is Some);
                            assert(prev.entry_at(v@[k] as int).id@ == prev.provider.hier().types[
                                e.id@
                            ].interfaces[k]);
                        }
                    },
                    None => {},
                }
            }
        }
        assert forall|a: int, b: int|
            #![trigger self.entry_at(a), self.entry_at(b)]
            0 <= a < b < self.slots@.len() && self.slots@[a] is Some && self.slots@[b]
                is Some implies self.entry_at(a).id@ != self.entry_at(b).id@ by {
            assert(prev.entry_at(a).id@ != prev.entry_at(b).id@);
        }
    }

    /// Rebuilding the invariant after pushing one fresh, unmemoized entry.
    proof fn lemma_wf_push(&self, prev: Self)
        requires
            prev.wf(),
            self.provider.hier() == prev.provider.hier(),
            self.slots@.len() == prev.slots@.len() + 1,
            forall|j: int| 0 <= j < prev.slots@.len() ==> self.slots@[j] == prev.slots@[j],
            self.slots@.last() is Some,
            ({
                let e = self.entry_at(self.slots@.len() - 1);
                &&& self.provider.hier().types.contains_key(e.id@)
                &&& P::handle_id(&e.handle) == e.id@
                &&& e.name is None
                &&& e.modifiers is None
                &&& e.superclass is None
                &&& e.interfaces is None
                &&& !prev.has_id(e.id@)
            }),
        ensures
            self.wf(),
            self.extends(prev),
            self.len_spec() == prev.len_spec() + 1,
    {
        let n = prev.slots@.len() as int;
        assert forall|j: int|
            0 <= j < self.slots@.len() && self.slots@[j] is Some implies #[trigger] self.slot_ok(
            j,
        ) by {
            if j < n {
                assert(prev.slot_ok(j));
                assert(self.entry_at(j) == prev.entry_at(j));
                let e = self.entry_at(j);
                match e.superclass {
                    Some(Some(k)) => {
                        assert(prev.slots@[k as int] is Some);
                    },
                    _ => {},
                }
                match e.interfaces {
                    Some(v) => {
                        assert forall|k: int| 0 <= k < v@.len() implies (#[trigger] v@[k])
                            < self.slots@.len() && self.slots@[v@[k] as int] is Some
                            && self.entry_at(v@[k] as int).id@ == self.provider.hier().types[
                            e.id@
                        ].interfaces[k] by {
                            assert(prev.slots@[v@[k] as int] is Some);
                            assert(prev.entry_at(v@[k] as int).id@ == prev.provider.hier().types[
                                e.id@
                            ].interfaces[k]);
                        }
                    },
                    None => {},
                }
            }
        }
        assert forall|a: int, b: int|
            #![trigger self.entry_at(a), self.entry_at(b)]
            0 <= a < b < self.slots@.len() && self.slots@[a] is Some && self.slots@[b]
                is Some implies self.entry_at(a).id@ != self.entry_at(b).id@ by {
            if b < n {
                assert(prev.entry_at(a).id@ != prev.entry_at(b).id@);
            } else {
                assert(prev.slots@[a] is Some && prev.entry_at(a).id@ == self.entry_at(a).id@);
                if self.entry_at(a).id@ == self.entry_at(b).id@ {
                    assert(prev.has_id(self.entry_at(b).id@));
                }
            }
        }
        assert(self.slots@.drop_last() =~= prev.slots@);
    }

    /// The invariant reads the provider only through its hierarchy, so a
    /// provider call that leaves the hierarchy unchanged leaves the whole
    /// cache state equivalent.
    proof fn lemma_wf_provider_stable(&self, prev: Self)
        requires
            prev.wf(),
            self.slots@ == prev.slots@,
            self.provider.hier() == prev.provider.hier(),
        ensures
            self.wf(),
            self.extends(prev),
            self.len_spec() == prev.len_spec(),
            forall|c: Class| self.valid(c) == prev.valid(c),
            forall|c: Class| #[trigger] self.valid(c) ==> self.id_of(c) == prev.id_of(c),
            forall|id: Seq<char>| self.has_id(id) == prev.has_id(id),
    {
        assert forall|j: int|
            0 <= j < self.slots@.len() && self.slots@[j] is Some implies #[trigger] self.slot_ok(
            j,
        ) by {
            assert(prev.slot_ok(j));
            assert(self.entry_at(j) == prev.entry_at(j));
        }
        assert forall|a: int, b: int|
            #![trigger self.entry_at(a), self.entry_at(b)]
            0 <= a < b < self.slots@.len() && self.slots@[a] is Some && self.slots@[b]
                is Some implies self.entry_at(a).id@ != self.entry_at(b).id@ by {
            assert(prev.entry_at(a).id@ != prev.entry_at(b).id@);
        }
        assert forall|id: Seq<char>| self.has_id(id) == prev.has_id(id) by {
            if prev.has_id(id) {
                let i = choose|i: int|
                    0 <= i < prev.slots@.len() && prev.slots@[i] is Some && (#[trigger]
                    prev.entry_at(i)).id@ == id;
                assert(self.entry_at(i).id@ == id);
            }
            if self.has_id(id) {
                let i = choose|i: int|
                    0 <= i < self.slots@.len() && self.slots@[i] is Some && (#[trigger]
                    self.entry_at(i)).id@ == id;
                assert(prev.entry_at(i).id@ == id);
            }
        }
    }

    /// A pool over a provider, initially empty.
    pub fn new(provider: P) -> (r: Self)
        requires
            provider.hier().wf(),
        ensures
            r.wf(),
            r.hier() == provider.hier(),
            r.len_spec() == 0,
            forall|c: Class| !r.valid(c),
    {
        ClassPool { provider, slots: Vec::new() }
    }

    /// The number of live cached entries.
    pub fn len(&self) -> (r: usize)
        ensures
            r == self.len_spec(),
    {
        let n = self.slots.len();
        let mut count: usize = 0;
        let mut i: usize = 0;
        proof {
            assert(self.slots@.take(0) =~= Seq::empty());
        }
        while i < n
            invariant
                i <= n,
                n == self.slots@.len(),
                count <= i,
                count == count_live(self.slots@.take(i as int)),
            decreases n - i,
        {
            if self.slots[i].is_some() {
                count += 1;
            }
            proof {
                assert(self.slots@.take(i + 1 as int).drop_last() =~= self.slots@.take(i as int));
                assert(self.slots@.take(i + 1 as int).last() == self.slots@[i as int]);
            }
            i += 1;
        }
        proof {
            assert(self.slots@.take(n as int) =~= self.slots@);
        }
        count
    }

    /// Whether the cache holds no live entry.
    pub fn is_empty(&self) -> (r: bool)
        ensures
            r == (self.len_spec() == 0),
    {
        self.len() == 0
    }

    /// Atomically drops every cache-owned entry. Entries handed out earlier
    /// can no longer be used: each later operation on them reports a
    /// dangling reference, rather than silently re-deriving an entry whose
    /// underlying handle identity could differ.
    pub fn clear(&mut self)
        requires
            old(self).wf(),
        ensures
            final(self).wf(),
            final(self).hier() == old(self).hier(),
            final(self).len_spec() == 0,
            forall|c: Class| !final(self).valid(c),
    {
        let n = self.slots.len();
        let mut i: usize = 0;
        while i < n
            invariant
                i <= n,
                n == self.slots@.len(),
                self.provider == old(self).provider,
                forall|j: int| 0 <= j < i ==> self.slots@[j] is None,
            decreases n - i,
        {
            self.slots[i] = None;
            i += 1;
        }
        proof {
            lemma_count_live_none(self.slots@);
        }
    }

    /// The slot of the live entry keyed under `key`, if one exists.
    fn find_slot(&self, key: &str) -> (r: Option<usize>)
        ensures
            match r {
                Some(i) => self.valid(Class { slot: i }) && self.entry_at(i as int).id@ == key@,
                None => !self.has_id(key@),
            },
    {
        let n = self.slots.len();
        let mut i: usize = 0;
        while i < n
            invariant
                i <= n,
                n == self.slots@.len(),
                forall|j: int|
                    0 <= j < i && self.slots@[j] is Some ==> (#[trigger] self.entry_at(j)).id@
                        != key@,
            decreases n - i,
        {
            match &self.slots[i] {
                Some(e) => {
                    if str_eq(e.id.as_str(), key) {
                        return Some(i);
                    }
                },
                None => {},
            }
            i += 1;
        }
        None
    }

    /// Inserts a fresh entry for a handle known to denote `key`.
    fn insert_entry(&mut self, handle: P::Handle, key: String) -> (r: Class)
        requires
            old(self).wf(),
            !old(self).has_id(key@),
            old(self).hier().types.contains_key(key@),
            P::handle_id(&handle) == key@,
        ensures
            final(self).wf(),
            final(self).hier() == old(self).hier(),
            final(self).extends(*old(self)),
            final(self).len_spec() == old(self).len_spec() + 1,
            final(self).valid(r),
            final(self).id_of(r) == key@,
            final(self).has_id(key@),
    {
        let ghost prev = *self;
        let slot = self.slots.len();
        self.slots.push(
            Some(
                EntryData {
                    handle,
                    id: key,
                    name: None,
                    modifiers: None,
                    superclass: None,
                    interfaces: None,
                },
            ),
        );
        proof {
            self.lemma_wf_push(prev);
        }
        Class { slot }
    }

    /// Resolves a canonical identifier to its shared entry: a hit returns
    /// the existing entry; a miss asks the provider (primitive names go
    /// through the wrapper-singleton path rather than name lookup) and
    /// inserts one new entry.
    pub(crate) fn fetch_canonical(&mut self, key: String) -> (r: Result<Class, HierError>)
        requires
            old(self).wf(),
        ensures
            final(self).wf(),
            final(self).hier() == old(self).hier(),
            final(self).extends(*old(self)),
            r matches Ok(c) ==> final(self).valid(c) && final(self).id_of(c) == key@ && final(self).hier().types.contains_key(key@),
            old(self).has_id(key@) ==> r is Ok && final(self).len_spec() == old(self).len_spec(),
            r matches Ok(c) ==> (old(self).has_id(key@) ==> old(self).valid(c) && old(self).id_of(
                c,
            ) == key@),
            r is Ok && !old(self).has_id(key@) ==> final(self).len_spec() == old(self).len_spec()
                + 1,
            r is Err ==> final(self).len_spec() == old(self).len_spec(),
            r matches Err(e) ==> !(e is DanglingReference),
            r matches Err(e) && e is NotFound ==> !old(self).hier().types.contains_key(key@),
    {
        let ghost p0 = *self;
        if let Some(i) = self.find_slot(key.as_str()) {
            proof {
                assert(self.slot_ok(i as int));
            }
            return Ok(Class { slot: i });
        }
        let handle = if crate::classpath::primitive_descriptor_exec(key.as_str()).is_some() {
            match self.provider.get_primitive_wrapper_singleton(key.as_str()) {
                Ok(h) => h,
                Err(e) => {
                    proof {
                        self.lemma_wf_provider_stable(p0);
                    }
                    return Err(e);
                },
            }
        } else {
            match self.provider.find_by_identifier(key.as_str()) {
                Ok(h) => h,
                Err(e) => {
                    proof {
                        self.lemma_wf_provider_stable(p0);
                    }
                    return Err(e);
                },
            }
        };
        proof {
            self.lemma_wf_provider_stable(p0);
        }
        let ghost p1 = *self;
        let c = self.insert_entry(handle, key);
        proof {
            self.lemma_extends_trans(p1, p0);
        }
        Ok(c)
    }

    /// Resolves an identifier in either spelling. The dotted dialect is the
    /// default; primitive names pass through unchanged.
    pub fn lookup_class(&mut self, class_path: &str) -> (r: Result<Class, HierError>)
        requires
            old(self).wf(),
        ensures
            final(self).wf(),
            final(self).hier() == old(self).hier(),
            final(self).extends(*old(self)),
            r matches Ok(c) ==> final(self).valid(c) && final(self).id_of(c)
                == crate::classpath::java_to_jni(class_path@),
            old(self).has_id(crate::classpath::java_to_jni(class_path@)) ==> r is Ok && final(self).len_spec() == old(self).len_spec(),
            r matches Ok(c) ==> (old(self).has_id(crate::classpath::java_to_jni(class_path@))
                ==> old(self).valid(c)),
            r is Ok && !old(self).has_id(crate::classpath::java_to_jni(class_path@)) ==> final(self).len_spec() == old(self).len_spec() + 1,
            r is Err ==> final(self).len_spec() == old(self).len_spec(),
            r matches Err(e) ==> !(e is DanglingReference),
            r matches Err(e) && e is NotFound ==> !old(self).hier().types.contains_key(
                crate::classpath::java_to_jni(class_path@),
            ),
    {
        let key = ClassPath::Java(class_path.to_owned()).as_jni().into_string();
        self.fetch_canonical(key)
    }

    /// Resolves a handle that arrived from a provider call without a known
    /// identifier: derives the canonical identifier from the provider's
    /// name operation, then deduplicates into the existing entry if one is
    /// keyed under it. When the cached entry's handle and the new handle
    /// are not the same underlying object, the newly supplied handle
    /// replaces the cached one: the most recently resolved handle wins, and
    /// entry clones handed out earlier keep their own view.
    pub fn resolve_from_handle(&mut self, handle: P::Handle) -> (r: Result<Class, HierError>)
        requires
            old(self).wf(),
            old(self).hier().types.contains_key(P::handle_id(&handle)),
        ensures
            final(self).wf(),
            final(self).hier() == old(self).hier(),
            final(self).extends(*old(self)),
            r matches Ok(c) ==> final(self).valid(c) && final(self).id_of(c) == P::handle_id(
                &handle,
            ),
            r matches Ok(c) ==> (old(self).has_id(P::handle_id(&handle)) ==> old(self).valid(c)
                && final(self).len_spec() == old(self).len_spec()),
            r is Ok && !old(self).has_id(P::handle_id(&handle)) ==> final(self).len_spec() == old(self).len_spec() + 1,
            r is Err ==> final(self).len_spec() == old(self).len_spec(),
            r matches Err(e) ==> !(e is DanglingReference),
    {
        let ghost p0 = *self;
        let name = match self.provider.get_name(&handle) {
            Ok(s) => s,
            Err(e) => {
                proof {
                    self.lemma_wf_provider_stable(p0);
                }
                return Err(e);
            },
        };
        proof {
            self.lemma_wf_provider_stable(p0);
        }
        let ghost p1 = *self;
        if let Some(i) = self.find_slot(name.as_str()) {
            proof {
                assert(self.slot_ok(i as int));
            }
            let same = match self.provider.is_same_identity(
                &handle,
                &self.slots[i].as_ref().unwrap().handle,
            ) {
                Ok(b) => b,
                Err(e) => {
                    proof {
                        self.lemma_wf_provider_stable(p1);
                        self.lemma_extends_trans(p1, p0);
                    }
                    return Err(e);
                },
            };
            proof {
                self.lemma_wf_provider_stable(p1);
                self.lemma_extends_trans(p1, p0);
            }
            let ghost p2 = *self;
            if !same {
                match &mut self.slots[i] {
                    Some(e) => {
                        e.handle = handle;
                    },
                    None => {
                        proof {
                            assert(false);
                        }
                    },
                }
                proof {
                    assert(p2.slot_ok(i as int));
                    assert(self.slot_ok(i as int));
                    self.lemma_wf_entry_update(p2, i as int);
                    self.lemma_extends_trans(p2, p0);
                }
            }
            return Ok(Class { slot: i });
        }
        let ghost p2 = *self;
        let c = self.insert_entry(handle, name);
        proof {
            self.lemma_extends_trans(p2, p0);
        }
        Ok(c)
    }

    /// The memoized canonical identifier of the entry `c` points at.
    pub(crate) fn entry_name(&mut self, c: Class) -> (r: Result<String, HierError>)
        requires
            old(self).wf(),
        ensures
            final(self).wf(),
            final(self).hier() == old(self).hier(),
            final(self).extends(*old(self)),
            r matches Ok(s) ==> old(self).valid(c) && s@ == old(self).id_of(c),
            !old(self).valid(c) ==> (r matches Err(e) && e is DanglingReference),
            r matches Err(e) && e is DanglingReference ==> !old(self).valid(c),
    {
        let ghost prev = *self;
        if c.slot >= self.slots.len() {
            return Err(dangling_error());
        }
        match &self.slots[c.slot] {
            None => {
                return Err(dangling_error());
            },
            Some(e) => {
                proof {
                    assert(self.slot_ok(c.slot as int));
                }
                if let Some(n) = &e.name {
                    return Ok(n.clone());
                }
            },
        }
        let name = match self.provider.get_name(&self.slots[c.slot].as_ref().unwrap().handle) {
            Ok(s) => s,
            Err(e) => {
                proof {
                    self.lemma_wf_provider_stable(prev);
                }
                return Err(e);
            },
        };
        proof {
            self.lemma_wf_provider_stable(prev);
        }
        let ghost mid = *self;
        match &mut self.slots[c.slot] {
            Some(e) => {
                e.name = Some(name.clone());
            },
            None => {
                proof {
                    assert(false);
                }
            },
        }
        proof {
            assert(mid.slot_ok(c.slot as int));
            assert(self.slot_ok(c.slot as int));
            self.lemma_wf_entry_update(mid, c.slot as int);
            self.lemma_extends_trans(mid, prev);
        }
        Ok(name)
    }

    /// The memoized modifier bitset of the entry `c` points at.
    pub(crate) fn entry_modifiers(&mut self, c: Class) -> (r: Result<u16, HierError>)
        requires
            old(self).wf(),
        ensures
            final(self).wf(),
            final(self).hier() == old(self).hier(),
            final(self).extends(*old(self)),
            r matches Ok(m) ==> old(self).valid(c) && old(self).hier().types.contains_key(
                old(self).id_of(c),
            ) && m == old(self).hier().types[old(self).id_of(c)].modifiers,
            !old(self).valid(c) ==> (r matches Err(e) && e is DanglingReference),
            r matches Err(e) && e is DanglingReference ==> !old(self).valid(c),
    {
        let ghost prev = *self;
        if c.slot >= self.slots.len() {
            return Err(dangling_error());
        }
        match &self.slots[c.slot] {
            None => {
                return Err(dangling_error());
            },
            Some(e) => {
                proof {
                    assert(self.slot_ok(c.slot as int));
                }
                if let Some(m) = e.modifiers {
                    return Ok(m);
                }
            },
        }
        let m = match self.provider.get_modifiers(&self.slots[c.slot].as_ref().unwrap().handle) {
            Ok(m) => m,
            Err(e) => {
                proof {
                    self.lemma_wf_provider_stable(prev);
                }
                return Err(e);
            },
        };
        proof {
            self.lemma_wf_provider_stable(prev);
        }
        let ghost mid = *self;
        match &mut self.slots[c.slot] {
            Some(e) => {
                e.modifiers = Some(m);
            },
            None => {
                proof {
                    assert(false);
                }
            },
        }
        proof {
            assert(mid.slot_ok(c.slot as int));
            assert(self.slot_ok(c.slot as int));
            self.lemma_wf_entry_update(mid, c.slot as int);
            self.lemma_extends_trans(mid, prev);
        }
        Ok(m)
    }

    /// The memoized superclass link of the entry `c` points at; the linked
    /// entry is resolved through the cache, deduplicated like any other.
    pub(crate) fn entry_superclass(&mut self, c: Class) -> (r: Result<Option<Class>, HierError>)
        requires
            old(self).wf(),
        ensures
            final(self).wf(),
            final(self).hier() == old(self).hier(),
            final(self).extends(*old(self)),
            r matches Ok(opt) ==> old(self).valid(c) && match opt {
                Some(s) => final(self).valid(s) && old(self).hier().types[old(self).id_of(
                    c,
                )].superclass == Some(final(self).id_of(s)),
                None => old(self).hier().types[old(self).id_of(c)].superclass is None,
            },
            !old(self).valid(c) ==> (r matches Err(e) && e is DanglingReference),
            r matches Err(e) && e is DanglingReference ==> !old(self).valid(c),
    {
        let ghost prev = *self;
        if c.slot >= self.slots.len() {
            return Err(dangling_error());
        }
        match &self.slots[c.slot] {
            None => {
                return Err(dangling_error());
            },
            Some(e) => {
                proof {
                    assert(self.slot_ok(c.slot as int));
                }
                if let Some(memo) = &e.superclass {
                    return Ok(
                        match memo {
                            Some(j) => Some(Class { slot: *j }),
                            None => None,
                        },
                    );
                }
            },
        }
        let ghost cid = self.id_of(c);
        let sup = match self.provider.get_superclass(&self.slots[c.slot].as_ref().unwrap().handle) {
            Ok(s) => s,
            Err(e) => {
                proof {
                    self.lemma_wf_provider_stable(prev);
                }
                return Err(e);
            },
        };
        proof {
            self.lemma_wf_provider_stable(prev);
        }
        match sup {
            None => {
                let ghost mid = *self;
                match &mut self.slots[c.slot] {
                    Some(e) => {
                        e.superclass = Some(None);
                    },
                    None => {
                        proof {
                            assert(false);
                        }
                    },
                }
                proof {
                    assert(mid.slot_ok(c.slot as int));
                    assert(self.slot_ok(c.slot as int));
                    self.lemma_wf_entry_update(mid, c.slot as int);
                    self.lemma_extends_trans(mid, prev);
                }
                Ok(None)
            },
            Some(h) => {
                let ghost mid = *self;
                proof {
                    assert(mid.hier().types[cid].superclass == Some(P::handle_id(&h)));
                    assert(mid.hier().types.contains_key(cid));
                    assert(mid.hier().types.contains_key(P::handle_id(&h)));
                }
                let sc = match self.resolve_from_handle(h) {
                    Ok(sc) => sc,
                    Err(e) => {
                        proof {
                            self.lemma_extends_trans(mid, prev);
                        }
                        return Err(e);
                    },
                };
                proof {
                    self.lemma_extends_trans(mid, prev);
                }
                let ghost mid2 = *self;
                proof {
                    assert(self.slots@[c.slot as int] is Some);
                    assert(self.entry_at(c.slot as int).id@ == cid);
                    assert(self.slot_ok(sc.slot as int));
                    assert(self.id_of(sc) == P::handle_id(&h));
                }
                match &mut self.slots[c.slot] {
                    Some(e) => {
                        e.superclass = Some(Some(sc.slot));
                    },
                    None => {
                        proof {
                            assert(false);
                        }
                    },
                }
                proof {
                    assert(mid2.slot_ok(c.slot as int));
                    assert(self.slot_ok(c.slot as int));
                    self.lemma_wf_entry_update(mid2, c.slot as int);
                    self.lemma_extends_trans(mid2, prev);
                }
                Ok(Some(sc))
            },
        }
    }

    /// The memoized directly declared interfaces of the entry `c` points
    /// at, in declaration order; each is resolved through the cache.
    pub(crate) fn entry_interfaces(&mut self, c: Class) -> (r: Result<Vec<Class>, HierError>)
        requires
            old(self).wf(),
        ensures
            final(self).wf(),
            final(self).hier() == old(self).hier(),
            final(self).extends(*old(self)),
            r matches Ok(v) ==> old(self).valid(c) && {
                &&& v@.len() == old(self).hier().types[old(self).id_of(c)].interfaces.len()
                &&& forall|k: int|
                    0 <= k < v@.len() ==> final(self).valid(#[trigger] v@[k]) && final(self).id_of(
                        v@[k],
                    ) == old(self).hier().types[old(self).id_of(c)].interfaces[k]
            },
            !old(self).valid(c) ==> (r matches Err(e) && e is DanglingReference),
            r matches Err(e) && e is DanglingReference ==> !old(self).valid(c),
    {
        let ghost prev = *self;
        if c.slot >= self.slots.len() {
            return Err(dangling_error());
        }
        if self.slots[c.slot].is_none() {
            return Err(dangling_error());
        }
        proof {
            assert(self.slot_ok(c.slot as int));
        }
        let ghost cid = self.id_of(c);
        if self.slots[c.slot].as_ref().unwrap().interfaces.is_some() {
            let n = self.slots[c.slot].as_ref().unwrap().interfaces.as_ref().unwrap().len();
            let mut out: Vec<Class> = Vec::new();
            let mut k: usize = 0;
            while k < n
                invariant
                    k <= n,
                    *self == prev,
                    prev == *old(self),
                    prev.wf(),
                    c.slot < prev.slots@.len(),
                    prev.valid(c),
                    cid == prev.id_of(c),
                    prev.slot_ok(c.slot as int),
                    prev.entry_at(c.slot as int).interfaces is Some,
                    n == prev.entry_at(c.slot as int).interfaces->0@.len(),
                    out@.len() == k,
                    forall|t: int|
                        0 <= t < k ==> prev.valid(#[trigger] out@[t]) && prev.id_of(out@[t])
                            == prev.hier().types[cid].interfaces[t],
                decreases n - k,
            {
                let j = self.slots[c.slot].as_ref().unwrap().interfaces.as_ref().unwrap()[k];
                out.push(Class { slot: j });
                k += 1;
            }
            return Ok(out);
        }
        let hs = match self.provider.get_interfaces(&self.slots[c.slot].as_ref().unwrap().handle) {
            Ok(v) => v,
            Err(e) => {
                proof {
                    self.lemma_wf_provider_stable(prev);
                }
                return Err(e);
            },
        };
        proof {
            self.lemma_wf_provider_stable(prev);
        }
        let ghost handles = hs@;
        let n = hs.len();
        let mut rest = hs;
        let mut idxs: Vec<usize> = Vec::new();
        let mut out: Vec<Class> = Vec::new();
        let mut k: usize = 0;
        while k < n
            invariant
                k <= n,
                n == handles.len(),
                rest@ =~= handles.skip(k as int),
                prev == *old(self),
                self.wf(),
                self.hier() == prev.hier(),
                self.extends(prev),
                prev.wf(),
                prev.valid(c),
                cid == prev.id_of(c),
                prev.hier().types.contains_key(cid),
                forall|t: int|
                    0 <= t < handles.len() ==> P::handle_id(#[trigger] &handles[t])
                        == prev.hier().types[cid].interfaces[t],
                handles.len() == prev.hier().types[cid].interfaces.len(),
                idxs@.len() == k,
                out@.len() == k,
                forall|t: int|
                    0 <= t < k ==> self.valid(#[trigger] out@[t]) && self.id_of(out@[t])
                        == prev.hier().types[cid].interfaces[t] && out@[t].slot == idxs@[t],
            decreases n - k,
        {
            let h = rest.remove(0);
            proof {
                assert(handles.skip(k as int)[0] == handles[k as int]);
                assert(P::handle_id(&h) == prev.hier().types[cid].interfaces[k as int]);
                assert(prev.hier().wf());
                assert(prev.hier().types.contains_key(
                    prev.hier().types[cid].interfaces[k as int],
                ));
            }
            let ghost before = *self;
            let ic = match self.resolve_from_handle(h) {
                Ok(ic) => ic,
                Err(e) => {
                    proof {
                        self.lemma_extends_trans(before, prev);
                    }
                    return Err(e);
                },
            };
            proof {
                self.lemma_extends_trans(before, prev);
                assert forall|t: int| 0 <= t < k implies self.valid(#[trigger] out@[t])
                    && self.id_of(out@[t]) == prev.hier().types[cid].interfaces[t] && out@[t].slot
                    == idxs@[t] by {
                    assert(before.valid(out@[t]));
                }
                assert(rest@ =~= handles.skip((k + 1) as int));
            }
            idxs.push(ic.slot);
            out.push(ic);
            k += 1;
        }
        let ghost mid2 = *self;
        proof {
            assert(self.slots@[c.slot as int] is Some);
            assert(self.entry_at(c.slot as int).id@ == cid);
        }
        match &mut self.slots[c.slot] {
            Some(e) => {
                e.interfaces = Some(idxs);
            },
            None => {
                proof {
                    assert(false);
                }
            },
        }
        proof {
            assert(mid2.slot_ok(c.slot as int));
            let e = self.entry_at(c.slot as int);
            let h = self.provider.hier();
            match e.interfaces {
                Some(v) => {
                    assert forall|t: int| 0 <= t < v@.len() implies (#[trigger] v@[t])
                        < self.slots@.len() && self.slots@[v@[t] as int] is Some && self.entry_at(
                        v@[t] as int,
                    ).id@ == h.types[e.id@].interfaces[t] by {
                        assert(mid2.valid(out@[t]));
                        assert(out@[t].slot == v@[t]);
                    }
                },
                None => {},
            }
            assert(self.slot_ok(c.slot as int));
            self.lemma_wf_entry_update(mid2, c.slot as int);
            self.lemma_extends_trans(mid2, prev);
        }
        Ok(out)
    }

    /// A direct, uncached assignability query between two entries.
    pub(crate) fn entry_assignable(&mut self, target: Class, source: Class) -> (r: Result<
        bool,
        HierError,
    >)
        requires
            old(self).wf(),
        ensures
            final(self).wf(),
            final(self).hier() == old(self).hier(),
            final(self).extends(*old(self)),
            r matches Ok(v) ==> old(self).valid(target) && old(self).valid(source) && v == old(self).hier().assignable(old(self).id_of(source), old(self).id_of(target)),
            !(old(self).valid(target) && old(self).valid(source)) ==> (r matches Err(e) && e is DanglingReference),
            r matches Err(e) && e is DanglingReference ==> !(old(self).valid(target) && old(self).valid(source)),
    {
        let ghost p0 = *self;
        if target.slot >= self.slots.len() || source.slot >= self.slots.len() {
            return Err(dangling_error());
        }
        if self.slots[target.slot].is_none() || self.slots[source.slot].is_none() {
            return Err(dangling_error());
        }
        proof {
            assert(self.slot_ok(target.slot as int));
            assert(self.slot_ok(source.slot as int));
        }
        let res = match self.provider.is_assignable_from(
            &self.slots[target.slot].as_ref().unwrap().handle,
            &self.slots[source.slot].as_ref().unwrap().handle,
        ) {
            Ok(v) => Ok(v),
            Err(e) => Err(e),
        };
        proof {
            self.lemma_wf_provider_stable(p0);
        }
        res
    }

    /// The nearest common superclass of two entries, in the committed step
    /// order: the short-circuit assignability checks, the interface rule,
    /// then the superclass-chain walk with the root type as fallback.
    pub(crate) fn entry_common_superclass(&mut self, a: Class, b: Class) -> (r: Result<
        Class,
        HierError,
    >)
        requires
            old(self).wf(),
        ensures
            final(self).wf(),
            final(self).hier() == old(self).hier(),
            final(self).extends(*old(self)),
            r matches Ok(c) ==> old(self).valid(a) && old(self).valid(b) && final(self).valid(c)
                && final(self).id_of(c) == common_superclass_id(
                old(self).hier(),
                old(self).id_of(a),
                old(self).id_of(b),
            ),
            !(old(self).valid(a) && old(self).valid(b)) ==> (r matches Err(e) && e is DanglingReference),
            r matches Err(e) && e is DanglingReference ==> !(old(self).valid(a) && old(self).valid(
                b,
            )),
    {
        let ghost prev = *self;
        let ghost h = self.hier();
        let ghost ida = self.id_of(a);
        let ghost idb = self.id_of(b);
        let step1 = match self.entry_assignable(b, a) {
            Ok(v) => v,
            Err(e) => {
                return Err(e);
            },
        };
        if step1 {
            return Ok(a);
        }
        let ghost s1 = *self;
        let step2 = match self.entry_assignable(a, b) {
            Ok(v) => v,
            Err(e) => {
                proof {
                    self.lemma_extends_trans(s1, prev);
                }
                return Err(e);
            },
        };
        proof {
            self.lemma_extends_trans(s1, prev);
        }
        if step2 {
            return Ok(b);
        }
        let ghost s2 = *self;
        let a_iface = match self.entry_modifiers(a) {
            Ok(m) => crate::modifiers::Modifiers::is_interface_bits(m),
            Err(e) => {
                proof {
                    self.lemma_extends_trans(s2, prev);
                }
                return Err(e);
            },
        };
        proof {
            self.lemma_extends_trans(s2, prev);
        }
        let ghost s3 = *self;
        let b_iface = match self.entry_modifiers(b) {
            Ok(m) => crate::modifiers::Modifiers::is_interface_bits(m),
            Err(e) => {
                proof {
                    self.lemma_extends_trans(s3, prev);
                }
                return Err(e);
            },
        };
        proof {
            self.lemma_extends_trans(s3, prev);
            assert(h.is_interface(ida) == crate::modifiers::spec_has_flag(
                h.types[ida].modifiers,
                crate::modifiers::INTERFACE,
            ));
            assert(h.is_interface(idb) == crate::modifiers::spec_has_flag(
                h.types[idb].modifiers,
                crate::modifiers::INTERFACE,
            ));
        }
        if a_iface || b_iface {
            let ghost before = *self;
            let root = match self.fetch_canonical(root_class_path()) {
                Ok(c) => c,
                Err(e) => {
                    proof {
                        self.lemma_extends_trans(before, prev);
                    }
                    return Err(e);
                },
            };
            proof {
                self.lemma_extends_trans(before, prev);
            }
            return Ok(root);
        }
        proof {
            assert(h.is_interface(ida) == false);
            assert(h.is_interface(idb) == false);
        }
        let ghost s4 = *self;
        let mut cursor = match self.entry_superclass(a) {
            Ok(Some(c)) => c,
            Ok(None) => {
                let ghost before = *self;
                proof {
                    self.lemma_extends_trans(before, s4);
                }
                let root = match self.fetch_canonical(root_class_path()) {
                    Ok(c) => c,
                    Err(e) => {
                        proof {
                            self.lemma_extends_trans(before, prev);
                        }
                        return Err(e);
                    },
                };
                proof {
                    self.lemma_extends_trans(before, prev);
                }
                return Ok(root);
            },
            Err(e) => {
                proof {
                    self.lemma_extends_trans(s4, prev);
                }
                return Err(e);
            },
        };
        proof {
            self.lemma_extends_trans(s4, prev);
            assert(common_superclass_id(h, ida, idb) == super_walk(h, self.id_of(cursor), idb));
        }
        loop
            invariant
                prev == *old(self),
                h == prev.hier(),
                ida == prev.id_of(a),
                idb == prev.id_of(b),
                self.wf(),
                self.hier() == h,
                self.extends(prev),
                prev.wf(),
                prev.valid(a),
                prev.valid(b),
                self.valid(cursor),
                common_superclass_id(h, ida, idb) == super_walk(h, self.id_of(cursor), idb),
                self.valid(b) && self.id_of(b) == idb,
            decreases h.rank_of(self.id_of(cursor)),
        {
            let ghost loop_start = *self;
            let hit = match self.entry_assignable(cursor, b) {
                Ok(v) => v,
                Err(e) => {
                    proof {
                        self.lemma_extends_trans(loop_start, prev);
                    }
                    return Err(e);
                },
            };
            if hit {
                proof {
                    self.lemma_extends_trans(loop_start, prev);
                }
                return Ok(cursor);
            }
            let ghost cur_id = self.id_of(cursor);
            proof {
                assert(loop_start.valid(cursor));
                assert(self.valid(cursor));
                assert(self.slot_ok(cursor.slot as int));
                assert(h.types.contains_key(cur_id));
            }
            match self.entry_superclass(cursor) {
                Ok(Some(next)) => {
                    proof {
                        self.lemma_extends_trans(loop_start, prev);
                        assert(h.types.contains_key(cur_id));
                        assert(h.rank_of(self.id_of(next)) < h.rank_of(cur_id));
                    }
                    cursor = next;
                },
                Ok(None) => {
                    let ghost before = *self;
                    let root = match self.fetch_canonical(root_class_path()) {
                        Ok(c) => c,
                        Err(e) => {
                            proof {
                                self.lemma_extends_trans(before, loop_start);
                                self.lemma_extends_trans(loop_start, prev);
                            }
                            return Err(e);
                        },
                    };
                    proof {
                        self.lemma_extends_trans(before, loop_start);
                        self.lemma_extends_trans(loop_start, prev);
                    }
                    return Ok(root);
                },
                Err(e) => {
                    proof {
                        self.lemma_extends_trans(loop_start, prev);
                    }
                    return Err(e);
                },
            }
        }
    }
}

/// The dangling-reference condition, reported when an entry's back-link
/// cannot be resolved after the owning cache was cleared.
fn dangling_error() -> (r: HierError)
    ensures
        r is DanglingReference,
{
    HierError::DanglingReference("the entry was freed from the class cache".to_owned())
}

/// The dotted and slash spellings of the root type coincide, so this string
/// is its canonical identifier as well.
fn root_class_path() -> (r: String)
    ensures
        r@ == root_id(),
{
    "java/lang/Object".to_owned()
}

proof fn lemma_count_live_same_shape<P: Provider>(s1: Seq<Option<EntryData<P>>>, s2: Seq<
    Option<EntryData<P>>,
>)
    requires
        s1.len() == s2.len(),
        forall|j: int| 0 <= j < s1.len() ==> (s1[j] is Some <==> s2[j] is Some),
    ensures
        count_live(s1) == count_live(s2),
    decreases s1.len(),
{
    if s1.len() > 0 {
        lemma_count_live_same_shape(s1.drop_last(), s2.drop_last());
    }
}

proof fn lemma_count_live_none<P: Provider>(s: Seq<Option<EntryData<P>>>)
    requires
        forall|j: int| 0 <= j < s.len() ==> s[j] is None,
    ensures
        count_live(s) == 0,
    decreases s.len(),
{
    if s.len() > 0 {
        lemma_count_live_none(s.drop_last());
    }
}

} // verus!
