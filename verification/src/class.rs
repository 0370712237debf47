//! A cached type entry and the hierarchy algorithms over entries: memoized
//! fact accessors, assignability, and the nearest-common-superclass walk.

use vstd::prelude::*;

use crate::classpath::ClassPath;
use crate::classpool::ClassPool;
use crate::errors::HierError;
use crate::provider::{root_id, Hierarchy, Provider};

verus! {

/// A shared reference to one resolved type entry owned by a
/// [`ClassPool`]. It stays usable until the owning pool is cleared; after
/// that, every operation on it reports a dangling reference.
#[derive(Clone, Copy, Debug, PartialEq, Eq, Structural)]
pub struct Class {
    pub(crate) slot: usize,
}

/// Step four of the nearest-common-superclass algorithm: ascend `cur`'s
/// superclass chain and stop at the first ancestor that `b` is assignable
/// to; an exhausted or malformed chain falls back to the root type.
pub open spec fn super_walk(h: Hierarchy, cur: Seq<char>, b: Seq<char>) -> Seq<char>
    decreases h.rank_of(cur),
{
    if h.assignable(b, cur) {
        cur
    } else if h.types.contains_key(cur) {
        match h.types[cur].superclass {
            Some(sup) => if h.rank_of(sup) < h.rank_of(cur) {
                super_walk(h, sup, b)
            } else {
                root_id()
            },
            None => root_id(),
        }
    } else {
        root_id()
    }
}

/// The nearest common superclass of `a` and `b`, in the exact step order
/// the resolver commits to: `a` if it is the same as or more specific than
/// `b`; else `b` if the converse holds; else the root type if either is an
/// interface; else the first type on `a`'s superclass chain that `b` is
/// assignable to, with the root type as fallback.
pub open spec fn common_superclass_id(h: Hierarchy, a: Seq<char>, b: Seq<char>) -> Seq<char> {
    if h.assignable(a, b) {
        a
    } else if h.assignable(b, a) {
        b
    } else if h.is_interface(a) || h.is_interface(b) {
        root_id()
    } else if h.types.contains_key(a) {
        match h.types[a].superclass {
            Some(sup) => super_walk(h, sup, b),
            None => root_id(),
        }
    } else {
        root_id()
    }
}

/// Law: the nearest common superclass of a type and itself is that type,
/// by the first short-circuit step alone.
pub proof fn lemma_common_superclass_reflexive(h: Hierarchy, x: Seq<char>)
    ensures
        common_superclass_id(h, x, x) == x,
{
}

/// Law: two unrelated interfaces share only the root type as an ancestor.
pub proof fn lemma_common_superclass_unrelated_interfaces(
    h: Hierarchy,
    a: Seq<char>,
    b: Seq<char>,
)
    requires
        h.is_interface(a) || h.is_interface(b),
        !h.assignable(a, b),
        !h.assignable(b, a),
    ensures
        common_superclass_id(h, a, b) == root_id(),
{
}

/// Law: the nearest common superclass of a class and an interface it
/// implements is the class itself, found by the short-circuit steps and not
/// by the interface rule.
pub proof fn lemma_common_superclass_implemented_interface(
    h: Hierarchy,
    c: Seq<char>,
    i: Seq<char>,
)
    requires
        h.assignable(c, i),
    ensures
        common_superclass_id(h, c, i) == c,
{
}

impl Class {
    /// The memoized canonical identifier of this type in the slash
    /// spelling; the first call asks the provider once, later calls answer
    /// from the cache.
    pub fn class_name<P: Provider>(&self, cp: &mut ClassPool<P>) -> (r: Result<String, HierError>)
        requires
            old(cp).wf(),
        ensures
            final(cp).wf(),
            final(cp).hier() == old(cp).hier(),
            final(cp).extends(*old(cp)),
            r matches Ok(s) ==> old(cp).valid(*self) && s@ == old(cp).id_of(*self),
            !old(cp).valid(*self) ==> (r matches Err(e) && e is DanglingReference),
            r matches Err(e) && e is DanglingReference ==> !old(cp).valid(*self),
    {
        cp.entry_name(*self)
    }

    /// The dotted spelling of this type's canonical identifier, memoized
    /// the same way.
    pub fn name<P: Provider>(&self, cp: &mut ClassPool<P>) -> (r: Result<String, HierError>)
        requires
            old(cp).wf(),
        ensures
            final(cp).wf(),
            final(cp).hier() == old(cp).hier(),
            final(cp).extends(*old(cp)),
            r matches Ok(s) ==> old(cp).valid(*self) && s@ == crate::classpath::jni_to_java(
                old(cp).id_of(*self),
            ),
            !old(cp).valid(*self) ==> (r matches Err(e) && e is DanglingReference),
            r matches Err(e) && e is DanglingReference ==> !old(cp).valid(*self),
    {
        let id = match cp.entry_name(*self) {
            Ok(s) => s,
            Err(e) => {
                return Err(e);
            },
        };
        Ok(ClassPath::JNI(id).as_java().into_string())
    }

    /// The memoized raw modifier bitset of this type.
    pub fn modifiers<P: Provider>(&self, cp: &mut ClassPool<P>) -> (r: Result<u16, HierError>)
        requires
            old(cp).wf(),
        ensures
            final(cp).wf(),
            final(cp).hier() == old(cp).hier(),
            final(cp).extends(*old(cp)),
            r matches Ok(m) ==> old(cp).valid(*self) && m == old(cp).hier().types[old(cp).id_of(
                *self,
            )].modifiers,
            !old(cp).valid(*self) ==> (r matches Err(e) && e is DanglingReference),
            r matches Err(e) && e is DanglingReference ==> !old(cp).valid(*self),
    {
        cp.entry_modifiers(*self)
    }

    /// Whether this type carries the interface flag.
    pub fn is_interface<P: Provider>(&self, cp: &mut ClassPool<P>) -> (r: Result<bool, HierError>)
        requires
            old(cp).wf(),
        ensures
            final(cp).wf(),
            final(cp).hier() == old(cp).hier(),
            final(cp).extends(*old(cp)),
            r matches Ok(v) ==> old(cp).valid(*self) && v == old(cp).hier().is_interface(
                old(cp).id_of(*self),
            ),
            !old(cp).valid(*self) ==> (r matches Err(e) && e is DanglingReference),
            r matches Err(e) && e is DanglingReference ==> !old(cp).valid(*self),
    {
        let m = match cp.entry_modifiers(*self) {
            Ok(m) => m,
            Err(e) => {
                return Err(e);
            },
        };
        Ok(crate::modifiers::Modifiers::is_interface_bits(m))
    }

    /// Whether this type carries the annotation flag.
    pub fn is_annotation<P: Provider>(&self, cp: &mut ClassPool<P>) -> (r: Result<bool, HierError>)
        requires
            old(cp).wf(),
        ensures
            final(cp).wf(),
            final(cp).hier() == old(cp).hier(),
            final(cp).extends(*old(cp)),
            r matches Ok(v) ==> old(cp).valid(*self) && v == crate::modifiers::spec_has_flag(
                old(cp).hier().types[old(cp).id_of(*self)].modifiers,
                crate::modifiers::ANNOTATION,
            ),
            !old(cp).valid(*self) ==> (r matches Err(e) && e is DanglingReference),
            r matches Err(e) && e is DanglingReference ==> !old(cp).valid(*self),
    {
        let m = match cp.entry_modifiers(*self) {
            Ok(m) => m,
            Err(e) => {
                return Err(e);
            },
        };
        Ok(crate::modifiers::Modifiers::is_annotation_bits(m))
    }

    /// Whether this type carries the synthetic flag.
    pub fn is_synthetic<P: Provider>(&self, cp: &mut ClassPool<P>) -> (r: Result<bool, HierError>)
        requires
            old(cp).wf(),
        ensures
            final(cp).wf(),
            final(cp).hier() == old(cp).hier(),
            final(cp).extends(*old(cp)),
            r matches Ok(v) ==> old(cp).valid(*self) && v == crate::modifiers::spec_has_flag(
                old(cp).hier().types[old(cp).id_of(*self)].modifiers,
                crate::modifiers::SYNTHETIC,
            ),
            !old(cp).valid(*self) ==> (r matches Err(e) && e is DanglingReference),
            r matches Err(e) && e is DanglingReference ==> !old(cp).valid(*self),
    {
        let m = match cp.entry_modifiers(*self) {
            Ok(m) => m,
            Err(e) => {
                return Err(e);
            },
        };
        Ok(crate::modifiers::Modifiers::is_synthetic_bits(m))
    }

    /// The memoized superclass link of this type: absent for the root type,
    /// an interface, or a primitive type.
    pub fn superclass<P: Provider>(&self, cp: &mut ClassPool<P>) -> (r: Result<
        Option<Class>,
        HierError,
    >)
        requires
            old(cp).wf(),
        ensures
            final(cp).wf(),
            final(cp).hier() == old(cp).hier(),
            final(cp).extends(*old(cp)),
            r matches Ok(opt) ==> old(cp).valid(*self) && match opt {
                Some(c) => final(cp).valid(c) && old(cp).hier().types[old(cp).id_of(
                    *self,
                )].superclass == Some(final(cp).id_of(c)),
                None => old(cp).hier().types[old(cp).id_of(*self)].superclass is None,
            },
            !old(cp).valid(*self) ==> (r matches Err(e) && e is DanglingReference),
            r matches Err(e) && e is DanglingReference ==> !old(cp).valid(*self),
    {
        cp.entry_superclass(*self)
    }

    /// The memoized directly declared interfaces of this type, in
    /// declaration order, without ancestors' interfaces.
    pub fn interfaces<P: Provider>(&self, cp: &mut ClassPool<P>) -> (r: Result<
        Vec<Class>,
        HierError,
    >)
        requires
            old(cp).wf(),
        ensures
            final(cp).wf(),
            final(cp).hier() == old(cp).hier(),
            final(cp).extends(*old(cp)),
            r matches Ok(v) ==> old(cp).valid(*self) && {
                &&& v@.len() == old(cp).hier().types[old(cp).id_of(*self)].interfaces.len()
                &&& forall|k: int|
                    0 <= k < v@.len() ==> final(cp).valid(#[trigger] v@[k]) && final(cp).id_of(
                        v@[k],
                    ) == old(cp).hier().types[old(cp).id_of(*self)].interfaces[k]
            },
            !old(cp).valid(*self) ==> (r matches Err(e) && e is DanglingReference),
            r matches Err(e) && e is DanglingReference ==> !old(cp).valid(*self),
    {
        cp.entry_interfaces(*self)
    }

    /// A direct, uncached provider query: whether a value of `other`'s type
    /// may be used where this type is expected.
    pub fn is_assignable_from<P: Provider>(&self, cp: &mut ClassPool<P>, other: &Class) -> (r:
        Result<bool, HierError>)
        requires
            old(cp).wf(),
        ensures
            final(cp).wf(),
            final(cp).hier() == old(cp).hier(),
            final(cp).extends(*old(cp)),
            r matches Ok(v) ==> old(cp).valid(*self) && old(cp).valid(*other) && v == old(cp).hier().assignable(old(cp).id_of(*other), old(cp).id_of(*self)),
            !(old(cp).valid(*self) && old(cp).valid(*other)) ==> (r matches Err(e) && e is DanglingReference),
            r matches Err(e) && e is DanglingReference ==> !(old(cp).valid(*self) && old(cp).valid(
                *other,
            )),
    {
        cp.entry_assignable(*self, *other)
    }

    /// The nearest common superclass of this type and `other`, by the
    /// committed step order of [`common_superclass_id`].
    pub fn common_superclass<P: Provider>(&self, cp: &mut ClassPool<P>, other: &Class) -> (r:
        Result<Class, HierError>)
        requires
            old(cp).wf(),
        ensures
            final(cp).wf(),
            final(cp).hier() == old(cp).hier(),
            final(cp).extends(*old(cp)),
            r matches Ok(c) ==> old(cp).valid(*self) && old(cp).valid(*other) && final(cp).valid(c)
                && final(cp).id_of(c) == common_superclass_id(
                old(cp).hier(),
                old(cp).id_of(*self),
                old(cp).id_of(*other),
            ),
            !(old(cp).valid(*self) && old(cp).valid(*other)) ==> (r matches Err(e) && e is DanglingReference),
            r matches Err(e) && e is DanglingReference ==> !(old(cp).valid(*self) && old(cp).valid(
                *other,
            )),
    {
        cp.entry_common_superclass(*self, *other)
    }
}

} // verus!

