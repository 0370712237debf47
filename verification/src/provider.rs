//! The capability the core consumes from the runtime-binding layer, and the
//! mathematical model of the type hierarchy it answers from.
//!
//! The core never interprets a handle; it states every contract over the
//! provider's ghost [`Hierarchy`] and over the canonical identifier each
//! handle denotes.

use vstd::prelude::*;

use crate::errors::HierError;
use crate::modifiers::{spec_has_flag, INTERFACE};

verus! {

/// What the runtime knows of one type: its access flags, its superclass
/// link, and its directly declared interfaces in declaration order, each
/// named by canonical identifier.
pub struct TypeFacts {
    pub modifiers: u16,
    pub superclass: Option<Seq<char>>,
    pub interfaces: Seq<Seq<char>>,
}

/// The ghost model of a runtime's type hierarchy: per-type facts, a rank
/// that superclass links strictly descend, and the assignability relation
/// the runtime decides.
pub struct Hierarchy {
    pub types: Map<Seq<char>, TypeFacts>,
    pub rank: Map<Seq<char>, nat>,
    pub assignable_pairs: Set<(Seq<char>, Seq<char>)>,
}

/// Canonical identifier of the root type, the ancestor of every
/// non-primitive type.
pub open spec fn root_id() -> Seq<char> {
    "java/lang/Object"@
}

impl Hierarchy {
    /// A value of type `a` may be used where type `b` is expected.
    pub open spec fn assignable(self, a: Seq<char>, b: Seq<char>) -> bool {
        a == b || self.assignable_pairs.contains((a, b))
    }

    /// The type is known and carries the interface flag.
    pub open spec fn is_interface(self, id: Seq<char>) -> bool {
        self.types.contains_key(id) && spec_has_flag(self.types[id].modifiers, INTERFACE)
    }

    /// The rank of a type; unknown types sit at the bottom.
    pub open spec fn rank_of(self, id: Seq<char>) -> nat {
        if self.rank.contains_key(id) {
            self.rank[id]
        } else {
            0
        }
    }

    /// The hierarchy is a finite-height forest: every superclass link stays
    /// inside the map and strictly descends in rank, and every declared
    /// interface is itself a known type.
    pub open spec fn wf(self) -> bool {
        forall|id: Seq<char>| #[trigger]
            self.types.contains_key(id) ==> {
                &&& (self.types[id].superclass matches Some(sup) ==> self.types.contains_key(sup)
                    && self.rank_of(sup) < self.rank_of(id))
                &&& (forall|k: int|
                    0 <= k < self.types[id].interfaces.len() ==> self.types.contains_key(
                        #[trigger] self.types[id].interfaces[k],
                    ))
            }
    }
}

/// The capability set the core consumes. An implementation binds it to a
/// live runtime; the in-memory [`crate::table::TableProvider`] implements it
/// over a deterministic table, so the engine can be exercised without a
/// runtime attached.
///
/// Every method leaves the hierarchy unchanged, answers according to it on
/// success, and never reports a dangling reference (that condition belongs
/// to the cache, not to the provider).
pub trait Provider: Sized {
    /// An opaque, externally-owned handle to one runtime type object.
    type Handle;

    /// The hierarchy this provider answers from. The default stands for a
    /// binding that models nothing, as an unverified one need not override
    /// it.
    open spec fn hier(&self) -> Hierarchy {
        Hierarchy { types: Map::empty(), rank: Map::empty(), assignable_pairs: Set::empty() }
    }

    /// The canonical identifier a handle denotes; defaulted for the same
    /// reason as [`Provider::hier`].
    open spec fn handle_id(h: &Self::Handle) -> Seq<char> {
        Seq::empty()
    }

    /// Locates the handle for a canonical identifier. `NotFound` is owed
    /// exactly to the identifiers outside the hierarchy.
    fn find_by_identifier(&mut self, id: &str) -> (r: Result<Self::Handle, HierError>)
        ensures
            final(self).hier() == old(self).hier(),
            r matches Ok(h) ==> Self::handle_id(&h) == id@ && old(self).hier().types.contains_key(
                id@,
            ),
            r matches Err(e) && e is NotFound ==> !old(self).hier().types.contains_key(id@),
            r matches Err(e) ==> !(e is DanglingReference),
    ;

    /// Whether a value of `source`'s type may be used where `target`'s type
    /// is expected.
    fn is_assignable_from(&mut self, target: &Self::Handle, source: &Self::Handle) -> (r: Result<
        bool,
        HierError,
    >)
        requires
            old(self).hier().types.contains_key(Self::handle_id(target)),
            old(self).hier().types.contains_key(Self::handle_id(source)),
        ensures
            final(self).hier() == old(self).hier(),
            r matches Ok(v) ==> v == old(self).hier().assignable(
                Self::handle_id(source),
                Self::handle_id(target),
            ),
            r matches Err(e) ==> !(e is DanglingReference),
    ;

    /// The superclass link of a type: absent for the root type, for an
    /// interface and for a primitive type.
    fn get_superclass(&mut self, h: &Self::Handle) -> (r: Result<Option<Self::Handle>, HierError>)
        requires
            old(self).hier().types.contains_key(Self::handle_id(h)),
        ensures
            final(self).hier() == old(self).hier(),
            r matches Ok(opt) ==> match opt {
                Some(sup) => old(self).hier().types[Self::handle_id(h)].superclass == Some(
                    Self::handle_id(&sup),
                ),
                None => old(self).hier().types[Self::handle_id(h)].superclass is None,
            },
            r matches Err(e) ==> !(e is DanglingReference),
    ;

    /// The raw modifier bitset of a type.
    fn get_modifiers(&mut self, h: &Self::Handle) -> (r: Result<u16, HierError>)
        requires
            old(self).hier().types.contains_key(Self::handle_id(h)),
        ensures
            final(self).hier() == old(self).hier(),
            r matches Ok(m) ==> m == old(self).hier().types[Self::handle_id(h)].modifiers,
            r matches Err(e) ==> !(e is DanglingReference),
    ;

    /// The directly declared interfaces of a type, in declaration order.
    fn get_interfaces(&mut self, h: &Self::Handle) -> (r: Result<Vec<Self::Handle>, HierError>)
        requires
            old(self).hier().types.contains_key(Self::handle_id(h)),
        ensures
            final(self).hier() == old(self).hier(),
            r matches Ok(v) ==> {
                &&& v@.len() == old(self).hier().types[Self::handle_id(h)].interfaces.len()
                &&& forall|k: int|
                    0 <= k < v@.len() ==> Self::handle_id(#[trigger] &v@[k]) == old(
                        self,
                    ).hier().types[Self::handle_id(h)].interfaces[k]
            },
            r matches Err(e) ==> !(e is DanglingReference),
    ;

    /// The canonical identifier of a handle's type.
    fn get_name(&mut self, h: &Self::Handle) -> (r: Result<String, HierError>)
        ensures
            final(self).hier() == old(self).hier(),
            r matches Ok(s) ==> s@ == Self::handle_id(h),
            r matches Err(e) ==> !(e is DanglingReference),
    ;

    /// Whether two handles refer to the same underlying runtime object; two
    /// that do denote the same type.
    fn is_same_identity(&mut self, a: &Self::Handle, b: &Self::Handle) -> (r: Result<
        bool,
        HierError,
    >)
        ensures
            final(self).hier() == old(self).hier(),
            r matches Ok(v) && v ==> Self::handle_id(a) == Self::handle_id(b),
            r matches Err(e) ==> !(e is DanglingReference),
    ;

    /// The singleton type object of a primitive type, fetched from its boxed
    /// wrapper rather than by name lookup.
    fn get_primitive_wrapper_singleton(&mut self, name: &str) -> (r: Result<
        Self::Handle,
        HierError,
    >)
        requires
            crate::classpath::primitive_descriptor(name@) is Some,
        ensures
            final(self).hier() == old(self).hier(),
            r matches Ok(h) ==> Self::handle_id(&h) == name@ && old(
                self,
            ).hier().types.contains_key(name@),
            r matches Err(e) && e is NotFound ==> !old(self).hier().types.contains_key(name@),
            r matches Err(e) ==> !(e is DanglingReference),
    ;
}

} // verus!
