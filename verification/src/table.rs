//! A provider over a deterministic in-memory table: the verified reference
//! implementation of [`Provider`], with which the engine can be exercised
//! against canned hierarchies instead of a live runtime.

use vstd::prelude::*;

use crate::errors::HierError;
use crate::provider::{Hierarchy, Provider, TypeFacts};
use crate::text::str_eq;

verus! {

/// One type of the table: its canonical identifier, raw modifiers, optional
/// superclass, directly declared interfaces in order, and the identifiers
/// of every type it is assignable to besides itself.
pub(crate) struct TypeRow {
    pub(crate) id: String,
    pub(crate) modifiers: u16,
    pub(crate) superclass: Option<String>,
    pub(crate) interfaces: Vec<String>,
    pub(crate) assignable_to: Vec<String>,
}

/// A handle into the table: it denotes the type with this identifier.
#[derive(Clone, Debug)]
pub struct TableHandle {
    pub(crate) id: String,
}

impl TypeRow {
    pub(crate) open spec fn facts(&self) -> TypeFacts {
        TypeFacts {
            modifiers: self.modifiers,
            superclass: match self.superclass {
                Some(s) => Some(s@),
                None => None,
            },
            interfaces: self.interfaces@.map_values(|s: String| s@),
        }
    }
}

/// The types the rows describe; a later row with the same identifier wins.
pub(crate) open spec fn table_types(rows: Seq<TypeRow>) -> Map<Seq<char>, TypeFacts>
    decreases rows.len(),
{
    if rows.len() == 0 {
        Map::empty()
    } else {
        table_types(rows.drop_last()).insert(rows.last().id@, rows.last().facts())
    }
}

/// The rank of each type: the index of its last row.
pub(crate) open spec fn table_rank(rows: Seq<TypeRow>) -> Map<Seq<char>, nat>
    decreases rows.len(),
{
    if rows.len() == 0 {
        Map::empty()
    } else {
        table_rank(rows.drop_last()).insert(rows.last().id@, (rows.len() - 1) as nat)
    }
}

/// Every assignability pair any row declares.
pub(crate) open spec fn table_pairs(rows: Seq<TypeRow>) -> Set<(Seq<char>, Seq<char>)> {
    Set::new(
        |p: (Seq<char>, Seq<char>)|
            exists|i: int, k: int|
                0 <= i < rows.len() && 0 <= k < rows[i].assignable_to@.len() && rows[i].id@ == p.0
                    && (#[trigger] rows[i].assignable_to@[k])@ == p.1,
    )
}

/// A provider answering from a table of rows built up by
/// [`TableProvider::add_type`].
pub struct TableProvider {
    rows: Vec<TypeRow>,
}

proof fn lemma_table_membership(rows: Seq<TypeRow>, id: Seq<char>)
    ensures
        table_types(rows).contains_key(id) <==> exists|i: int|
            0 <= i < rows.len() && (#[trigger] rows[i]).id@ == id,
        table_rank(rows).contains_key(id) <==> table_types(rows).contains_key(id),
    decreases rows.len(),
{
    if rows.len() > 0 {
        lemma_table_membership(rows.drop_last(), id);
        if rows.last().id@ == id {
            assert(rows[rows.len() - 1].id@ == id);
        } else {
            if table_types(rows).contains_key(id) {
                let i = choose|i: int|
                    0 <= i < rows.drop_last().len() && (#[trigger] rows.drop_last()[i]).id@ == id;
                assert(rows[i].id@ == id);
            }
            if exists|i: int| 0 <= i < rows.len() && (#[trigger] rows[i]).id@ == id {
                let i = choose|i: int| 0 <= i < rows.len() && (#[trigger] rows[i]).id@ == id;
                assert(i < rows.len() - 1);
                assert(rows.drop_last()[i].id@ == id);
            }
        }
    }
}

proof fn lemma_table_last_row(rows: Seq<TypeRow>, i: int)
    requires
        0 <= i < rows.len(),
        forall|j: int| i < j < rows.len() ==> (#[trigger] rows[j]).id@ != rows[i].id@,
    ensures
        table_types(rows).contains_key(rows[i].id@),
        table_types(rows)[rows[i].id@] == rows[i].facts(),
        table_rank(rows).contains_key(rows[i].id@),
        table_rank(rows)[rows[i].id@] == i,
    decreases rows.len(),
{
    if i == rows.len() - 1 {
        assert(rows.last() == rows[i]);
    } else {
        assert(rows.last().id@ != rows[i].id@);
        assert(rows.drop_last()[i] == rows[i]);
        assert(forall|j: int|
            i < j < rows.drop_last().len() ==> (#[trigger] rows.drop_last()[j]).id@
                != rows.drop_last()[i].id@);
        lemma_table_last_row(rows.drop_last(), i);
    }
}

proof fn lemma_table_rank_bound(rows: Seq<TypeRow>, id: Seq<char>)
    requires
        table_rank(rows).contains_key(id),
    ensures
        table_rank(rows)[id] < rows.len(),
    decreases rows.len(),
{
    if rows.len() > 0 && rows.last().id@ != id {
        lemma_table_rank_bound(rows.drop_last(), id);
    }
}

impl TableProvider {
    /// A provider that knows no type yet.
    pub fn new() -> (r: TableProvider)
        ensures
            r.hier().wf(),
            r.hier().types == Map::<Seq<char>, TypeFacts>::empty(),
    {
        let t = TableProvider { rows: Vec::new() };
        proof {
            assert(t.hier().types =~= Map::<Seq<char>, TypeFacts>::empty());
            assert forall|id: Seq<char>| #[trigger]
                t.hier().types.contains_key(id) implies false by {}
        }
        t
    }

    /// The last row keyed under `id`, whose facts the hierarchy reports.
    fn find_row(&self, id: &str) -> (r: Option<usize>)
        ensures
            match r {
                Some(i) => i < self.rows@.len() && self.rows@[i as int].id@ == id@ && forall|j: int|
                    i < j < self.rows@.len() ==> (#[trigger] self.rows@[j]).id@ != id@,
                None => forall|j: int|
                    0 <= j < self.rows@.len() ==> (#[trigger] self.rows@[j]).id@ != id@,
            },
    {
        let mut i = self.rows.len();
        while i > 0
            invariant
                i <= self.rows@.len(),
                forall|j: int| i <= j < self.rows@.len() ==> (#[trigger] self.rows@[j]).id@ != id@,
            decreases i,
    {
            i -= 1;
            if str_eq(self.rows[i].id.as_str(), id) {
                return Some(i);
            }
        }
        None
    }

    /// Whether an identifier names a known type; used by tests as by
    /// [`Self::add_type`]'s checks.
    pub fn knows(&self, id: &str) -> (r: bool)
        ensures
            r == self.hier().types.contains_key(id@),
    {
        proof {
            lemma_table_membership(self.rows@, id@);
        }
        self.find_row(id).is_some()
    }

    /// Records one type. Returns `false`, leaving the table unchanged, when
    /// the identifier is already taken, or the superclass or an interface is
    /// not itself recorded yet; so rows enter in ancestor-first order and
    /// the hierarchy stays a finite-height forest.
    pub fn add_type(
        &mut self,
        id: String,
        modifiers: u16,
        superclass: Option<String>,
        interfaces: Vec<String>,
        assignable_to: Vec<String>,
    ) -> (r: bool)
        ensures
            r == (!old(self).hier().types.contains_key(id@) && (superclass matches Some(s)
                ==> old(self).hier().types.contains_key(s@)) && (forall|k: int|
                0 <= k < interfaces@.len() ==> old(self).hier().types.contains_key(
                    (#[trigger] interfaces@[k])@,
                ))),
            !r ==> *final(self) == *old(self),
            r ==> final(self).hier().types == old(self).hier().types.insert(
                id@,
                TypeFacts {
                    modifiers,
                    superclass: match superclass {
                        Some(s) => Some(s@),
                        None => None,
                    },
                    interfaces: interfaces@.map_values(|s: String| s@),
                },
            ),
            r ==> final(self).hier().assignable_pairs == old(self).hier().assignable_pairs.union(
                Set::new(
                    |p: (Seq<char>, Seq<char>)|
                        p.0 == id@ && exists|k: int|
                            0 <= k < assignable_to@.len() && (#[trigger] assignable_to@[k])@ == p.1,
                ),
            ),
            old(self).hier().wf() ==> final(self).hier().wf(),
    {
        let ghost prev_rows = self.rows@;
        proof {
            lemma_table_membership(prev_rows, id@);
        }
        if self.find_row(id.as_str()).is_some() {
            return false;
        }
        match &superclass {
            Some(s) => {
                proof {
                    lemma_table_membership(prev_rows, s@);
                }
                if self.find_row(s.as_str()).is_none() {
                    return false;
                }
            },
            None => {},
        }
        let n = interfaces.len();
        let mut k: usize = 0;
        while k < n
            invariant
                k <= n,
                n == interfaces@.len(),
                self.rows@ == prev_rows,
                forall|t: int|
                    0 <= t < k ==> table_types(prev_rows).contains_key(
                        (#[trigger] interfaces@[t])@,
                    ),
            decreases n - k,
        {
            proof {
                lemma_table_membership(prev_rows, interfaces@[k as int]@);
            }
            if self.find_row(interfaces[k].as_str()).is_none() {
                return false;
            }
            k += 1;
        }
        let ghost row_ghost: TypeRow;
        let row = TypeRow { id, modifiers, superclass, interfaces, assignable_to };
        proof {
            row_ghost = row;
        }
        self.rows.push(row);
        proof {
            self.lemma_after_push(prev_rows, row_ghost);
        }
        true
    }

    proof fn lemma_after_push(&self, prev_rows: Seq<TypeRow>, row: TypeRow)
        requires
            self.rows@ == prev_rows.push(row),
            !table_types(prev_rows).contains_key(row.id@),
            row.superclass matches Some(s) ==> table_types(prev_rows).contains_key(s@),
            forall|t: int|
                0 <= t < row.interfaces@.len() ==> table_types(prev_rows).contains_key(
                    (#[trigger] row.interfaces@[t])@,
                ),
        ensures
            table_types(self.rows@) == table_types(prev_rows).insert(row.id@, row.facts()),
            table_rank(self.rows@) == table_rank(prev_rows).insert(row.id@, prev_rows.len()),
            table_pairs(self.rows@) == table_pairs(prev_rows).union(
                Set::new(
                    |p: (Seq<char>, Seq<char>)|
                        p.0 == row.id@ && exists|k: int|
                            0 <= k < row.assignable_to@.len() && (#[trigger] row.assignable_to@[
                                k
                            ])@ == p.1,
                ),
            ),
            ({
                let h = Hierarchy {
                    types: table_types(prev_rows),
                    rank: table_rank(prev_rows),
                    assignable_pairs: table_pairs(prev_rows),
                };
                h.wf() ==> self.hier().wf()
            }),
    {
        let rows = self.rows@;
        assert(rows.drop_last() =~= prev_rows);
        assert(rows.last() == row);
        assert(table_types(rows) == table_types(prev_rows).insert(row.id@, row.facts()));
        assert(table_rank(rows) == table_rank(prev_rows).insert(row.id@, prev_rows.len()));
        let fresh = Set::new(
            |p: (Seq<char>, Seq<char>)|
                p.0 == row.id@ && exists|k: int|
                    0 <= k < row.assignable_to@.len() && (#[trigger] row.assignable_to@[k])@
                        == p.1,
        );
        assert forall|p: (Seq<char>, Seq<char>)| #[trigger]
            table_pairs(rows).contains(p) implies table_pairs(prev_rows).union(fresh).contains(
            p,
        ) by {
            let (i, k) = choose|i: int, k: int|
                0 <= i < rows.len() && 0 <= k < rows[i].assignable_to@.len() && rows[i].id@ == p.0
                    && (#[trigger] rows[i].assignable_to@[k])@ == p.1;
            if i < prev_rows.len() {
                assert(prev_rows[i] == rows[i]);
                assert(table_pairs(prev_rows).contains(p));
            } else {
                assert(rows[i] == row);
                assert(fresh.contains(p));
            }
        }
        assert forall|p: (Seq<char>, Seq<char>)| #[trigger]
            table_pairs(prev_rows).union(fresh).contains(p) implies table_pairs(rows).contains(
            p,
        ) by {
            if table_pairs(prev_rows).contains(p) {
                let (i, k) = choose|i: int, k: int|
                    0 <= i < prev_rows.len() && 0 <= k < prev_rows[i].assignable_to@.len()
                        && prev_rows[i].id@ == p.0 && (#[trigger] prev_rows[i].assignable_to@[k])@
                        == p.1;
                assert(rows[i] == prev_rows[i]);
                assert(0 <= i < rows.len() && 0 <= k < rows[i].assignable_to@.len() && rows[i].id@
                    == p.0 && rows[i].assignable_to@[k]@ == p.1);
            } else {
                let k = choose|k: int|
                    0 <= k < row.assignable_to@.len() && (#[trigger] row.assignable_to@[k])@
                        == p.1;
                let i = rows.len() - 1;
                assert(rows[i] == row);
                assert(0 <= i < rows.len() && 0 <= k < rows[i].assignable_to@.len() && rows[i].id@
                    == p.0 && rows[i].assignable_to@[k]@ == p.1);
            }
        }
        assert(table_pairs(rows) =~= table_pairs(prev_rows).union(fresh));
        let h = Hierarchy {
            types: table_types(prev_rows),
            rank: table_rank(prev_rows),
            assignable_pairs: table_pairs(prev_rows),
        };
        if h.wf() {
            let g = self.hier();
            assert forall|tid: Seq<char>| #[trigger] g.types.contains_key(tid) implies {
                &&& (g.types[tid].superclass matches Some(sup) ==> g.types.contains_key(sup)
                    && g.rank_of(sup) < g.rank_of(tid))
                &&& (forall|t: int|
                    0 <= t < g.types[tid].interfaces.len() ==> g.types.contains_key(
                        #[trigger] g.types[tid].interfaces[t],
                    ))
            } by {
                lemma_table_membership(prev_rows, tid);
                if tid == row.id@ {
                    match row.superclass {
                        Some(s) => {
                            lemma_table_membership(prev_rows, s@);
                            lemma_table_rank_bound(prev_rows, s@);
                            assert(s@ != row.id@);
                            assert(g.rank_of(s@) < prev_rows.len());
                            assert(g.rank_of(tid) == prev_rows.len());
                        },
                        None => {},
                    }
                    assert forall|t: int|
                        0 <= t < g.types[tid].interfaces.len() implies g.types.contains_key(
                        #[trigger] g.types[tid].interfaces[t],
                    ) by {
                        assert(g.types[tid].interfaces[t] == row.interfaces@[t]@);
                    }
                } else {
                    assert(h.types.contains_key(tid));
                    assert(g.types[tid] == h.types[tid]);
                    match h.types[tid].superclass {
                        Some(sup) => {
                            assert(h.types.contains_key(sup));
                            assert(sup != row.id@);
                            assert(g.rank_of(sup) == h.rank_of(sup));
                            assert(g.rank_of(tid) == h.rank_of(tid));
                        },
                        None => {},
                    }
                }
            }
        }
    }
}

impl Provider for TableProvider {
    type Handle = TableHandle;

    closed spec fn hier(&self) -> Hierarchy {
        Hierarchy {
            types: table_types(self.rows@),
            rank: table_rank(self.rows@),
            assignable_pairs: table_pairs(self.rows@),
        }
    }

    closed spec fn handle_id(h: &TableHandle) -> Seq<char> {
        h.id@
    }

    fn find_by_identifier(&mut self, id: &str) -> (r: Result<TableHandle, HierError>) {
        proof {
            lemma_table_membership(self.rows@, id@);
        }
        match self.find_row(id) {
            Some(i) => Ok(TableHandle { id: self.rows[i].id.clone() }),
            None => Err(HierError::NotFound(id.to_owned())),
        }
    }

    fn is_assignable_from(&mut self, target: &TableHandle, source: &TableHandle) -> (r: Result<
        bool,
        HierError,
    >) {
        if str_eq(source.id.as_str(), target.id.as_str()) {
            return Ok(true);
        }
        let n = self.rows.len();
        let mut i: usize = 0;
        while i < n
            invariant
                i <= n,
                n == self.rows@.len(),
                forall|j: int, k: int|
                    0 <= j < i && 0 <= k < (#[trigger] self.rows@[j]).assignable_to@.len() ==> !(
                    self.rows@[j].id@ == source.id@ && (#[trigger] self.rows@[j].assignable_to@[
                        k
                    ])@ == target.id@),
            decreases n - i,
        {
            if str_eq(self.rows[i].id.as_str(), source.id.as_str()) {
                let m = self.rows[i].assignable_to.len();
                let mut k: usize = 0;
                while k < m
                    invariant
                        k <= m,
                        i < n,
                        n == self.rows@.len(),
                        m == self.rows@[i as int].assignable_to@.len(),
                        self.rows@[i as int].id@ == source.id@,
                        forall|t: int|
                            0 <= t < k ==> (#[trigger] self.rows@[i as int].assignable_to@[t])@
                                != target.id@,
                    decreases m - k,
                {
                    if str_eq(self.rows[i].assignable_to[k].as_str(), target.id.as_str()) {
                        proof {
                            let p = (source.id@, target.id@);
                            assert(0 <= i < self.rows@.len() && 0 <= k < self.rows@[
                                i as int
                            ].assignable_to@.len() && self.rows@[i as int].id@ == p.0 && self.rows@[
                                i as int
                            ].assignable_to@[k as int]@ == p.1);
                            assert(table_pairs(self.rows@).contains(p));
                        }
                        return Ok(true);
                    }
                    k += 1;
                }
            }
            i += 1;
        }
        proof {
            let p = (source.id@, target.id@);
            if table_pairs(self.rows@).contains(p) {
                let (j, k) = choose|j: int, k: int|
                    0 <= j < self.rows@.len() && 0 <= k < self.rows@[j].assignable_to@.len()
                        && self.rows@[j].id@ == p.0 && (#[trigger] self.rows@[j].assignable_to@[
                        k
                    ])@ == p.1;
                assert(false);
            }
        }
        Ok(false)
    }

    fn get_superclass(&mut self, h: &TableHandle) -> (r: Result<Option<TableHandle>, HierError>) {
        match self.find_row(h.id.as_str()) {
            Some(i) => {
                proof {
                    lemma_table_last_row(self.rows@, i as int);
                }
                match &self.rows[i].superclass {
                    Some(s) => Ok(Some(TableHandle { id: s.clone() })),
                    None => Ok(None),
                }
            },
            None => {
                proof {
                    lemma_table_membership(self.rows@, h.id@);
                    assert(false);
                }
                Err(HierError::ProviderFailure(h.id.clone()))
            },
        }
    }

    fn get_modifiers(&mut self, h: &TableHandle) -> (r: Result<u16, HierError>) {
        match self.find_row(h.id.as_str()) {
            Some(i) => {
                proof {
                    lemma_table_last_row(self.rows@, i as int);
                }
                Ok(self.rows[i].modifiers)
            },
            None => {
                proof {
                    lemma_table_membership(self.rows@, h.id@);
                    assert(false);
                }
                Err(HierError::ProviderFailure(h.id.clone()))
            },
        }
    }

    fn get_interfaces(&mut self, h: &TableHandle) -> (r: Result<Vec<TableHandle>, HierError>) {
        match self.find_row(h.id.as_str()) {
            Some(i) => {
                proof {
                    lemma_table_last_row(self.rows@, i as int);
                }
                let n = self.rows[i].interfaces.len();
                let mut out: Vec<TableHandle> = Vec::new();
                let mut k: usize = 0;
                while k < n
                    invariant
                        k <= n,
                        i < self.rows@.len(),
                        n == self.rows@[i as int].interfaces@.len(),
                        out@.len() == k,
                        forall|t: int|
                            0 <= t < k ==> (#[trigger] out@[t]).id@ == self.rows@[
                                i as int
                            ].interfaces@[t]@,
                    decreases n - k,
                {
                    out.push(TableHandle { id: self.rows[i].interfaces[k].clone() });
                    k += 1;
                }
                proof {
                    lemma_table_last_row(self.rows@, i as int);
                }
                Ok(out)
            },
            None => {
                proof {
                    lemma_table_membership(self.rows@, h.id@);
                    assert(false);
                }
                Err(HierError::ProviderFailure(h.id.clone()))
            },
        }
    }

    fn get_name(&mut self, h: &TableHandle) -> (r: Result<String, HierError>) {
        Ok(h.id.clone())
    }

    fn is_same_identity(&mut self, a: &TableHandle, b: &TableHandle) -> (r: Result<
        bool,
        HierError,
    >) {
        Ok(str_eq(a.id.as_str(), b.id.as_str()))
    }

    fn get_primitive_wrapper_singleton(&mut self, name: &str) -> (r: Result<
        TableHandle,
        HierError,
    >) {
        proof {
            lemma_table_membership(self.rows@, name@);
        }
        match self.find_row(name) {
            Some(i) => Ok(TableHandle { id: self.rows[i].id.clone() }),
            None => Err(HierError::NotFound(name.to_owned())),
        }
    }
}

} // verus!
