//! Archetypes: columnar storage shared by all entities that hold exactly the
//! same set of component types.

use super::entity::{ArchetypeId, Entity};
use super::erased::{cell_type, same_type, ErasedComponent};
use super::type_list::{type_seq, TypeList};
use std::any::TypeId;
use vstd::prelude::*;
use vstd::seq_lib::seq_to_set_is_finite;
use vstd::set_lib::lemma_subset_equality;

verus! {

/// One archetype: a list of component types, one column of cells per type,
/// and the member entities. The position of a member in the list is its row;
/// row `r` of every column belongs to member `r`.
pub struct Archetype {
    id: ArchetypeId,
    component_types: TypeList,
    columns: Vec<Vec<ErasedComponent>>,
    entities: Vec<Entity>,
}

/// The sequence left when the item at `row` is replaced by the last item and
/// the last position is dropped.
pub open spec fn swap_removed<A>(s: Seq<A>, row: int) -> Seq<A>
    recommends
        0 <= row < s.len(),
{
    s.update(row, s.last()).drop_last()
}

/// Whether one of `cells` holds a value of type `key`.
pub open spec fn holds_type(cells: Seq<ErasedComponent>, key: TypeId) -> bool {
    exists|p: int| 0 <= p < cells.len() && cell_type(#[trigger] cells[p]) == key
}

impl Archetype {
    /// The identifier of this archetype.
    pub closed spec fn spec_id(&self) -> ArchetypeId {
        self.id
    }

    /// The component types of this archetype, in column order.
    pub closed spec fn types(&self) -> Seq<TypeId> {
        type_seq(self.component_types)
    }

    /// The member entities, in row order.
    pub closed spec fn members(&self) -> Seq<Entity> {
        self.entities@
    }

    /// The cell in column `col`, row `row`.
    pub closed spec fn cell(&self, col: int, row: int) -> ErasedComponent {
        self.columns@[col]@[row]
    }

    /// The number of cells in column `col`.
    pub closed spec fn column_len(&self, col: int) -> nat {
        self.columns@[col]@.len()
    }

    /// The number of columns.
    pub closed spec fn column_count(&self) -> nat {
        self.columns@.len()
    }

    /// The storage invariant: no type occurs twice, there is one column per
    /// type, every column is as long as the member list, and every cell holds
    /// a value of its column's type.
    pub open spec fn wf(&self) -> bool {
        &&& self.types().no_duplicates()
        &&& self.column_count() == self.types().len()
        &&& forall|j: int|
            0 <= j < self.types().len() ==> #[trigger] self.column_len(j) == self.members().len()
        &&& forall|j: int, r: int|
            0 <= j < self.types().len() && 0 <= r < self.members().len() ==> cell_type(
                #[trigger] self.cell(j, r),
            ) == self.types()[j]
    }

    /// The components of the member at `row`: each type of the archetype
    /// mapped to the cell in that type's column.
    pub open spec fn row_cells(&self, row: int) -> Map<TypeId, ErasedComponent> {
        Map::new(
            |k: TypeId| self.types().contains(k),
            |k: TypeId| self.cell(self.types().index_of(k), row),
        )
    }

    /// Create an empty archetype for the given types.
    pub fn new(id: ArchetypeId, component_types: TypeList) -> (a: Archetype)
        requires
            type_seq(component_types).no_duplicates(),
        ensures
            a.wf(),
            a.spec_id() == id,
            a.types() == type_seq(component_types),
            a.members().len() == 0,
    {
        let n = component_types.len();
        let mut columns: Vec<Vec<ErasedComponent>> = Vec::new();
        let mut j: usize = 0;
        while j < n
            invariant
                j <= n,
                columns@.len() == j,
                forall|i: int| 0 <= i < j ==> (#[trigger] columns@[i])@.len() == 0,
            decreases n - j,
        {
            columns.push(Vec::new());
            j += 1;
        }
        Archetype { id, component_types, columns, entities: Vec::new() }
    }

    /// The identifier of this archetype.
    pub fn id(&self) -> (id: ArchetypeId)
        ensures
            id == self.spec_id(),
    {
        self.id
    }

    /// The number of member entities.
    pub fn len(&self) -> (n: usize)
        ensures
            n == self.members().len(),
    {
        self.entities.len()
    }

    /// The number of component types.
    pub fn type_count(&self) -> (n: usize)
        ensures
            n == self.types().len(),
    {
        self.component_types.len()
    }

    /// The type of column `col`.
    pub fn type_at(&self, col: usize) -> (key: TypeId)
        requires
            col < self.types().len(),
        ensures
            key == self.types()[col as int],
    {
        self.component_types.get(col)
    }

    /// The member at `row`.
    pub fn entity_at(&self, row: usize) -> (e: Entity)
        requires
            row < self.members().len(),
        ensures
            e == self.members()[row as int],
    {
        self.entities[row]
    }

    /// The column that holds components of type `key`, if the archetype has
    /// that type.
    pub fn column_of(&self, key: &TypeId) -> (col: Option<usize>)
        ensures
            match col {
                Some(j) => j < self.types().len() && self.types()[j as int] == *key,
                None => !self.types().contains(*key),
            },
            self.types().no_duplicates() && self.types().contains(*key) ==> col == Some(
                self.types().index_of(*key) as usize,
            ),
    {
        let n = self.component_types.len();
        let mut j: usize = 0;
        while j < n
            invariant
                j <= n,
                n == self.types().len(),
                forall|i: int| 0 <= i < j ==> self.types()[i] != *key,
            decreases n - j,
        {
            let t = self.component_types.get(j);
            if same_type(&t, key) {
                proof {
                    let s = self.types();
                    if s.no_duplicates() {
                        let i = s.index_of(*key);
                        assert(s.contains(*key));
                        assert(0 <= i < s.len() && s[i] == *key);
                    }
                }
                return Some(j);
            }
            j += 1;
        }
        None
    }

    /// Check whether the archetype has the component type `key`.
    pub fn contains_type(&self, key: &TypeId) -> (b: bool)
        ensures
            b == self.types().contains(*key),
    {
        self.column_of(key).is_some()
    }

    /// Check whether the archetype's types are, as a set, exactly those of
    /// `target`.
    pub fn has_exactly(&self, target: &TypeList) -> (b: bool)
        requires
            self.types().no_duplicates(),
            type_seq(*target).no_duplicates(),
        ensures
            b == (self.types().to_set() == type_seq(*target).to_set()),
    {
        let n = target.len();
        proof {
            self.types().unique_seq_to_set();
            type_seq(*target).unique_seq_to_set();
        }
        if self.component_types.len() != n {
            return false;
        }
        let mut j: usize = 0;
        while j < n
            invariant
                j <= n,
                n == type_seq(*target).len(),
                forall|i: int| 0 <= i < j ==> self.types().contains(#[trigger] type_seq(*target)[i]),
            decreases n - j,
        {
            let key = target.get(j);
            if !self.contains_type(&key) {
                proof {
                    let wanted = type_seq(*target);
                    assert(wanted.contains(wanted[j as int]));
                    assert(wanted.to_set().contains(key));
                    assert(!self.types().to_set().contains(key));
                }
                return false;
            }
            j += 1;
        }
        proof {
            let wanted = type_seq(*target).to_set();
            let have = self.types().to_set();
            seq_to_set_is_finite(type_seq(*target));
            seq_to_set_is_finite(self.types());
            assert(wanted.subset_of(have)) by {
                assert forall|k: TypeId| wanted.contains(k) implies have.contains(k) by {
                    let i = type_seq(*target).index_of(k);
                    assert(type_seq(*target)[i] == k);
                }
            }
            lemma_subset_equality(wanted, have);
        }
        true
    }

    /// The type list of this archetype with `key` appended.
    pub fn types_with(&self, key: TypeId) -> (list: TypeList)
        ensures
            type_seq(list) == self.types().push(key),
    {
        let n = self.component_types.len();
        let mut list = TypeList::new();
        assert(type_seq(list) =~= self.types().subrange(0, 0));
        let mut j: usize = 0;
        while j < n
            invariant
                j <= n,
                n == self.types().len(),
                type_seq(list) == self.types().subrange(0, j as int),
            decreases n - j,
        {
            list.push(self.component_types.get(j));
            assert(type_seq(list) =~= self.types().subrange(0, j + 1));
            j += 1;
        }
        list.push(key);
        assert(self.types().subrange(0, n as int) =~= self.types());
        list
    }

    /// The type list of this archetype without the type of column `col`.
    pub fn types_without(&self, col: usize) -> (list: TypeList)
        requires
            col < self.types().len(),
        ensures
            type_seq(list) == self.types().remove(col as int),
    {
        let n = self.component_types.len();
        let mut list = TypeList::new();
        assert(type_seq(list) =~= self.types().remove(col as int).subrange(0, 0));
        let mut j: usize = 0;
        while j < n
            invariant
                j <= n,
                col < n,
                n == self.types().len(),
                type_seq(list) == self.types().remove(col as int).subrange(
                    0,
                    if j <= col {
                        j as int
                    } else {
                        j - 1
                    },
                ),
            decreases n - j,
        {
            if j != col {
                list.push(self.component_types.get(j));
                assert(type_seq(list) =~= self.types().remove(col as int).subrange(
                    0,
                    if j + 1 <= col {
                        j + 1
                    } else {
                        j as int
                    },
                ));
            }
            j += 1;
        }
        assert(self.types().remove(col as int).subrange(0, n - 1) =~= self.types().remove(
            col as int,
        ));
        list
    }

    /// The components of a row are keyed by exactly the archetype's types.
    pub proof fn lemma_row_cells_dom(&self, row: int)
        ensures
            self.row_cells(row).dom() == self.types().to_set(),
    {
        assert(self.row_cells(row).dom() =~= self.types().to_set());
    }

    /// The cell in column `col`, row `row`.
    pub fn cell_ref(&self, col: usize, row: usize) -> (c: &ErasedComponent)
        requires
            self.wf(),
            col < self.types().len(),
            row < self.members().len(),
        ensures
            *c == self.cell(col as int, row as int),
    {
        assert(self.column_len(col as int) == self.members().len());
        &self.columns[col][row]
    }

    /// Mutable access to the cell in column `col`, row `row`. Whatever is
    /// written there must keep the cell's type.
    pub fn cell_mut(&mut self, col: usize, row: usize) -> (c: &mut ErasedComponent)
        requires
            old(self).wf(),
            col < old(self).types().len(),
            row < old(self).members().len(),
        ensures
            *c == old(self).cell(col as int, row as int),
            final(self).types() == old(self).types(),
            final(self).members() == old(self).members(),
            final(self).spec_id() == old(self).spec_id(),
            final(self).column_count() == old(self).column_count(),
            forall|j: int|
                0 <= j < old(self).types().len() ==> #[trigger] final(self).column_len(j) == old(
                    self,
                ).column_len(j),
            forall|j: int, r: int|
                0 <= j < old(self).types().len() && 0 <= r < old(self).members().len() ==> (
                #[trigger] final(self).cell(j, r)) == (if j == col && r == row {
                    *final(c)
                } else {
                    old(self).cell(j, r)
                }),
    {
        assert(self.column_len(col as int) == self.members().len());
        &mut self.columns[col][row]
    }

    /// Put `cell` into column `col`, row `row`, and hand back the cell that
    /// was there.
    pub fn replace_cell(&mut self, col: usize, row: usize, cell: ErasedComponent) -> (prev:
        ErasedComponent)
        requires
            old(self).wf(),
            col < old(self).types().len(),
            row < old(self).members().len(),
            cell_type(cell) == old(self).types()[col as int],
        ensures
            final(self).wf(),
            prev == old(self).cell(col as int, row as int),
            final(self).types() == old(self).types(),
            final(self).members() == old(self).members(),
            final(self).spec_id() == old(self).spec_id(),
            forall|j: int, r: int|
                0 <= j < old(self).types().len() && 0 <= r < old(self).members().len() ==> (
                #[trigger] final(self).cell(j, r)) == (if j == col && r == row {
                    cell
                } else {
                    old(self).cell(j, r)
                }),
    {
        let slot = self.cell_mut(col, row);
        let mut held = cell;
        std::mem::swap(slot, &mut held);
        held
    }

    /// Remove the row `row` by swap-remove: the last row moves into its place
    /// and the storage shrinks by one. Returns the removed row's cells in
    /// column order.
    pub fn take_row(&mut self, row: usize) -> (cells: Vec<ErasedComponent>)
        requires
            old(self).wf(),
            row < old(self).members().len(),
        ensures
            final(self).wf(),
            final(self).types() == old(self).types(),
            final(self).spec_id() == old(self).spec_id(),
            final(self).members() == swap_removed(old(self).members(), row as int),
            cells@.len() == old(self).types().len(),
            forall|j: int|
                0 <= j < old(self).types().len() ==> #[trigger] cells@[j] == old(self).cell(
                    j,
                    row as int,
                ),
            forall|j: int, r: int|
                0 <= j < old(self).types().len() && 0 <= r < old(self).members().len() - 1 ==> (
                #[trigger] final(self).cell(j, r)) == (if r == row {
                    old(self).cell(j, old(self).members().len() - 1)
                } else {
                    old(self).cell(j, r)
                }),
    {
        let n = self.component_types.len();
        let ghost len = self.members().len() as int;
        let mut cells: Vec<ErasedComponent> = Vec::new();
        let mut j: usize = 0;
        while j < n
            invariant
                j <= n,
                n == old(self).types().len(),
                len == old(self).members().len(),
                row < len,
                old(self).wf(),
                self.types() == old(self).types(),
                self.members() == old(self).members(),
                self.spec_id() == old(self).spec_id(),
                self.column_count() == n,
                cells@.len() == j,
                forall|i: int| 0 <= i < j ==> #[trigger] cells@[i] == old(self).cell(i, row as int),
                forall|i: int| 0 <= i < j ==> #[trigger] self.column_len(i) == len - 1,
                forall|i: int| j <= i < n ==> #[trigger] self.column_len(i) == len,
                forall|i: int, r: int|
                    0 <= i < j && 0 <= r < len - 1 ==> (#[trigger] self.cell(i, r)) == (if r
                        == row {
                        old(self).cell(i, len - 1)
                    } else {
                        old(self).cell(i, r)
                    }),
                forall|i: int, r: int|
                    j <= i < n && 0 <= r < len ==> (#[trigger] self.cell(i, r)) == old(self).cell(
                        i,
                        r,
                    ),
            decreases n - j,
        {
            assert(self.column_len(j as int) == len);
            let ghost before = *self;
            let c = self.columns[j].swap_remove(row);
            cells.push(c);
            proof {
                assert(c == before.cell(j as int, row as int));
                assert forall|i: int| 0 <= i < n && i != j implies #[trigger] self.column_len(i)
                    == before.column_len(i) by {
                    assert(self.columns@[i] == before.columns@[i]);
                }
                assert forall|i: int, r: int| 0 <= i < n && i != j implies #[trigger] self.cell(
                    i,
                    r,
                ) == before.cell(i, r) by {
                    assert(self.columns@[i] == before.columns@[i]);
                }
                assert forall|r: int| 0 <= r < len - 1 implies #[trigger] self.cell(j as int, r)
                    == (if r == row {
                    before.cell(j as int, len - 1)
                } else {
                    before.cell(j as int, r)
                }) by {}
            }
            j += 1;
        }
        let ghost mid = *self;
        self.entities.swap_remove(row);
        proof {
            assert forall|i: int| 0 <= i < n implies #[trigger] self.column_len(i)
                == mid.column_len(i) by {}
            assert forall|i: int, r: int| 0 <= i < n implies #[trigger] self.cell(i, r)
                == mid.cell(i, r) by {}
        }
        cells
    }

    /// Append a row for `entity`. `cells` holds one cell per column, in
    /// column order.
    pub fn push_row(&mut self, entity: Entity, cells: Vec<ErasedComponent>)
        requires
            old(self).wf(),
            cells@.len() == old(self).types().len(),
            forall|j: int|
                0 <= j < cells@.len() ==> cell_type(#[trigger] cells@[j]) == old(self).types()[j],
        ensures
            final(self).wf(),
            final(self).types() == old(self).types(),
            final(self).spec_id() == old(self).spec_id(),
            final(self).members() == old(self).members().push(entity),
            forall|j: int, r: int|
                0 <= j < old(self).types().len() && 0 <= r <= old(self).members().len() ==> (
                #[trigger] final(self).cell(j, r)) == (if r == old(self).members().len() {
                    cells@[j]
                } else {
                    old(self).cell(j, r)
                }),
    {
        let n = self.component_types.len();
        let ghost len = self.members().len() as int;
        let ghost given = cells@;
        let mut cells = cells;
        let mut j: usize = n;
        while j > 0
            invariant
                j <= n,
                n == old(self).types().len(),
                len == old(self).members().len(),
                old(self).wf(),
                given.len() == n,
                self.types() == old(self).types(),
                self.members() == old(self).members(),
                self.spec_id() == old(self).spec_id(),
                self.column_count() == n,
                cells@ == given.subrange(0, j as int),
                forall|i: int| 0 <= i < j ==> #[trigger] self.column_len(i) == len,
                forall|i: int| j <= i < n ==> #[trigger] self.column_len(i) == len + 1,
                forall|i: int, r: int|
                    0 <= i < j && 0 <= r < len ==> (#[trigger] self.cell(i, r)) == old(self).cell(
                        i,
                        r,
                    ),
                forall|i: int, r: int|
                    j <= i < n && 0 <= r <= len ==> (#[trigger] self.cell(i, r)) == (if r == len {
                        given[i]
                    } else {
                        old(self).cell(i, r)
                    }),
            decreases j,
        {
            j -= 1;
            let ghost before = *self;
            let popped = cells.pop();
            let c = popped.unwrap();
            assert(c == given[j as int]);
            assert(before.column_len(j as int) == len);
            self.columns[j].push(c);
            proof {
                assert forall|i: int| 0 <= i < n && i != j implies #[trigger] self.column_len(i)
                    == before.column_len(i) by {
                    assert(self.columns@[i] == before.columns@[i]);
                }
                assert forall|i: int, r: int| 0 <= i < n && i != j implies #[trigger] self.cell(
                    i,
                    r,
                ) == before.cell(i, r) by {
                    assert(self.columns@[i] == before.columns@[i]);
                }
                assert forall|r: int| 0 <= r <= len implies #[trigger] self.cell(j as int, r) == (
                if r == len {
                    given[j as int]
                } else {
                    before.cell(j as int, r)
                }) by {}
                assert(cells@ == given.subrange(0, j as int));
            }
        }
        let ghost mid = *self;
        self.entities.push(entity);
        proof {
            assert forall|i: int| 0 <= i < n implies #[trigger] self.column_len(i)
                == mid.column_len(i) by {}
            assert forall|i: int, r: int| 0 <= i < n implies #[trigger] self.cell(i, r)
                == mid.cell(i, r) by {}
        }
    }

    /// Bring the cells of one row into this archetype's column order.
    ///
    /// `cells` holds one cell for each type of the archetype, in any order.
    /// The result holds the same cells, the one for column `j` at position
    /// `j`.
    pub fn arrange(&self, cells: Vec<ErasedComponent>) -> (out: Vec<ErasedComponent>)
        requires
            self.types().no_duplicates(),
            cells@.len() == self.types().len(),
            forall|p: int, q: int|
                0 <= p < q < cells@.len() ==> cell_type(#[trigger] cells@[p]) != cell_type(
                    #[trigger] cells@[q],
                ),
            forall|j: int|
                0 <= j < self.types().len() ==> holds_type(cells@, #[trigger] self.types()[j]),
        ensures
            out@.len() == self.types().len(),
            forall|j: int|
                0 <= j < out@.len() ==> cell_type(#[trigger] out@[j]) == self.types()[j]
                    && cells@.contains(out@[j]),
    {
        let n = self.component_types.len();
        let ghost given = cells@;
        let mut rest = cells;
        let mut out: Vec<ErasedComponent> = Vec::new();
        let mut j: usize = 0;
        while j < n
            invariant
                j <= n,
                n == self.types().len(),
                self.types().no_duplicates(),
                out@.len() == j,
                rest@.len() == n - j,
                forall|i: int|
                    0 <= i < j ==> cell_type(#[trigger] out@[i]) == self.types()[i]
                        && given.contains(out@[i]),
                forall|p: int| 0 <= p < rest@.len() ==> given.contains(#[trigger] rest@[p]),
                forall|p: int, q: int|
                    0 <= p < q < rest@.len() ==> cell_type(#[trigger] rest@[p]) != cell_type(
                        #[trigger] rest@[q],
                    ),
                forall|t: int| j <= t < n ==> holds_type(rest@, #[trigger] self.types()[t]),
            decreases n - j,
        {
            let want = self.component_types.get(j);
            assert(holds_type(rest@, self.types()[j as int]));
            let ghost w = choose|p: int|
                0 <= p < rest@.len() && cell_type(#[trigger] rest@[p]) == self.types()[j as int];
            let m = rest.len();
            let mut i: usize = 0;
            loop
                invariant_except_break
                    i <= w,
                    forall|p: int| 0 <= p < i ==> cell_type(#[trigger] rest@[p]) != want,
                invariant
                    m == rest@.len(),
                    0 <= w < rest@.len(),
                    cell_type(rest@[w]) == want,
                ensures
                    i < rest@.len(),
                    cell_type(rest@[i as int]) == want,
                decreases rest@.len() - i,
            {
                let k = rest[i].content_key();
                if same_type(&k, &want) {
                    break ;
                }
                i += 1;
            }
            let ghost before = rest@;
            let c = rest.swap_remove(i);
            out.push(c);
            proof {
                let last = before.len() - 1;
                assert forall|p: int| 0 <= p < rest@.len() implies given.contains(
                    #[trigger] rest@[p],
                ) by {
                    if p == i {
                        assert(rest@[p] == before[last]);
                    } else {
                        assert(rest@[p] == before[p]);
                    }
                }
                assert forall|p: int, q: int| 0 <= p < q < rest@.len() implies cell_type(
                    #[trigger] rest@[p],
                ) != cell_type(#[trigger] rest@[q]) by {
                    let p_old = if p == i {
                        last
                    } else {
                        p
                    };
                    let q_old = if q == i {
                        last
                    } else {
                        q
                    };
                    assert(rest@[p] == before[p_old]);
                    assert(rest@[q] == before[q_old]);
                    if p_old < q_old {
                        assert(cell_type(before[p_old]) != cell_type(before[q_old]));
                    } else {
                        assert(cell_type(before[q_old]) != cell_type(before[p_old]));
                    }
                }
                assert forall|t: int| j + 1 <= t < n implies holds_type(
                    rest@,
                    #[trigger] self.types()[t],
                ) by {
                    assert(holds_type(before, self.types()[t]));
                    let p_old = choose|p: int|
                        0 <= p < before.len() && cell_type(#[trigger] before[p])
                            == self.types()[t];
                    assert(self.types()[t] != self.types()[j as int]);
                    assert(p_old != i);
                    let p_new = if p_old == last {
                        i as int
                    } else {
                        p_old
                    };
                    assert(rest@[p_new] == before[p_old]);
                }
            }
            j += 1;
        }
        out
    }
}

} // verus!
