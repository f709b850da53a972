use vstd::prelude::*;

use crate::bitset::BitSet;
use crate::layout::ComponentLayout;
use crate::ComponentId;
use crate::Entity;

verus! {

/// Marks an entity that has no row in a column.
pub const VACANT: usize = usize::MAX;

/// Bytes `[i * size, i * size + size)` of `dense`: the row at index `i`.
pub open spec fn row_of(dense: Seq<u8>, i: int, size: int) -> Seq<u8> {
    if size == 0 {
        Seq::empty()
    } else {
        dense.subrange(i * size, i * size + size)
    }
}

/// Rows at distinct indices do not overlap.
pub proof fn lemma_rows_apart(i: int, j: int, size: int)
    requires
        0 <= i < j,
        0 <= size,
    ensures
        i * size + size <= j * size,
{
    assert((i + 1) * size <= j * size) by (nonlinear_arith)
        requires
            i + 1 <= j,
            0 <= size,
    ;
    assert((i + 1) * size == i * size + size) by (nonlinear_arith);
}

/// A row starts at or after zero.
pub proof fn lemma_row_start(i: int, size: int)
    requires
        0 <= i,
        0 <= size,
    ensures
        0 <= i * size,
{
    assert(0 <= i * size) by (nonlinear_arith)
        requires
            0 <= i,
            0 <= size,
    ;
}

/// The storage of one component kind: a sparse set from entities to rows of bytes.
#[derive(Debug)]
pub struct Column {
    pub id: ComponentId,
    pub layout: ComponentLayout,
    pub dense: Vec<u8>,
    pub entities: Vec<Entity>,
    pub sparse: Vec<usize>,
    pub bitset: BitSet,
}

impl View for Column {
    type V = Map<Entity, Seq<u8>>;

    /// Each stored entity with the bytes of its component.
    closed spec fn view(&self) -> Map<Entity, Seq<u8>> {
        Map::new(
            |e: Entity| self.stored(e),
            |e: Entity| row_of(self.dense@, self.sparse@[e as int] as int, self.layout.size as int),
        )
    }
}

impl Column {
    /// The entities with a row, in the order of their rows.
    pub closed spec fn order(&self) -> Seq<Entity> {
        self.entities@
    }

    /// Whether `e` has a row.
    closed spec fn stored(&self, e: Entity) -> bool {
        (e as int) < self.sparse@.len() && self.sparse@[e as int] != VACANT
    }

    /// The row index of a stored entity.
    pub closed spec fn slot(&self, e: Entity) -> int {
        self.sparse@[e as int] as int
    }

    /// Whether one more row can be added without exceeding `usize`.
    pub closed spec fn has_room(&self) -> bool {
        &&& self.entities@.len() + 1 < VACANT
        &&& (self.entities@.len() + 1) * self.layout.size <= usize::MAX
        &&& self.dense@.len() * 2 <= usize::MAX
        &&& self.layout.size * 2 <= usize::MAX
    }

    /// The sparse and dense parts agree, and the bit set holds exactly the stored entities.
    pub closed spec fn wf(&self) -> bool {
        &&& self.bitset.wf()
        &&& self.entities@.len() < VACANT
        &&& forall|i: int|
            0 <= i < self.entities@.len() ==> (#[trigger] self.entities@[i] as int)
                < self.sparse@.len() && self.sparse@[self.entities@[i] as int] == i
        &&& forall|e: int|
            0 <= e < self.sparse@.len() && #[trigger] self.sparse@[e] != VACANT ==> self.sparse@[e]
                < self.entities@.len() && self.entities@[self.sparse@[e] as int] == e
        &&& self.entities@.len() * self.layout.size <= self.dense@.len()
        &&& forall|e: Entity| #[trigger] self.bitset.has(e as int) == self.stored(e)
    }

    /// In a well-formed column every stored component is a row of the layout's size.
    pub proof fn lemma_rows_have_layout_size(&self)
        requires
            self.wf(),
        ensures
            forall|e: Entity| #[trigger] self@.contains_key(e) ==> self@[e].len() == self.layout.size,
    {
        assert forall|e: Entity| #[trigger] self@.contains_key(e) implies self@[e].len()
            == self.layout.size by {
            let i = self.sparse@[e as int] as int;
            let size = self.layout.size as int;
            assert(self.stored(e));
            assert(i < self.entities@.len());
            if size > 0 {
                lemma_row_start(i, size);
                lemma_rows_apart(i, self.entities@.len() as int, size);
            }
        }
    }

    /// A well-formed column has a well-formed bit set.
    pub proof fn lemma_bitset_wf(&self)
        requires
            self.wf(),
        ensures
            self.bitset.wf(),
    {
    }

    /// The stored entities are exactly those listed by `order`, each once.
    pub proof fn lemma_order(&self)
        requires
            self.wf(),
        ensures
            forall|e: Entity| #[trigger] self@.contains_key(e) <==> self.order().contains(e),
            forall|e: Entity| self@.contains_key(e) ==> 0 <= #[trigger] self.slot(e) < self.order().len()
                && self.order()[self.slot(e)] == e,
            forall|a: int, b: int|
                0 <= a < b < self.order().len() ==> self.order()[a] != self.order()[b],
            self.bitset.members() == self@.dom(),
    {
        assert forall|e: Entity| #[trigger] self@.contains_key(e) <==> self.order().contains(e) by {
            if self.order().contains(e) {
                let i = choose|i: int| 0 <= i < self.entities@.len() && self.entities@[i] == e;
                assert(self.entities@[i] == e);
            }
            if self@.contains_key(e) {
                assert(self.entities@[self.sparse@[e as int] as int] == e);
            }
        }
        assert forall|a: int, b: int|
            0 <= a < b < self.order().len() implies self.order()[a] != self.order()[b] by {
            assert(self.sparse@[self.entities@[a] as int] == a);
            assert(self.sparse@[self.entities@[b] as int] == b);
        }
        assert(self.bitset.members() =~= self@.dom());
    }

    /// An empty column with room for `initial_capacity` entities and rows.
    pub fn new(component_id: ComponentId, layout: ComponentLayout, initial_capacity: usize) -> (r:
        Self)
        requires
            initial_capacity * layout.size <= usize::MAX,
        ensures
            r.wf(),
            r@ == Map::<Entity, Seq<u8>>::empty(),
            r.order() == Seq::<Entity>::empty(),
            r.id == component_id,
            r.layout == layout,
    {
        let size = layout.size;
        let r = Self {
            id: component_id,
            layout,
            dense: vec![0; initial_capacity * size],
            entities: Vec::with_capacity(initial_capacity),
            sparse: vec![VACANT; initial_capacity],
            bitset: BitSet::new_empty(initial_capacity),
        };
        proof {
            assert forall|e: Entity| #[trigger] r.bitset.has(e as int) == r.stored(e) by {
                assert(!r.bitset.members().contains(e));
            }
            assert(r@ =~= Map::<Entity, Seq<u8>>::empty());
        }
        r
    }

    fn ensure_entity_capacity(&mut self, entity: Entity)
        requires
            old(self).wf(),
            (entity as int) < usize::MAX,
        ensures
            final(self).wf(),
            final(self)@ == old(self)@,
            final(self).order() == old(self).order(),
            final(self).id == old(self).id,
            final(self).layout == old(self).layout,
            final(self).has_room() == old(self).has_room(),
            forall|e: Entity| old(self)@.contains_key(e) ==> final(self).slot(e) == old(self).slot(e),
            (entity as int) < final(self).sparse@.len(),
            final(self).dense@ == old(self).dense@,
    {
        if entity as usize >= self.sparse.len() {
            self.sparse.resize(entity as usize + 1, VACANT);
            proof {
                assert forall|k: int| 0 <= k < old(self).sparse@.len() implies self.sparse@[k]
                    == old(self).sparse@[k] by {
                    assert(self.sparse@.subrange(0, old(self).sparse@.len() as int)[k]
                        == self.sparse@[k]);
                }
                assert(self@ =~= old(self)@);
            }
        }
    }

    fn ensure_dense_capacity(&mut self)
        requires
            old(self).wf(),
            old(self).has_room(),
        ensures
            final(self).wf(),
            final(self)@ == old(self)@,
            final(self).order() == old(self).order(),
            final(self).sparse@ == old(self).sparse@,
            final(self).id == old(self).id,
            final(self).layout == old(self).layout,
            final(self).bitset == old(self).bitset,
            (final(self).entities@.len() + 1) * final(self).layout.size <= final(self).dense@.len(),
    {
        if self.layout.size == 0 {
            proof {
                assert((self.entities@.len() + 1) * 0 == 0);
            }
            return ;
        }
        let needed = (self.entities.len() + 1) * self.layout.size;
        if needed > self.dense.len() {
            let base = if self.dense.len() > self.layout.size {
                self.dense.len()
            } else {
                self.layout.size
            };
            let doubled = base * 2;
            let new_capacity = if doubled > needed {
                doubled
            } else {
                needed
            };
            let ghost old_dense = self.dense@;
            self.dense.resize(new_capacity, 0);
            proof {
                assert forall|e: Entity| #[trigger] self@.contains_key(e) implies self@[e]
                    == old(self)@[e] by {
                    let i = self.sparse@[e as int] as int;
                    let size = self.layout.size as int;
                    lemma_row_start(i, size);
                    lemma_rows_apart(i, self.entities@.len() as int, size);
                    assert(self.dense@.subrange(0, old_dense.len() as int) == old_dense);
                    assert(row_of(self.dense@, i, size) =~= row_of(old_dense, i, size));
                }
                assert(self@ =~= old(self)@);
            }
        }
    }

    fn write_row(&mut self, index: usize, value_bytes: &[u8])
        requires
            old(self).layout.size > 0,
            value_bytes@.len() == old(self).layout.size,
            index * old(self).layout.size + old(self).layout.size <= old(self).dense@.len(),
        ensures
            final(self).dense@.len() == old(self).dense@.len(),
            row_of(final(self).dense@, index as int, final(self).layout.size as int)
                == value_bytes@,
            forall|p: int|
                0 <= p < old(self).dense@.len() && !(index * old(self).layout.size <= p < index
                    * old(self).layout.size + old(self).layout.size) ==> final(self).dense@[p]
                    == old(self).dense@[p],
            final(self).entities == old(self).entities,
            final(self).sparse == old(self).sparse,
            final(self).bitset == old(self).bitset,
            final(self).id == old(self).id,
            final(self).layout == old(self).layout,
    {
        let size = self.layout.size;
        let total = self.dense.len();
        assert(index * size <= total);
        let start = index * size;
        let mut k: usize = 0;
        while k < size
            invariant
                size == self.layout.size,
                size == old(self).layout.size,
                start == index * size,
                value_bytes@.len() == size,
                start + size <= self.dense@.len(),
                self.dense@.len() == total,
                self.dense@.len() == old(self).dense@.len(),
                k <= size,
                forall|p: int| start <= p < start + k ==> self.dense@[p] == value_bytes@[p - start],
                forall|p: int|
                    0 <= p < self.dense@.len() && !(start <= p < start + k) ==> self.dense@[p]
                        == old(self).dense@[p],
                self.entities == old(self).entities,
                self.sparse == old(self).sparse,
                self.bitset == old(self).bitset,
                self.id == old(self).id,
                self.layout == old(self).layout,
            decreases size - k,
        {
            self.dense.set(start + k, value_bytes[k]);
            k = k + 1;
        }
        proof {
            assert(row_of(self.dense@, index as int, size as int) =~= value_bytes@);
        }
    }

    /// Stores the component bytes of `entity`, adding a row or overwriting the existing one.
    /// A new entity takes the next row, at the end of `order`.
    pub fn insert(&mut self, entity: Entity, value_bytes: &[u8])
        requires
            old(self).wf(),
            old(self).has_room(),
            (entity as int) < usize::MAX,
            old(self).layout.size > 0 ==> value_bytes@.len() == old(self).layout.size,
        ensures
            final(self).wf(),
            final(self)@ == old(self)@.insert(
                entity,
                if old(self).layout.size == 0 {
                    Seq::empty()
                } else {
                    value_bytes@
                },
            ),
            final(self).order() == if old(self)@.contains_key(entity) {
                old(self).order()
            } else {
                old(self).order().push(entity)
            },
            final(self).id == old(self).id,
            final(self).layout == old(self).layout,
    {
        self.ensure_entity_capacity(entity);
        let idx = self.sparse[entity as usize];
        let ghost mid = *self;
        if idx == VACANT {
            self.ensure_dense_capacity();
            let ghost before = *self;
            let new_index = self.entities.len();
            self.entities.push(entity);
            self.sparse.set(entity as usize, new_index);
            proof {
                let size = self.layout.size as int;
                assert((new_index + 1) * size == new_index * size + size) by (nonlinear_arith);
            }
            if self.layout.size > 0 {
                self.write_row(new_index, value_bytes);
            }
            self.bitset.set(entity);
            proof {
                let size = self.layout.size as int;
                assert forall|e: Entity| #[trigger] self.bitset.has(e as int) == self.stored(e) by {
                    assert(self.bitset.members().contains(e) == (before.bitset.members().contains(e)
                        || e == entity));
                }
                assert forall|e: int|
                    0 <= e < self.sparse@.len() && #[trigger] self.sparse@[e] != VACANT implies self.sparse@[e]
                        < self.entities@.len() && self.entities@[self.sparse@[e] as int] == e by {
                    if e != entity as int {
                        assert(before.sparse@[e] == self.sparse@[e]);
                    }
                }
                assert forall|i: int| 0 <= i < self.entities@.len() implies (
                #[trigger] self.entities@[i] as int) < self.sparse@.len() && self.sparse@[
                self.entities@[i] as int] == i by {
                    if i < new_index {
                        assert(before.entities@[i] != entity);
                    }
                }
                assert(new_index * size + size <= self.dense@.len()) by {
                    assert((new_index + 1) * size == new_index * size + size) by (nonlinear_arith);
                }
                assert((new_index + 1) * size <= self.dense@.len()) by {
                    assert((new_index + 1) * size == new_index * size + size) by (nonlinear_arith);
                }
                assert forall|e: Entity| #[trigger] self@.contains_key(e) && e != entity implies self@[e]
                    == before@[e] by {
                    let i = self.sparse@[e as int] as int;
                    lemma_row_start(i, size);
                    lemma_rows_apart(i, new_index as int, size);
                    if size > 0 {
                        assert(row_of(self.dense@, i, size) =~= row_of(before.dense@, i, size));
                    }
                }
                assert(self@ =~= old(self)@.insert(
                    entity,
                    if size == 0 {
                        Seq::empty()
                    } else {
                        value_bytes@
                    },
                ));
            }
        } else {
            if self.layout.size > 0 {
                proof {
                    let size = self.layout.size as int;
                    lemma_row_start(idx as int, size);
                    lemma_rows_apart(idx as int, self.entities@.len() as int, size);
                }
                self.write_row(idx, value_bytes);
                proof {
                    let size = self.layout.size as int;
                    assert forall|e: Entity| #[trigger] self@.contains_key(e) && e != entity implies self@[e]
                        == mid@[e] by {
                        let i = self.sparse@[e as int] as int;
                        lemma_row_start(i, size);
                        lemma_rows_apart(i, self.entities@.len() as int, size);
                        if i < idx {
                            lemma_rows_apart(i, idx as int, size);
                        } else {
                            lemma_rows_apart(idx as int, i, size);
                        }
                        assert(row_of(self.dense@, i, size) =~= row_of(mid.dense@, i, size));
                    }
                }
            }
            proof {
                assert(self@ =~= old(self)@.insert(
                    entity,
                    if self.layout.size == 0 {
                        Seq::empty()
                    } else {
                        value_bytes@
                    },
                ));
            }
        }
    }

    /// The component bytes of `entity`, if it has a row.
    pub fn get(&self, entity: Entity) -> (r: Option<&[u8]>)
        requires
            self.wf(),
        ensures
            r is Some <==> self@.contains_key(entity),
            r matches Some(bytes) ==> bytes@ == self@[entity],
            r matches Some(bytes) ==> bytes@.len() == self.layout.size,
    {
        if entity as usize >= self.sparse.len() {
            return None;
        }
        let idx = self.sparse[entity as usize];
        if idx == VACANT {
            return None;
        }
        if self.layout.size == 0 {
            let empty: &[u8] = &[];
            proof {
                assert(empty@ =~= Seq::<u8>::empty());
            }
            return Some(empty);
        }
        proof {
            lemma_row_start(idx as int, self.layout.size as int);
            lemma_rows_apart(idx as int, self.entities@.len() as int, self.layout.size as int);
        }
        let total = self.dense.len();
        let start = idx * self.layout.size;
        let end = start + self.layout.size;
        let bytes = &self.dense.as_slice()[start..end];
        Some(bytes)
    }

    fn swap_rows(&mut self, a: usize, b: usize)
        requires
            old(self).layout.size > 0,
            a < b,
            b * old(self).layout.size + old(self).layout.size <= old(self).dense@.len(),
        ensures
            final(self).dense@.len() == old(self).dense@.len(),
            row_of(final(self).dense@, a as int, final(self).layout.size as int) == row_of(
                old(self).dense@,
                b as int,
                old(self).layout.size as int,
            ),
            row_of(final(self).dense@, b as int, final(self).layout.size as int) == row_of(
                old(self).dense@,
                a as int,
                old(self).layout.size as int,
            ),
            forall|p: int|
                0 <= p < old(self).dense@.len() && !(a * old(self).layout.size <= p < a
                    * old(self).layout.size + old(self).layout.size) && !(b * old(self).layout.size
                    <= p < b * old(self).layout.size + old(self).layout.size) ==> final(self).dense@[p]
                    == old(self).dense@[p],
            final(self).entities == old(self).entities,
            final(self).sparse == old(self).sparse,
            final(self).bitset == old(self).bitset,
            final(self).id == old(self).id,
            final(self).layout == old(self).layout,
    {
        let size = self.layout.size;
        let total = self.dense.len();
        proof {
            lemma_row_start(a as int, size as int);
            lemma_rows_apart(a as int, b as int, size as int);
        }
        let sa = a * size;
        let sb = b * size;
        let mut k: usize = 0;
        while k < size
            invariant
                size == self.layout.size,
                size == old(self).layout.size,
                sa == a * size,
                sb == b * size,
                sa + size <= sb,
                sb + size <= total,
                self.dense@.len() == total,
                self.dense@.len() == old(self).dense@.len(),
                k <= size,
                forall|p: int| sa <= p < sa + k ==> self.dense@[p] == old(self).dense@[p - sa + sb],
                forall|p: int| sb <= p < sb + k ==> self.dense@[p] == old(self).dense@[p - sb + sa],
                forall|p: int|
                    0 <= p < self.dense@.len() && !(sa <= p < sa + k) && !(sb <= p < sb + k)
                        ==> self.dense@[p] == old(self).dense@[p],
                self.entities == old(self).entities,
                self.sparse == old(self).sparse,
                self.bitset == old(self).bitset,
                self.id == old(self).id,
                self.layout == old(self).layout,
            decreases size - k,
        {
            let x = self.dense[sa + k];
            let y = self.dense[sb + k];
            self.dense.set(sa + k, y);
            self.dense.set(sb + k, x);
            k = k + 1;
        }
        proof {
            assert(row_of(self.dense@, a as int, size as int) =~= row_of(
                old(self).dense@,
                b as int,
                size as int,
            ));
            assert(row_of(self.dense@, b as int, size as int) =~= row_of(
                old(self).dense@,
                a as int,
                size as int,
            ));
        }
    }

    /// Removes the row of `entity`; the last row moves into its place. Returns whether
    /// `entity` had a row.
    pub fn remove(&mut self, entity: Entity) -> (r: bool)
        requires
            old(self).wf(),
        ensures
            final(self).wf(),
            r == old(self)@.contains_key(entity),
            final(self)@ == old(self)@.remove(entity),
            final(self).order() == if r {
                old(self).order().update(old(self).slot(entity), old(self).order().last()).drop_last()
            } else {
                old(self).order()
            },
            final(self).id == old(self).id,
            final(self).layout == old(self).layout,
    {
        if entity as usize >= self.sparse.len() {
            proof {
                assert(self@ =~= old(self)@.remove(entity));
            }
            return false;
        }
        let idx = self.sparse[entity as usize];
        if idx == VACANT {
            proof {
                assert(self@ =~= old(self)@.remove(entity));
            }
            return false;
        }
        let ghost old_order = self.entities@;
        let last = self.entities.len() - 1;
        let e_idx = self.entities[idx];
        let e_last = self.entities[last];
        self.entities.set(idx, e_last);
        self.entities.set(last, e_idx);
        let moved_entity = self.entities[idx];
        self.sparse.set(moved_entity as usize, idx);
        self.sparse.set(entity as usize, VACANT);
        if self.layout.size > 0 && idx < last {
            proof {
                lemma_rows_apart(last as int, old(self).entities@.len() as int, self.layout.size as int);
            }
            self.swap_rows(idx, last);
        }
        self.bitset.unset(entity);
        self.entities.pop();
        proof {
            let size = self.layout.size as int;
            let n = old_order.len();
            assert(e_idx == entity);
            assert(self.entities@ =~= old_order.update(idx as int, old_order[last as int]).drop_last());
            assert forall|i: int| 0 <= i < self.entities@.len() implies (
            #[trigger] self.entities@[i] as int) < self.sparse@.len() && self.sparse@[
            self.entities@[i] as int] == i by {
                if i != idx {
                    assert(old_order[i] != entity);
                    assert(old_order[i] != e_last);
                }
            }
            assert forall|e: int|
                0 <= e < self.sparse@.len() && #[trigger] self.sparse@[e] != VACANT implies self.sparse@[e]
                    < self.entities@.len() && self.entities@[self.sparse@[e] as int] == e by {
                if e != moved_entity as int && e != entity as int {
                    let j = old(self).sparse@[e];
                    assert(old_order[j as int] == e);
                    assert(j != idx);
                    assert(j != last);
                }
            }
            assert forall|e: Entity| #[trigger] self.bitset.has(e as int) == self.stored(e) by {
                assert(self.bitset.members().contains(e) == (old(self).bitset.members().contains(e)
                    && e != entity));
            }
            assert((n - 1) * size <= n * size) by (nonlinear_arith)
                requires
                    n >= 1,
                    size >= 0,
            ;
            assert forall|e: Entity| #[trigger] self@.contains_key(e) implies self@[e] == old(self)@[e]
                by {
                let j = self.sparse@[e as int] as int;
                if size > 0 {
                    if e == moved_entity {
                        assert(j == idx);
                    } else {
                        let jo = old(self).sparse@[e as int] as int;
                        assert(old_order[jo] == e);
                        assert(j == jo);
                        assert(j != idx);
                        assert(j != last);
                        lemma_row_start(j, size);
                        lemma_rows_apart(j, n as int, size);
                        if j < idx {
                            lemma_rows_apart(j, idx as int, size);
                        } else {
                            lemma_rows_apart(idx as int, j, size);
                        }
                        if j < last {
                            lemma_rows_apart(j, last as int, size);
                        } else {
                            lemma_rows_apart(last as int, j, size);
                        }
                        assert(row_of(self.dense@, j, size) =~= row_of(old(self).dense@, j, size));
                    }
                }
            }
            assert(self@ =~= old(self)@.remove(entity));
        }
        true
    }

    /// Each stored entity with its bytes, in row order.
    pub fn iter(&self) -> (r: Vec<(Entity, &[u8])>)
        requires
            self.wf(),
        ensures
            r@.len() == self.order().len(),
            forall|i: int|
                0 <= i < r@.len() ==> (#[trigger] r@[i]).0 == self.order()[i] && r@[i].1@
                    == self@[self.order()[i]],
    {
        let mut result: Vec<(Entity, &[u8])> = Vec::new();
        let n = self.entities.len();
        let mut i: usize = 0;
        while i < n
            invariant
                self.wf(),
                n == self.entities@.len(),
                i <= n,
                result@.len() == i,
                forall|k: int|
                    0 <= k < i ==> (#[trigger] result@[k]).0 == self.order()[k] && result@[k].1@
                        == self@[self.order()[k]],
            decreases n - i,
        {
            let e = self.entities[i];
            let bytes: &[u8] = if self.layout.size == 0 {
                let empty: &[u8] = &[];
                proof {
                    assert(empty@ =~= Seq::<u8>::empty());
                }
                empty
            } else {
                proof {
                    lemma_row_start(i as int, self.layout.size as int);
                    lemma_rows_apart(i as int, n as int, self.layout.size as int);
                }
                let total = self.dense.len();
                let start = i * self.layout.size;
                let end = start + self.layout.size;
                &self.dense.as_slice()[start..end]
            };
            proof {
                assert(self.sparse@[e as int] == i);
            }
            result.push((e, bytes));
            i = i + 1;
        }
        result
    }

    /// The stored entities in row order.
    pub fn iter_entities(&self) -> (r: Vec<Entity>)
        ensures
            r@ == self.order(),
    {
        self.entities.clone()
    }

    /// Replacing the row of a stored entity by bytes of the same length changes only that
    /// entity's component.
    proof fn lemma_row_rewrite(c: Column, e: Entity)
        requires
            c.wf(),
            c@.contains_key(e),
            c.layout.size > 0,
        ensures
            forall|f: Column, nr: Seq<u8>|
                #![trigger f@, nr.len()]
                f.entities == c.entities && f.sparse == c.sparse && f.bitset == c.bitset && f.layout
                    == c.layout && f.id == c.id && nr.len() == c.layout.size && f.dense@
                    == c.dense@.subrange(0, c.slot(e) * c.layout.size) + (nr + c.dense@.subrange(
                    c.slot(e) * c.layout.size + c.layout.size,
                    c.dense@.len() as int,
                )) ==> f.wf() && f@ == c@.insert(e, nr),
    {
        let size = c.layout.size as int;
        let idx = c.slot(e);
        let n = c.entities@.len() as int;
        lemma_row_start(idx, size);
        lemma_rows_apart(idx, n, size);
        assert forall|f: Column, nr: Seq<u8>|
            #![trigger f@, nr.len()]
            f.entities == c.entities && f.sparse == c.sparse && f.bitset == c.bitset && f.layout
                == c.layout && f.id == c.id && nr.len() == c.layout.size && f.dense@
                == c.dense@.subrange(0, idx * size) + (nr + c.dense@.subrange(
                idx * size + size,
                c.dense@.len() as int,
            )) implies f.wf() && f@ == c@.insert(e, nr) by {
            assert(f.dense@.len() == c.dense@.len());
            assert forall|x: Entity| #[trigger] f@.contains_key(x) implies f@[x] == c@.insert(
                e,
                nr,
            )[x] by {
                let j = f.sparse@[x as int] as int;
                lemma_row_start(j, size);
                lemma_rows_apart(j, n, size);
                if j < idx {
                    lemma_rows_apart(j, idx, size);
                } else if j > idx {
                    lemma_rows_apart(idx, j, size);
                } else {
                    assert(c.entities@[j] == x);
                }
                assert(row_of(f.dense@, j, size) =~= c@.insert(e, nr)[x]);
            }
            assert(f@ =~= c@.insert(e, nr));
        }
    }

    /// The component bytes of `entity` for writing, if it has a row. Whatever is written to the
    /// returned bytes becomes the component of `entity`.
    pub fn get_mut(&mut self, entity: Entity) -> (r: Option<&mut [u8]>)
        requires
            old(self).wf(),
        ensures
            r is Some <==> old(self)@.contains_key(entity),
            r is None ==> *final(self) == *old(self),
            r matches Some(bytes) ==> bytes@ == old(self)@[entity],
            r matches Some(bytes) ==> (final(bytes)@.len() == bytes@.len() ==> {
                &&& final(self).wf()
                &&& final(self)@ == old(self)@.insert(entity, final(bytes)@)
                &&& final(self).order() == old(self).order()
                &&& final(self).id == old(self).id
                &&& final(self).layout == old(self).layout
            }),
    {
        if entity as usize >= self.sparse.len() {
            return None;
        }
        let idx = self.sparse[entity as usize];
        if idx == VACANT {
            return None;
        }
        if self.layout.size == 0 {
            let empty: &mut [u8] = &mut [];
            proof {
                assert(empty@ =~= Seq::<u8>::empty());
                assert(old(self)@.insert(entity, Seq::<u8>::empty()) =~= old(self)@);
                assert(final(empty)@.len() == 0 ==> final(empty)@ =~= Seq::<u8>::empty());
            }
            return Some(empty);
        }
        proof {
            lemma_row_start(idx as int, self.layout.size as int);
            lemma_rows_apart(idx as int, self.entities@.len() as int, self.layout.size as int);
        }
        let total = self.dense.len();
        let size = self.layout.size;
        let start = idx * size;
        let ghost d = self.dense@;
        proof {
            Self::lemma_row_rewrite(*self, entity);
        }
        let (head, rest) = self.dense.as_mut_slice().split_at_mut(start);
        let (row, tail) = rest.split_at_mut(size);
        proof {
            assert(final(head)@ == head@);
            assert(final(tail)@ == tail@);
            assert(head@ =~= d.subrange(0, start as int));
            assert(tail@ =~= d.subrange(start + size, d.len() as int));
        }
        Some(row)
    }
}

/// Reading an entity's component after storing it gives the stored bytes, and every other
/// entity keeps its component.
pub proof fn law_insert_then_get(before: Map<Entity, Seq<u8>>, entity: Entity, bytes: Seq<u8>)
    ensures
        before.insert(entity, bytes).contains_key(entity),
        before.insert(entity, bytes)[entity] == bytes,
        forall|other: Entity|
            other != entity ==> (#[trigger] before.insert(entity, bytes).contains_key(other)
                <==> before.contains_key(other)),
        forall|other: Entity|
            other != entity && before.contains_key(other) ==> #[trigger] before.insert(
                entity,
                bytes,
            )[other] == before[other],
{
}

/// Removing a component that was just stored for an entity that had none gives back the
/// column as it was.
pub proof fn law_insert_then_remove(before: Map<Entity, Seq<u8>>, entity: Entity, bytes: Seq<u8>)
    requires
        !before.contains_key(entity),
    ensures
        before.insert(entity, bytes).remove(entity) == before,
{
    assert(before.insert(entity, bytes).remove(entity) =~= before);
}

} // verus!
