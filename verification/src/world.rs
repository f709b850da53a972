use vstd::prelude::*;

use crate::bitset::{word_of, BitSet};
use crate::column::Column;
use crate::layout::ComponentLayout;
use crate::ComponentId;
use crate::Entity;

verus! {

/// The reason two columns cannot be lent out together.
#[derive(Debug, PartialEq, Eq, Structural)]
pub enum DisjointColumnsError {
    /// An index lies beyond the registered columns.
    IndexOutOfBounds,
    /// Both indices name the same column.
    OverlappingIndices,
}

/// The entities that a query matched, handed out one at a time, and the ids of the
/// included columns that carry data.
pub struct QueryResult {
    entities: Vec<Entity>,
    position: usize,
    pub component_ids: Vec<ComponentId>,
    pub is_empty: bool,
}

impl QueryResult {
    /// The entities not handed out yet.
    pub closed spec fn remaining(&self) -> Seq<Entity> {
        if self.position <= self.entities@.len() {
            self.entities@.subrange(self.position as int, self.entities@.len() as int)
        } else {
            Seq::empty()
        }
    }

    /// The ids of the included columns that carry data.
    pub closed spec fn ids(&self) -> Seq<ComponentId> {
        self.component_ids@
    }

    /// Whether the query matched nothing.
    pub closed spec fn matched_nothing(&self) -> bool {
        self.is_empty
    }

    /// A result that hands out `entities` in order.
    pub fn new(entities: Vec<Entity>, component_ids: Vec<ComponentId>) -> (r: Self)
        ensures
            r.remaining() == entities@,
            r.ids() == component_ids@,
            r.matched_nothing() == (entities@.len() == 0),
    {
        let is_empty = entities.len() == 0;
        let r = Self { is_empty, entities, position: 0, component_ids };
        proof {
            assert(r.remaining() =~= r.entities@);
        }
        r
    }

    /// The next matched entity, if any.
    pub fn next(&mut self) -> (r: Option<Entity>)
        requires
            old(self).remaining().len() <= usize::MAX,
        ensures
            old(self).remaining().len() == 0 ==> r is None && final(self).remaining() == old(
                self,
            ).remaining(),
            old(self).remaining().len() > 0 ==> r == Some(old(self).remaining()[0])
                && final(self).remaining() == old(self).remaining().drop_first(),
            final(self).ids() == old(self).ids(),
            final(self).matched_nothing() == old(self).matched_nothing(),
    {
        if self.position < self.entities.len() {
            let e = self.entities[self.position];
            self.position = self.position + 1;
            proof {
                assert(old(self).remaining()[0] == e);
                assert(self.remaining() =~= old(self).remaining().drop_first());
            }
            Some(e)
        } else {
            None
        }
    }

    /// All entities not handed out yet, in order; the result is then exhausted.
    pub fn collect(&mut self) -> (r: Vec<Entity>)
        ensures
            r@ == old(self).remaining(),
            final(self).remaining() == Seq::<Entity>::empty(),
            final(self).ids() == old(self).ids(),
            final(self).matched_nothing() == old(self).matched_nothing(),
    {
        let mut r: Vec<Entity> = Vec::new();
        if self.position > self.entities.len() {
            self.position = self.entities.len();
        }
        let ghost start = self.position as int;
        while self.position < self.entities.len()
            invariant
                start <= self.position <= self.entities@.len(),
                self.entities@ == old(self).entities@,
                self.component_ids == old(self).component_ids,
                self.is_empty == old(self).is_empty,
                start == if old(self).position <= old(self).entities@.len() {
                    old(self).position as int
                } else {
                    old(self).entities@.len() as int
                },
                r@ == self.entities@.subrange(start, self.position as int),
            decreases self.entities@.len() - self.position,
        {
            r.push(self.entities[self.position]);
            self.position = self.position + 1;
            proof {
                assert(r@ =~= self.entities@.subrange(start, self.position as int));
            }
        }
        proof {
            assert(self.remaining() =~= Seq::<Entity>::empty());
            assert(r@ =~= old(self).remaining());
        }
        r
    }
}

/// The columns whose id `ids` lists, in their order.
pub open spec fn select(cols: Seq<Column>, ids: Seq<ComponentId>) -> Seq<Column>
    decreases cols.len(),
{
    if cols.len() == 0 {
        Seq::empty()
    } else {
        let rest = select(cols.drop_last(), ids);
        if ids.contains(cols.last().id) {
            rest.push(cols.last())
        } else {
            rest
        }
    }
}

/// Whether every column of `cols` holds `e`.
pub open spec fn held_by_all(cols: Seq<Column>, e: Entity) -> bool {
    forall|i: int| 0 <= i < cols.len() ==> (#[trigger] cols[i]).bitset.has(e as int)
}

/// The number of words of the intersection of the bit sets of `cols`: the least of their
/// word counts, or one word when `cols` is empty.
pub open spec fn common_words(cols: Seq<Column>) -> nat
    decreases cols.len(),
{
    if cols.len() == 0 {
        1
    } else if cols.len() == 1 {
        cols[0].bitset.word_count()
    } else {
        vstd::math::min(
            common_words(cols.drop_last()) as int,
            cols.last().bitset.word_count() as int,
        ) as nat
    }
}

/// Whether a query with these ids that must and must not be present matches `e` in `cols`: every included
/// column holds it, not every excluded column holds it, and it lies within the words of the
/// excluded intersection.
pub open spec fn query_matches(
    cols: Seq<Column>,
    with_ids: Seq<ComponentId>,
    without_ids: Seq<ComponentId>,
    e: Entity,
) -> bool {
    let inc = select(cols, with_ids);
    let exc = select(cols, without_ids);
    &&& inc.len() > 0
    &&& held_by_all(inc, e)
    &&& !(exc.len() > 0 && held_by_all(exc, e))
    &&& word_of(e as int) < common_words(exc)
}

/// The ids of the columns in `cols` that carry data.
pub open spec fn data_ids(cols: Seq<Column>) -> Seq<ComponentId>
    decreases cols.len(),
{
    if cols.len() == 0 {
        Seq::empty()
    } else {
        let rest = data_ids(cols.drop_last());
        if cols.last().layout.size != 0 {
            rest.push(cols.last().id)
        } else {
            rest
        }
    }
}

/// Whether `ids` holds `id`.
fn contains_id(ids: &Vec<ComponentId>, id: ComponentId) -> (r: bool)
    ensures
        r == ids@.contains(id),
{
    let mut i: usize = 0;
    while i < ids.len()
        invariant
            i <= ids@.len(),
            forall|k: int| 0 <= k < i ==> ids@[k] != id,
        decreases ids@.len() - i,
    {
        if ids[i] == id {
            return true;
        }
        i = i + 1;
    }
    false
}

/// All component storage: one column per registered component kind.
#[derive(Debug)]
pub struct World {
    components: Vec<Column>,
}

impl World {
    /// The columns, in registration order.
    pub closed spec fn columns(&self) -> Seq<Column> {
        self.components@
    }

    /// Every column is well formed.
    pub open spec fn wf(&self) -> bool {
        forall|i: int| 0 <= i < self.columns().len() ==> (#[trigger] self.columns()[i]).wf()
    }

    /// The position a column registered under `id` takes: its own index when that index is
    /// already taken, the end otherwise.
    pub open spec fn register_position(&self, id: ComponentId) -> int {
        if (id as int) < self.columns().len() {
            id as int
        } else {
            self.columns().len() as int
        }
    }

    /// A world without columns.
    pub fn new() -> (r: Self)
        ensures
            r.wf(),
            r.columns() == Seq::<Column>::empty(),
    {
        Self { components: Vec::new() }
    }

    /// Registers an empty column for `id` with room for sixteen entities. It replaces the
    /// column at index `id` when there is one, and is appended otherwise.
    pub fn register_component(&mut self, id: ComponentId, layout: ComponentLayout)
        requires
            old(self).wf(),
            16 * layout.size <= usize::MAX,
        ensures
            final(self).wf(),
            final(self).columns().len() == if (id as int) < old(self).columns().len() {
                old(self).columns().len()
            } else {
                old(self).columns().len() + 1
            },
            final(self).columns()[old(self).register_position(id)]@ == Map::<
                Entity,
                Seq<u8>,
            >::empty(),
            final(self).columns()[old(self).register_position(id)].order() == Seq::<
                Entity,
            >::empty(),
            final(self).columns()[old(self).register_position(id)].id == id,
            final(self).columns()[old(self).register_position(id)].layout == layout,
            forall|i: int|
                0 <= i < old(self).columns().len() && i != old(self).register_position(id)
                    ==> final(self).columns()[i] == old(self).columns()[i],
    {
        let column = Column::new(id, layout, 16);
        let idx = id as usize;
        if idx < self.components.len() {
            self.components.set(idx, column);
        } else {
            self.components.push(column);
        }
    }

    /// The layout of the column at index `id`, if there is one.
    pub fn get_component_layout(&self, id: ComponentId) -> (r: Option<&ComponentLayout>)
        ensures
            r is Some <==> (id as int) < self.columns().len(),
            r matches Some(layout) ==> *layout == self.columns()[id as int].layout,
    {
        if (id as usize) < self.components.len() {
            Some(&self.components[id as usize].layout)
        } else {
            None
        }
    }

    /// Stores `data` as the component of `entity` in the column at index `id`.
    pub fn insert(&mut self, id: ComponentId, entity: Entity, data: &[u8])
        requires
            old(self).wf(),
            (id as int) < old(self).columns().len(),
            old(self).columns()[id as int].has_room(),
            (entity as int) < usize::MAX,
            old(self).columns()[id as int].layout.size > 0 ==> data@.len() == old(
                self,
            ).columns()[id as int].layout.size,
        ensures
            final(self).wf(),
            final(self).columns().len() == old(self).columns().len(),
            final(self).columns()[id as int]@ == old(self).columns()[id as int]@.insert(
                entity,
                if old(self).columns()[id as int].layout.size == 0 {
                    Seq::empty()
                } else {
                    data@
                },
            ),
            final(self).columns()[id as int].order() == if old(
                self,
            ).columns()[id as int]@.contains_key(entity) {
                old(self).columns()[id as int].order()
            } else {
                old(self).columns()[id as int].order().push(entity)
            },
            final(self).columns()[id as int].id == old(self).columns()[id as int].id,
            final(self).columns()[id as int].layout == old(self).columns()[id as int].layout,
            forall|i: int|
                0 <= i < old(self).columns().len() && i != id ==> final(self).columns()[i] == old(
                    self,
                ).columns()[i],
    {
        self.components[id as usize].insert(entity, data);
    }

    /// Removes the component of `entity` from the column at index `id`.
    pub fn remove(&mut self, id: ComponentId, entity: Entity)
        requires
            old(self).wf(),
            (id as int) < old(self).columns().len(),
        ensures
            final(self).wf(),
            final(self).columns().len() == old(self).columns().len(),
            final(self).columns()[id as int]@ == old(self).columns()[id as int]@.remove(entity),
            final(self).columns()[id as int].id == old(self).columns()[id as int].id,
            final(self).columns()[id as int].layout == old(self).columns()[id as int].layout,
            forall|i: int|
                0 <= i < old(self).columns().len() && i != id ==> final(self).columns()[i] == old(
                    self,
                ).columns()[i],
    {
        self.components[id as usize].remove(entity);
    }

    /// Removes every component of `entity`.
    pub fn destroy(&mut self, entity: Entity)
        requires
            old(self).wf(),
        ensures
            final(self).wf(),
            final(self).columns().len() == old(self).columns().len(),
            forall|i: int|
                0 <= i < old(self).columns().len() ==> (#[trigger] final(self).columns()[i])@ == old(
                    self,
                ).columns()[i]@.remove(entity) && final(self).columns()[i].id == old(
                    self,
                ).columns()[i].id && final(self).columns()[i].layout == old(
                    self,
                ).columns()[i].layout,
    {
        let n = self.components.len();
        let mut i: usize = 0;
        while i < n
            invariant
                self.wf(),
                n == self.columns().len(),
                n == old(self).columns().len(),
                i <= n,
                forall|k: int|
                    0 <= k < i ==> (#[trigger] self.columns()[k])@ == old(self).columns()[k]@.remove(
                        entity,
                    ) && self.columns()[k].id == old(self).columns()[k].id
                        && self.columns()[k].layout == old(self).columns()[k].layout,
                forall|k: int| i <= k < n ==> self.columns()[k] == old(self).columns()[k],
            decreases n - i,
        {
            self.components[i].remove(entity);
            i = i + 1;
        }
    }

    /// The column at index `id`.
    pub fn get_column(&self, id: ComponentId) -> (r: &Column)
        requires
            (id as int) < self.columns().len(),
        ensures
            *r == self.columns()[id as int],
    {
        &self.components[id as usize]
    }

    /// The column at index `id`, for writing.
    pub fn get_column_mut(&mut self, id: ComponentId) -> (r: &mut Column)
        requires
            (id as int) < old(self).columns().len(),
        ensures
            *r == old(self).columns()[id as int],
            final(self).columns() == old(self).columns().update(id as int, *final(r)),
    {
        &mut self.components[id as usize]
    }

    /// The columns at indices `id1` and `id2` together, for writing; refused when an index
    /// is out of range or both are the same.
    pub fn get_two_columns_mut(&mut self, id1: ComponentId, id2: ComponentId) -> (r: Result<
        (&mut Column, &mut Column),
        DisjointColumnsError,
    >)
        ensures
            r matches Err(err) ==> *final(self) == *old(self) && err == if (id1 as int) >= old(
                self,
            ).columns().len() || (id2 as int) >= old(self).columns().len() {
                DisjointColumnsError::IndexOutOfBounds
            } else {
                DisjointColumnsError::OverlappingIndices
            },
            r is Ok <==> (id1 as int) < old(self).columns().len() && (id2 as int) < old(
                self,
            ).columns().len() && id1 != id2,
            r matches Ok(pair) ==> *pair.0 == old(self).columns()[id1 as int] && *pair.1 == old(
                self,
            ).columns()[id2 as int] && final(self).columns() == old(self).columns().update(
                id1 as int,
                *final(pair.0),
            ).update(id2 as int, *final(pair.1)),
    {
        let n = self.components.len();
        let i = id1 as usize;
        let j = id2 as usize;
        if i >= n || j >= n {
            return Err(DisjointColumnsError::IndexOutOfBounds);
        }
        if i == j {
            return Err(DisjointColumnsError::OverlappingIndices);
        }
        if i < j {
            let (left, right) = self.components.as_mut_slice().split_at_mut(j);
            let (_, left_rest) = left.split_at_mut(i);
            let a = left_rest.first_mut().unwrap();
            let b = right.first_mut().unwrap();
            Ok((a, b))
        } else {
            let (left, right) = self.components.as_mut_slice().split_at_mut(i);
            let (_, left_rest) = left.split_at_mut(j);
            let b = left_rest.first_mut().unwrap();
            let a = right.first_mut().unwrap();
            Ok((a, b))
        }
    }

    /// The component bytes of `entity` in the column at index `id`.
    pub fn get(&self, id: ComponentId, entity: Entity) -> (r: Option<&[u8]>)
        requires
            self.wf(),
            (id as int) < self.columns().len(),
        ensures
            r is Some <==> self.columns()[id as int]@.contains_key(entity),
            r matches Some(bytes) ==> bytes@ == self.columns()[id as int]@[entity],
            r matches Some(bytes) ==> bytes@.len() == self.columns()[id as int].layout.size,
    {
        self.components[id as usize].get(entity)
    }

    /// Each entity of the column at index `id` with its bytes, in row order.
    pub fn iter(&self, id: ComponentId) -> (r: Vec<(Entity, &[u8])>)
        requires
            self.wf(),
            (id as int) < self.columns().len(),
        ensures
            r@.len() == self.columns()[id as int].order().len(),
            forall|i: int|
                0 <= i < r@.len() ==> (#[trigger] r@[i]).0 == self.columns()[id as int].order()[i]
                    && r@[i].1@ == self.columns()[id as int]@[self.columns()[
                    id as int].order()[i]],
    {
        self.components[id as usize].iter()
    }

    /// The component bytes of `entity` in the column at index `id`, for writing.
    pub fn get_mut(&mut self, id: ComponentId, entity: Entity) -> (r: Option<&mut [u8]>)
        requires
            old(self).wf(),
            (id as int) < old(self).columns().len(),
        ensures
            r is Some <==> old(self).columns()[id as int]@.contains_key(entity),
            r is None ==> final(self).columns() == old(self).columns(),
            r matches Some(bytes) ==> bytes@ == old(self).columns()[id as int]@[entity],
            r matches Some(bytes) ==> (final(bytes)@.len() == bytes@.len() ==> {
                &&& final(self).wf()
                &&& final(self).columns().len() == old(self).columns().len()
                &&& final(self).columns()[id as int]@ == old(self).columns()[id as int]@.insert(
                    entity,
                    final(bytes)@,
                )
                &&& final(self).columns()[id as int].order() == old(self).columns()[
                    id as int].order()
                &&& final(self).columns()[id as int].id == old(self).columns()[id as int].id
                &&& final(self).columns()[id as int].layout == old(self).columns()[
                    id as int].layout
                &&& forall|i: int|
                    0 <= i < old(self).columns().len() && i != id ==> final(self).columns()[i]
                        == old(self).columns()[i]
            }),
    {
        self.components[id as usize].get_mut(entity)
    }

    /// The entities that every column listed in `with_ids` holds and that not every column
    /// listed in `without_ids` holds, in increasing order, with the ids of the listed
    /// `with_ids` columns that carry data. Columns are matched by their `id` field. The
    /// entities also lie within the words of the intersection of the excluded columns' bit
    /// sets (within the first 64 entities when nothing is excluded).
    pub fn query(&mut self, with_ids: &Vec<ComponentId>, without_ids: &Vec<ComponentId>) -> (r:
        QueryResult)
        requires
            old(self).wf(),
        ensures
            *final(self) == *old(self),
            forall|e: Entity|
                r.remaining().contains(e) <==> query_matches(
                    old(self).columns(),
                    with_ids@,
                    without_ids@,
                    e,
                ),
            forall|a: int, b: int|
                0 <= a < b < r.remaining().len() ==> r.remaining()[a] < r.remaining()[b],
            r.ids() == if r.remaining().len() > 0 {
                data_ids(select(old(self).columns(), with_ids@))
            } else {
                Seq::<ComponentId>::empty()
            },
            r.matched_nothing() == (r.remaining().len() == 0),
    {
        let n = self.components.len();
        let ghost cols = self.components@;
        let mut exclude_bitmap = BitSet::new_empty(0);
        let mut has_exclude = false;
        let ghost mut exc: Seq<Column> = Seq::empty();
        proof {
            assert forall|e: Entity| !exclude_bitmap.has(e as int) by {
                assert(!exclude_bitmap.members().contains(e));
            }
        }
        let mut i: usize = 0;
        while i < n
            invariant
                n == cols.len(),
                cols == self.components@,
                self.wf(),
                i <= n,
                exc == select(cols.take(i as int), without_ids@),
                has_exclude == (exc.len() > 0),
                exclude_bitmap.wf(),
                exclude_bitmap.word_count() == common_words(exc),
                forall|e: Entity|
                    exclude_bitmap.has(e as int) == (exc.len() > 0 && held_by_all(exc, e)),
            decreases n - i,
        {
            proof {
                assert(cols.take(i + 1).drop_last() =~= cols.take(i as int));
                assert(cols.take(i + 1).last() == cols[i as int]);
                assert(self.columns()[i as int].wf());
                self.columns()[i as int].lemma_bitset_wf();
            }
            if contains_id(without_ids, self.components[i].id) {
                let ghost prev = exc;
                proof {
                    exc = exc.push(cols[i as int]);
                    assert(exc.drop_last() =~= prev);
                }
                if !has_exclude {
                    exclude_bitmap = self.components[i].bitset.clone();
                    proof {
                        assert forall|e: Entity|
                            exclude_bitmap.has(e as int) == (exc.len() > 0 && held_by_all(
                                exc,
                                e,
                            )) by {
                            if exclude_bitmap.has(e as int) {
                                assert forall|k: int| 0 <= k < exc.len() implies (#[trigger] exc[
                                    k]).bitset.has(e as int) by {
                                    assert(k == 0);
                                }
                            }
                            assert(exc[0] == cols[i as int]);
                        }
                    }
                    has_exclude = true;
                } else {
                    exclude_bitmap.intersect_with(&self.components[i].bitset);
                    proof {
                        assert forall|e: Entity|
                            exclude_bitmap.has(e as int) == (exc.len() > 0 && held_by_all(
                                exc,
                                e,
                            )) by {
                            assert(exclude_bitmap.members().contains(e) == (prev.len() > 0
                                && held_by_all(prev, e) && cols[i as int].bitset.has(e as int)));
                            if held_by_all(prev, e) && cols[i as int].bitset.has(e as int) {
                                assert forall|k: int| 0 <= k < exc.len() implies (#[trigger] exc[
                                    k]).bitset.has(e as int) by {
                                    if k < prev.len() {
                                        assert(exc[k] == prev[k]);
                                    }
                                }
                            }
                            if held_by_all(exc, e) {
                                assert forall|k: int| 0 <= k < prev.len() implies (
                                #[trigger] prev[k]).bitset.has(e as int) by {
                                    assert(exc[k] == prev[k]);
                                }
                                assert(exc[prev.len() as int] == cols[i as int]);
                            }
                        }
                    }
                }
            }
            i = i + 1;
        }
        proof {
            assert(cols.take(n as int) =~= cols);
        }
        let mut matching_bitset = BitSet::new_empty(0);
        let mut has_include = false;
        let mut data_column_ids: Vec<ComponentId> = Vec::new();
        let ghost mut inc: Seq<Column> = Seq::empty();
        proof {
            assert forall|e: Entity| !matching_bitset.has(e as int) by {
                assert(!matching_bitset.members().contains(e));
            }
        }
        i = 0;
        while i < n
            invariant
                n == cols.len(),
                cols == self.components@,
                self.wf(),
                i <= n,
                inc == select(cols.take(i as int), with_ids@),
                has_include == (inc.len() > 0),
                matching_bitset.wf(),
                data_column_ids@ == data_ids(inc),
                forall|e: Entity|
                    matching_bitset.has(e as int) == (inc.len() > 0 && held_by_all(inc, e)),
            decreases n - i,
        {
            proof {
                assert(cols.take(i + 1).drop_last() =~= cols.take(i as int));
                assert(cols.take(i + 1).last() == cols[i as int]);
                assert(self.columns()[i as int].wf());
                self.columns()[i as int].lemma_bitset_wf();
            }
            if contains_id(with_ids, self.components[i].id) {
                let ghost prev = inc;
                proof {
                    inc = inc.push(cols[i as int]);
                    assert(inc.drop_last() =~= prev);
                }
                if self.components[i].layout.size != 0 {
                    data_column_ids.push(self.components[i].id);
                }
                if !has_include {
                    matching_bitset = self.components[i].bitset.clone();
                    proof {
                        assert forall|e: Entity|
                            matching_bitset.has(e as int) == (inc.len() > 0 && held_by_all(
                                inc,
                                e,
                            )) by {
                            if matching_bitset.has(e as int) {
                                assert forall|k: int| 0 <= k < inc.len() implies (#[trigger] inc[
                                    k]).bitset.has(e as int) by {
                                    assert(k == 0);
                                }
                            }
                            assert(inc[0] == cols[i as int]);
                        }
                    }
                    has_include = true;
                } else {
                    matching_bitset.intersect_with(&self.components[i].bitset);
                    proof {
                        assert forall|e: Entity|
                            matching_bitset.has(e as int) == (inc.len() > 0 && held_by_all(
                                inc,
                                e,
                            )) by {
                            assert(matching_bitset.members().contains(e) == (prev.len() > 0
                                && held_by_all(prev, e) && cols[i as int].bitset.has(e as int)));
                            if held_by_all(prev, e) && cols[i as int].bitset.has(e as int) {
                                assert forall|k: int| 0 <= k < inc.len() implies (#[trigger] inc[
                                    k]).bitset.has(e as int) by {
                                    if k < prev.len() {
                                        assert(inc[k] == prev[k]);
                                    }
                                }
                            }
                            if held_by_all(inc, e) {
                                assert forall|k: int| 0 <= k < prev.len() implies (
                                #[trigger] prev[k]).bitset.has(e as int) by {
                                    assert(inc[k] == prev[k]);
                                }
                                assert(inc[prev.len() as int] == cols[i as int]);
                            }
                        }
                    }
                }
            }
            i = i + 1;
        }
        proof {
            assert(cols.take(n as int) =~= cols);
        }
        let matching_entities = if has_include {
            matching_bitset.disjoint_with(&exclude_bitmap);
            matching_bitset.collect_set()
        } else {
            Vec::new()
        };
        proof {
            assert forall|e: Entity|
                matching_entities@.contains(e) <==> query_matches(
                    cols,
                    with_ids@,
                    without_ids@,
                    e,
                ) by {
                if has_include {
                    assert(matching_bitset.members().contains(e) == (matching_bitset.members().contains(e)));
                }
            }
        }
        if matching_entities.len() != 0 {
            QueryResult::new(matching_entities, data_column_ids)
        } else {
            proof {
                if exists|e: Entity| query_matches(cols, with_ids@, without_ids@, e) {
                    let e = choose|e: Entity| query_matches(cols, with_ids@, without_ids@, e);
                    assert(matching_entities@.contains(e));
                }
            }
            QueryResult::new(Vec::new(), Vec::new())
        }
    }
}

impl Default for World {
    /// The world without columns, as `new` makes it.
    fn default() -> (r: Self)
        ensures
            r.wf(),
            r.columns() == Seq::<Column>::empty(),
    {
        Self::new()
    }
}

} // verus!