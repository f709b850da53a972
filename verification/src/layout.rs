use vstd::prelude::*;

use crate::Entity;

verus! {

/// One field of a component: its name, a type tag and its byte size.
#[derive(Debug)]
pub struct FieldLayout {
    pub name: String,
    pub type_id: u8,
    pub size: u16,
}

/// The packed byte layout of a component: its fields one after another, no padding.
#[derive(Debug)]
pub struct ComponentLayout {
    pub fields: Vec<FieldLayout>,
    pub size: usize,
}

/// Sum of the field sizes of `fields`.
pub open spec fn fields_size(fields: Seq<FieldLayout>) -> nat
    decreases fields.len(),
{
    if fields.len() == 0 {
        0
    } else {
        fields_size(fields.drop_last()) + fields.last().size as nat
    }
}

impl ComponentLayout {
    /// A layout whose size is the sum of the sizes of its fields.
    pub fn new(fields: Vec<FieldLayout>) -> (r: Self)
        requires
            fields_size(fields@) <= usize::MAX,
        ensures
            r.fields@ == fields@,
            r.size == fields_size(fields@),
    {
        let mut size: usize = 0;
        let mut i: usize = 0;
        while i < fields.len()
            invariant
                i <= fields@.len(),
                fields_size(fields@) <= usize::MAX,
                size == fields_size(fields@.take(i as int)),
            decreases fields@.len() - i,
        {
            proof {
                assert(fields@.take(i + 1).drop_last() =~= fields@.take(i as int));
                lemma_fields_size_prefix(fields@, i + 1);
            }
            size = size + fields[i].size as usize;
            i = i + 1;
        }
        proof {
            assert(fields@.take(i as int) =~= fields@);
        }
        ComponentLayout { fields, size }
    }
}

/// The size of a prefix never exceeds the size of the whole.
pub proof fn lemma_fields_size_prefix(fields: Seq<FieldLayout>, n: int)
    requires
        0 <= n <= fields.len(),
    ensures
        fields_size(fields.take(n)) <= fields_size(fields),
    decreases fields.len(),
{
    if n < fields.len() {
        assert(fields.drop_last().take(n) =~= fields.take(n));
        lemma_fields_size_prefix(fields.drop_last(), n);
    } else {
        assert(fields.take(n) =~= fields);
    }
}

/// Hands out entity identifiers, counting up from zero.
pub struct EntityManager {
    next_id: Entity,
}

impl EntityManager {
    /// The identifier that the next call of `create` hands out.
    pub closed spec fn next(&self) -> Entity {
        self.next_id
    }

    /// A manager whose first entity is `0`.
    pub fn new() -> (r: Self)
        ensures
            r.next() == 0,
    {
        EntityManager { next_id: 0 }
    }

    /// Hands out the next identifier.
    pub fn create(&mut self) -> (e: Entity)
        requires
            old(self).next() < Entity::MAX,
        ensures
            e == old(self).next(),
            final(self).next() == old(self).next() + 1,
    {
        let id = self.next_id;
        self.next_id = self.next_id + 1;
        id
    }
}

impl Default for EntityManager {
    fn default() -> (r: Self)
        ensures
            r.next() == 0,
    {
        Self::new()
    }
}

} // verus!
