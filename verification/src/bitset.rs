use vstd::prelude::*;

use crate::Entity;

verus! {

/// Largest number of 64-bit words a bit set can hold: enough for every `u32` entity.
pub const MAX_WORDS: usize = 0x400_0000;

/// The bit at position `b` of `w`.
pub open spec fn bit_of(w: u64, b: u64) -> bool {
    (w >> b) & 1u64 == 1u64
}

/// Index of the word holding entity `e`.
pub open spec fn word_of(e: int) -> int {
    e / 64
}

/// Position of entity `e` inside its word.
pub open spec fn offset_of(e: int) -> u64 {
    (e % 64) as u64
}

/// A set of entities, stored as a dense sequence of 64-bit words.
#[derive(Debug)]
pub struct BitSet {
    words: Vec<u64>,
}

impl Clone for BitSet {
    /// A copy holding the same words.
    fn clone(&self) -> (r: Self)
        ensures
            r.words() == self.words(),
    {
        BitSet { words: self.words.clone() }
    }
}

impl BitSet {
    /// The stored words.
    pub closed spec fn words(&self) -> Seq<u64> {
        self.words@
    }

    /// Whether entity `e` is a member.
    pub open spec fn has(&self, e: int) -> bool {
        &&& 0 <= e
        &&& word_of(e) < self.words().len()
        &&& bit_of(self.words()[word_of(e)], offset_of(e))
    }

    /// The set of member entities.
    pub open spec fn members(&self) -> Set<Entity> {
        Set::new(|e: Entity| self.has(e as int))
    }

    /// Number of words; every member lies below `64 * word_count()`.
    pub open spec fn word_count(&self) -> nat {
        self.words().len()
    }

    /// Well-formedness: the words never exceed what `u32` entities can need.
    pub open spec fn wf(&self) -> bool {
        self.word_count() <= MAX_WORDS
    }

    /// Creates an empty set with room for entities up to `initial_capacity as u32`.
    pub fn new_empty(initial_capacity: usize) -> (r: Self)
        ensures
            r.wf(),
            r.members() == Set::<Entity>::empty(),
            r.word_count() == (initial_capacity as Entity) / 64 + 1,
    {
        let mut bitset = BitSet { words: Vec::new() };
        #[verifier::truncate]
        let cap = initial_capacity as Entity;
        bitset.ensure_capacity(cap);
        proof {
            assert forall|e: Entity| !bitset.has(e as int) by {
                if word_of(e as int) < bitset.words().len() {
                    lemma_zero_bits(offset_of(e as int));
                }
            }
            assert(bitset.members() =~= Set::<Entity>::empty());
        }
        bitset
    }

    /// Adds entity `e`, growing the words as needed.
    pub fn set(&mut self, e: Entity)
        requires
            old(self).wf(),
        ensures
            final(self).wf(),
            final(self).members() == old(self).members().insert(e),
            final(self).word_count() == if (e / 64) as nat >= old(self).word_count() {
                (e / 64) as nat + 1
            } else {
                old(self).word_count()
            },
    {
        self.ensure_capacity(e);
        let w = (e as usize) / 64;
        let b = ((e as usize) % 64) as u64;
        let old_word = self.words[w];
        self.words.set(w, old_word | (1u64 << b));
        proof {
            assert forall|x: Entity| self.has(x as int) == (old(self).has(x as int) || x == e) by {
                let wx = word_of(x as int);
                if wx == w as int {
                    lemma_bit_set(old_word, b, offset_of(x as int));
                    if wx >= old(self).word_count() {
                        lemma_zero_bits(offset_of(x as int));
                    }
                } else if wx >= old(self).word_count() && wx < self.word_count() {
                    lemma_zero_bits(offset_of(x as int));
                }
            }
            assert(self.members() =~= old(self).members().insert(e));
        }
    }

    /// Removes entity `e`; the words keep their number.
    pub fn unset(&mut self, e: Entity)
        requires
            old(self).wf(),
        ensures
            final(self).wf(),
            final(self).members() == old(self).members().remove(e),
            final(self).word_count() == old(self).word_count(),
    {
        let w = (e as usize) / 64;
        if w < self.words.len() {
            let b = ((e as usize) % 64) as u64;
            let old_word = self.words[w];
            self.words.set(w, old_word & !(1u64 << b));
            proof {
                assert forall|x: Entity| self.has(x as int) == (old(self).has(x as int) && x != e) by {
                    if word_of(x as int) == w as int {
                        lemma_bit_clear(old_word, b, offset_of(x as int));
                    }
                }
            }
        }
        proof {
            assert(self.members() =~= old(self).members().remove(e));
        }
    }

    /// Keeps only the members that `other` also holds; the words shrink to the shorter of the two.
    pub fn intersect_with(&mut self, other: &BitSet)
        requires
            old(self).wf(),
        ensures
            final(self).wf(),
            final(self).members() == old(self).members().intersect(other.members()),
            final(self).word_count() == vstd::math::min(
                old(self).word_count() as int,
                other.word_count() as int,
            ),
    {
        let min_words = if self.words.len() < other.words.len() {
            self.words.len()
        } else {
            other.words.len()
        };
        self.words.truncate(min_words);
        let ghost before = self.words@;
        let mut i: usize = 0;
        while i < min_words
            invariant
                i <= min_words,
                min_words <= other.words@.len(),
                self.words@.len() == min_words,
                before.len() == min_words,
                forall|j: int| 0 <= j < min_words ==> before[j] == old(self).words@[j],
                forall|j: int| 0 <= j < i ==> self.words@[j] == before[j] & other.words@[j],
                forall|j: int| i <= j < min_words ==> self.words@[j] == before[j],
            decreases min_words - i,
        {
            let a = self.words[i];
            self.words.set(i, a & other.words[i]);
            i = i + 1;
        }
        proof {
            assert forall|x: Entity| #[trigger] self.members().contains(x) == old(
                self,
            ).members().intersect(other.members()).contains(x) by {
                let wx = word_of(x as int);
                if wx < min_words {
                    lemma_bit_and(before[wx], other.words@[wx], offset_of(x as int));
                }
            }
            assert(self.members() =~= old(self).members().intersect(other.members()));
        }
    }

    /// Drops the members that `other` holds; the words shrink to the shorter of the two, so
    /// members beyond the words of `other` are dropped as well.
    pub fn disjoint_with(&mut self, other: &BitSet)
        requires
            old(self).wf(),
        ensures
            final(self).wf(),
            final(self).members() == old(self).members().filter(
                |e: Entity| !other.has(e as int) && word_of(e as int) < other.word_count(),
            ),
            final(self).word_count() == vstd::math::min(
                old(self).word_count() as int,
                other.word_count() as int,
            ),
    {
        let min_words = if self.words.len() < other.words.len() {
            self.words.len()
        } else {
            other.words.len()
        };
        self.words.truncate(min_words);
        let ghost before = self.words@;
        let mut i: usize = 0;
        while i < min_words
            invariant
                i <= min_words,
                min_words <= other.words@.len(),
                self.words@.len() == min_words,
                before.len() == min_words,
                forall|j: int| 0 <= j < min_words ==> before[j] == old(self).words@[j],
                forall|j: int| 0 <= j < i ==> self.words@[j] == before[j] & !other.words@[j],
                forall|j: int| i <= j < min_words ==> self.words@[j] == before[j],
            decreases min_words - i,
        {
            let a = self.words[i];
            self.words.set(i, a & !other.words[i]);
            i = i + 1;
        }
        proof {
            assert forall|x: Entity| #[trigger] self.members().contains(x) == old(
                self,
            ).members().filter(
                |e: Entity| !other.has(e as int) && word_of(e as int) < other.word_count(),
            ).contains(x) by {
                let wx = word_of(x as int);
                if wx < min_words {
                    lemma_bit_and_not(before[wx], other.words@[wx], offset_of(x as int));
                }
            }
            assert(self.members() =~= old(self).members().filter(
                |e: Entity| !other.has(e as int) && word_of(e as int) < other.word_count(),
            ));
        }
    }

    /// The members in increasing order.
    pub fn collect_set(&self) -> (r: Vec<Entity>)
        requires
            self.wf(),
        ensures
            forall|e: Entity| r@.contains(e) <==> self.members().contains(e),
            forall|a: int, b: int| 0 <= a < b < r@.len() ==> r@[a] < r@[b],
    {
        let mut result: Vec<Entity> = Vec::new();
        let mut i: usize = 0;
        while i < self.words.len()
            invariant
                self.wf(),
                i <= self.words@.len(),
                forall|k: int|
                    0 <= k < result@.len() ==> (result@[k] as int) < i * 64 && self.has(
                        #[trigger] result@[k] as int,
                    ),
                forall|e: Entity| (e as int) < i * 64 && self.has(e as int) ==> result@.contains(e),
                forall|a: int, b: int| 0 <= a < b < result@.len() ==> result@[a] < result@[b],
            decreases self.words@.len() - i,
        {
            let word = self.words[i];
            if word != 0 {
                let mut j: u64 = 0;
                while j < 64
                    invariant
                        self.wf(),
                        i < self.words@.len(),
                        word == self.words@[i as int],
                        j <= 64,
                        forall|k: int|
                            0 <= k < result@.len() ==> (result@[k] as int) < i * 64 + j && self.has(
                                #[trigger] result@[k] as int,
                            ),
                        forall|e: Entity|
                            (e as int) < i * 64 + j && self.has(e as int) ==> result@.contains(e),
                        forall|a: int, b: int|
                            0 <= a < b < result@.len() ==> result@[a] < result@[b],
                    decreases 64 - j,
                {
                    if (word >> j) & 1 != 0 {
                        let e = (i * 64 + j as usize) as Entity;
                        proof {
                            assert(word_of(e as int) == i as int);
                            assert(offset_of(e as int) == j);
                            assert((word >> j) & 1u64 != 0u64 ==> (word >> j) & 1u64 == 1u64)
                                by (bit_vector);
                        }
                        let ghost prev = result@;
                        result.push(e);
                        proof {
                            assert forall|x: Entity|
                                (x as int) < i * 64 + j + 1 && self.has(
                                    x as int,
                                ) implies result@.contains(x) by {
                                if x == e {
                                    assert(result@[prev.len() as int] == e);
                                } else {
                                    assert(prev.contains(x));
                                    let k = choose|k: int| 0 <= k < prev.len() && prev[k] == x;
                                    assert(result@[k] == x);
                                }
                            }
                        }
                    } else {
                        proof {
                            assert forall|x: Entity|
                                (x as int) < i * 64 + j + 1 && self.has(
                                    x as int,
                                ) implies result@.contains(x) by {
                                if (x as int) == i * 64 + j {
                                    assert(offset_of(x as int) == j);
                                    assert(word_of(x as int) == i as int);
                                }
                            }
                        }
                    }
                    j = j + 1;
                }
            } else {
                proof {
                    assert forall|x: Entity|
                        (x as int) < (i + 1) * 64 && self.has(x as int) implies result@.contains(
                        x,
                    ) by {
                        if (x as int) >= i * 64 {
                            assert(word_of(x as int) == i as int);
                            lemma_zero_bits(offset_of(x as int));
                        }
                    }
                }
            }
            i = i + 1;
        }
        proof {
            assert forall|e: Entity| result@.contains(e) <==> self.members().contains(e) by {
                if result@.contains(e) {
                    let k = choose|k: int| 0 <= k < result@.len() && result@[k] == e;
                    assert(self.has(result@[k] as int));
                }
                if self.has(e as int) {
                    assert((e as int) < i * 64);
                }
            }
        }
        result
    }

    fn ensure_capacity(&mut self, entity: Entity)
        requires
            old(self).wf(),
        ensures
            final(self).wf(),
            final(self).word_count() == if (entity / 64) as nat >= old(self).word_count() {
                (entity / 64) as nat + 1
            } else {
                old(self).word_count()
            },
            forall|i: int|
                0 <= i < old(self).word_count() ==> final(self).words()[i] == old(self).words()[i],
            forall|i: int|
                old(self).word_count() <= i < final(self).word_count() ==> final(self).words()[i]
                    == 0u64,
    {
        let word_index = (entity as usize) / 64;
        if word_index >= self.words.len() {
            self.words.resize(word_index + 1, 0);
        }
    }
}

/// Setting bit `b` sets exactly that bit.
pub proof fn lemma_bit_set(w: u64, b: u64, k: u64)
    requires
        b < 64,
        k < 64,
    ensures
        bit_of(w | (1u64 << b), k) == (k == b || bit_of(w, k)),
{
    assert(b < 64 && k < 64 ==> (((w | (1u64 << b)) >> k) & 1u64 == 1u64) == (k == b || (w >> k)
        & 1u64 == 1u64)) by (bit_vector);
}

/// Clearing bit `b` clears exactly that bit.
pub proof fn lemma_bit_clear(w: u64, b: u64, k: u64)
    requires
        b < 64,
        k < 64,
    ensures
        bit_of(w & !(1u64 << b), k) == (k != b && bit_of(w, k)),
{
    assert(b < 64 && k < 64 ==> (((w & !(1u64 << b)) >> k) & 1u64 == 1u64) == (k != b && (w >> k)
        & 1u64 == 1u64)) by (bit_vector);
}

/// A bit of a conjunction of words.
pub proof fn lemma_bit_and(a: u64, c: u64, k: u64)
    requires
        k < 64,
    ensures
        bit_of(a & c, k) == (bit_of(a, k) && bit_of(c, k)),
{
    assert(k < 64 ==> (((a & c) >> k) & 1u64 == 1u64) == ((a >> k) & 1u64 == 1u64 && (c >> k)
        & 1u64 == 1u64)) by (bit_vector);
}

/// A bit of a word masked by the complement of another.
pub proof fn lemma_bit_and_not(a: u64, c: u64, k: u64)
    requires
        k < 64,
    ensures
        bit_of(a & !c, k) == (bit_of(a, k) && !bit_of(c, k)),
{
    assert(k < 64 ==> (((a & !c) >> k) & 1u64 == 1u64) == ((a >> k) & 1u64 == 1u64 && !((c >> k)
        & 1u64 == 1u64))) by (bit_vector);
}

/// No bit of zero is set.
pub proof fn lemma_zero_bits(b: u64)
    ensures
        !bit_of(0u64, b),
{
    assert((0u64 >> b) & 1u64 == 0u64) by (bit_vector);
}

/// Adding an entity that was not a member and then removing it gives back the same members.
pub proof fn law_set_then_unset(members: Set<Entity>, e: Entity)
    requires
        !members.contains(e),
    ensures
        members.insert(e).remove(e) == members,
        members.insert(e).contains(e),
{
    assert(members.insert(e).remove(e) =~= members);
}

} // verus!
