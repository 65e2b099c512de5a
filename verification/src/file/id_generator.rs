//! The source of fresh file ids: decimal strings counted up from 400,
//! skipping a configured avoid-set.

use vstd::prelude::*;

use crate::text::dec_digits;

verus! {

/// The model of an id generator: the next candidate number and the
/// numbers it must never hand out.
#[verifier::ext_equal]
pub struct IdGeneratorView {
    pub next: int,
    pub avoid: Set<int>,
}

/// Ids start at this number.
pub open spec fn first_id() -> int {
    400
}

/// The largest number an id may have; past it the generator is spent.
pub open spec fn last_id() -> int {
    9999
}

/// A well-placed generator: the next candidate lies in range and is not
/// one of the numbers to avoid.
pub open spec fn id_generator_wf(g: IdGeneratorView) -> bool {
    &&& first_id() <= g.next <= last_id() + 1
    &&& (g.next <= last_id() ==> !g.avoid.contains(g.next))
}

/// Counts upward from 400 and renders each id as decimal text, skipping
/// the avoid-set. Once the count passes 9999 the generator is spent and
/// hands out no more ids.
#[derive(Debug, Clone, PartialEq)]
pub struct IdGenerator {
    next_id: usize,
    ids_to_avoid: Vec<usize>,
}

impl View for IdGenerator {
    type V = IdGeneratorView;

    closed spec fn view(&self) -> IdGeneratorView {
        IdGeneratorView {
            next: self.next_id as int,
            avoid: Set::new(|j: int| j >= 0 && self.ids_to_avoid@.contains(j as usize)),
        }
    }
}

impl IdGenerator {
    /// A generator that will skip every number in the given list.
    pub fn new(ids_to_avoid_list: &[usize]) -> (g: Self)
        ensures
            g@.avoid == Set::new(
                |j: int| j >= 0 && ids_to_avoid_list@.contains(j as usize),
            ),
            forall|j: int| first_id() <= j < g@.next ==> g@.avoid.contains(j),
            id_generator_wf(g@),
    {
        let mut avoid: Vec<usize> = Vec::new();
        let n = ids_to_avoid_list.len();
        let mut i: usize = 0;
        while i < n
            invariant
                i <= n,
                n == ids_to_avoid_list@.len(),
                avoid@ == ids_to_avoid_list@.subrange(0, i as int),
            decreases n - i,
        {
            avoid.push(ids_to_avoid_list[i]);
            proof {
                assert(ids_to_avoid_list@.subrange(0, i + 1) =~= ids_to_avoid_list@.subrange(
                    0,
                    i as int,
                ).push(ids_to_avoid_list@[i as int]));
            }
            i += 1;
        }
        proof {
            assert(ids_to_avoid_list@.subrange(0, n as int) =~= ids_to_avoid_list@);
        }
        let mut g = IdGenerator { next_id: 400, ids_to_avoid: avoid };
        proof {
            assert(g@.avoid =~= Set::new(
                |j: int| j >= 0 && ids_to_avoid_list@.contains(j as usize),
            ));
        }
        g.skip_avoided();
        g
    }

    /// Whether `id` is in the avoid-set.
    fn avoids(&self, id: usize) -> (r: bool)
        ensures
            r == self@.avoid.contains(id as int),
    {
        let n = self.ids_to_avoid.len();
        let mut i: usize = 0;
        while i < n
            invariant
                i <= n,
                n == self.ids_to_avoid@.len(),
                forall|j: int| 0 <= j < i ==> self.ids_to_avoid@[j] != id,
            decreases n - i,
        {
            if self.ids_to_avoid[i] == id {
                proof {
                    assert(self.ids_to_avoid@.contains(id));
                }
                return true;
            }
            i += 1;
        }
        proof {
            if self.ids_to_avoid@.contains(id) {
                let w = choose|j: int|
                    0 <= j < self.ids_to_avoid@.len() && self.ids_to_avoid@[j] == id;
                assert(false);
            }
        }
        false
    }

    /// Moves the count forward past avoided numbers, stopping at the
    /// first free one or just past the last id.
    fn skip_avoided(&mut self)
        requires
            first_id() <= old(self)@.next <= last_id() + 1,
        ensures
            final(self)@.avoid == old(self)@.avoid,
            old(self)@.next <= final(self)@.next <= last_id() + 1,
            final(self)@.next <= last_id() ==> !final(self)@.avoid.contains(final(self)@.next),
            forall|j: int|
                old(self)@.next <= j < final(self)@.next ==> old(self)@.avoid.contains(j),
    {
        while self.next_id <= 9999 && self.avoids(self.next_id)
            invariant
                first_id() <= old(self)@.next,
                old(self)@.next <= self.next_id as int <= last_id() + 1,
                self.ids_to_avoid@ == old(self).ids_to_avoid@,
                forall|j: int|
                    old(self)@.next <= j < self.next_id as int ==> old(self)@.avoid.contains(j),
            decreases 10000 - self.next_id,
        {
            proof {
                assert(self@.avoid =~= old(self)@.avoid);
            }
            self.next_id = self.next_id + 1;
        }
        proof {
            assert(self@.avoid =~= old(self)@.avoid);
        }
    }

    /// Hands out the next id as decimal text and moves the count past it
    /// and any avoided numbers that follow.
    ///
    /// The count only ever grows, so no id is ever handed out twice.
    pub fn next(&mut self) -> (r: Option<String>)
        requires
            id_generator_wf(old(self)@),
            old(self)@.next <= last_id(),
        ensures
            r matches Some(s) && s@ == dec_digits(old(self)@.next as nat),
            final(self)@.avoid == old(self)@.avoid,
            final(self)@.next > old(self)@.next,
            forall|j: int|
                old(self)@.next < j < final(self)@.next ==> old(self)@.avoid.contains(j),
            id_generator_wf(final(self)@),
    {
        let result = crate::text::u64_to_string(self.next_id as u64);
        self.next_id = self.next_id + 1;
        self.skip_avoided();
        Some(result)
    }

    /// Whether the generator can still hand out an id.
    pub fn can_generate(&self) -> (r: bool)
        ensures
            r == (self@.next <= last_id()),
    {
        self.next_id <= 9999
    }
}

impl Default for IdGenerator {
    /// A generator with nothing to avoid, starting at 400.
    fn default() -> (g: Self)
        ensures
            g@.next == first_id(),
            g@.avoid == Set::<int>::empty(),
            id_generator_wf(g@),
    {
        let g = IdGenerator { next_id: 400, ids_to_avoid: Vec::new() };
        proof {
            assert(g@.avoid =~= Set::<int>::empty());
        }
        g
    }
}

} // verus!
