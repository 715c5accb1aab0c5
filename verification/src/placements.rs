//! The placements one request has fetched so far, so that each partition and index is
//! looked up once however many of the request's parts name it.

use crate::types::Resolved;
use vstd::prelude::*;

verus! {

/// A placement with the partition and the logical index it is for.
pub struct Placed {
    partition: String,
    index: String,
    resolved: Resolved,
}

impl Placed {
    /// The partition and the logical index.
    pub closed spec fn key(self) -> (Seq<char>, Seq<char>) {
        (self.partition@, self.index@)
    }

    /// The placement.
    pub closed spec fn placement(self) -> Resolved {
        self.resolved
    }
}

/// The placements as a map.
pub open spec fn by_key(s: Seq<Placed>) -> Map<(Seq<char>, Seq<char>), Resolved>
    decreases s.len(),
{
    if s.len() == 0 {
        Map::empty()
    } else {
        by_key(s.drop_last()).insert(s.last().key(), s.last().placement())
    }
}

/// The placements fetched so far, by partition and logical index.
pub struct Placements {
    placed: Vec<Placed>,
}

impl View for Placements {
    type V = Map<(Seq<char>, Seq<char>), Resolved>;

    closed spec fn view(&self) -> Map<(Seq<char>, Seq<char>), Resolved> {
        by_key(self.placed@)
    }
}

impl Placements {
    /// No placement.
    pub fn new() -> (r: Self)
        ensures
            r@ == Map::<(Seq<char>, Seq<char>), Resolved>::empty(),
    {
        Placements { placed: Vec::new() }
    }

    /// The placement of a partition for a logical index, where it was fetched.
    pub fn get(&self, partition: &str, index: &str) -> (r: Option<&Resolved>)
        ensures
            match r {
                Some(resolved) => self@.dom().contains((partition@, index@)) && self@[(
                    partition@,
                    index@,
                )] == *resolved,
                None => !self@.dom().contains((partition@, index@)),
            },
    {
        let wanted_partition = partition.to_owned();
        let wanted_index = index.to_owned();
        let mut n: usize = self.placed.len();
        assert(self.placed@.take(n as int) =~= self.placed@);
        while n > 0
            invariant
                wanted_partition@ == partition@,
                wanted_index@ == index@,
                n <= self.placed@.len(),
                self@.dom().contains((partition@, index@)) == by_key(
                    self.placed@.take(n as int),
                ).dom().contains((partition@, index@)),
                self@[(partition@, index@)] == by_key(self.placed@.take(n as int))[(
                    partition@,
                    index@,
                )],
            decreases n,
        {
            proof {
                assert(self.placed@.take(n as int).drop_last() =~= self.placed@.take(n - 1));
                assert(self.placed@.take(n as int).last() == self.placed@[n - 1]);
            }
            n -= 1;
            let here = &self.placed[n];
            if here.partition == wanted_partition && here.index == wanted_index {
                return Some(&here.resolved);
            }
        }
        None
    }

    /// Keeps a placement that was fetched.
    pub fn insert(&mut self, partition: String, index: String, resolved: Resolved)
        ensures
            final(self)@ == old(self)@.insert((partition@, index@), resolved),
    {
        let ghost before = self.placed@;
        self.placed.push(Placed { partition, index, resolved });
        assert(self.placed@.drop_last() =~= before);
    }
}

impl Default for Placements {
    fn default() -> (r: Self)
        ensures
            r@ == Map::<(Seq<char>, Seq<char>), Resolved>::empty(),
    {
        Placements::new()
    }
}

} // verus!
