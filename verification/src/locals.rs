//! The table of resolved distances: for the id of a `Variable` or `Assign`
//! node, the number of frames between the frame that is current when the node
//! is evaluated and the frame that binds its name. A node that the table does
//! not hold is looked up by name.

use vstd::prelude::*;

verus! {

/// The table; the entry for a node stands at the index that is its id.
pub struct Locals {
    table: Vec<Option<usize>>,
}

impl Locals {
    /// The distances recorded, by node id.
    pub closed spec fn view(&self) -> Map<usize, nat> {
        Map::new(
            |id: usize| id < self.table.len() && self.table[id as int] is Some,
            |id: usize| self.table[id as int]->0 as nat,
        )
    }

    /// An empty table.
    pub fn new() -> (r: Locals)
        ensures
            r@ == Map::<usize, nat>::empty(),
    {
        let r = Locals { table: Vec::new() };
        assert(r@ =~= Map::<usize, nat>::empty());
        r
    }

    /// Records the distance of a node; a later record for a node replaces the
    /// earlier one.
    pub fn record(&mut self, id: usize, distance: usize)
        ensures
            final(self)@ == old(self)@.insert(id, distance as nat),
    {
        while self.table.len() <= id
            invariant
                self@ == old(self)@,
            decreases id + 1 - self.table.len(),
        {
            let ghost before = self@;
            self.table.push(None);
            assert(self@ =~= before);
        }
        self.table[id] = Some(distance);
        assert(self@ =~= old(self)@.insert(id, distance as nat));
    }

    /// The distance recorded for a node, if one was.
    pub fn get(&self, id: usize) -> (r: Option<usize>)
        ensures
            match r {
                Some(distance) => self@.contains_key(id) && self@[id] == distance,
                None => !self@.contains_key(id),
            },
    {
        if id < self.table.len() {
            self.table[id]
        } else {
            None
        }
    }
}

} // verus!
