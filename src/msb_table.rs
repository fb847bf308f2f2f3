use vstd::prelude::*;
use std::collections::HashMap;

verus! {

broadcast use vstd::std_specs::hash::group_hash_axioms;

/// Records, for the token of an array declaration, the expression of its
/// most significant bit, referred to by the expression's node id.
pub struct MsbTable {
    table: HashMap<u64, u64>,
}

impl MsbTable {
    pub closed spec fn view(&self) -> Map<u64, u64> {
        self.table@
    }

    pub fn new() -> (r: Self)
        ensures
            r.view() == Map::<u64, u64>::empty(),
    {
        MsbTable { table: HashMap::new() }
    }

    pub fn insert(&mut self, id: u64, expression: u64)
        ensures
            final(self).view() == old(self).view().insert(id, expression),
    {
        self.table.insert(id, expression);
    }

    pub fn get(&self, id: u64) -> (r: Option<u64>)
        ensures
            self.view().contains_key(id) ==> r == Some(self.view()[id]),
            !self.view().contains_key(id) ==> r is None,
    {
        match self.table.get(&id) {
            Some(e) => Some(*e),
            None => None,
        }
    }

    pub fn clear(&mut self)
        ensures
            final(self).view() == Map::<u64, u64>::empty(),
    {
        self.table.clear();
    }
}

/// Records the msb expression of token `id` in the compilation's table.
pub fn insert(table: &mut MsbTable, id: u64, expression: u64)
    ensures
        final(table).view() == old(table).view().insert(id, expression),
{
    table.insert(id, expression)
}

/// The msb expression recorded for token `id`.
pub fn get(table: &MsbTable, id: u64) -> (r: Option<u64>)
    ensures
        table.view().contains_key(id) ==> r == Some(table.view()[id]),
        !table.view().contains_key(id) ==> r is None,
{
    table.get(id)
}

/// Forgets every record, as at the start of a compilation.
pub fn clear(table: &mut MsbTable)
    ensures
        final(table).view() == Map::<u64, u64>::empty(),
{
    table.clear()
}

} // verus!
