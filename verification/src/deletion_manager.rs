//! A stack of duplicate pairs waiting to be dealt with, the most recent first.

use vstd::prelude::*;
use crate::duplicate_package::DuplicatePackage;

verus! {

/// The pairs found so far, in the order in which they were added.
pub struct DeletionManager {
    duplicates: Vec<DuplicatePackage>,
}

impl View for DeletionManager {
    type V = Seq<(Seq<char>, Seq<char>)>;

    closed spec fn view(&self) -> Seq<(Seq<char>, Seq<char>)> {
        self.duplicates@.map_values(|d: DuplicatePackage| d@)
    }
}

impl DeletionManager {
    pub fn new() -> (r: DeletionManager)
        ensures
            r@ == Seq::<(Seq<char>, Seq<char>)>::empty(),
    {
        let r = DeletionManager { duplicates: Vec::new() };
        assert(r@ =~= Seq::<(Seq<char>, Seq<char>)>::empty());
        r
    }

    /// Puts a pair on top of the stack.
    pub fn add_duplicate(&mut self, duplicate: DuplicatePackage)
        ensures
            final(self)@ == old(self)@.push(duplicate@),
    {
        self.duplicates.push(duplicate);
        assert(self@ =~= old(self)@.push(duplicate@));
    }

    pub fn is_empty(&self) -> (r: bool)
        ensures
            r == (self@.len() == 0),
    {
        self.duplicates.len() == 0
    }

    /// Takes the pair added last off the stack.
    pub fn pop_most_recent(&mut self) -> (r: DuplicatePackage)
        requires
            old(self)@.len() > 0,
        ensures
            r@ == old(self)@.last(),
            final(self)@ == old(self)@.drop_last(),
    {
        let r = match self.duplicates.pop() {
            Some(d) => d,
            None => {
                proof {
                    assert(false);
                }
                DuplicatePackage::new(String::new(), String::new())
            },
        };
        assert(self@ =~= old(self)@.drop_last());
        r
    }
}

/// Last in, first out: what is added is what is taken off next, and taking it
/// off leaves the stack as it was before the addition.
pub proof fn lemma_add_then_pop(stack: Seq<(Seq<char>, Seq<char>)>, pair: (Seq<char>, Seq<char>))
    ensures
        stack.push(pair).len() > 0,
        stack.push(pair).last() == pair,
        stack.push(pair).drop_last() == stack,
{
    assert(stack.push(pair).drop_last() =~= stack);
}

} // verus!
