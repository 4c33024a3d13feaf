//! Going from collection to collection.
//!
//! Each operation on the box is a value that names the collection to visit next
//! and takes note of what came of the visit.

use vstd::prelude::*;

use crate::text::texts;

verus! {

/// The collections that an operation has yet to visit.
#[derive(Debug)]
pub struct Walk {
    names: Vec<String>,
    next: usize,
}

impl View for Walk {
    type V = Seq<Seq<char>>;

    closed spec fn view(&self) -> Seq<Seq<char>> {
        texts(self.names@).skip(self.next as int)
    }
}

impl Walk {
    #[verifier::type_invariant]
    spec fn wf(self) -> bool {
        self.next <= self.names.len()
    }

    pub(crate) fn new(names: Vec<String>) -> (walk: Self)
        ensures
            walk@ == texts(names@),
    {
        let walk = Walk { names, next: 0 };
        assert(walk@ =~= texts(names@));
        walk
    }

    /// The collection to visit next.
    pub(crate) fn current(&self) -> (name: Option<String>)
        ensures
            match name {
                Some(name) => self@.len() > 0 && name@ == self@[0],
                None => self@.len() == 0,
            },
    {
        proof {
            use_type_invariant(self);
        }
        if self.next < self.names.len() {
            assert(self@[0] == texts(self.names@)[self.next as int]);
            Some(self.names[self.next].clone())
        } else {
            None
        }
    }

    /// Goes on to the next collection.
    pub(crate) fn advance(&mut self)
        requires
            old(self)@.len() > 0,
        ensures
            final(self)@ == old(self)@.drop_first(),
    {
        proof {
            use_type_invariant(&*self);
        }
        let ghost before = self@;
        self.next = self.next + 1;
        assert(self@ =~= before.drop_first());
    }
}

} // verus!
