//! Saving a message: its collections are made ready, then it is inserted.

use vstd::prelude::*;

use crate::error::Error;
use crate::error::{optional_error, ErrorView};
use crate::shard::Insert;
use crate::shard::{insert_views, InsertView};

verus! {

/// Saving one or more copies of a message. No copy is inserted before the
/// collections of all of them are ready.
#[derive(Debug)]
pub struct MessageSave {
    inserts: Vec<Insert>,
    ready: usize,
    failure: Option<Error>,
}

pub struct MessageSaveView {
    /// The copies and where they go.
    pub inserts: Seq<InsertView>,
    /// How many of their collections are ready.
    pub ready: int,
    pub failure: Option<ErrorView>,
}

impl View for MessageSave {
    type V = MessageSaveView;

    closed spec fn view(&self) -> MessageSaveView {
        MessageSaveView {
            inserts: insert_views(self.inserts@),
            ready: self.ready as int,
            failure: optional_error(self.failure),
        }
    }
}

impl MessageSaveView {
    /// Whether there is a collection to make ready.
    pub open spec fn is_running(self) -> bool {
        self.failure is None && self.ready < self.inserts.len()
    }
}

/// What came of an insertion.
pub open spec fn failure_of(outcome: Result<(), Error>) -> Option<ErrorView> {
    match outcome {
        Ok(_) => None,
        Err(error) => Some(error@),
    }
}

/// The first failure among some outcomes.
pub open spec fn first_failure(outcomes: Seq<Result<(), Error>>) -> Option<ErrorView>
    decreases outcomes.len(),
{
    if outcomes.len() == 0 {
        None
    } else {
        match outcomes[0] {
            Ok(_) => first_failure(outcomes.drop_first()),
            Err(error) => Some(error@),
        }
    }
}

impl MessageSave {
    /// The saving of these copies.
    pub fn new(inserts: Vec<Insert>) -> (save: Self)
        ensures
            save@ == (MessageSaveView {
                inserts: insert_views(inserts@),
                ready: 0,
                failure: None,
            }),
    {
        MessageSave { inserts, ready: 0, failure: None }
    }

    /// The collection to make ready next.
    pub fn current(&self) -> (name: Option<String>)
        ensures
            match name {
                Some(name) => self@.is_running() && name@ == self@.inserts[self@.ready].collection,
                None => !self@.is_running(),
            },
            match name {
                Some(name) => self@.failure is None && self@.ready < self@.inserts.len() && name@
                    == self@.inserts[self@.ready].collection,
                None => self@.failure is Some || self@.ready >= self@.inserts.len(),
            },
    {
        assert(self@.inserts.len() == self.inserts@.len());
        match &self.failure {
            Some(_) => None,
            None => if self.ready < self.inserts.len() {
                assert(self@.inserts[self@.ready] == self.inserts@[self.ready as int]@);
                Some(self.inserts[self.ready].collection.clone())
            } else {
                None
            },
        }
    }

    /// Takes note of what came of making the collection at hand ready.
    pub fn on_ready(&mut self, outcome: Result<(), Error>)
        requires
            old(self)@.is_running(),
        ensures
            final(self)@ == (match failure_of(outcome) {
                None => MessageSaveView { ready: old(self)@.ready + 1, ..old(self)@ },
                Some(error) => MessageSaveView { failure: Some(error), ..old(self)@ },
            }),
            match outcome {
                Ok(_) => final(self)@.failure == old(self)@.failure,
                Err(error) => final(self)@.failure == Some(error@),
            },
    {
        let count: usize = self.inserts.len();
        assert(self@.inserts.len() == count);
        match outcome {
            Ok(_) => {
                self.ready = self.ready + 1;
            },
            Err(error) => {
                self.failure = Some(error);
            },
        }
    }

    /// What to insert, or what failed before.
    pub fn into_inserts(self) -> (inserts: Result<Vec<Insert>, Error>)
        requires
            !self@.is_running(),
        ensures
            match inserts {
                Ok(inserts) => self@.failure is None && insert_views(inserts@) == self@.inserts,
                Err(error) => self@.failure == Some(error@),
            },
    {
        match self.failure {
            Some(error) => Err(error),
            None => Ok(self.inserts),
        }
    }

    /// How the saving ended, by what came of the insertions: the first failure
    /// counts.
    pub fn finish(outcomes: Vec<Result<(), Error>>) -> (outcome: Result<(), Error>)
        ensures
            failure_of(outcome) == first_failure(outcomes@),
            match outcome {
                Ok(_) => forall|i: int|
                    0 <= i < outcomes@.len() ==> #[trigger] outcomes@[i] is Ok,
                Err(error) => exists|i: int|
                    0 <= i < outcomes@.len() && #[trigger] outcomes@[i] is Err
                        && outcomes@[i]->Err_0@ == error@ && forall|j: int|
                        0 <= j < i ==> #[trigger] outcomes@[j] is Ok,
            },
    {
        let ghost all = outcomes@;
        let mut rest = outcomes;
        while rest.len() > 0
            invariant
                all == outcomes@,
                rest@.len() <= all.len(),
                rest@ == all.skip(all.len() - rest@.len()),
                forall|j: int|
                    0 <= j < all.len() - rest@.len() ==> #[trigger] all[j] is Ok,
                first_failure(rest@) == first_failure(all),
            decreases rest.len(),
        {
            let ghost before = rest@;
            let first = rest.remove(0);
            assert(rest@ =~= before.drop_first());
            assert(first == all[all.len() - before.len()]);
            assert(rest@ =~= all.skip(all.len() - rest@.len()));
            match first {
                Ok(_) => {},
                Err(error) => {
                    return Err(error);
                },
            }
        }
        Ok(())
    }
}

/// Saving ends well exactly when every insertion went well.
pub proof fn law_saving_ends_well_when_all_is_inserted(outcomes: Seq<Result<(), Error>>)
    ensures
        first_failure(outcomes) is None <==> forall|i: int|
            0 <= i < outcomes.len() ==> #[trigger] outcomes[i] is Ok,
    decreases outcomes.len(),
{
    if outcomes.len() > 0 {
        let rest = outcomes.drop_first();
        law_saving_ends_well_when_all_is_inserted(rest);
        if first_failure(outcomes) is None {
            assert forall|i: int| 0 <= i < outcomes.len() implies #[trigger] outcomes[i] is Ok by {
                if i > 0 {
                    assert(rest[i - 1] == outcomes[i]);
                }
            }
        } else {
            if first_failure(rest) is Some {
                let i = choose|i: int| 0 <= i < rest.len() && !(#[trigger] rest[i] is Ok);
                assert(outcomes[i + 1] == rest[i]);
            } else {
                assert(!(outcomes[0] is Ok));
            }
        }
    }
}

/// The failure that counts is the first one: all that was inserted before it went
/// well.
pub proof fn law_the_first_failure_counts(outcomes: Seq<Result<(), Error>>, i: int)
    requires
        0 <= i < outcomes.len(),
        outcomes[i] is Err,
        forall|j: int| 0 <= j < i ==> #[trigger] outcomes[j] is Ok,
    ensures
        first_failure(outcomes) == Some(outcomes[i]->Err_0@),
    decreases outcomes.len(),
{
    if i > 0 {
        let rest = outcomes.drop_first();
        assert(outcomes[0] is Ok);
        assert forall|j: int| 0 <= j < i - 1 implies #[trigger] rest[j] is Ok by {
            assert(rest[j] == outcomes[j + 1]);
        }
        law_the_first_failure_counts(rest, i - 1);
    }
}

} // verus!
