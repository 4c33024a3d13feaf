//! Finding and deleting a message by the name that the server gave it.

use vstd::prelude::*;

use crate::error::Error;
use crate::error::{optional_error, ErrorView};
use crate::filter::Filter;
use crate::filter::FilterView;
use crate::message::Msg;
use crate::message::{optional_message, MsgView};
use crate::shard::HybridShardedMsgBox;
use crate::walk::Walk;

verus! {

/// Deleting a message from the first collection in use that has it.
#[derive(Debug)]
pub struct IdDelete {
    filter: Filter,
    walk: Walk,
    deleted: bool,
    failure: Option<Error>,
}

pub struct IdDeleteView {
    pub filter: FilterView,
    /// The collections to look into, the one at hand first.
    pub todo: Seq<Seq<char>>,
    pub deleted: bool,
    pub failure: Option<ErrorView>,
}

impl View for IdDelete {
    type V = IdDeleteView;

    closed spec fn view(&self) -> IdDeleteView {
        IdDeleteView {
            filter: self.filter@,
            todo: self.walk@,
            deleted: self.deleted,
            failure: optional_error(self.failure),
        }
    }
}

/// What comes of deleting a message from a collection.
#[derive(Debug)]
pub enum DeleteEvent {
    /// So many messages are gone.
    Deleted(u64),
    /// The collection cannot be had, or the deletion failed.
    Failed(Error),
}

pub enum DeleteEventView {
    Deleted(u64),
    Failed(ErrorView),
}

impl View for DeleteEvent {
    type V = DeleteEventView;

    open spec fn view(&self) -> DeleteEventView {
        match self {
            DeleteEvent::Deleted(count) => DeleteEventView::Deleted(*count),
            DeleteEvent::Failed(error) => DeleteEventView::Failed(error@),
        }
    }
}

impl IdDeleteView {
    /// Whether there is a collection to look into.
    pub open spec fn is_running(self) -> bool {
        self.failure is None && !self.deleted && self.todo.len() > 0
    }

    pub open spec fn after(self, event: DeleteEventView) -> IdDeleteView {
        match event {
            DeleteEventView::Deleted(count) => if count > 0 {
                IdDeleteView { deleted: true, ..self }
            } else {
                IdDeleteView { todo: self.todo.drop_first(), ..self }
            },
            DeleteEventView::Failed(error) => IdDeleteView { failure: Some(error), ..self },
        }
    }
}

impl IdDelete {
    /// Which message to delete.
    pub fn filter(&self) -> (filter: &Filter)
        ensures
            filter@ == self@.filter,
    {
        &self.filter
    }

    /// The collection to look into next.
    pub fn current(&self) -> (name: Option<String>)
        ensures
            match name {
                Some(name) => self@.is_running() && name@ == self@.todo[0],
                None => !self@.is_running(),
            },
            match name {
                Some(name) => self@.failure is None && !self@.deleted && self@.todo.len() > 0
                    && name@ == self@.todo[0],
                None => self@.failure is Some || self@.deleted || self@.todo.len() == 0,
            },
    {
        if self.deleted {
            return None;
        }
        match &self.failure {
            Some(_) => None,
            None => self.walk.current(),
        }
    }

    /// Takes note of what came of looking into the collection at hand.
    pub fn on_event(&mut self, event: DeleteEvent)
        requires
            old(self)@.is_running(),
        ensures
            final(self)@ == old(self)@.after(event@),
            match event {
                DeleteEvent::Failed(error) => final(self)@ == (IdDeleteView {
                    failure: Some(error@),
                    ..old(self)@
                }),
                DeleteEvent::Deleted(count) => if count == 0 {
                    final(self)@ == (IdDeleteView {
                        todo: old(self)@.todo.drop_first(),
                        ..old(self)@
                    })
                } else {
                    final(self)@ == (IdDeleteView { deleted: true, ..old(self)@ })
                },
            },
    {
        match event {
            DeleteEvent::Deleted(count) => {
                if count > 0 {
                    self.deleted = true;
                } else {
                    self.walk.advance();
                }
            },
            DeleteEvent::Failed(error) => {
                self.failure = Some(error);
            },
        }
    }

    /// How it ended. It ends well also where no collection has the message.
    pub fn finish(self) -> (outcome: Result<(), Error>)
        ensures
            match outcome {
                Ok(_) => self@.failure is None,
                Err(error) => self@.failure == Some(error@),
            },
    {
        match self.failure {
            Some(error) => Err(error),
            None => Ok(()),
        }
    }
}

/// Finding a message in the first collection in use that has it.
#[derive(Debug)]
pub struct IdLookup {
    filter: Filter,
    walk: Walk,
    found: Option<Msg>,
    failure: Option<Error>,
}

pub struct IdLookupView {
    pub filter: FilterView,
    /// The collections to look into, the one at hand first.
    pub todo: Seq<Seq<char>>,
    pub found: Option<MsgView>,
    pub failure: Option<ErrorView>,
}

impl View for IdLookup {
    type V = IdLookupView;

    closed spec fn view(&self) -> IdLookupView {
        IdLookupView {
            filter: self.filter@,
            todo: self.walk@,
            found: optional_message(self.found),
            failure: optional_error(self.failure),
        }
    }
}

/// What comes of looking for a message in a collection.
#[derive(Debug)]
pub enum LookupEvent {
    /// The collection does not have it.
    Absent,
    /// The collection has it.
    Found(Msg),
    /// The collection cannot be had, the query failed, or the message cannot
    /// be made out.
    Failed(Error),
}

pub enum LookupEventView {
    Absent,
    Found(MsgView),
    Failed(ErrorView),
}

impl View for LookupEvent {
    type V = LookupEventView;

    open spec fn view(&self) -> LookupEventView {
        match self {
            LookupEvent::Absent => LookupEventView::Absent,
            LookupEvent::Found(message) => LookupEventView::Found(message@),
            LookupEvent::Failed(error) => LookupEventView::Failed(error@),
        }
    }
}

impl IdLookupView {
    /// Whether there is a collection to look into.
    pub open spec fn is_running(self) -> bool {
        self.failure is None && self.found is None && self.todo.len() > 0
    }

    pub open spec fn after(self, event: LookupEventView) -> IdLookupView {
        match event {
            LookupEventView::Absent => IdLookupView { todo: self.todo.drop_first(), ..self },
            LookupEventView::Found(message) => IdLookupView { found: Some(message), ..self },
            LookupEventView::Failed(error) => IdLookupView { failure: Some(error), ..self },
        }
    }
}

impl IdLookup {
    /// Which message to find.
    pub fn filter(&self) -> (filter: &Filter)
        ensures
            filter@ == self@.filter,
    {
        &self.filter
    }

    /// The collection to look into next.
    pub fn current(&self) -> (name: Option<String>)
        ensures
            match name {
                Some(name) => self@.is_running() && name@ == self@.todo[0],
                None => !self@.is_running(),
            },
            match name {
                Some(name) => self@.failure is None && self@.found is None && self@.todo.len() > 0
                    && name@ == self@.todo[0],
                None => self@.failure is Some || self@.found is Some || self@.todo.len() == 0,
            },
    {
        match &self.found {
            Some(_) => None,
            None => match &self.failure {
                Some(_) => None,
                None => self.walk.current(),
            },
        }
    }

    /// Takes note of what came of looking into the collection at hand.
    pub fn on_event(&mut self, event: LookupEvent)
        requires
            old(self)@.is_running(),
        ensures
            final(self)@ == old(self)@.after(event@),
            match event {
                LookupEvent::Failed(error) => final(self)@ == (IdLookupView {
                    failure: Some(error@),
                    ..old(self)@
                }),
                LookupEvent::Absent => final(self)@ == (IdLookupView {
                    todo: old(self)@.todo.drop_first(),
                    ..old(self)@
                }),
                LookupEvent::Found(message) => final(self)@ == (IdLookupView {
                    found: Some(message@),
                    ..old(self)@
                }),
            },
    {
        match event {
            LookupEvent::Absent => {
                self.walk.advance();
            },
            LookupEvent::Found(message) => {
                self.found = Some(message);
            },
            LookupEvent::Failed(error) => {
                self.failure = Some(error);
            },
        }
    }

    /// The message, where a collection has it, or what failed.
    pub fn finish(self) -> (outcome: Result<Option<Msg>, Error>)
        ensures
            match outcome {
                Ok(found) => self@.failure is None && optional_message(found) == self@.found,
                Err(error) => self@.failure == Some(error@),
            },
    {
        match self.failure {
            Some(error) => Err(error),
            None => Ok(self.found),
        }
    }
}

/// A search for a name, among the collections in use.
pub open spec fn search_for(server_id: Seq<char>, active: Seq<Seq<char>>) -> IdLookupView {
    IdLookupView {
        filter: FilterView::ServerId { server_id },
        todo: active,
        found: None,
        failure: None,
    }
}

/// A deletion by name, among the collections in use.
pub open spec fn deletion_of(server_id: Seq<char>, active: Seq<Seq<char>>) -> IdDeleteView {
    IdDeleteView {
        filter: FilterView::ServerId { server_id },
        todo: active,
        deleted: false,
        failure: None,
    }
}

impl HybridShardedMsgBox {
    /// The deletion of the message with this name.
    pub fn delete_message(&self, message_id: &str) -> (delete: IdDelete)
        ensures
            delete@ == deletion_of(message_id@, self@.active),
            delete@.filter == (FilterView::ServerId { server_id: message_id@ }),
            delete@.todo == self@.active,
            !delete@.deleted,
            delete@.failure is None,
    {
        IdDelete {
            filter: Filter::ServerId { server_id: message_id.to_owned() },
            walk: Walk::new(self.active_collections()),
            deleted: false,
            failure: None,
        }
    }

    /// The search for the message with this name.
    pub fn get_message(&self, message_id: &str) -> (lookup: IdLookup)
        ensures
            lookup@ == search_for(message_id@, self@.active),
            lookup@.filter == (FilterView::ServerId { server_id: message_id@ }),
            lookup@.todo == self@.active,
            lookup@.found is None,
            lookup@.failure is None,
    {
        IdLookup {
            filter: Filter::ServerId { server_id: message_id.to_owned() },
            walk: Walk::new(self.active_collections()),
            found: None,
            failure: None,
        }
    }
}

} // verus!
