//! Deleting messages by number and marking them as read.

use vstd::prelude::*;
use vstd::slice::slice_to_vec;

use crate::calendar::has_date;
use crate::calendar::{clock_may_read, utc_now};
use crate::error::Error;
use crate::error::{optional_error, ErrorView};
use crate::filter::Filter;
use crate::filter::FilterView;
use crate::message::Msg;
use crate::message::{optional_message, MsgView};
use crate::shard::HybridShardedMsgBox;
use crate::shard::{recent_collections, user_range};
use crate::text::texts;
use crate::walk::Walk;

verus! {

/// How many months back messages are deleted and marked: the present one and
/// the one before it.
pub const MONTHS_UPDATED: u32 = 2;

/// What becomes of a message.
#[derive(Clone, Copy, Debug, PartialEq, Eq, Structural)]
pub enum Change {
    /// It is deleted.
    Delete,
    /// It counts as read.
    MarkRead,
}

/// What is left of a message after a change.
pub open spec fn changed(change: Change, message: MsgView) -> Option<MsgView> {
    match change {
        Change::Delete => None,
        Change::MarkRead => Some(MsgView { is_read: true, ..message }),
    }
}

impl Change {
    /// What is left of a message after the change.
    pub fn apply(self, message: Msg) -> (left: Option<Msg>)
        ensures
            optional_message(left) == changed(self, message@),
            match self {
                Change::Delete => left is None,
                Change::MarkRead => left matches Some(marked) && marked@ == (MsgView {
                    is_read: true,
                    ..message@
                }),
            },
    {
        match self {
            Change::Delete => None,
            Change::MarkRead => {
                let mut message = message;
                message.is_read = true;
                Some(message)
            },
        }
    }
}

/// Changing the messages of a receiver that have one of some numbers.
#[derive(Debug)]
pub struct SeqUpdate {
    change: Change,
    filter: Filter,
    walk: Walk,
    failure: Option<Error>,
}

pub struct SeqUpdateView {
    pub change: Change,
    pub filter: FilterView,
    /// The collections to change, the one at hand first.
    pub todo: Seq<Seq<char>>,
    pub failure: Option<ErrorView>,
}

impl View for SeqUpdate {
    type V = SeqUpdateView;

    closed spec fn view(&self) -> SeqUpdateView {
        SeqUpdateView {
            change: self.change,
            filter: self.filter@,
            todo: self.walk@,
            failure: optional_error(self.failure),
        }
    }
}

/// What comes of changing a collection.
#[derive(Debug)]
pub enum UpdateEvent {
    /// The collection cannot be had.
    Unavailable,
    /// The messages of the collection are changed.
    Applied,
    /// The change failed.
    Failed(Error),
}

pub enum UpdateEventView {
    Unavailable,
    Applied,
    Failed(ErrorView),
}

impl View for UpdateEvent {
    type V = UpdateEventView;

    open spec fn view(&self) -> UpdateEventView {
        match self {
            UpdateEvent::Unavailable => UpdateEventView::Unavailable,
            UpdateEvent::Applied => UpdateEventView::Applied,
            UpdateEvent::Failed(error) => UpdateEventView::Failed(error@),
        }
    }
}

impl SeqUpdateView {
    /// Whether there is a collection to change.
    pub open spec fn is_running(self) -> bool {
        self.failure is None && self.todo.len() > 0
    }

    pub open spec fn after(self, event: UpdateEventView) -> SeqUpdateView {
        match event {
            UpdateEventView::Unavailable | UpdateEventView::Applied => SeqUpdateView {
                todo: self.todo.drop_first(),
                ..self
            },
            UpdateEventView::Failed(error) => SeqUpdateView { failure: Some(error), ..self },
        }
    }
}

impl SeqUpdate {
    /// What becomes of the messages.
    pub fn change(&self) -> (change: Change)
        ensures
            change == self@.change,
    {
        self.change
    }

    /// Which messages to change.
    pub fn filter(&self) -> (filter: &Filter)
        ensures
            filter@ == self@.filter,
    {
        &self.filter
    }

    /// The collection to change next.
    pub fn current(&self) -> (name: Option<String>)
        ensures
            match name {
                Some(name) => self@.is_running() && name@ == self@.todo[0],
                None => !self@.is_running(),
            },
            match name {
                Some(name) => self@.failure is None && self@.todo.len() > 0 && name@
                    == self@.todo[0],
                None => self@.failure is Some || self@.todo.len() == 0,
            },
    {
        match &self.failure {
            Some(_) => None,
            None => self.walk.current(),
        }
    }

    /// Takes note of what came of changing the collection at hand.
    pub fn on_event(&mut self, event: UpdateEvent)
        requires
            old(self)@.is_running(),
        ensures
            final(self)@ == old(self)@.after(event@),
            match event {
                UpdateEvent::Failed(error) => final(self)@ == (SeqUpdateView {
                    failure: Some(error@),
                    ..old(self)@
                }),
                _ => final(self)@ == (SeqUpdateView {
                    todo: old(self)@.todo.drop_first(),
                    ..old(self)@
                }),
            },
    {
        match event {
            UpdateEvent::Unavailable | UpdateEvent::Applied => {
                self.walk.advance();
            },
            UpdateEvent::Failed(error) => {
                self.failure = Some(error);
            },
        }
    }

    /// How it ended.
    pub fn finish(self) -> (outcome: Result<(), Error>)
        ensures
            match outcome {
                Ok(_) => self@.failure is None,
                Err(error) => self@.failure == Some(error@),
            },
    {
        match self.failure {
            Some(error) => Err(error),
            None => Ok(()),
        }
    }
}

/// The change of the messages with these numbers: none at all where there are
/// no numbers.
pub open spec fn update_of(
    change: Change,
    user_id: Seq<char>,
    seqs: Seq<i64>,
    user_shards: u8,
    now: int,
) -> SeqUpdateView {
    SeqUpdateView {
        change,
        filter: FilterView::ReceiverSeqs { receiver_id: user_id, seqs },
        todo: if seqs.len() == 0 {
            Seq::empty()
        } else {
            recent_collections(user_range(user_id, user_shards), MONTHS_UPDATED as nat, now)
        },
        failure: None,
    }
}

impl HybridShardedMsgBox {
    fn update_at(&self, change: Change, user_id: &str, seqs: Vec<i64>, now: i64) -> (update: SeqUpdate)
        requires
            self@.user_shards > 0 || seqs@.len() == 0,
            has_date(now as int),
        ensures
            update@ == update_of(change, user_id@, seqs@, self@.user_shards, now as int),
    {
        let names = if seqs.len() == 0 {
            Vec::new()
        } else {
            self.recent_collections_at(user_id, MONTHS_UPDATED, now)
        };
        assert(seqs@.len() == 0 ==> texts(names@) =~= Seq::empty());
        let filter = Filter::ReceiverSeqs { receiver_id: user_id.to_owned(), seqs };
        SeqUpdate { change, filter, walk: Walk::new(names), failure: None }
    }

    /// The deletion of a receiver's messages by number, at the moment `now`.
    pub fn delete_messages_at(&self, user_id: &str, msg_seq: Vec<i64>, now: i64) -> (update: SeqUpdate)
        requires
            self@.user_shards > 0 || msg_seq@.len() == 0,
            has_date(now as int),
        ensures
            update@ == update_of(
                Change::Delete,
                user_id@,
                msg_seq@,
                self@.user_shards,
                now as int,
            ),
            update@.change is Delete,
            update@.filter == (FilterView::ReceiverSeqs { receiver_id: user_id@, seqs: msg_seq@ }),
            update@.todo == (if msg_seq@.len() == 0 {
                Seq::empty()
            } else {
                recent_collections(user_range(user_id@, self@.user_shards), 2, now as int)
            }),
            update@.failure is None,
    {
        self.update_at(Change::Delete, user_id, msg_seq, now)
    }

    /// The deletion of a receiver's messages by number.
    pub fn delete_messages(&self, user_id: &str, msg_seq: Vec<i64>) -> (update: SeqUpdate)
        requires
            self@.user_shards > 0 || msg_seq@.len() == 0,
        ensures
            exists|now: i64|
                clock_may_read(now) && update@ == #[trigger] update_of(
                    Change::Delete,
                    user_id@,
                    msg_seq@,
                    self@.user_shards,
                    now as int,
                ),
    {
        let now: i64 = utc_now();
        self.delete_messages_at(user_id, msg_seq, now)
    }

    /// The marking of a receiver's messages as read by number, at the moment
    /// `now`.
    pub fn msg_read_at(&self, user_id: &str, msg_seq: &[i64], now: i64) -> (update: SeqUpdate)
        requires
            self@.user_shards > 0 || msg_seq@.len() == 0,
            has_date(now as int),
        ensures
            update@ == update_of(
                Change::MarkRead,
                user_id@,
                msg_seq@,
                self@.user_shards,
                now as int,
            ),
            update@.change is MarkRead,
            update@.filter == (FilterView::ReceiverSeqs { receiver_id: user_id@, seqs: msg_seq@ }),
            update@.todo == (if msg_seq@.len() == 0 {
                Seq::empty()
            } else {
                recent_collections(user_range(user_id@, self@.user_shards), 2, now as int)
            }),
            update@.failure is None,
    {
        self.update_at(Change::MarkRead, user_id, slice_to_vec(msg_seq), now)
    }

    /// The marking of a receiver's messages as read by number.
    pub fn msg_read(&self, user_id: &str, msg_seq: &[i64]) -> (update: SeqUpdate)
        requires
            self@.user_shards > 0 || msg_seq@.len() == 0,
        ensures
            exists|now: i64|
                clock_may_read(now) && update@ == #[trigger] update_of(
                    Change::MarkRead,
                    user_id@,
                    msg_seq@,
                    self@.user_shards,
                    now as int,
                ),
    {
        let now: i64 = utc_now();
        self.msg_read_at(user_id, msg_seq, now)
    }
}

/// In a change, what cannot be had is passed over; a failure ends it. Without
/// numbers no collection is visited.
pub proof fn law_changing_passes_over_what_cannot_be_had(
    update: SeqUpdateView,
    error: ErrorView,
    user_id: Seq<char>,
    user_shards: u8,
    now: int,
)
    requires
        update.is_running(),
    ensures
        ({
            let next = update.after(UpdateEventView::Unavailable);
            &&& next.todo == update.todo.drop_first()
            &&& next.failure is None
            &&& next.change == update.change && next.filter == update.filter
        }),
        update.after(UpdateEventView::Applied) == update.after(UpdateEventView::Unavailable),
        update.after(UpdateEventView::Failed(error)).failure == Some(error),
        !update.after(UpdateEventView::Failed(error)).is_running(),
        update_of(update.change, user_id, Seq::empty(), user_shards, now).todo.len() == 0,
{
}

} // verus!
