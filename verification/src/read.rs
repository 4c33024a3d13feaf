//! Reading the messages of a user, collection by collection.

use vstd::prelude::*;

use crate::calendar::has_date;
use crate::calendar::{clock_may_read, utc_now};
use crate::error::Error;
use crate::error::{optional_error, ErrorView};
use crate::filter::Filter;
use crate::filter::FilterView;
use crate::message::Msg;
use crate::message::{message_views, MsgView};
use crate::order::{is_stable_sort, MessageOrderView};
use crate::order::{sort_messages, MessageOrder};
use crate::shard::HybridShardedMsgBox;
use crate::shard::{recent_collections, user_range};
use crate::text::texts;
use crate::walk::Walk;

verus! {

/// How many months back an operation reads: the present one and two before it.
pub const MONTHS_READ: u32 = 3;

/// Reading all messages that a filter picks.
#[derive(Debug)]
pub struct MessageRead {
    filter: Filter,
    order: MessageOrder,
    walk: Walk,
    messages: Vec<Msg>,
    failure: Option<Error>,
}

pub struct MessageReadView {
    pub filter: FilterView,
    pub order: MessageOrderView,
    /// The collections to read, the one at hand first.
    pub todo: Seq<Seq<char>>,
    /// What was read so far.
    pub messages: Seq<MsgView>,
    pub failure: Option<ErrorView>,
}

impl View for MessageRead {
    type V = MessageReadView;

    closed spec fn view(&self) -> MessageReadView {
        MessageReadView {
            filter: self.filter@,
            order: self.order@,
            todo: self.walk@,
            messages: message_views(self.messages@),
            failure: optional_error(self.failure),
        }
    }
}

/// What comes of reading a collection.
#[derive(Debug)]
pub enum ReadEvent {
    /// The collection cannot be had.
    Unavailable,
    /// A message that the filter picks.
    Message(Msg),
    /// There are no more messages in the collection.
    Drained,
    /// The query failed, or the message cannot be made out.
    Failed(Error),
}

pub enum ReadEventView {
    Unavailable,
    Message(MsgView),
    Drained,
    Failed(ErrorView),
}

impl View for ReadEvent {
    type V = ReadEventView;

    open spec fn view(&self) -> ReadEventView {
        match self {
            ReadEvent::Unavailable => ReadEventView::Unavailable,
            ReadEvent::Message(message) => ReadEventView::Message(message@),
            ReadEvent::Drained => ReadEventView::Drained,
            ReadEvent::Failed(error) => ReadEventView::Failed(error@),
        }
    }
}

/// The message as the reader gets it: in a conversation, what the user sent has
/// no number among what the user received.
pub open spec fn as_read(order: MessageOrderView, message: MsgView) -> MsgView {
    match order {
        MessageOrderView::BySeq => message,
        MessageOrderView::Conversation { user_id } => if message.sender_id == user_id {
            MsgView { seq: 0, ..message }
        } else {
            message
        },
    }
}

impl MessageReadView {
    /// Whether there is a collection to read.
    pub open spec fn is_running(self) -> bool {
        self.failure is None && self.todo.len() > 0
    }

    pub open spec fn after(self, event: ReadEventView) -> MessageReadView {
        match event {
            ReadEventView::Unavailable | ReadEventView::Drained => MessageReadView {
                todo: self.todo.drop_first(),
                ..self
            },
            ReadEventView::Message(message) => MessageReadView {
                messages: self.messages.push(as_read(self.order, message)),
                ..self
            },
            ReadEventView::Failed(error) => MessageReadView { failure: Some(error), ..self },
        }
    }
}

impl MessageRead {
    fn new(filter: Filter, order: MessageOrder, names: Vec<String>) -> (read: Self)
        ensures
            read@ == (MessageReadView {
                filter: filter@,
                order: order@,
                todo: texts(names@),
                messages: Seq::empty(),
                failure: None,
            }),
    {
        let read = MessageRead {
            filter,
            order,
            walk: Walk::new(names),
            messages: Vec::new(),
            failure: None,
        };
        assert(read@.messages =~= Seq::empty());
        read
    }

    /// Which messages to read.
    pub fn filter(&self) -> (filter: &Filter)
        ensures
            filter@ == self@.filter,
    {
        &self.filter
    }

    /// The collection to read next.
    pub fn current(&self) -> (name: Option<String>)
        ensures
            match name {
                Some(name) => self@.is_running() && name@ == self@.todo[0],
                None => !self@.is_running(),
            },
            match name {
                Some(name) => self@.failure is None && self@.todo.len() > 0 && name@
                    == self@.todo[0],
                None => self@.failure is Some || self@.todo.len() == 0,
            },
    {
        match &self.failure {
            Some(_) => None,
            None => self.walk.current(),
        }
    }

    /// Takes note of what came of reading the collection at hand.
    pub fn on_event(&mut self, event: ReadEvent)
        requires
            old(self)@.is_running(),
        ensures
            final(self)@ == old(self)@.after(event@),
            match event {
                ReadEvent::Message(message) => {
                    let shown = match old(self)@.order {
                        MessageOrderView::Conversation { user_id } => if message.sender_id@
                            == user_id {
                            MsgView { seq: 0, ..message@ }
                        } else {
                            message@
                        },
                        MessageOrderView::BySeq => message@,
                    };
                    final(self)@ == (MessageReadView {
                        messages: old(self)@.messages.push(shown),
                        ..old(self)@
                    })
                },
                ReadEvent::Failed(error) => final(self)@ == (MessageReadView {
                    failure: Some(error@),
                    ..old(self)@
                }),
                _ => final(self)@ == (MessageReadView {
                    todo: old(self)@.todo.drop_first(),
                    ..old(self)@
                }),
            },
    {
        match event {
            ReadEvent::Unavailable | ReadEvent::Drained => {
                self.walk.advance();
            },
            ReadEvent::Message(message) => {
                let ghost before = self.messages@;
                let mut message = message;
                if let MessageOrder::Conversation { user_id } = &self.order {
                    if message.sender_id == *user_id {
                        message.seq = 0;
                    }
                }
                let ghost added = message@;
                self.messages.push(message);
                assert(message_views(self.messages@) =~= message_views(before).push(added));
            },
            ReadEvent::Failed(error) => {
                self.failure = Some(error);
            },
        }
    }

    /// What was read, in order, or what failed.
    pub fn finish(self) -> (outcome: Result<Vec<Msg>, Error>)
        ensures
            match outcome {
                Ok(messages) => self@.failure is None && is_stable_sort(
                    message_views(messages@),
                    self@.messages,
                    self@.order,
                ),
                Err(error) => self@.failure == Some(error@),
            },
    {
        match self.failure {
            Some(error) => Err(error),
            None => Ok(sort_messages(self.messages, &self.order)),
        }
    }
}

/// The reading of a receiver's messages by number.
pub open spec fn receiver_read(
    user_id: Seq<char>,
    start: i64,
    end: i64,
    user_shards: u8,
    now: int,
) -> MessageReadView {
    MessageReadView {
        filter: FilterView::ReceiverSeqRange { receiver_id: user_id, start, end },
        order: MessageOrderView::BySeq,
        todo: recent_collections(user_range(user_id, user_shards), MONTHS_READ as nat, now),
        messages: Seq::empty(),
        failure: None,
    }
}

/// The reading of what a user received and sent.
pub open spec fn conversation_read(
    user_id: Seq<char>,
    send_start: i64,
    send_end: i64,
    rec_start: i64,
    rec_end: i64,
    user_shards: u8,
    now: int,
) -> MessageReadView {
    MessageReadView {
        filter: FilterView::Conversation { user_id, send_start, send_end, rec_start, rec_end },
        order: MessageOrderView::Conversation { user_id },
        todo: recent_collections(user_range(user_id, user_shards), MONTHS_READ as nat, now),
        messages: Seq::empty(),
        failure: None,
    }
}

impl HybridShardedMsgBox {
    /// The reading of a receiver's messages by number, at the moment `now`.
    pub fn get_messages_at(&self, user_id: &str, start: i64, end: i64, now: i64) -> (read:
        MessageRead)
        requires
            self@.user_shards > 0,
            has_date(now as int),
            0 <= end - start <= i64::MAX,
        ensures
            read@ == receiver_read(user_id@, start, end, self@.user_shards, now as int),
            read@.filter == (FilterView::ReceiverSeqRange { receiver_id: user_id@, start, end }),
            read@.order is BySeq,
            read@.todo == recent_collections(
                user_range(user_id@, self@.user_shards),
                3,
                now as int,
            ),
            read@.messages.len() == 0,
            read@.failure is None,
    {
        let filter = Filter::ReceiverSeqRange { receiver_id: user_id.to_owned(), start, end };
        let names = self.recent_collections_at(user_id, MONTHS_READ, now);
        MessageRead::new(filter, MessageOrder::BySeq, names)
    }

    /// The reading of a receiver's messages by number.
    pub fn get_messages(&self, user_id: &str, start: i64, end: i64) -> (read: MessageRead)
        requires
            self@.user_shards > 0,
            0 <= end - start <= i64::MAX,
        ensures
            exists|now: i64|
                clock_may_read(now) && read@ == #[trigger] receiver_read(
                    user_id@,
                    start,
                    end,
                    self@.user_shards,
                    now as int,
                ),
    {
        let now: i64 = utc_now();
        self.get_messages_at(user_id, start, end, now)
    }

    /// The reading of what a user received and sent, at the moment `now`.
    pub fn get_msgs_at(
        &self,
        user_id: &str,
        send_start: i64,
        send_end: i64,
        rec_start: i64,
        rec_end: i64,
        now: i64,
    ) -> (read: MessageRead)
        requires
            self@.user_shards > 0,
            has_date(now as int),
            i64::MIN <= send_end - send_start <= i64::MAX,
            i64::MIN <= rec_end - rec_start <= i64::MAX,
            0 <= send_end - send_start + (rec_end - rec_start) <= i64::MAX,
        ensures
            read@ == conversation_read(
                user_id@,
                send_start,
                send_end,
                rec_start,
                rec_end,
                self@.user_shards,
                now as int,
            ),
            read@.filter == (FilterView::Conversation {
                user_id: user_id@,
                send_start,
                send_end,
                rec_start,
                rec_end,
            }),
            read@.order == (MessageOrderView::Conversation { user_id: user_id@ }),
            read@.todo == recent_collections(
                user_range(user_id@, self@.user_shards),
                3,
                now as int,
            ),
            read@.messages.len() == 0,
            read@.failure is None,
    {
        let filter = Filter::Conversation {
            user_id: user_id.to_owned(),
            send_start,
            send_end,
            rec_start,
            rec_end,
        };
        let order = MessageOrder::Conversation { user_id: user_id.to_owned() };
        let names = self.recent_collections_at(user_id, MONTHS_READ, now);
        MessageRead::new(filter, order, names)
    }

    /// The reading of what a user received and sent.
    pub fn get_msgs(
        &self,
        user_id: &str,
        send_start: i64,
        send_end: i64,
        rec_start: i64,
        rec_end: i64,
    ) -> (read: MessageRead)
        requires
            self@.user_shards > 0,
            i64::MIN <= send_end - send_start <= i64::MAX,
            i64::MIN <= rec_end - rec_start <= i64::MAX,
            0 <= send_end - send_start + (rec_end - rec_start) <= i64::MAX,
        ensures
            exists|now: i64|
                clock_may_read(now) && read@ == #[trigger] conversation_read(
                    user_id@,
                    send_start,
                    send_end,
                    rec_start,
                    rec_end,
                    self@.user_shards,
                    now as int,
                ),
    {
        let now: i64 = utc_now();
        self.get_msgs_at(user_id, send_start, send_end, rec_start, rec_end, now)
    }
}

/// In a reading, what cannot be had is passed over and what was read is kept; a
/// failure ends it.
pub proof fn law_reading_passes_over_what_cannot_be_had(read: MessageReadView, error: ErrorView)
    requires
        read.is_running(),
    ensures
        ({
            let next = read.after(ReadEventView::Unavailable);
            &&& next.todo == read.todo.drop_first()
            &&& next.messages == read.messages
            &&& next.failure is None
            &&& next.filter == read.filter && next.order == read.order
        }),
        read.after(ReadEventView::Drained) == read.after(ReadEventView::Unavailable),
        read.after(ReadEventView::Failed(error)).failure == Some(error),
        !read.after(ReadEventView::Failed(error)).is_running(),
        read.is_running() <==> read.failure is None && read.todo.len() > 0,
{
}

} // verus!
