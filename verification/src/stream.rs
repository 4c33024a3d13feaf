//! Handing the messages of a receiver on as they are read.

use vstd::prelude::*;

use crate::calendar::has_date;
use crate::calendar::{clock_may_read, utc_now};
use crate::error::Error;
use crate::error::ErrorView;
use crate::filter::Filter;
use crate::filter::FilterView;
use crate::message::Msg;
use crate::message::MsgView;
use crate::order::MessageOrder;
use crate::order::MessageOrderView;
use crate::read::MONTHS_READ;
use crate::shard::HybridShardedMsgBox;
use crate::shard::{recent_collections, user_range};
use crate::walk::Walk;

verus! {

/// Reading the messages that a filter picks, in some order within each
/// collection, and handing each one on.
#[derive(Debug)]
pub struct MessageStream {
    filter: Filter,
    order: MessageOrder,
    walk: Walk,
}

pub struct MessageStreamView {
    pub filter: FilterView,
    /// How the messages of each collection follow each other.
    pub order: MessageOrderView,
    /// The collections to read, the one at hand first.
    pub todo: Seq<Seq<char>>,
}

impl View for MessageStream {
    type V = MessageStreamView;

    closed spec fn view(&self) -> MessageStreamView {
        MessageStreamView { filter: self.filter@, order: self.order@, todo: self.walk@ }
    }
}

/// What comes of reading a collection.
#[derive(Debug)]
pub enum StreamEvent {
    /// The database does not list the collection.
    Missing,
    /// The query failed.
    QueryFailed,
    /// A message, or the reason why it cannot be had or made out.
    Item(Result<Msg, Error>),
    /// There are no more messages in the collection.
    Drained,
    /// The receiver does not take the item that was handed on.
    ReceiverGone,
}

pub enum StreamEventView {
    Missing,
    QueryFailed,
    Item(Result<MsgView, ErrorView>),
    Drained,
    ReceiverGone,
}

/// What an item holds.
pub open spec fn item_view(item: Result<Msg, Error>) -> Result<MsgView, ErrorView> {
    match item {
        Ok(message) => Ok(message@),
        Err(error) => Err(error@),
    }
}

impl View for StreamEvent {
    type V = StreamEventView;

    open spec fn view(&self) -> StreamEventView {
        match self {
            StreamEvent::Missing => StreamEventView::Missing,
            StreamEvent::QueryFailed => StreamEventView::QueryFailed,
            StreamEvent::Item(item) => StreamEventView::Item(item_view(*item)),
            StreamEvent::Drained => StreamEventView::Drained,
            StreamEvent::ReceiverGone => StreamEventView::ReceiverGone,
        }
    }
}

impl MessageStreamView {
    /// An item leaves the collection at hand as it is; anything else ends it.
    pub open spec fn after(self, event: StreamEventView) -> MessageStreamView {
        match event {
            StreamEventView::Item(_) => self,
            _ => MessageStreamView { todo: self.todo.drop_first(), ..self },
        }
    }
}

impl MessageStream {
    /// Which messages to read.
    pub fn filter(&self) -> (filter: &Filter)
        ensures
            filter@ == self@.filter,
    {
        &self.filter
    }

    /// In which order the messages of each collection are read.
    pub fn order(&self) -> (order: &MessageOrder)
        ensures
            order@ == self@.order,
    {
        &self.order
    }

    /// The collection to read next.
    pub fn current(&self) -> (name: Option<String>)
        ensures
            match name {
                Some(name) => self@.todo.len() > 0 && name@ == self@.todo[0],
                None => self@.todo.len() == 0,
            },
    {
        self.walk.current()
    }

    /// Takes note of what came of reading the collection at hand. An item is
    /// handed on, whatever it is; anything else ends the collection.
    pub fn on_event(&mut self, event: StreamEvent) -> (handed_on: Option<Result<Msg, Error>>)
        requires
            old(self)@.todo.len() > 0,
        ensures
            final(self)@ == old(self)@.after(event@),
            match event {
                StreamEvent::Item(_) => final(self)@ == old(self)@,
                _ => final(self)@ == (MessageStreamView {
                    todo: old(self)@.todo.drop_first(),
                    ..old(self)@
                }),
            },
            handed_on == match event {
                StreamEvent::Item(item) => Some(item),
                _ => None,
            },
    {
        match event {
            StreamEvent::Item(item) => Some(item),
            _ => {
                self.walk.advance();
                None
            },
        }
    }
}

/// The reading of a receiver's messages by number, to be handed on.
pub open spec fn receiver_stream(
    user_id: Seq<char>,
    start: i64,
    end: i64,
    user_shards: u8,
    now: int,
) -> MessageStreamView {
    MessageStreamView {
        filter: FilterView::ReceiverSeqRange { receiver_id: user_id, start, end },
        order: MessageOrderView::BySeq,
        todo: recent_collections(user_range(user_id, user_shards), MONTHS_READ as nat, now),
    }
}

impl HybridShardedMsgBox {
    /// The reading of a receiver's messages by number, to be handed on, at the
    /// moment `now`.
    pub fn get_messages_stream_at(&self, user_id: &str, start: i64, end: i64, now: i64) -> (stream:
        MessageStream)
        requires
            self@.user_shards > 0,
            has_date(now as int),
        ensures
            stream@ == receiver_stream(user_id@, start, end, self@.user_shards, now as int),
            stream@.filter == (FilterView::ReceiverSeqRange { receiver_id: user_id@, start, end }),
            stream@.order is BySeq,
            stream@.todo == recent_collections(
                user_range(user_id@, self@.user_shards),
                3,
                now as int,
            ),
    {
        MessageStream {
            filter: Filter::ReceiverSeqRange { receiver_id: user_id.to_owned(), start, end },
            order: MessageOrder::BySeq,
            walk: Walk::new(self.recent_collections_at(user_id, MONTHS_READ, now)),
        }
    }

    /// The reading of a receiver's messages by number, to be handed on.
    pub fn get_messages_stream(&self, user_id: &str, start: i64, end: i64) -> (stream: MessageStream)
        requires
            self@.user_shards > 0,
        ensures
            exists|now: i64|
                clock_may_read(now) && stream@ == #[trigger] receiver_stream(
                    user_id@,
                    start,
                    end,
                    self@.user_shards,
                    now as int,
                ),
    {
        let now: i64 = utc_now();
        self.get_messages_stream_at(user_id, start, end, now)
    }
}

/// A stream goes on to the next collection where one is missing, cannot be queried,
/// is read to its end or is not wanted any more; an item leaves it where it is.
pub proof fn law_streams_go_on_after_each_collection(
    stream: MessageStreamView,
    item: Result<MsgView, ErrorView>,
)
    ensures
        stream.after(StreamEventView::Item(item)) == stream,
        ({
            let next = stream.after(StreamEventView::Drained);
            &&& next.todo == stream.todo.drop_first()
            &&& next.filter == stream.filter && next.order == stream.order
            &&& stream.after(StreamEventView::Missing) == next
            &&& stream.after(StreamEventView::QueryFailed) == next
            &&& stream.after(StreamEventView::ReceiverGone) == next
        }),
{
}

} // verus!
