//! Which messages of a collection an operation is about.

use vstd::prelude::*;

use crate::message::Msg;
use crate::message::MsgView;

verus! {

#[derive(Debug, PartialEq, Eq)]
pub enum Filter {
    /// The message that the server gave this name.
    ServerId { server_id: String },
    /// The receiver's messages with one of these numbers.
    ReceiverSeqs { receiver_id: String, seqs: Vec<i64> },
    /// The receiver's messages with a number in this range, both ends included.
    ReceiverSeqRange { receiver_id: String, start: i64, end: i64 },
    /// What the user received and what the user sent, each in a range of its
    /// own numbers, all ends included.
    Conversation { user_id: String, send_start: i64, send_end: i64, rec_start: i64, rec_end: i64 },
    /// What was sent before the given moment, but for the types to keep.
    Expired { cutoff: i64, kept_types: Vec<i32> },
}

pub enum FilterView {
    ServerId { server_id: Seq<char> },
    ReceiverSeqs { receiver_id: Seq<char>, seqs: Seq<i64> },
    ReceiverSeqRange { receiver_id: Seq<char>, start: i64, end: i64 },
    Conversation {
        user_id: Seq<char>,
        send_start: i64,
        send_end: i64,
        rec_start: i64,
        rec_end: i64,
    },
    Expired { cutoff: i64, kept_types: Seq<i32> },
}

impl View for Filter {
    type V = FilterView;

    open spec fn view(&self) -> FilterView {
        match self {
            Filter::ServerId { server_id } => FilterView::ServerId { server_id: server_id@ },
            Filter::ReceiverSeqs { receiver_id, seqs } => FilterView::ReceiverSeqs {
                receiver_id: receiver_id@,
                seqs: seqs@,
            },
            Filter::ReceiverSeqRange { receiver_id, start, end } => FilterView::ReceiverSeqRange {
                receiver_id: receiver_id@,
                start: *start,
                end: *end,
            },
            Filter::Conversation { user_id, send_start, send_end, rec_start, rec_end } =>
                FilterView::Conversation {
                user_id: user_id@,
                send_start: *send_start,
                send_end: *send_end,
                rec_start: *rec_start,
                rec_end: *rec_end,
            },
            Filter::Expired { cutoff, kept_types } => FilterView::Expired {
                cutoff: *cutoff,
                kept_types: kept_types@,
            },
        }
    }
}

/// Whether the filter picks the message.
pub open spec fn picks(filter: FilterView, message: MsgView) -> bool {
    match filter {
        FilterView::ServerId { server_id } => message.server_id == server_id,
        FilterView::ReceiverSeqs { receiver_id, seqs } => message.receiver_id == receiver_id
            && seqs.contains(message.seq),
        FilterView::ReceiverSeqRange { receiver_id, start, end } => message.receiver_id
            == receiver_id && start <= message.seq <= end,
        FilterView::Conversation { user_id, send_start, send_end, rec_start, rec_end } => {
            ||| message.receiver_id == user_id && rec_start <= message.seq <= rec_end
            ||| message.sender_id == user_id && send_start <= message.send_seq <= send_end
        },
        FilterView::Expired { cutoff, kept_types } => message.send_time < cutoff
            && !kept_types.contains(message.msg_type),
    }
}

fn holds_number(numbers: &Vec<i64>, wanted: i64) -> (found: bool)
    ensures
        found == numbers@.contains(wanted),
{
    let mut i: usize = 0;
    while i < numbers.len()
        invariant
            i <= numbers.len(),
            forall|j: int| 0 <= j < i ==> numbers@[j] != wanted,
        decreases numbers.len() - i,
    {
        if numbers[i] == wanted {
            return true;
        }
        i = i + 1;
    }
    false
}

fn holds_type(types: &Vec<i32>, wanted: i32) -> (found: bool)
    ensures
        found == types@.contains(wanted),
{
    let mut i: usize = 0;
    while i < types.len()
        invariant
            i <= types.len(),
            forall|j: int| 0 <= j < i ==> types@[j] != wanted,
        decreases types.len() - i,
    {
        if types[i] == wanted {
            return true;
        }
        i = i + 1;
    }
    false
}

impl Filter {
    /// Whether the filter picks the message.
    pub fn picks(&self, message: &Msg) -> (picked: bool)
        ensures
            picked == picks(self@, message@),
            picked == (match self {
                Filter::ServerId { server_id } => message.server_id@ == server_id@,
                Filter::ReceiverSeqs { receiver_id, seqs } => message.receiver_id@ == receiver_id@
                    && seqs@.contains(message.seq),
                Filter::ReceiverSeqRange { receiver_id, start, end } => message.receiver_id@
                    == receiver_id@ && *start <= message.seq && message.seq <= *end,
                Filter::Conversation { user_id, send_start, send_end, rec_start, rec_end } => (
                message.receiver_id@ == user_id@ && *rec_start <= message.seq && message.seq
                    <= *rec_end) || (message.sender_id@ == user_id@ && *send_start
                    <= message.send_seq && message.send_seq <= *send_end),
                Filter::Expired { cutoff, kept_types } => message.send_time < *cutoff
                    && !kept_types@.contains(message.msg_type),
            }),
    {
        match self {
            Filter::ServerId { server_id } => message.server_id == *server_id,
            Filter::ReceiverSeqs { receiver_id, seqs } => message.receiver_id == *receiver_id
                && holds_number(seqs, message.seq),
            Filter::ReceiverSeqRange { receiver_id, start, end } => message.receiver_id
                == *receiver_id && *start <= message.seq && message.seq <= *end,
            Filter::Conversation { user_id, send_start, send_end, rec_start, rec_end } => {
                (message.receiver_id == *user_id && *rec_start <= message.seq && message.seq
                    <= *rec_end) || (message.sender_id == *user_id && *send_start
                    <= message.send_seq && message.send_seq <= *send_end)
            },
            Filter::Expired { cutoff, kept_types } => message.send_time < *cutoff && !holds_type(
                kept_types,
                message.msg_type,
            ),
        }
    }
}

/// A filter shows all that it asks for.
pub proof fn law_filters_show_what_they_ask_for(filter: Filter)
    ensures
        match filter {
            Filter::ServerId { server_id } => filter@ == (FilterView::ServerId {
                server_id: server_id@,
            }),
            Filter::ReceiverSeqs { receiver_id, seqs } => filter@ == (FilterView::ReceiverSeqs {
                receiver_id: receiver_id@,
                seqs: seqs@,
            }),
            Filter::ReceiverSeqRange { receiver_id, start, end } => filter@ == (
            FilterView::ReceiverSeqRange { receiver_id: receiver_id@, start, end }),
            Filter::Conversation { user_id, send_start, send_end, rec_start, rec_end } => filter@
                == (FilterView::Conversation {
                user_id: user_id@,
                send_start,
                send_end,
                rec_start,
                rec_end,
            }),
            Filter::Expired { cutoff, kept_types } => filter@ == (FilterView::Expired {
                cutoff,
                kept_types: kept_types@,
            }),
        },
{
}

} // verus!
