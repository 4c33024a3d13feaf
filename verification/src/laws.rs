//! What holds of the message box as a whole.

use vstd::prelude::*;

use crate::calendar::{has_date, lemma_date_bounds, lemma_month_of, lemma_month_start_monotone};
use crate::calendar::{lemma_months_last, lemma_year_month_order, month_before, month_of, month_or};
use crate::calendar::FIRST_MONTH;
use crate::clean::{cutoff, round_of, threshold_month};
use crate::error::{Error, ErrorView};
use crate::filter::{picks, FilterView};
use crate::lookup::{deletion_of, search_for, DeleteEventView, IdDeleteView};
use crate::message::{GroupMemSeqView, MsgView};
use crate::order::{is_ordered, is_stable_sort, law_sort_keeps_messages, rank, rank_at_most, MessageOrderView};
use crate::read::{as_read, conversation_read, receiver_read, MessageReadView, MONTHS_READ};
use crate::save::{first_failure, law_saving_ends_well_when_all_is_inserted};
use crate::shard::{group_inserts, insert_of, member_copy, recent_collections, sender_copy};
use crate::shard::{collections_of, law_collections_are_distinct, lemma_collections_of};
use crate::shard::{collection_name, is_outdated, lemma_filter_names, lemma_name_year_month};
use crate::shard::{startup_months, user_range, InsertView};
use crate::store::{all_inserted, as_read_all, holds, inserted, is_well_placed, read_from};
use crate::store::{lemma_all_inserted, lemma_inserted, lemma_read_from, lemma_read_run};
use crate::store::{delete_run, lemma_delete_run, lemma_lookup_run, lemma_picked};
use crate::store::{lemma_without_only, lookup_run, picked};
use crate::store::{accepts, all_accepted, collides, has_no_doubles, is_double, is_unique, lemma_doubles};
use crate::store::{is_accepted_at, lemma_accepted_in_turn, lemma_all_accepted, lemma_left_of_unique};
use crate::store::{clean_run, lemma_clean_run, lemma_update_run, update_run};
use crate::store::{is_left_of, lemma_left_of, lemma_updated, read_run, stored, updated, Store};
use crate::store::{answer_events, are_answers, as_items, is_choice, lemma_answers, lemma_as_read_all};
use crate::store::{is_answer, lemma_stream_answers, stream_after};
use crate::stream::{receiver_stream, MessageStreamView, StreamEventView};
use crate::update::{update_of, Change, MONTHS_UPDATED};

verus! {

/// Whether a message was sent in the present month or one of the months before
/// it, as many as given, the present one included.
pub open spec fn is_recent(message: MsgView, months: int, now: int) -> bool {
    month_of(now) - months < month_of(message.send_time as int) <= month_of(now)
}

/// A message of the last months lies in a recent collection of its receiver,
/// and a message of the receiver in such a collection is of the last months.
pub proof fn lemma_recent_collection(message: MsgView, user_shards: u8, months: nat, now: int)
    requires
        has_date(now),
        has_date(message.send_time as int),
    ensures
        recent_collections(user_range(message.receiver_id, user_shards), months, now).contains(
            insert_of(message, user_shards, now).collection,
        ) <==> is_recent(message, months as int, now),
{
    let range = user_range(message.receiver_id, user_shards);
    let names = recent_collections(range, months, now);
    let place = insert_of(message, user_shards, now).collection;
    let sent = month_of(message.send_time as int);
    if is_recent(message, months as int, now) {
        let back = month_of(now) - sent;
        assert(names[back] == place);
    }
    if names.contains(place) {
        let back = choose|back: int| 0 <= back < names.len() && names[back] == place;
        law_collections_are_distinct(month_before(month_of(now), back), range, sent, range);
    }
}

/// Where a message of the last months goes is a recent collection of its
/// receiver. A message without a date goes to the present month.
proof fn lemma_recent_place(message: MsgView, user_shards: u8, months: nat, now: int)
    requires
        months > 0,
        has_date(now),
        has_date(message.send_time as int) ==> is_recent(message, months as int, now),
    ensures
        recent_collections(user_range(message.receiver_id, user_shards), months, now).contains(
            insert_of(message, user_shards, now).collection,
        ),
{
    let names = recent_collections(user_range(message.receiver_id, user_shards), months, now);
    let back = month_of(now) - month_or(message.send_time as int, now);
    assert(names[back] == insert_of(message, user_shards, now).collection);
}

/// Reading the messages of a receiver by number gives all of those and only
/// those that lie in the box, have a number in the range and were sent in the
/// present month or the two before it.
pub proof fn law_receiver_reads_their_recent_messages(
    store: Store,
    message: MsgView,
    user_id: Seq<char>,
    start: i64,
    end: i64,
    user_shards: u8,
    now: int,
)
    requires
        is_well_placed(store, user_shards),
        has_date(now),
    ensures
        read_from(
            store,
            receiver_read(user_id, start, end, user_shards, now).todo,
            receiver_read(user_id, start, end, user_shards, now).filter,
        ).contains(message) <==> {
            &&& holds(store, message)
            &&& message.receiver_id == user_id
            &&& start <= message.seq <= end
            &&& is_recent(message, 3, now)
        },
{
    let read = receiver_read(user_id, start, end, user_shards, now);
    lemma_read_from(store, read.todo, read.filter, message);
    if holds(store, message) && message.receiver_id == user_id {
        lemma_recent_collection(message, user_shards, MONTHS_READ as nat, now);
    }
}

/// Reading a conversation gives all messages of the user's own box, and only
/// messages from there, that the user received under a number in the one range
/// or sent under a number in the other, in the present month or the two before
/// it.
pub proof fn law_conversation_reads_recent_messages(
    store: Store,
    message: MsgView,
    user_id: Seq<char>,
    send_start: i64,
    send_end: i64,
    rec_start: i64,
    rec_end: i64,
    user_shards: u8,
    now: int,
)
    requires
        is_well_placed(store, user_shards),
        has_date(now),
        message.receiver_id == user_id,
    ensures
        ({
            let read = conversation_read(
                user_id,
                send_start,
                send_end,
                rec_start,
                rec_end,
                user_shards,
                now,
            );
            read_from(store, read.todo, read.filter).contains(message) <==> {
                &&& holds(store, message)
                &&& rec_start <= message.seq <= rec_end || (message.sender_id == user_id && send_start
                    <= message.send_seq <= send_end)
                &&& is_recent(message, 3, now)
            }
        }),
{
    let read = conversation_read(user_id, send_start, send_end, rec_start, rec_end, user_shards, now);
    lemma_read_from(store, read.todo, read.filter, message);
    if holds(store, message) {
        lemma_recent_collection(message, user_shards, MONTHS_READ as nat, now);
    }
}

/// A saved message is read back by its receiver, under its number, in the month
/// in which it was sent and the two after it; one without a date, in the month
/// in which it was saved.
pub proof fn law_saved_message_is_read_back(
    store: Store,
    message: MsgView,
    start: i64,
    end: i64,
    user_shards: u8,
    now: int,
)
    requires
        accepts(store, insert_of(message, user_shards, now)),
        has_date(now),
        has_date(message.send_time as int) ==> is_recent(message, 3, now),
        start <= message.seq <= end,
    ensures
        read_from(
            inserted(store, insert_of(message, user_shards, now)),
            receiver_read(message.receiver_id, start, end, user_shards, now).todo,
            receiver_read(message.receiver_id, start, end, user_shards, now).filter,
        ).contains(message),
{
    let insert = insert_of(message, user_shards, now);
    let read = receiver_read(message.receiver_id, start, end, user_shards, now);
    let after = inserted(store, insert);
    lemma_inserted(store, insert, insert.collection, message);
    lemma_read_from(after, read.todo, read.filter, message);
    lemma_recent_place(message, user_shards, MONTHS_READ as nat, now);
}

/// Saving a message leaves every message where it belongs.
pub proof fn law_saving_keeps_messages_well_placed(
    store: Store,
    message: MsgView,
    user_shards: u8,
    now: int,
)
    requires
        is_well_placed(store, user_shards),
        has_date(message.send_time as int),
    ensures
        is_well_placed(inserted(store, insert_of(message, user_shards, now)), user_shards),
        forall|other: MsgView| #[trigger]
            holds(inserted(store, insert_of(message, user_shards, now)), other) <==> holds(
                store,
                other,
            ) || (accepts(store, insert_of(message, user_shards, now)) && other == message),
{
    let insert = insert_of(message, user_shards, now);
    let after = inserted(store, insert);
    assert forall|name: Seq<char>, other: MsgView| #[trigger]
        stored(after, name).contains(other) implies has_date(other.send_time as int) && name
        == insert_of(other, user_shards, other.send_time as int).collection by {
        lemma_inserted(store, insert, name, other);
    }
    assert forall|other: MsgView| #[trigger] holds(after, other) <==> holds(store, other) || (
    accepts(store, insert) && other == message) by {
        if holds(after, other) {
            let name = choose|name: Seq<char>| #[trigger] stored(after, name).contains(other);
            lemma_inserted(store, insert, name, other);
        }
        if holds(store, other) {
            let name = choose|name: Seq<char>| #[trigger] stored(store, name).contains(other);
            lemma_inserted(store, insert, name, other);
        }
        if accepts(store, insert) && other == message {
            lemma_inserted(store, insert, insert.collection, other);
        }
    }
}

/// No collection is read twice in one operation.
pub proof fn law_no_collection_is_read_twice(user_range: u8, months: nat, now: int)
    requires
        month_of(now) - months >= FIRST_MONTH - 1,
    ensures
        recent_collections(user_range, months, now).no_duplicates(),
{
    let names = recent_collections(user_range, months, now);
    assert forall|i: int, j: int|
        0 <= i < names.len() && 0 <= j < names.len() && i != j implies names[i] != names[j] by {
        if names[i] == names[j] {
            law_collections_are_distinct(
                month_before(month_of(now), i),
                user_range,
                month_before(month_of(now), j),
                user_range,
            );
        }
    }
}

/// What a reader gets in the end, from a database without faults and in whatever
/// order it answers, are the messages that the filter picks from the
/// collections, as the reader gets them, each as often as it is there.
pub proof fn law_reading_gives_what_the_filter_picks(
    store: Store,
    read: MessageReadView,
    answers: Seq<Seq<MsgView>>,
    outcome: Seq<MsgView>,
    message: MsgView,
)
    requires
        read.failure is None,
        read.messages.len() == 0,
        are_answers(answers, store, read.todo, read.filter),
        is_stable_sort(outcome, read_run(read, answers).messages, read.order),
    ensures
        read_run(read, answers).failure is None,
        !read_run(read, answers).is_running(),
        outcome.to_multiset() == as_read_all(
            read.order,
            read_from(store, read.todo, read.filter),
        ).to_multiset(),
        outcome.contains(message) <==> exists|held: MsgView|
            #![trigger as_read(read.order, held)]
            read_from(store, read.todo, read.filter).contains(held) && message == as_read(
                read.order,
                held,
            ),
{
    broadcast use vstd::seq_lib::group_to_multiset_ensures;

    lemma_read_run(read, answers);
    lemma_answers(answers, store, read.todo, read.filter);
    let all = read_from(store, read.todo, read.filter);
    lemma_as_read_all(read.order, answers.flatten(), all);
    let sent = as_read_all(read.order, answers.flatten());
    let got = as_read_all(read.order, all);
    assert(read.messages + sent =~= sent);
    law_sort_keeps_messages(outcome, sent, read.order);
    assert(outcome.to_multiset().count(message) == got.to_multiset().count(message));
    if got.contains(message) {
        let i = choose|i: int| 0 <= i < got.len() && got[i] == message;
        assert(all.contains(all[i]));
        assert(message == as_read(read.order, all[i]));
    }
    assert forall|held: MsgView|
        #![trigger as_read(read.order, held)]
        all.contains(held) && message == as_read(read.order, held) implies got.contains(
        message,
    ) by {
        let i = choose|i: int| 0 <= i < all.len() && all[i] == held;
        assert(got[i] == message);
    }
}

/// A receiver is given a saved message, under its number, in the month in which
/// it was sent and the two after it.
pub proof fn law_receivers_are_given_what_was_saved(
    store: Store,
    message: MsgView,
    start: i64,
    end: i64,
    user_shards: u8,
    now: int,
    answers: Seq<Seq<MsgView>>,
    outcome: Seq<MsgView>,
)
    requires
        accepts(store, insert_of(message, user_shards, now)),
        has_date(now),
        has_date(message.send_time as int) ==> is_recent(message, 3, now),
        start <= message.seq <= end,
        ({
            let read = receiver_read(message.receiver_id, start, end, user_shards, now);
            let after = inserted(store, insert_of(message, user_shards, now));
            &&& are_answers(answers, after, read.todo, read.filter)
            &&& is_stable_sort(outcome, read_run(read, answers).messages, read.order)
        }),
    ensures
        outcome.contains(message),
{
    let read = receiver_read(message.receiver_id, start, end, user_shards, now);
    let after = inserted(store, insert_of(message, user_shards, now));
    law_saved_message_is_read_back(store, message, start, end, user_shards, now);
    law_reading_gives_what_the_filter_picks(after, read, answers, outcome, message);
    assert(message == as_read(read.order, message));
}

/// A user is given a saved message in their conversation, under its number, in
/// the month in which it was sent and the two after it. What they sent to
/// themselves has no number there.
pub proof fn law_conversations_give_what_was_saved(
    store: Store,
    message: MsgView,
    send_start: i64,
    send_end: i64,
    rec_start: i64,
    rec_end: i64,
    user_shards: u8,
    now: int,
    answers: Seq<Seq<MsgView>>,
    outcome: Seq<MsgView>,
)
    requires
        accepts(store, insert_of(message, user_shards, now)),
        has_date(now),
        has_date(message.send_time as int) ==> is_recent(message, 3, now),
        rec_start <= message.seq <= rec_end,
        ({
            let read = conversation_read(
                message.receiver_id,
                send_start,
                send_end,
                rec_start,
                rec_end,
                user_shards,
                now,
            );
            let after = inserted(store, insert_of(message, user_shards, now));
            &&& are_answers(answers, after, read.todo, read.filter)
            &&& is_stable_sort(outcome, read_run(read, answers).messages, read.order)
        }),
    ensures
        message.sender_id != message.receiver_id ==> outcome.contains(message),
        message.sender_id == message.receiver_id ==> outcome.contains(
            (MsgView { seq: 0, ..message }),
        ),
{
    let read = conversation_read(
        message.receiver_id,
        send_start,
        send_end,
        rec_start,
        rec_end,
        user_shards,
        now,
    );
    let insert = insert_of(message, user_shards, now);
    let after = inserted(store, insert);
    lemma_inserted(store, insert, insert.collection, message);
    lemma_recent_place(message, user_shards, MONTHS_READ as nat, now);
    lemma_read_from(after, read.todo, read.filter, message);
    assert(stored(after, insert.collection).contains(message));
    law_reading_gives_what_the_filter_picks(after, read, answers, outcome, as_read(read.order, message));
}

/// In which collections of a slice a message lies when every message lies where it
/// belongs.
proof fn lemma_recent_in_slice(
    store: Store,
    message: MsgView,
    range: u8,
    user_shards: u8,
    months: nat,
    now: int,
)
    requires
        is_well_placed(store, user_shards),
        has_date(now),
    ensures
        (exists|name: Seq<char>|
            recent_collections(range, months, now).contains(name) && #[trigger] stored(
                store,
                name,
            ).contains(message)) <==> {
            &&& holds(store, message)
            &&& user_range(message.receiver_id, user_shards) == range
            &&& is_recent(message, months as int, now)
        },
{
    let names = recent_collections(range, months, now);
    let sent = month_of(message.send_time as int);
    let own = user_range(message.receiver_id, user_shards);
    if exists|name: Seq<char>|
        names.contains(name) && #[trigger] stored(store, name).contains(message) {
        let name = choose|name: Seq<char>|
            names.contains(name) && #[trigger] stored(store, name).contains(message);
        let back = choose|back: int| 0 <= back < names.len() && names[back] == name;
        law_collections_are_distinct(month_before(month_of(now), back), range, sent, own);
    }
    if holds(store, message) && own == range && is_recent(message, months as int, now) {
        let name = choose|name: Seq<char>| #[trigger] stored(store, name).contains(message);
        assert(names[month_of(now) - sent] == name);
    }
}

/// A receiver who reads by number gets the messages that lie in the box for them
/// with a number in the range, of the present month and the two before it: all
/// of them exactly as they are held, no others, and in ascending order of the
/// numbers.
pub proof fn law_receivers_get_their_messages_as_they_are_held(
    store: Store,
    user_id: Seq<char>,
    start: i64,
    end: i64,
    user_shards: u8,
    now: int,
    answers: Seq<Seq<MsgView>>,
    outcome: Seq<MsgView>,
    message: MsgView,
)
    requires
        is_well_placed(store, user_shards),
        has_date(now),
        ({
            let read = receiver_read(user_id, start, end, user_shards, now);
            &&& are_answers(answers, store, read.todo, read.filter)
            &&& is_stable_sort(outcome, read_run(read, answers).messages, read.order)
        }),
    ensures
        outcome.contains(message) <==> {
            &&& holds(store, message)
            &&& message.receiver_id == user_id
            &&& start <= message.seq <= end
            &&& month_of(now) - 2 <= month_of(message.send_time as int) <= month_of(now)
        },
        forall|i: int, j: int|
            0 <= i < j < outcome.len() ==> (#[trigger] outcome[i]).seq <= (
            #[trigger] outcome[j]).seq,
{
    let read = receiver_read(user_id, start, end, user_shards, now);
    law_receiver_reads_their_recent_messages(store, message, user_id, start, end, user_shards, now);
    law_reading_gives_what_the_filter_picks(store, read, answers, outcome, message);
    assert(as_read(read.order, message) == message);
    assert forall|i: int, j: int| 0 <= i < j < outcome.len() implies (#[trigger] outcome[i]).seq
        <= (#[trigger] outcome[j]).seq by {
        assert(rank_at_most(rank(read.order, outcome[i]), rank(read.order, outcome[j])));
    }
}

/// In a conversation each message comes back as it is held: one that somebody
/// else sent in every field, and one that the user sent in every field but the
/// number, which is zero. All messages of the user's slice come back that the
/// user received under a number in the one range or sent under a number in the
/// other, in the present month or the two before it, and no others.
pub proof fn law_conversations_come_back_as_they_are_held(
    store: Store,
    user_id: Seq<char>,
    send_start: i64,
    send_end: i64,
    rec_start: i64,
    rec_end: i64,
    user_shards: u8,
    now: int,
    answers: Seq<Seq<MsgView>>,
    outcome: Seq<MsgView>,
    held: MsgView,
    i: int,
)
    requires
        is_well_placed(store, user_shards),
        has_date(now),
        ({
            let read = conversation_read(
                user_id,
                send_start,
                send_end,
                rec_start,
                rec_end,
                user_shards,
                now,
            );
            &&& are_answers(answers, store, read.todo, read.filter)
            &&& is_stable_sort(outcome, read_run(read, answers).messages, read.order)
        }),
    ensures
        ({
            &&& holds(store, held)
            &&& user_range(held.receiver_id, user_shards) == user_range(user_id, user_shards)
            &&& month_of(now) - 2 <= month_of(held.send_time as int) <= month_of(now)
            &&& {
                ||| held.receiver_id == user_id && rec_start <= held.seq <= rec_end
                ||| held.sender_id == user_id && send_start <= held.send_seq <= send_end
            }
        }) ==> {
            &&& held.sender_id != user_id ==> outcome.contains(held)
            &&& held.sender_id == user_id ==> outcome.contains((MsgView { seq: 0, ..held }))
        },
        0 <= i < outcome.len() ==> exists|own: MsgView|
            {
                &&& #[trigger] holds(store, own)
                &&& user_range(own.receiver_id, user_shards) == user_range(user_id, user_shards)
                &&& month_of(now) - 2 <= month_of(own.send_time as int) <= month_of(now)
                &&& {
                    ||| own.receiver_id == user_id && rec_start <= own.seq <= rec_end
                    ||| own.sender_id == user_id && send_start <= own.send_seq <= send_end
                }
                &&& outcome[i] == (if own.sender_id == user_id {
                    MsgView { seq: 0, ..own }
                } else {
                    own
                })
            },
{
    let read = conversation_read(
        user_id,
        send_start,
        send_end,
        rec_start,
        rec_end,
        user_shards,
        now,
    );
    let range = user_range(user_id, user_shards);
    lemma_recent_in_slice(store, held, range, user_shards, 3, now);
    lemma_read_from(store, read.todo, read.filter, held);
    let shown = if held.sender_id == user_id {
        MsgView { seq: 0, ..held }
    } else {
        held
    };
    law_reading_gives_what_the_filter_picks(store, read, answers, outcome, shown);
    assert(as_read(read.order, held) == shown);
    if 0 <= i < outcome.len() {
        assert(outcome.contains(outcome[i]));
        law_reading_gives_what_the_filter_picks(store, read, answers, outcome, outcome[i]);
        let own = choose|own: MsgView|
            #![trigger as_read(read.order, own)]
            read_from(store, read.todo, read.filter).contains(own) && outcome[i] == as_read(
                read.order,
                own,
            );
        lemma_read_from(store, read.todo, read.filter, own);
        lemma_recent_in_slice(store, own, range, user_shards, 3, now);
        assert(holds(store, own));
    }
}

/// A conversation is in order of time; within one second, what the user sent
/// counts by the number among what they sent, and all else by the number under
/// which it was received.
pub proof fn law_conversations_are_in_order_of_time(
    user_id: Seq<char>,
    send_start: i64,
    send_end: i64,
    rec_start: i64,
    rec_end: i64,
    user_shards: u8,
    now: int,
    messages: Seq<MsgView>,
    outcome: Seq<MsgView>,
    i: int,
    j: int,
)
    requires
        is_stable_sort(
            outcome,
            messages,
            conversation_read(
                user_id,
                send_start,
                send_end,
                rec_start,
                rec_end,
                user_shards,
                now,
            ).order,
        ),
        0 <= i < j < outcome.len(),
    ensures
        ({
            let number = |message: MsgView|
                if message.sender_id == user_id {
                    message.send_seq
                } else {
                    message.seq
                };
            ||| outcome[i].send_time < outcome[j].send_time
            ||| outcome[i].send_time == outcome[j].send_time && number(outcome[i]) <= number(
                outcome[j],
            )
        }),
{
    let order = MessageOrderView::Conversation { user_id };
    assert(rank_at_most(rank(order, outcome[i]), rank(order, outcome[j])));
}

/// Deleting by number takes away the receiver's messages of the present month
/// and the one before it that have one of the numbers, and no other message.
pub proof fn law_deleting_takes_the_numbered_messages_away(
    store: Store,
    message: MsgView,
    user_id: Seq<char>,
    seqs: Seq<i64>,
    user_shards: u8,
    now: int,
)
    requires
        is_well_placed(store, user_shards),
        has_date(now),
    ensures
        ({
            let update = update_of(Change::Delete, user_id, seqs, user_shards, now);
            let after = update_run(update, store).1;
            holds(after, message) <==> holds(store, message) && !(message.receiver_id == user_id
                && seqs.contains(message.seq) && is_recent(message, 2, now))
        }),
{
    let update = update_of(Change::Delete, user_id, seqs, user_shards, now);
    let after = updated(store, update.todo, update.filter, Change::Delete);
    lemma_update_run(update, store);
    if holds(after, message) {
        let name = choose|name: Seq<char>| #[trigger] stored(after, name).contains(message);
        lemma_updated(store, update.todo, update.filter, Change::Delete, name);
        lemma_left_of(stored(store, name), update.filter, Change::Delete, message);
        if update.todo.contains(name) {
            let before = choose|before: MsgView|
                stored(store, name).contains(before) && #[trigger] is_left_of(
                    message,
                    before,
                    update.filter,
                    Change::Delete,
                );
            assert(before == message);
        }
        assert(stored(store, name).contains(message));
        lemma_recent_collection(message, user_shards, MONTHS_UPDATED as nat, now);
    }
    if holds(store, message) {
        let name = choose|name: Seq<char>| #[trigger] stored(store, name).contains(message);
        lemma_updated(store, update.todo, update.filter, Change::Delete, name);
        lemma_left_of(stored(store, name), update.filter, Change::Delete, message);
        lemma_recent_collection(message, user_shards, MONTHS_UPDATED as nat, now);
        if !picks(update.filter, message) {
            assert(is_left_of(message, message, update.filter, Change::Delete));
            assert(stored(after, name).contains(message));
        } else if !is_recent(message, 2, now) {
            assert(stored(after, name).contains(message));
        }
    }
}

/// What becomes of a message when its receiver reads some numbers: it counts
/// as read where it has one of them and is of the present month or the one
/// before it.
pub open spec fn after_reading(
    message: MsgView,
    user_id: Seq<char>,
    seqs: Seq<i64>,
    now: int,
) -> MsgView {
    if message.receiver_id == user_id && seqs.contains(message.seq) && is_recent(
        message,
        2,
        now,
    ) {
        MsgView { is_read: true, ..message }
    } else {
        message
    }
}

/// Marking by number marks the receiver's messages of the present month and the
/// one before it that have one of the numbers, and leaves all else as it is.
pub proof fn law_marking_marks_the_numbered_messages(
    store: Store,
    message: MsgView,
    user_id: Seq<char>,
    seqs: Seq<i64>,
    user_shards: u8,
    now: int,
)
    requires
        is_well_placed(store, user_shards),
        has_date(now),
    ensures
        ({
            let update = update_of(Change::MarkRead, user_id, seqs, user_shards, now);
            let after = update_run(update, store).1;
            holds(after, message) <==> exists|before: MsgView|
                holds(store, before) && message == #[trigger] after_reading(
                    before,
                    user_id,
                    seqs,
                    now,
                )
        }),
{
    let update = update_of(Change::MarkRead, user_id, seqs, user_shards, now);
    let after = updated(store, update.todo, update.filter, Change::MarkRead);
    lemma_update_run(update, store);
    if holds(after, message) {
        let name = choose|name: Seq<char>| #[trigger] stored(after, name).contains(message);
        lemma_updated(store, update.todo, update.filter, Change::MarkRead, name);
        lemma_left_of(stored(store, name), update.filter, Change::MarkRead, message);
        let before = if update.todo.contains(name) {
            choose|before: MsgView|
                stored(store, name).contains(before) && #[trigger] is_left_of(
                    message,
                    before,
                    update.filter,
                    Change::MarkRead,
                )
        } else {
            message
        };
        assert(stored(store, name).contains(before));
        lemma_recent_collection(before, user_shards, MONTHS_UPDATED as nat, now);
        assert(holds(store, before));
        assert(message == after_reading(before, user_id, seqs, now));
    }
    assert forall|before: MsgView|
        holds(store, before) && message == #[trigger] after_reading(
            before,
            user_id,
            seqs,
            now,
        ) implies holds(after, message) by {
        let name = choose|name: Seq<char>| #[trigger] stored(store, name).contains(before);
        lemma_updated(store, update.todo, update.filter, Change::MarkRead, name);
        lemma_left_of(stored(store, name), update.filter, Change::MarkRead, message);
        lemma_recent_collection(before, user_shards, MONTHS_UPDATED as nat, now);
        if update.todo.contains(name) {
            assert(is_left_of(message, before, update.filter, Change::MarkRead));
        }
        assert(stored(after, name).contains(message));
    }
}

/// Changing messages leaves every message where it belongs.
pub proof fn law_changing_keeps_messages_well_placed(
    store: Store,
    names: Seq<Seq<char>>,
    filter: FilterView,
    change: Change,
    user_shards: u8,
)
    requires
        is_well_placed(store, user_shards),
    ensures
        is_well_placed(updated(store, names, filter, change), user_shards),
{
    let after = updated(store, names, filter, change);
    assert forall|name: Seq<char>, message: MsgView| #[trigger]
        stored(after, name).contains(message) implies has_date(message.send_time as int) && name
        == insert_of(message, user_shards, message.send_time as int).collection by {
        lemma_updated(store, names, filter, change, name);
        lemma_left_of(stored(store, name), filter, change, message);
        if names.contains(name) {
            let before = choose|before: MsgView|
                stored(store, name).contains(before) && #[trigger] is_left_of(
                    message,
                    before,
                    filter,
                    change,
                );
            assert(stored(store, name).contains(before));
        } else {
            assert(stored(store, name).contains(message));
        }
    }
}

/// A receiver reads back as read what they marked, and all else as it was.
pub proof fn law_marked_messages_are_read_back_marked(
    store: Store,
    message: MsgView,
    user_id: Seq<char>,
    seqs: Seq<i64>,
    start: i64,
    end: i64,
    user_shards: u8,
    now: int,
)
    requires
        is_well_placed(store, user_shards),
        has_date(now),
        holds(store, message),
        message.receiver_id == user_id,
        start <= message.seq <= end,
        is_recent(message, 3, now),
    ensures
        ({
            let update = update_of(Change::MarkRead, user_id, seqs, user_shards, now);
            let after = update_run(update, store).1;
            let read = receiver_read(user_id, start, end, user_shards, now);
            read_from(after, read.todo, read.filter).contains(
                after_reading(message, user_id, seqs, now),
            )
        }),
{
    let update = update_of(Change::MarkRead, user_id, seqs, user_shards, now);
    let after = updated(store, update.todo, update.filter, Change::MarkRead);
    lemma_update_run(update, store);
    let marked = after_reading(message, user_id, seqs, now);
    law_marking_marks_the_numbered_messages(store, marked, user_id, seqs, user_shards, now);
    law_changing_keeps_messages_well_placed(
        store,
        update.todo,
        update.filter,
        Change::MarkRead,
        user_shards,
    );
    law_receiver_reads_their_recent_messages(after, marked, user_id, start, end, user_shards, now);
}

/// What a receiver deleted by number in the month in which it was sent or the
/// one after it is not read any more.
pub proof fn law_deleted_messages_are_not_read_back(
    store: Store,
    message: MsgView,
    seqs: Seq<i64>,
    start: i64,
    end: i64,
    user_shards: u8,
    now: int,
)
    requires
        is_well_placed(store, user_shards),
        has_date(now),
        seqs.contains(message.seq),
        is_recent(message, 2, now),
    ensures
        ({
            let user_id = message.receiver_id;
            let update = update_of(Change::Delete, user_id, seqs, user_shards, now);
            let after = update_run(update, store).1;
            let read = receiver_read(user_id, start, end, user_shards, now);
            !read_from(after, read.todo, read.filter).contains(message)
        }),
{
    let user_id = message.receiver_id;
    let update = update_of(Change::Delete, user_id, seqs, user_shards, now);
    let after = updated(store, update.todo, update.filter, Change::Delete);
    lemma_update_run(update, store);
    law_deleting_takes_the_numbered_messages_away(store, message, user_id, seqs, user_shards, now);
    law_changing_keeps_messages_well_placed(
        store,
        update.todo,
        update.filter,
        Change::Delete,
        user_shards,
    );
    law_receiver_reads_their_recent_messages(after, message, user_id, start, end, user_shards, now);
}

/// Saving a group message leaves every message where it belongs.
pub proof fn law_group_saving_keeps_messages_well_placed(
    store: Store,
    message: MsgView,
    members: Seq<GroupMemSeqView>,
    user_shards: u8,
    now: int,
)
    requires
        is_well_placed(store, user_shards),
        has_date(message.send_time as int),
    ensures
        is_well_placed(
            all_inserted(store, group_inserts(message, members, user_shards, now)),
            user_shards,
        ),
{
    let inserts = group_inserts(message, members, user_shards, now);
    let after = all_inserted(store, inserts);
    assert forall|name: Seq<char>, other: MsgView| #[trigger]
        stored(after, name).contains(other) implies has_date(other.send_time as int) && name
        == insert_of(other, user_shards, other.send_time as int).collection by {
        lemma_all_inserted(store, inserts, name, other);
        if !stored(store, name).contains(other) {
            let wanted = InsertView { collection: name, message: other };
            let i = choose|i: int| 0 <= i < inserts.len() && inserts[i] == wanted;
            if i > 0 {
                assert(inserts[i] == insert_of(
                    member_copy(message, members[i - 1]),
                    user_shards,
                    now,
                ));
            }
        }
    }
}

/// A stream hands on the answers of its collections one after the other, each
/// in ascending order of the numbers where the database answers in the order
/// that the stream asks for, and then ends. The collections are those
/// of the present month, the month before it and the one before that.
pub proof fn law_streams_hand_on_month_by_month(
    store: Store,
    user_id: Seq<char>,
    start: i64,
    end: i64,
    user_shards: u8,
    now: int,
    answers: Seq<Seq<MsgView>>,
)
    requires
        ({
            let stream = receiver_stream(user_id, start, end, user_shards, now);
            &&& are_answers(answers, store, stream.todo, stream.filter)
            &&& forall|i: int|
                0 <= i < answers.len() ==> is_ordered(#[trigger] answers[i], stream.order)
        }),
    ensures
        ({
            let stream = receiver_stream(user_id, start, end, user_shards, now);
            let (after, items) = stream_after(stream, answer_events(answers));
            &&& answers.len() == 3
            &&& items == as_items(answers[0] + answers[1] + answers[2])
            &&& after.todo.len() == 0
            &&& forall|i: int, j: int, k: int|
                0 <= i < 3 && 0 <= j < k < answers[i].len() ==> (#[trigger] answers[i][j]).seq <= (
                #[trigger] answers[i][k]).seq
        }),
{
    let stream = receiver_stream(user_id, start, end, user_shards, now);
    lemma_stream_answers(stream, answers);
    reveal_with_fuel(Seq::flatten, 4);
    let last = answers.drop_first().drop_first();
    assert(last[0] == answers[2] && last.drop_first() =~= Seq::empty());
    assert(answers.drop_first()[0] == answers[1]);
    assert(answers.flatten() =~= answers[0] + answers[1] + answers[2]);
    assert forall|i: int, j: int, k: int|
        0 <= i < 3 && 0 <= j < k < answers[i].len() implies (#[trigger] answers[i][j]).seq <= (
    #[trigger] answers[i][k]).seq by {
        assert(is_ordered(answers[i], stream.order));
        assert(rank_at_most(
            rank(stream.order, answers[i][j]),
            rank(stream.order, answers[i][k]),
        ));
    }
}

/// The messages that are handed on one by one are those that are read at once,
/// each as often, in whatever order the database answers.
pub proof fn law_streams_and_readings_agree(
    store: Store,
    user_id: Seq<char>,
    start: i64,
    end: i64,
    user_shards: u8,
    now: int,
    streamed: Seq<Seq<MsgView>>,
    answers: Seq<Seq<MsgView>>,
    outcome: Seq<MsgView>,
)
    requires
        ({
            let stream = receiver_stream(user_id, start, end, user_shards, now);
            are_answers(streamed, store, stream.todo, stream.filter)
        }),
        ({
            let read = receiver_read(user_id, start, end, user_shards, now);
            &&& are_answers(answers, store, read.todo, read.filter)
            &&& is_stable_sort(outcome, read_run(read, answers).messages, read.order)
        }),
    ensures
        ({
            let stream = receiver_stream(user_id, start, end, user_shards, now);
            exists|messages: Seq<MsgView>|
                stream_after(stream, answer_events(streamed)).1 == #[trigger] as_items(messages)
                    && messages.to_multiset() == outcome.to_multiset()
        }),
{
    let stream = receiver_stream(user_id, start, end, user_shards, now);
    let read = receiver_read(user_id, start, end, user_shards, now);
    lemma_stream_answers(stream, streamed);
    lemma_answers(streamed, store, stream.todo, stream.filter);
    lemma_answers(answers, store, read.todo, read.filter);
    lemma_read_run(read, answers);
    let all = answers.flatten();
    assert(as_read_all(read.order, all) =~= all);
    assert(read.messages + all =~= all);
    law_sort_keeps_messages(outcome, all, MessageOrderView::BySeq);
    assert(stream_after(stream, answer_events(streamed)).1 == as_items(streamed.flatten()));
}

/// Whatever comes of reading, a stream hands on every item in its place, and the
/// later ones after it, whether it is a message or the reason why there is none.
pub proof fn law_streams_hand_on_every_item(
    stream: MessageStreamView,
    before: Seq<StreamEventView>,
    item: Result<MsgView, ErrorView>,
    later: Seq<StreamEventView>,
)
    ensures
        stream_after(stream, before.push(StreamEventView::Item(item)) + later).1
            == stream_after(stream, before).1.push(item) + stream_after(stream, later).1,
    decreases later.len(),
{
    let start = before.push(StreamEventView::Item(item));
    if later.len() == 0 {
        assert(start + later =~= start);
        assert(start.drop_last() =~= before);
        assert(stream_after(stream, before).1.push(item) + stream_after(stream, later).1
            =~= stream_after(stream, before).1.push(item));
    } else {
        law_streams_hand_on_every_item(stream, before, item, later.drop_last());
        assert((start + later).drop_last() =~= start + later.drop_last());
        assert(stream_after(stream, start + later).1 =~= stream_after(stream, before).1.push(item)
            + stream_after(stream, later).1);
    }
}

/// Saving a group message that is accepted adds the sender's copy and one copy
/// for each member, and nothing else.
pub proof fn law_group_message_adds_one_copy_each(
    store: Store,
    message: MsgView,
    members: Seq<GroupMemSeqView>,
    user_shards: u8,
    now: int,
    other: MsgView,
)
    requires
        all_accepted(store, group_inserts(message, members, user_shards, now)),
    ensures
        holds(all_inserted(store, group_inserts(message, members, user_shards, now)), other)
            <==> {
            ||| holds(store, other)
            ||| other == (MsgView { receiver_id: message.sender_id, ..message })
            ||| exists|i: int|
                0 <= i < members.len() && other == (MsgView {
                    receiver_id: (#[trigger] members[i]).mem_id,
                    seq: members[i].cur_seq,
                    send_seq: 0,
                    ..message
                })
        },
{
    let inserts = group_inserts(message, members, user_shards, now);
    let after = all_inserted(store, inserts);
    if holds(after, other) {
        let name = choose|name: Seq<char>| #[trigger] stored(after, name).contains(other);
        lemma_all_inserted(store, inserts, name, other);
        if !stored(store, name).contains(other) {
            let wanted = InsertView { collection: name, message: other };
            let i = choose|i: int| 0 <= i < inserts.len() && inserts[i] == wanted;
            if i > 0 {
                assert(other == member_copy(message, members[i - 1]));
            }
        }
    }
    if holds(store, other) {
        let name = choose|name: Seq<char>| #[trigger] stored(store, name).contains(other);
        lemma_all_inserted(store, inserts, name, other);
        assert(stored(after, name).contains(other));
    }
    if other == sender_copy(message) {
        assert(inserts[0].message == other);
        lemma_all_inserted(store, inserts, inserts[0].collection, other);
        assert(stored(after, inserts[0].collection).contains(other));
    }
    assert forall|i: int|
        0 <= i < members.len() && other == member_copy(
            message,
            #[trigger] members[i],
        ) implies holds(after, other) by {
        assert(inserts[i + 1].message == other);
        lemma_all_inserted(store, inserts, inserts[i + 1].collection, other);
        assert(stored(after, inserts[i + 1].collection).contains(other));
    }
}

/// The copies of a group message, each with its receiver.
pub open spec fn group_receivers(message: MsgView, members: Seq<GroupMemSeqView>) -> Seq<Seq<char>> {
    seq![message.sender_id] + members.map_values(|member: GroupMemSeqView| member.mem_id)
}

/// A group message is accepted exactly when each of its copies is by itself and
/// nobody is to get two of them: no member twice, and not the sender as a
/// member.
pub proof fn law_group_message_is_accepted_once_for_each(
    store: Store,
    message: MsgView,
    members: Seq<GroupMemSeqView>,
    user_shards: u8,
    now: int,
)
    ensures
        ({
            let inserts = group_inserts(message, members, user_shards, now);
            all_accepted(store, inserts) <==> {
                &&& group_receivers(message, members).no_duplicates()
                &&& forall|i: int| 0 <= i < inserts.len() ==> accepts(store, #[trigger] inserts[i])
            }
        }),
{
    lemma_doubles();
    let inserts = group_inserts(message, members, user_shards, now);
    let receivers = group_receivers(message, members);
    lemma_all_accepted(store, inserts);
    assert(receivers.len() == inserts.len());
    assert forall|i: int| 0 <= i < inserts.len() implies (#[trigger] inserts[i]).message.receiver_id
        == receivers[i] && inserts[i].message.server_id == message.server_id
        && inserts[i].collection == collection_name(
        month_or(message.send_time as int, now),
        user_range(receivers[i], user_shards),
    ) by {
        if i > 0 {
            assert(inserts[i] == insert_of(
                member_copy(message, members[i - 1]),
                user_shards,
                now,
            ));
            assert(receivers[i] == members[i - 1].mem_id);
        }
    }
    if forall|i: int, j: int|
        0 <= i < j < inserts.len() ==> !collides(#[trigger] inserts[i], #[trigger] inserts[j]) {
        assert forall|i: int, j: int|
            0 <= i < receivers.len() && 0 <= j < receivers.len() && i != j implies receivers[i]
            != receivers[j] by {
            if i < j {
                assert(!collides(inserts[i], inserts[j]));
            } else {
                assert(!collides(inserts[j], inserts[i]));
            }
        }
    }
}

/// Saving ends well exactly when every copy is accepted.
pub proof fn law_saving_ends_well_when_all_is_accepted(
    store: Store,
    inserts: Seq<InsertView>,
    outcomes: Seq<Result<(), Error>>,
)
    requires
        outcomes.len() == inserts.len(),
        forall|i: int|
            0 <= i < inserts.len() ==> (#[trigger] outcomes[i] is Ok <==> is_accepted_at(
                store,
                inserts,
                i,
            )),
    ensures
        first_failure(outcomes) is None <==> all_accepted(store, inserts),
{
    lemma_accepted_in_turn(store, inserts);
    law_saving_ends_well_when_all_is_inserted(outcomes);
    if first_failure(outcomes) is None {
        assert forall|i: int| 0 <= i < inserts.len() implies #[trigger] is_accepted_at(
            store,
            inserts,
            i,
        ) by {
            assert(outcomes[i] is Ok);
        }
    }
    if all_accepted(store, inserts) {
        assert forall|i: int| 0 <= i < outcomes.len() implies #[trigger] outcomes[i] is Ok by {
            assert(is_accepted_at(store, inserts, i));
        }
    }
}

/// No insertion makes a receiver have a message twice in one collection.
pub proof fn law_saving_keeps_messages_unique(store: Store, inserts: Seq<InsertView>)
    requires
        is_unique(store),
    ensures
        is_unique(all_inserted(store, inserts)),
    decreases inserts.len(),
{
    if inserts.len() > 0 {
        let (front, last) = (inserts.drop_last(), inserts.last());
        law_saving_keeps_messages_unique(store, front);
        let before = all_inserted(store, front);
        let after = all_inserted(store, inserts);
        assert forall|name: Seq<char>| #[trigger] has_no_doubles(stored(after, name)) by {
            let messages = stored(before, name);
            assert(has_no_doubles(messages));
            if accepts(before, last) && name == last.collection {
                assert(stored(after, name) == messages.push(last.message));
                assert forall|i: int| 0 <= i < messages.len() implies !is_double(
                    #[trigger] messages[i],
                    last.message,
                ) by {
                    assert(messages.contains(messages[i]));
                }
            }
        }
    }
}

/// No change makes a receiver have a message twice in one collection.
pub proof fn law_changing_keeps_messages_unique(
    store: Store,
    names: Seq<Seq<char>>,
    filter: FilterView,
    change: Change,
)
    requires
        is_unique(store),
    ensures
        is_unique(updated(store, names, filter, change)),
{
    let after = updated(store, names, filter, change);
    assert forall|name: Seq<char>| #[trigger] has_no_doubles(stored(after, name)) by {
        lemma_updated(store, names, filter, change, name);
        assert(has_no_doubles(stored(store, name)));
        lemma_left_of_unique(stored(store, name), filter, change);
    }
}

/// Each member of a group reads the message under their own number.
pub proof fn law_group_members_read_the_message(
    store: Store,
    message: MsgView,
    members: Seq<GroupMemSeqView>,
    i: int,
    start: i64,
    end: i64,
    user_shards: u8,
    now: int,
)
    requires
        all_accepted(store, group_inserts(message, members, user_shards, now)),
        has_date(now),
        has_date(message.send_time as int) ==> is_recent(message, 3, now),
        0 <= i < members.len(),
        start <= members[i].cur_seq <= end,
    ensures
        ({
            let read = receiver_read(members[i].mem_id, start, end, user_shards, now);
            let after = all_inserted(store, group_inserts(message, members, user_shards, now));
            read_from(after, read.todo, read.filter).contains(
                (MsgView {
                    receiver_id: members[i].mem_id,
                    seq: members[i].cur_seq,
                    send_seq: 0,
                    ..message
                }),
            )
        }),
{
    let read = receiver_read(members[i].mem_id, start, end, user_shards, now);
    let inserts = group_inserts(message, members, user_shards, now);
    let after = all_inserted(store, inserts);
    let copy = member_copy(message, members[i]);
    let place = inserts[i + 1].collection;
    assert(inserts[i + 1] == insert_of(copy, user_shards, now));
    lemma_all_inserted(store, inserts, place, copy);
    lemma_recent_place(copy, user_shards, MONTHS_READ as nat, now);
    lemma_read_from(after, read.todo, read.filter, copy);
    assert(stored(after, place).contains(copy));
}

/// The sender of a group message reads it in their conversation, under the
/// number among what they sent.
pub proof fn law_group_sender_reads_the_message(
    store: Store,
    message: MsgView,
    members: Seq<GroupMemSeqView>,
    send_start: i64,
    send_end: i64,
    rec_start: i64,
    rec_end: i64,
    user_shards: u8,
    now: int,
)
    requires
        all_accepted(store, group_inserts(message, members, user_shards, now)),
        has_date(now),
        has_date(message.send_time as int) ==> is_recent(message, 3, now),
        send_start <= message.send_seq <= send_end,
    ensures
        ({
            let read = conversation_read(
                message.sender_id,
                send_start,
                send_end,
                rec_start,
                rec_end,
                user_shards,
                now,
            );
            let after = all_inserted(store, group_inserts(message, members, user_shards, now));
            read_from(after, read.todo, read.filter).contains(
                (MsgView { receiver_id: message.sender_id, ..message }),
            )
        }),
{
    let read = conversation_read(
        message.sender_id,
        send_start,
        send_end,
        rec_start,
        rec_end,
        user_shards,
        now,
    );
    let inserts = group_inserts(message, members, user_shards, now);
    let after = all_inserted(store, inserts);
    let copy = sender_copy(message);
    let place = inserts[0].collection;
    assert(inserts[0] == insert_of(copy, user_shards, now));
    lemma_all_inserted(store, inserts, place, copy);
    lemma_recent_place(copy, user_shards, MONTHS_READ as nat, now);
    lemma_read_from(after, read.todo, read.filter, copy);
    assert(stored(after, place).contains(copy));
}

/// A message that is saved to a collection in use is found by its name; and it
/// is that message where no other in the box has the name.
pub proof fn law_saved_message_is_found_by_name(
    store: Store,
    message: MsgView,
    active: Seq<Seq<char>>,
    user_shards: u8,
    now: int,
    choice: spec_fn(Seq<char>, Seq<MsgView>) -> int,
)
    requires
        is_choice(choice, FilterView::ServerId { server_id: message.server_id }),
        active.contains(insert_of(message, user_shards, now).collection),
    ensures
        ({
            let after = inserted(store, insert_of(message, user_shards, now));
            match lookup_run(search_for(message.server_id, active), after, choice).found {
                Some(found) => {
                    &&& found.server_id == message.server_id
                    &&& (forall|other: MsgView| #[trigger]
                        holds(store, other) ==> other.server_id != message.server_id) ==> found
                        == message
                },
                None => false,
            }
        }),
{
    let insert = insert_of(message, user_shards, now);
    let after = inserted(store, insert);
    let search = search_for(message.server_id, active);
    lemma_doubles();
    lemma_lookup_run(search, after, choice);
    lemma_inserted(store, insert, insert.collection, message);
    if accepts(store, insert) {
        assert(stored(after, insert.collection).contains(message));
    } else {
        let other = choose|other: MsgView| #[trigger]
            stored(store, insert.collection).contains(other) && is_double(other, message);
        assert(stored(after, insert.collection).contains(other));
        assert(holds(store, other));
    }
    if let Some(found) = lookup_run(search, after, choice).found {
        let name = choose|name: Seq<char>|
            active.contains(name) && #[trigger] stored(after, name).contains(found);
        lemma_inserted(store, insert, name, found);
        if found != message {
            assert(holds(store, found));
        }
    }
}

/// Deleting a message by its name undoes saving it to a collection in use,
/// where no other message in the box has the name: the collections hold what
/// they held, and the name is not found any more.
pub proof fn law_deleting_undoes_saving(
    store: Store,
    message: MsgView,
    active: Seq<Seq<char>>,
    user_shards: u8,
    now: int,
    choice: spec_fn(Seq<char>, Seq<MsgView>) -> int,
    name: Seq<char>,
)
    requires
        is_choice(choice, FilterView::ServerId { server_id: message.server_id }),
        active.contains(insert_of(message, user_shards, now).collection),
        forall|other: MsgView| #[trigger]
            holds(store, other) ==> other.server_id != message.server_id,
    ensures
        ({
            let saved = inserted(store, insert_of(message, user_shards, now));
            let (delete, after) = delete_run(deletion_of(message.server_id, active), saved, choice);
            &&& delete.failure is None
            &&& stored(after, name) == stored(store, name)
            &&& lookup_run(search_for(message.server_id, active), after, choice).found is None
        }),
{
    let insert = insert_of(message, user_shards, now);
    let saved = inserted(store, insert);
    let place = insert.collection;
    let deletion = deletion_of(message.server_id, active);
    let filter = deletion.filter;
    assert forall|name: Seq<char>, other: MsgView| #[trigger]
        stored(store, name).contains(other) implies !picks(filter, other) by {
        assert(holds(store, other));
    }
    assert forall|name: Seq<char>| #![trigger stored(saved, name)] name != place implies picked(
        stored(saved, name),
        filter,
    ).len() == 0 by {
        let rest = picked(stored(saved, name), filter);
        if rest.len() > 0 {
            assert(rest.contains(rest[0]));
            lemma_picked(stored(saved, name), filter, rest[0]);
            lemma_inserted(store, insert, name, rest[0]);
        }
    }
    lemma_doubles();
    assert(accepts(store, insert));
    lemma_inserted(store, insert, place, message);
    lemma_picked(stored(saved, place), filter, message);
    lemma_delete_run(deletion, saved, choice, place);
    assert(stored(saved, place) == stored(store, place).push(message));
    lemma_without_only(
        stored(store, place),
        message,
        filter,
        choice(place, stored(saved, place)),
    );
    let after = delete_run(deletion, saved, choice).1;
    assert forall|any: Seq<char>| #[trigger] stored(after, any) == stored(store, any) by {}
    let search = search_for(message.server_id, active);
    lemma_lookup_run(search, after, choice);
    if let Some(found) = lookup_run(search, after, choice).found {
        let any = choose|any: Seq<char>|
            active.contains(any) && #[trigger] stored(after, any).contains(found);
        assert(stored(store, any).contains(found));
        assert(holds(store, found));
    }
}

/// The slice of a user is one of the slices.
pub proof fn lemma_user_range(user_id: Seq<char>, user_shards: u8)
    requires
        user_shards > 0,
    ensures
        user_range(user_id, user_shards) < user_shards,
{
}

/// At the start the box gets ready the collections of all messages of the
/// present month, the three before it and the three after it, whoever they are
/// for.
pub proof fn law_startup_readies_the_months_around(message: MsgView, user_shards: u8, now: int)
    requires
        user_shards > 0,
        has_date(now),
        has_date(message.send_time as int),
        month_of(now) - 3 <= month_of(message.send_time as int) <= month_of(now) + 3,
    ensures
        collections_of(startup_months(now), user_shards as nat).contains(
            insert_of(message, user_shards, now).collection,
        ),
{
    let months = startup_months(now);
    let sent = month_of(message.send_time as int);
    lemma_user_range(message.receiver_id, user_shards);
    lemma_collections_of(months, user_shards as nat);
    assert(months[sent - month_of(now) + 3] == sent);
    assert(months.contains(sent));
}

/// A round of clearing takes away, from the collections in use, what was sent
/// before the days to keep, but for the types that are kept for good; and it
/// takes nothing else.
pub proof fn law_clearing_takes_expired_messages_away(
    store: Store,
    active: Seq<Seq<char>>,
    period: i64,
    kept_types: Seq<i32>,
    now: int,
    name: Seq<char>,
    message: MsgView,
)
    requires
        has_date(now),
        has_date(cutoff(period as int, now)),
    ensures
        ({
            let round = round_of(active, period, kept_types, now);
            let after = clean_run(round, store);
            stored(after, name).contains(message) <==> stored(store, name).contains(message) && !(
            active.contains(name) && message.send_time < now - period * 86400
                && !kept_types.contains(message.msg_type))
        }),
{
    lemma_date_bounds(cutoff(period as int, now));
    let round = round_of(active, period, kept_types, now);
    lemma_clean_run(round, store);
    lemma_updated(store, round.todo, round.filter, Change::Delete, name);
    lemma_left_of(stored(store, name), round.filter, Change::Delete, message);
    if active.contains(name) && stored(store, name).contains(message) && !picks(
        round.filter,
        message,
    ) {
        assert(is_left_of(message, message, round.filter, Change::Delete));
    }
    assert forall|before: MsgView| #[trigger]
        is_left_of(message, before, round.filter, Change::Delete) implies before == message
        && !picks(round.filter, message) by {}
}

/// A collection goes out of use exactly when it is of a month before the one
/// that the days to keep lead back to. This is so up to the year 9999, unless
/// both months are from before the year 0.
pub proof fn law_old_collections_go_out_of_use(
    active: Seq<Seq<char>>,
    period: i64,
    kept_types: Seq<i32>,
    now: int,
    month: int,
    user_range: u8,
)
    requires
        month < 120000,
        threshold_month(period, now) < 120000,
        month >= 0 || threshold_month(period, now) >= 0,
    ensures
        active.filter(
            |name: Seq<char>|
                !is_outdated(name, round_of(active, period, kept_types, now).threshold),
        ).contains(collection_name(month, user_range)) <==> active.contains(
            collection_name(month, user_range),
        ) && month >= threshold_month(period, now),
{
    let threshold = round_of(active, period, kept_types, now).threshold;
    lemma_name_year_month(month, user_range);
    lemma_year_month_order(month, threshold_month(period, now));
    lemma_filter_names(active, |name: Seq<char>| !is_outdated(name, threshold));
}

/// What lies in a collection that goes out of use has been expired for more
/// than thirty days.
pub proof fn law_out_of_use_means_long_expired(message: MsgView, period: i64, now: int)
    requires
        period >= 0,
        has_date(now),
        has_date(cutoff(period as int, now)),
        month_of(now) - (period / 30 + 2) >= FIRST_MONTH,
        month_of(message.send_time as int) < threshold_month(period, now),
    ensures
        message.send_time < cutoff(period as int, now) - 30 * 86400,
{
    lemma_date_bounds(now);
    lemma_date_bounds(cutoff(period as int, now));
    let count = period / 30 + 2;
    let (present, threshold) = (month_of(now), month_of(now) - count);
    let sent = message.send_time as int;
    lemma_month_of(now);
    lemma_month_of(sent);
    lemma_months_last(threshold, present);
    if month_of(sent) + 1 < threshold {
        lemma_month_start_monotone(month_of(sent) + 1, threshold);
    }
}

/// A stream hands on the messages of the present month first, then those of the
/// month before it, then those of the month before that: of each month all
/// messages for the receiver with a number in the range, exactly as they are
/// held, and no others.
pub proof fn law_streams_hand_on_messages_as_they_are_held(
    store: Store,
    user_id: Seq<char>,
    start: i64,
    end: i64,
    user_shards: u8,
    now: int,
    answers: Seq<Seq<MsgView>>,
    back: int,
    message: MsgView,
)
    requires
        is_well_placed(store, user_shards),
        has_date(now),
        month_of(now) - 2 >= FIRST_MONTH,
        0 <= back < 3,
        ({
            let stream = receiver_stream(user_id, start, end, user_shards, now);
            are_answers(answers, store, stream.todo, stream.filter)
        }),
    ensures
        ({
            let stream = receiver_stream(user_id, start, end, user_shards, now);
            stream_after(stream, answer_events(answers)).1 == as_items(
                answers[0] + answers[1] + answers[2],
            )
        }),
        answers[back].contains(message) <==> {
            &&& holds(store, message)
            &&& message.receiver_id == user_id
            &&& start <= message.seq <= end
            &&& month_of(message.send_time as int) == month_of(now) - back
        },
{
    broadcast use vstd::seq_lib::group_to_multiset_ensures;

    let stream = receiver_stream(user_id, start, end, user_shards, now);
    let range = user_range(user_id, user_shards);
    let name = stream.todo[back];
    assert(name == collection_name(month_of(now) - back, range));
    let found = picked(stored(store, name), stream.filter);
    assert(is_answer(answers[back], store, stream.todo[back], stream.filter));
    assert(answers[back].to_multiset().count(message) == found.to_multiset().count(message));
    lemma_picked(stored(store, name), stream.filter, message);
    if stored(store, name).contains(message) {
        law_collections_are_distinct(
            month_of(now) - back,
            range,
            month_of(message.send_time as int),
            user_range(message.receiver_id, user_shards),
        );
        assert(holds(store, message));
    }
    if holds(store, message) && message.receiver_id == user_id && month_of(message.send_time as int)
        == month_of(now) - back {
        let place = choose|place: Seq<char>| #[trigger] stored(store, place).contains(message);
        assert(place == name);
    }
    lemma_stream_answers(stream, answers);
    reveal_with_fuel(Seq::flatten, 4);
    let last = answers.drop_first().drop_first();
    assert(last[0] == answers[2] && last.drop_first() =~= Seq::empty());
    assert(answers.drop_first()[0] == answers[1]);
    assert(answers.flatten() =~= answers[0] + answers[1] + answers[2]);
}

/// A search by name finds a message of that name, as it is held, in a collection
/// in use; and it finds none only where no collection in use holds one.
pub proof fn law_messages_are_found_by_name(
    store: Store,
    server_id: Seq<char>,
    active: Seq<Seq<char>>,
    choice: spec_fn(Seq<char>, Seq<MsgView>) -> int,
)
    requires
        is_choice(choice, FilterView::ServerId { server_id }),
    ensures
        ({
            let search = lookup_run(search_for(server_id, active), store, choice);
            &&& search.failure is None
            &&& !search.is_running()
            &&& match search.found {
                Some(message) => message.server_id == server_id && exists|name: Seq<char>|
                    active.contains(name) && #[trigger] stored(store, name).contains(message),
                None => forall|name: Seq<char>, message: MsgView|
                    active.contains(name) && #[trigger] stored(store, name).contains(message)
                        ==> message.server_id != server_id,
            }
        }),
{
    lemma_lookup_run(search_for(server_id, active), store, choice);
}

proof fn lemma_deletion_takes_one(
    store: Store,
    delete: IdDeleteView,
    server_id: Seq<char>,
    choice: spec_fn(Seq<char>, Seq<MsgView>) -> int,
)
    requires
        is_choice(choice, FilterView::ServerId { server_id }),
        delete.filter == (FilterView::ServerId { server_id }),
        delete.failure is None,
        !delete.deleted,
    ensures
        ({
            let (done, after) = delete_run(delete, store, choice);
            &&& done.failure is None
            &&& !done.is_running()
            &&& done.deleted ==> exists|place: Seq<char>, at: int|
                delete.todo.contains(place) && 0 <= at < stored(store, place).len() && (
                #[trigger] stored(store, place)[at]).server_id == server_id && after
                    == store.insert(place, stored(store, place).remove(at))
            &&& !done.deleted ==> after == store && forall|name: Seq<char>, message: MsgView|
                delete.todo.contains(name) && #[trigger] stored(store, name).contains(message)
                    ==> message.server_id != server_id
        }),
    decreases delete.todo.len(),
{
    if delete.todo.len() > 0 {
        let (first, rest) = (delete.todo[0], delete.todo.drop_first());
        let messages = stored(store, first);
        if picked(messages, delete.filter).len() > 0 {
            let at = choice(first, messages);
            let done = delete.after(DeleteEventView::Deleted(1));
            let after = store.insert(first, messages.remove(at));
            assert(delete_run(done, after, choice) == (done, after));
            assert(picks(delete.filter, messages[at]));
            assert(stored(store, first)[at].server_id == server_id);
            assert(delete.todo.contains(first));
        } else {
            let next = delete.after(DeleteEventView::Deleted(0));
            lemma_deletion_takes_one(store, next, server_id, choice);
            let (done, after) = delete_run(next, store, choice);
            if done.deleted {
                let (place, at) = choose|place: Seq<char>, at: int|
                    next.todo.contains(place) && 0 <= at < stored(store, place).len() && (
                    #[trigger] stored(store, place)[at]).server_id == server_id && after
                        == store.insert(place, stored(store, place).remove(at));
                let i = choose|i: int| 0 <= i < rest.len() && rest[i] == place;
                assert(delete.todo[i + 1] == place);
                assert(stored(store, place)[at].server_id == server_id);
            } else {
                assert forall|name: Seq<char>, message: MsgView|
                    delete.todo.contains(name) && #[trigger] stored(store, name).contains(
                        message,
                    ) implies message.server_id != server_id by {
                    if name == first {
                        lemma_picked(messages, delete.filter, message);
                    } else {
                        let i = choose|i: int|
                            0 <= i < delete.todo.len() && delete.todo[i] == name;
                        assert(rest[i - 1] == name);
                    }
                }
            }
        }
    }
}

/// Deleting by name takes one message of that name out of one collection in use,
/// and leaves all else as it is; it leaves everything as it is only where no
/// collection in use holds a message of that name. It ends well either way.
pub proof fn law_deleting_by_name_takes_one_message(
    store: Store,
    server_id: Seq<char>,
    active: Seq<Seq<char>>,
    choice: spec_fn(Seq<char>, Seq<MsgView>) -> int,
)
    requires
        is_choice(choice, FilterView::ServerId { server_id }),
    ensures
        ({
            let (done, after) = delete_run(deletion_of(server_id, active), store, choice);
            &&& done.failure is None
            &&& !done.is_running()
            &&& {
                ||| exists|place: Seq<char>, at: int|
                    active.contains(place) && 0 <= at < stored(store, place).len() && (
                    #[trigger] stored(store, place)[at]).server_id == server_id && after
                        == store.insert(place, stored(store, place).remove(at))
                ||| after == store && forall|name: Seq<char>, message: MsgView|
                    active.contains(name) && #[trigger] stored(store, name).contains(message)
                        ==> message.server_id != server_id
            }
        }),
{
    lemma_deletion_takes_one(store, deletion_of(server_id, active), server_id, choice);
}

/// Where messages are kept so many days, the collections in use after a round of
/// clearing are those from two months more than the whole months of thirty days
/// before the present one on. This is so up to the year 9999, unless both months
/// are from before the year 0.
pub proof fn law_collections_stay_in_use_for_the_days_to_keep(
    active: Seq<Seq<char>>,
    period: i64,
    kept_types: Seq<i32>,
    now: int,
    month: int,
    user_range: u8,
)
    requires
        period >= 0,
        has_date(now),
        month_of(now) - (period / 30 + 2) >= FIRST_MONTH,
        month < 120000,
        month_of(now) - (period / 30 + 2) < 120000,
        month >= 0 || month_of(now) - (period / 30 + 2) >= 0,
    ensures
        active.filter(
            |name: Seq<char>|
                !is_outdated(name, round_of(active, period, kept_types, now).threshold),
        ).contains(collection_name(month, user_range)) <==> active.contains(
            collection_name(month, user_range),
        ) && month >= month_of(now) - (period / 30 + 2),
        round_of(active, period, kept_types, now).todo == active,
{
    law_old_collections_go_out_of_use(active, period, kept_types, now, month, user_range);
}

} // verus!
