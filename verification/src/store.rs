//! A picture of the database: a map from the names of collections to the
//! messages in them, in the order in which they were inserted.

use vstd::prelude::*;

use crate::calendar::has_date;
use crate::clean::CleanRoundView;
use crate::error::ErrorView;
use crate::filter::{picks, FilterView};
use crate::lookup::{DeleteEventView, IdDeleteView, IdLookupView, LookupEventView};
use crate::message::MsgView;
use crate::order::MessageOrderView;
use crate::provision::{index_model_at, IndexModelView, INDEX_COUNT};
use crate::read::{as_read, MessageReadView, ReadEventView};
use crate::shard::{insert_of, InsertView};
use crate::stream::{MessageStreamView, StreamEventView};
use crate::update::{changed, Change, SeqUpdateView, UpdateEventView};

verus! {

pub type Store = Map<Seq<char>, Seq<MsgView>>;

/// The messages of a collection: none where there is no such collection.
pub open spec fn stored(store: Store, name: Seq<char>) -> Seq<MsgView> {
    if store.contains_key(name) {
        store[name]
    } else {
        Seq::empty()
    }
}

/// What a field of a message holds.
pub enum FieldView {
    Text(Seq<char>),
    Number(i64),
}

/// The field of a message that an index names.
pub open spec fn field_of(message: MsgView, name: Seq<char>) -> Option<FieldView> {
    if name == "server_id"@ {
        Some(FieldView::Text(message.server_id))
    } else if name == "receiver_id"@ {
        Some(FieldView::Text(message.receiver_id))
    } else if name == "sender_id"@ {
        Some(FieldView::Text(message.sender_id))
    } else if name == "seq"@ {
        Some(FieldView::Number(message.seq))
    } else if name == "send_seq"@ {
        Some(FieldView::Number(message.send_seq))
    } else if name == "send_time"@ {
        Some(FieldView::Number(message.send_time))
    } else {
        None
    }
}

/// Whether two messages have the same in all fields of an index.
pub open spec fn agree_in(index: IndexModelView, one: MsgView, other: MsgView) -> bool {
    forall|i: int|
        0 <= i < index.keys.len() ==> field_of(one, #[trigger] index.keys[i]) == field_of(
            other,
            index.keys[i],
        )
}

/// Whether no collection takes both messages: they have the same in all fields of
/// one of its unique indexes.
pub open spec fn is_double(one: MsgView, other: MsgView) -> bool {
    exists|place: int|
        0 <= place < INDEX_COUNT && (#[trigger] index_model_at(place)).unique && agree_in(
            index_model_at(place),
            one,
            other,
        )
}

/// By the indexes that each collection has, it refuses a message only where it
/// holds one with the same name for the same receiver.
pub proof fn law_only_the_same_message_for_the_same_receiver_is_refused(
    one: MsgView,
    other: MsgView,
)
    ensures
        is_double(one, other) <==> one.server_id == other.server_id && one.receiver_id
            == other.receiver_id,
{
    reveal_strlit("server_id");
    reveal_strlit("receiver_id");
    let keys = index_model_at(3).keys;
    assert("server_id"@.len() != "receiver_id"@.len());
    assert(keys[0] == "server_id"@ && keys[1] == "receiver_id"@);
    if one.server_id == other.server_id && one.receiver_id == other.receiver_id {
        assert(agree_in(index_model_at(3), one, other));
    }
    assert forall|place: int|
        0 <= place < INDEX_COUNT && (#[trigger] index_model_at(place)).unique && agree_in(
            index_model_at(place),
            one,
            other,
        ) implies one.server_id == other.server_id && one.receiver_id == other.receiver_id by {
        assert(field_of(one, keys[0]) == field_of(other, keys[0]));
        assert(field_of(one, keys[1]) == field_of(other, keys[1]));
    }
}

/// A collection takes a message exactly when it holds none with the same name for
/// the same receiver, whatever else the messages have in common.
pub proof fn law_a_collection_takes_each_message_once_for_each_receiver(
    store: Store,
    insert: InsertView,
)
    ensures
        accepts(store, insert) <==> forall|other: MsgView| #[trigger]
            stored(store, insert.collection).contains(other) ==> !(other.server_id
                == insert.message.server_id && other.receiver_id == insert.message.receiver_id),
{
    lemma_doubles();
}

/// What two messages that no collection takes both have in common.
pub proof fn lemma_doubles()
    ensures
        forall|one: MsgView, other: MsgView| #[trigger]
            is_double(one, other) <==> one.server_id == other.server_id && one.receiver_id
                == other.receiver_id,
{
    assert forall|one: MsgView, other: MsgView| #[trigger] is_double(one, other) <==> one.server_id
        == other.server_id && one.receiver_id == other.receiver_id by {
        law_only_the_same_message_for_the_same_receiver_is_refused(one, other);
    }
}

/// Whether the collection takes the message of an insertion.
pub open spec fn accepts(store: Store, insert: InsertView) -> bool {
    forall|other: MsgView| #[trigger]
        stored(store, insert.collection).contains(other) ==> !is_double(other, insert.message)
}

/// The store after an insertion. One that is refused changes nothing.
pub open spec fn inserted(store: Store, insert: InsertView) -> Store {
    if accepts(store, insert) {
        store.insert(insert.collection, stored(store, insert.collection).push(insert.message))
    } else {
        store
    }
}

/// Whether each of several insertions is accepted, one after the other.
pub open spec fn all_accepted(store: Store, inserts: Seq<InsertView>) -> bool
    decreases inserts.len(),
{
    inserts.len() == 0 || {
        &&& all_accepted(store, inserts.drop_last())
        &&& accepts(all_inserted(store, inserts.drop_last()), inserts.last())
    }
}

/// Whether no collection holds a message twice for the same receiver.
pub open spec fn is_unique(store: Store) -> bool {
    forall|name: Seq<char>| #[trigger] has_no_doubles(stored(store, name))
}

/// Whether no message stands twice in the list for the same receiver.
pub open spec fn has_no_doubles(messages: Seq<MsgView>) -> bool {
    forall|i: int, j: int|
        0 <= i < j < messages.len() ==> !is_double(#[trigger] messages[i], #[trigger] messages[j])
}

/// The store after several insertions.
pub open spec fn all_inserted(store: Store, inserts: Seq<InsertView>) -> Store
    decreases inserts.len(),
{
    if inserts.len() == 0 {
        store
    } else {
        inserted(all_inserted(store, inserts.drop_last()), inserts.last())
    }
}

/// The messages of a list that a filter picks.
pub open spec fn picked(messages: Seq<MsgView>, filter: FilterView) -> Seq<MsgView> {
    messages.filter(|message: MsgView| picks(filter, message))
}

/// What a filter picks from several collections, one after the other.
pub open spec fn read_from(store: Store, names: Seq<Seq<char>>, filter: FilterView) -> Seq<MsgView>
    decreases names.len(),
{
    if names.len() == 0 {
        Seq::empty()
    } else {
        picked(stored(store, names[0]), filter) + read_from(store, names.drop_first(), filter)
    }
}

/// Whether every message lies where it belongs: in the collection of the month
/// in which it was sent and of the slice of its receiver.
pub open spec fn is_well_placed(store: Store, user_shards: u8) -> bool {
    forall|name: Seq<char>, message: MsgView| #[trigger]
        stored(store, name).contains(message) ==> has_date(message.send_time as int) && name
            == insert_of(message, user_shards, message.send_time as int).collection
}

/// Whether some collection holds the message.
pub open spec fn holds(store: Store, message: MsgView) -> bool {
    exists|name: Seq<char>| #[trigger] stored(store, name).contains(message)
}

pub proof fn lemma_picked(messages: Seq<MsgView>, filter: FilterView, message: MsgView)
    ensures
        picked(messages, filter).contains(message) <==> messages.contains(message) && picks(
            filter,
            message,
        ),
    decreases messages.len(),
{
    reveal(Seq::filter);
    if messages.len() > 0 {
        let (front, last) = (messages.drop_last(), messages.last());
        lemma_picked(front, filter, message);
        let rest = picked(front, filter);
        lemma_push_contains(front, last, message);
        assert(front.push(last) =~= messages);
        lemma_push_contains(rest, last, message);
    } else {
        assert(picked(messages, filter).len() == 0);
    }
}

proof fn lemma_push_contains(messages: Seq<MsgView>, last: MsgView, message: MsgView)
    ensures
        messages.push(last).contains(message) <==> messages.contains(message) || message == last,
{
    let more = messages.push(last);
    assert(more[messages.len() as int] == last);
    if messages.contains(message) {
        let i = choose|i: int| 0 <= i < messages.len() && messages[i] == message;
        assert(more[i] == message);
    }
    if more.contains(message) && message != last {
        let i = choose|i: int| 0 <= i < more.len() && more[i] == message;
        assert(messages[i] == message);
    }
}

proof fn lemma_add_contains(a: Seq<MsgView>, b: Seq<MsgView>, message: MsgView)
    ensures
        (a + b).contains(message) <==> a.contains(message) || b.contains(message),
{
    let c = a + b;
    if a.contains(message) {
        let i = choose|i: int| 0 <= i < a.len() && a[i] == message;
        assert(c[i] == message);
    }
    if b.contains(message) {
        let i = choose|i: int| 0 <= i < b.len() && b[i] == message;
        assert(c[a.len() + i] == message);
    }
    if c.contains(message) {
        let i = choose|i: int| 0 <= i < c.len() && c[i] == message;
        if i < a.len() {
            assert(a[i] == message);
        } else {
            assert(b[i - a.len()] == message);
        }
    }
}

/// What is read from several collections lies in one of them, and the filter
/// picks it; and all such messages are read.
pub proof fn lemma_read_from(
    store: Store,
    names: Seq<Seq<char>>,
    filter: FilterView,
    message: MsgView,
)
    ensures
        read_from(store, names, filter).contains(message) <==> picks(filter, message) && exists|
            name: Seq<char>,
        |
            names.contains(name) && #[trigger] stored(store, name).contains(message),
    decreases names.len(),
{
    if names.len() > 0 {
        let (first, rest) = (names[0], names.drop_first());
        lemma_read_from(store, rest, filter, message);
        lemma_picked(stored(store, first), filter, message);
        lemma_add_contains(
            picked(stored(store, first), filter),
            read_from(store, rest, filter),
            message,
        );
        assert forall|name: Seq<char>| #[trigger] names.contains(name) <==> rest.contains(name)
            || name == first by {
            if rest.contains(name) {
                let i = choose|i: int| 0 <= i < rest.len() && rest[i] == name;
                assert(names[i + 1] == name);
            }
            if names.contains(name) && name != first {
                let i = choose|i: int| 0 <= i < names.len() && names[i] == name;
                assert(rest[i - 1] == name);
            }
        }
    } else {
        assert(read_from(store, names, filter).len() == 0);
        assert forall|name: Seq<char>| !(#[trigger] names.contains(name)) by {}
    }
}

/// An insertion that is accepted adds its message to its collection, and none
/// changes anything else.
pub proof fn lemma_inserted(store: Store, insert: InsertView, name: Seq<char>, message: MsgView)
    ensures
        stored(inserted(store, insert), name).contains(message) <==> stored(store, name).contains(
            message,
        ) || (accepts(store, insert) && name == insert.collection && message == insert.message),
{
    lemma_push_contains(stored(store, insert.collection), insert.message, message);
}

/// Several insertions change nothing but that they add their messages to their
/// collections, all of them where each is accepted.
pub proof fn lemma_all_inserted(
    store: Store,
    inserts: Seq<InsertView>,
    name: Seq<char>,
    message: MsgView,
)
    ensures
        stored(all_inserted(store, inserts), name).contains(message) ==> stored(store, name).contains(
            message,
        ) || inserts.contains((InsertView { collection: name, message })),
        stored(store, name).contains(message) ==> stored(
            all_inserted(store, inserts),
            name,
        ).contains(message),
        all_accepted(store, inserts) && inserts.contains(
            (InsertView { collection: name, message }),
        ) ==> stored(all_inserted(store, inserts), name).contains(message),
    decreases inserts.len(),
{
    let wanted = InsertView { collection: name, message };
    if inserts.len() > 0 {
        let (front, last) = (inserts.drop_last(), inserts.last());
        lemma_all_inserted(store, front, name, message);
        lemma_inserted(all_inserted(store, front), last, name, message);
        assert(inserts[inserts.len() - 1] == last);
        if front.contains(wanted) {
            let i = choose|i: int| 0 <= i < front.len() && front[i] == wanted;
            assert(inserts[i] == wanted);
        }
        if inserts.contains(wanted) && wanted != last {
            let i = choose|i: int| 0 <= i < inserts.len() && inserts[i] == wanted;
            assert(front[i] == wanted);
        }
    }
}

/// Whether two insertions stand in each other's way.
pub open spec fn collides(one: InsertView, other: InsertView) -> bool {
    one.collection == other.collection && is_double(one.message, other.message)
}

/// Several insertions are all accepted exactly when each is by itself and no two
/// of them stand in each other's way.
pub proof fn lemma_all_accepted(store: Store, inserts: Seq<InsertView>)
    ensures
        all_accepted(store, inserts) <==> {
            &&& forall|i: int| 0 <= i < inserts.len() ==> accepts(store, #[trigger] inserts[i])
            &&& forall|i: int, j: int|
                0 <= i < j < inserts.len() ==> !collides(#[trigger] inserts[i], #[trigger] inserts[j])
        },
    decreases inserts.len(),
{
    if inserts.len() > 0 {
        let (front, last) = (inserts.drop_last(), inserts.last());
        let after = all_inserted(store, front);
        lemma_all_accepted(store, front);
        assert(inserts[inserts.len() - 1] == last);
        if all_accepted(store, inserts) {
            assert forall|i: int| 0 <= i < inserts.len() implies accepts(
                store,
                #[trigger] inserts[i],
            ) by {
                if i < front.len() {
                    assert(front[i] == inserts[i]);
                } else {
                    assert forall|other: MsgView| #[trigger]
                        stored(store, last.collection).contains(other) implies !is_double(
                        other,
                        last.message,
                    ) by {
                        lemma_all_inserted(store, front, last.collection, other);
                        assert(stored(after, last.collection).contains(other));
                    }
                }
            }
            assert forall|i: int, j: int| 0 <= i < j < inserts.len() implies !collides(
                #[trigger] inserts[i],
                #[trigger] inserts[j],
            ) by {
                assert(front[i] == inserts[i]);
                if j < front.len() {
                    assert(front[j] == inserts[j]);
                } else if inserts[i].collection == last.collection {
                    lemma_all_inserted(store, front, last.collection, front[i].message);
                    assert(front.contains(
                        (InsertView { collection: last.collection, message: front[i].message }),
                    ));
                    assert(stored(after, last.collection).contains(front[i].message));
                }
            }
        }
        if (forall|i: int| 0 <= i < inserts.len() ==> accepts(store, #[trigger] inserts[i])) && (
        forall|i: int, j: int|
            0 <= i < j < inserts.len() ==> !collides(#[trigger] inserts[i], #[trigger] inserts[j])) {
            assert forall|i: int| 0 <= i < front.len() implies accepts(
                store,
                #[trigger] front[i],
            ) by {
                assert(front[i] == inserts[i]);
            }
            assert forall|i: int, j: int| 0 <= i < j < front.len() implies !collides(
                #[trigger] front[i],
                #[trigger] front[j],
            ) by {
                assert(front[i] == inserts[i] && front[j] == inserts[j]);
            }
            assert forall|other: MsgView| #[trigger]
                stored(after, last.collection).contains(other) implies !is_double(
                other,
                last.message,
            ) by {
                lemma_all_inserted(store, front, last.collection, other);
                if !stored(store, last.collection).contains(other) {
                    let wanted = InsertView { collection: last.collection, message: other };
                    let i = choose|i: int| 0 <= i < front.len() && front[i] == wanted;
                    assert(inserts[i] == wanted);
                    assert(!collides(inserts[i], inserts[inserts.len() - 1]));
                } else {
                    assert(accepts(store, inserts[inserts.len() - 1]));
                }
            }
        }
    }
}

/// Whether an insertion is accepted in its turn, after those before it.
pub open spec fn is_accepted_at(store: Store, inserts: Seq<InsertView>, i: int) -> bool {
    accepts(all_inserted(store, inserts.take(i)), inserts[i])
}

/// Several insertions are all accepted exactly when each is in its turn.
pub proof fn lemma_accepted_in_turn(store: Store, inserts: Seq<InsertView>)
    ensures
        all_accepted(store, inserts) <==> forall|i: int|
            0 <= i < inserts.len() ==> #[trigger] is_accepted_at(store, inserts, i),
    decreases inserts.len(),
{
    if inserts.len() > 0 {
        let front = inserts.drop_last();
        let last = front.len() as int;
        lemma_accepted_in_turn(store, front);
        assert forall|i: int| 0 <= i < last implies #[trigger] is_accepted_at(store, inserts, i)
            == is_accepted_at(store, front, i) by {
            assert(inserts.take(i) =~= front.take(i));
        }
        assert(inserts.take(last) =~= front);
        assert(is_accepted_at(store, inserts, last) == accepts(
            all_inserted(store, front),
            inserts.last(),
        ));
        if all_accepted(store, front) {
            assert forall|i: int| 0 <= i < last implies #[trigger] is_accepted_at(
                store,
                inserts,
                i,
            ) by {
                assert(is_accepted_at(store, front, i));
            }
        } else {
            let i = choose|i: int| 0 <= i < last && !#[trigger] is_accepted_at(store, front, i);
            assert(!is_accepted_at(store, inserts, i));
        }
    }
}

/// What is left of a list when what a filter picks is changed.
pub open spec fn left_of(messages: Seq<MsgView>, filter: FilterView, change: Change) -> Seq<MsgView>
    decreases messages.len(),
{
    if messages.len() == 0 {
        Seq::empty()
    } else {
        let front = left_of(messages.drop_last(), filter, change);
        let last = messages.last();
        if picks(filter, last) {
            match changed(change, last) {
                Some(left) => front.push(left),
                None => front,
            }
        } else {
            front.push(last)
        }
    }
}

/// The store after what a filter picks was changed in several collections.
pub open spec fn updated(
    store: Store,
    names: Seq<Seq<char>>,
    filter: FilterView,
    change: Change,
) -> Store
    decreases names.len(),
{
    if names.len() == 0 {
        store
    } else {
        let before = updated(store, names.drop_last(), filter, change);
        before.insert(names.last(), left_of(stored(before, names.last()), filter, change))
    }
}

/// Whether the one message is what is left of the other.
pub open spec fn is_left_of(
    left: MsgView,
    message: MsgView,
    filter: FilterView,
    change: Change,
) -> bool {
    if picks(filter, message) {
        changed(change, message) == Some(left)
    } else {
        left == message
    }
}

pub proof fn lemma_left_of(
    messages: Seq<MsgView>,
    filter: FilterView,
    change: Change,
    left: MsgView,
)
    ensures
        left_of(messages, filter, change).contains(left) <==> exists|message: MsgView|
            messages.contains(message) && #[trigger] is_left_of(left, message, filter, change),
    decreases messages.len(),
{
    if messages.len() > 0 {
        let (front, last) = (messages.drop_last(), messages.last());
        lemma_left_of(front, filter, change, left);
        let rest = left_of(front, filter, change);
        assert forall|message: MsgView| #[trigger] messages.contains(message) <==> front.contains(
            message,
        ) || message == last by {
            lemma_push_contains(front, last, message);
            assert(front.push(last) =~= messages);
        }
        if picks(filter, last) {
            if let Some(kept) = changed(change, last) {
                lemma_push_contains(rest, kept, left);
            }
        } else {
            lemma_push_contains(rest, last, left);
        }
        if rest.contains(left) {
            let message = choose|message: MsgView|
                front.contains(message) && #[trigger] is_left_of(left, message, filter, change);
            assert(messages.contains(message));
        }
        if is_left_of(left, last, filter, change) {
            assert(messages.contains(last));
        }
    } else {
        assert(left_of(messages, filter, change).len() == 0);
        assert forall|message: MsgView| !(#[trigger] messages.contains(message)) by {}
    }
}

/// What is left of a list has no doubles where the list has none.
pub proof fn lemma_left_of_unique(messages: Seq<MsgView>, filter: FilterView, change: Change)
    requires
        has_no_doubles(messages),
    ensures
        has_no_doubles(left_of(messages, filter, change)),
    decreases messages.len(),
{
    lemma_doubles();
    if messages.len() > 0 {
        let (front, last) = (messages.drop_last(), messages.last());
        assert forall|i: int, j: int| 0 <= i < j < front.len() implies !is_double(
            #[trigger] front[i],
            #[trigger] front[j],
        ) by {
            assert(front[i] == messages[i] && front[j] == messages[j]);
        }
        lemma_left_of_unique(front, filter, change);
        let rest = left_of(front, filter, change);
        assert forall|i: int| 0 <= i < rest.len() implies !is_double(#[trigger] rest[i], last) by {
            lemma_left_of(front, filter, change, rest[i]);
            assert(rest.contains(rest[i]));
            let before = choose|before: MsgView|
                front.contains(before) && #[trigger] is_left_of(rest[i], before, filter, change);
            let k = choose|k: int| 0 <= k < front.len() && front[k] == before;
            assert(messages[k] == before && messages[messages.len() - 1] == last);
            assert(!is_double(messages[k], messages[messages.len() - 1]));
        }
    }
}

/// A change made a second time changes nothing more.
proof fn lemma_left_of_twice(messages: Seq<MsgView>, filter: FilterView, change: Change)
    ensures
        left_of(left_of(messages, filter, change), filter, change) == left_of(
            messages,
            filter,
            change,
        ),
    decreases messages.len(),
{
    if messages.len() > 0 {
        let (front, last) = (messages.drop_last(), messages.last());
        lemma_left_of_twice(front, filter, change);
        let rest = left_of(front, filter, change);
        if !picks(filter, last) {
            assert(rest.push(last).drop_last() =~= rest);
        } else if let Some(kept) = changed(change, last) {
            assert(rest.push(kept).drop_last() =~= rest);
            assert(picks(filter, kept));
        }
    }
}

/// A change reaches each of the named collections, and no other.
pub proof fn lemma_updated(
    store: Store,
    names: Seq<Seq<char>>,
    filter: FilterView,
    change: Change,
    name: Seq<char>,
)
    ensures
        stored(updated(store, names, filter, change), name) == if names.contains(name) {
            left_of(stored(store, name), filter, change)
        } else {
            stored(store, name)
        },
    decreases names.len(),
{
    if names.len() > 0 {
        let (front, last) = (names.drop_last(), names.last());
        lemma_updated(store, front, filter, change, name);
        lemma_left_of_twice(stored(store, name), filter, change);
        assert(names[names.len() - 1] == last);
        if front.contains(name) {
            let i = choose|i: int| 0 <= i < front.len() && front[i] == name;
            assert(names[i] == name);
        }
        if names.contains(name) && name != last {
            let i = choose|i: int| 0 <= i < names.len() && names[i] == name;
            assert(front[i] == name);
        }
    }
}

/// A change of several collections begins with the first of them.
proof fn lemma_updated_first(
    store: Store,
    names: Seq<Seq<char>>,
    filter: FilterView,
    change: Change,
)
    requires
        names.len() > 0,
    ensures
        updated(store, names, filter, change) == updated(
            store.insert(names[0], left_of(stored(store, names[0]), filter, change)),
            names.drop_first(),
            filter,
            change,
        ),
    decreases names.len(),
{
    reveal_with_fuel(updated, 2);
    let rest = names.drop_first();
    if names.len() > 1 {
        lemma_updated_first(store, names.drop_last(), filter, change);
        assert(names.drop_last().drop_first() =~= rest.drop_last());
    }
}

/// A change carried through against a database without faults, and the store
/// that it leaves.
pub open spec fn update_run(update: SeqUpdateView, store: Store) -> (SeqUpdateView, Store)
    decreases update.todo.len(),
{
    if update.is_running() {
        let name = update.todo[0];
        update_run(
            update.after(UpdateEventView::Applied),
            store.insert(name, left_of(stored(store, name), update.filter, update.change)),
        )
    } else {
        (update, store)
    }
}

/// A change against a database without faults ends, does not fail, and reaches
/// each of its collections.
pub proof fn lemma_update_run(update: SeqUpdateView, store: Store)
    requires
        update.failure is None,
    ensures
        update_run(update, store).0.failure is None,
        !update_run(update, store).0.is_running(),
        update_run(update, store).1 == updated(store, update.todo, update.filter, update.change),
    decreases update.todo.len(),
{
    if update.todo.len() > 0 {
        let name = update.todo[0];
        lemma_updated_first(store, update.todo, update.filter, update.change);
        lemma_update_run(
            update.after(UpdateEventView::Applied),
            store.insert(name, left_of(stored(store, name), update.filter, update.change)),
        );
    }
}

/// A round of clearing carried through against a database without faults, and
/// the store that it leaves.
pub open spec fn clean_run(round: CleanRoundView, store: Store) -> Store
    decreases round.todo.len(),
{
    if round.todo.len() == 0 {
        store
    } else {
        let name = round.todo[0];
        clean_run(
            round.next(),
            store.insert(name, left_of(stored(store, name), round.filter, Change::Delete)),
        )
    }
}

/// A round of clearing against a database without faults reaches each of its
/// collections.
pub proof fn lemma_clean_run(round: CleanRoundView, store: Store)
    ensures
        clean_run(round, store) == updated(store, round.todo, round.filter, Change::Delete),
    decreases round.todo.len(),
{
    if round.todo.len() > 0 {
        let name = round.todo[0];
        lemma_updated_first(store, round.todo, round.filter, Change::Delete);
        lemma_clean_run(
            round.next(),
            store.insert(name, left_of(stored(store, name), round.filter, Change::Delete)),
        );
    }
}

/// Whether a database without faults may answer so when a collection is read:
/// with the messages that the filter picks, each as often as it is there, in
/// whatever order.
pub open spec fn is_answer(
    answer: Seq<MsgView>,
    store: Store,
    name: Seq<char>,
    filter: FilterView,
) -> bool {
    answer.to_multiset() == picked(stored(store, name), filter).to_multiset()
}

/// Whether a database without faults may answer so when some collections are
/// read, one answer for each of them in turn.
pub open spec fn are_answers(
    answers: Seq<Seq<MsgView>>,
    store: Store,
    names: Seq<Seq<char>>,
    filter: FilterView,
) -> bool {
    &&& answers.len() == names.len()
    &&& forall|i: int|
        0 <= i < names.len() ==> is_answer(#[trigger] answers[i], store, names[i], filter)
}

/// The events of a reading with these answers.
pub open spec fn read_events(answers: Seq<Seq<MsgView>>) -> Seq<ReadEventView>
    decreases answers.len(),
{
    if answers.len() == 0 {
        Seq::empty()
    } else {
        (read_events(answers.drop_last()) + answers.last().map_values(
            |message: MsgView| ReadEventView::Message(message),
        )).push(ReadEventView::Drained)
    }
}

/// A reading after several events.
pub open spec fn read_after(read: MessageReadView, events: Seq<ReadEventView>) -> MessageReadView
    decreases events.len(),
{
    if events.len() == 0 {
        read
    } else {
        read_after(read, events.drop_last()).after(events.last())
    }
}

/// A reading carried through with these answers.
pub open spec fn read_run(read: MessageReadView, answers: Seq<Seq<MsgView>>) -> MessageReadView {
    read_after(read, read_events(answers))
}

/// The messages of a list as the reader gets them.
pub open spec fn as_read_all(order: MessageOrderView, messages: Seq<MsgView>) -> Seq<
    MsgView,
> {
    messages.map_values(|message: MsgView| as_read(order, message))
}

proof fn lemma_read_messages(
    read: MessageReadView,
    events: Seq<ReadEventView>,
    messages: Seq<MsgView>,
)
    ensures
        ({
            let more = messages.map_values(|message: MsgView| ReadEventView::Message(message));
            let before = read_after(read, events);
            read_after(read, events + more) == (MessageReadView {
                messages: before.messages + as_read_all(before.order, messages),
                ..before
            })
        }),
    decreases messages.len(),
{
    let more = messages.map_values(|message: MsgView| ReadEventView::Message(message));
    let before = read_after(read, events);
    if messages.len() == 0 {
        assert(events + more =~= events);
        assert(before.messages + as_read_all(before.order, messages) =~= before.messages);
    } else {
        let (front, last) = (messages.drop_last(), messages.last());
        lemma_read_messages(read, events, front);
        assert((events + more).drop_last() =~= events + front.map_values(
            |message: MsgView| ReadEventView::Message(message),
        ));
        assert((before.messages + as_read_all(before.order, front)).push(
            as_read(before.order, last),
        ) =~= before.messages + as_read_all(before.order, messages));
    }
}

/// A reading with one answer for each collection ends, does not fail, and has
/// read the answers one after the other.
pub proof fn lemma_read_run(read: MessageReadView, answers: Seq<Seq<MsgView>>)
    requires
        answers.len() <= read.todo.len(),
    ensures
        read_run(read, answers) == (MessageReadView {
            todo: read.todo.skip(answers.len() as int),
            messages: read.messages + as_read_all(read.order, answers.flatten()),
            ..read
        }),
    decreases answers.len(),
{
    let order = read.order;
    if answers.len() == 0 {
        assert(read.todo.skip(0) =~= read.todo);
        assert(read.messages + as_read_all(order, answers.flatten()) =~= read.messages);
    } else {
        let (front, last) = (answers.drop_last(), answers.last());
        lemma_read_run(read, front);
        let events = read_events(front);
        let more = last.map_values(|message: MsgView| ReadEventView::Message(message));
        lemma_read_messages(read, events, last);
        assert(read_events(answers).drop_last() =~= events + more);
        front.lemma_flatten_push(last);
        assert(front.push(last) =~= answers);
        let so_far = as_read_all(order, front.flatten());
        assert(as_read_all(order, front.flatten() + last) =~= so_far + as_read_all(order, last));
        assert(read.messages + (so_far + as_read_all(order, last)) =~= read.messages + so_far
            + as_read_all(order, last));
        assert(read.todo.skip(front.len() as int).drop_first() =~= read.todo.skip(
            answers.len() as int,
        ));
    }
}

/// Lists that hold the same messages, each as often, are the same to the reader
/// but for the order.
pub proof fn lemma_as_read_all(
    order: MessageOrderView,
    one: Seq<MsgView>,
    other: Seq<MsgView>,
)
    requires
        one.to_multiset() == other.to_multiset(),
    ensures
        as_read_all(order, one).to_multiset() == as_read_all(order, other).to_multiset(),
    decreases one.len(),
{
    broadcast use vstd::seq_lib::group_to_multiset_ensures;

    assert(one.len() == one.to_multiset().len() == other.len());
    if one.len() == 0 {
        assert(as_read_all(order, one) =~= as_read_all(order, other));
    } else {
        let (front, last) = (one.drop_last(), one.last());
        assert(one =~= front.push(last));
        assert(other.to_multiset().count(last) > 0);
        assert(other.contains(last));
        let i = choose|i: int| 0 <= i < other.len() && other[i] == last;
        let rest = other.remove(i);
        assert(front.to_multiset() =~= one.to_multiset().remove(last));
        assert(rest.to_multiset() =~= other.to_multiset().remove(last));
        lemma_as_read_all(order, front, rest);
        let (got, kept) = (as_read_all(order, one), as_read_all(order, other));
        let read = as_read(order, last);
        assert(got =~= as_read_all(order, front).push(read));
        assert(kept.remove(i) =~= as_read_all(order, rest));
        assert(kept[i] == read);
        assert(kept.contains(read));
        assert(kept.to_multiset() =~= kept.remove(i).to_multiset().insert(read));
    }
}

/// Whether a database comes upon one of the messages that a filter picks, where
/// there is one. Which of them it comes upon is its own choice: `choice` tells
/// the place in each collection, given its name and its messages.
pub open spec fn is_choice(
    choice: spec_fn(Seq<char>, Seq<MsgView>) -> int,
    filter: FilterView,
) -> bool {
    forall|name: Seq<char>, messages: Seq<MsgView>|
        picked(messages, filter).len() > 0 ==> 0 <= #[trigger] choice(name, messages)
            < messages.len() && picks(filter, messages[choice(name, messages)])
}

/// What a database without faults answers when a message is looked for.
pub open spec fn lookup_event(
    store: Store,
    name: Seq<char>,
    filter: FilterView,
    choice: spec_fn(Seq<char>, Seq<MsgView>) -> int,
) -> LookupEventView {
    let messages = stored(store, name);
    if picked(messages, filter).len() == 0 {
        LookupEventView::Absent
    } else {
        LookupEventView::Found(messages[choice(name, messages)])
    }
}

/// A search carried through against a database without faults.
pub open spec fn lookup_run(
    lookup: IdLookupView,
    store: Store,
    choice: spec_fn(Seq<char>, Seq<MsgView>) -> int,
) -> IdLookupView
    decreases lookup.todo.len(), (if lookup.found is None { 1int } else { 0 }),
{
    if lookup.is_running() {
        lookup_run(
            lookup.after(lookup_event(store, lookup.todo[0], lookup.filter, choice)),
            store,
            choice,
        )
    } else {
        lookup
    }
}

/// A search against a database without faults does not fail, and finds a
/// message exactly where one of the collections holds one that the filter
/// picks.
pub proof fn lemma_lookup_run(
    lookup: IdLookupView,
    store: Store,
    choice: spec_fn(Seq<char>, Seq<MsgView>) -> int,
)
    requires
        is_choice(choice, lookup.filter),
        lookup.failure is None,
        lookup.found is None,
    ensures
        lookup_run(lookup, store, choice).failure is None,
        !lookup_run(lookup, store, choice).is_running(),
        match lookup_run(lookup, store, choice).found {
            Some(message) => picks(lookup.filter, message) && exists|name: Seq<char>|
                lookup.todo.contains(name) && #[trigger] stored(store, name).contains(message),
            None => forall|name: Seq<char>, message: MsgView|
                lookup.todo.contains(name) && #[trigger] stored(store, name).contains(message)
                    ==> !picks(lookup.filter, message),
        },
    decreases lookup.todo.len(),
{
    if lookup.todo.len() > 0 {
        let (first, rest) = (lookup.todo[0], lookup.todo.drop_first());
        let found = picked(stored(store, first), lookup.filter);
        let next = lookup.after(lookup_event(store, first, lookup.filter, choice));
        if found.len() > 0 {
            let place = choice(first, stored(store, first));
            assert(stored(store, first).contains(stored(store, first)[place]));
            assert(lookup.todo.contains(first));
            assert(lookup_run(next, store, choice) == next);
        } else {
            lemma_lookup_run(next, store, choice);
            assert forall|name: Seq<char>| #[trigger] lookup.todo.contains(name) implies
                rest.contains(name) || name == first by {
                let i = choose|i: int| 0 <= i < lookup.todo.len() && lookup.todo[i] == name;
                if i > 0 {
                    assert(rest[i - 1] == name);
                }
            }
            assert forall|name: Seq<char>| #[trigger] rest.contains(name) implies
                lookup.todo.contains(name) by {
                let i = choose|i: int| 0 <= i < rest.len() && rest[i] == name;
                assert(lookup.todo[i + 1] == name);
            }
            assert forall|message: MsgView| #[trigger]
                stored(store, first).contains(message) implies !picks(lookup.filter, message) by {
                lemma_picked(stored(store, first), lookup.filter, message);
            }
        }
    }
}

/// A deletion carried through against a database without faults, and the store
/// that it leaves.
pub open spec fn delete_run(
    delete: IdDeleteView,
    store: Store,
    choice: spec_fn(Seq<char>, Seq<MsgView>) -> int,
) -> (IdDeleteView, Store)
    decreases delete.todo.len(), (if delete.deleted { 0int } else { 1 }),
{
    if !delete.is_running() {
        (delete, store)
    } else {
        let name = delete.todo[0];
        let messages = stored(store, name);
        if picked(messages, delete.filter).len() == 0 {
            delete_run(delete.after(DeleteEventView::Deleted(0)), store, choice)
        } else {
            delete_run(
                delete.after(DeleteEventView::Deleted(1)),
                store.insert(name, messages.remove(choice(name, messages))),
                choice,
            )
        }
    }
}

/// The message that a filter picks is the last of the list, where it picks no
/// other.
pub proof fn lemma_without_only(
    messages: Seq<MsgView>,
    last: MsgView,
    filter: FilterView,
    place: int,
)
    requires
        0 <= place < messages.push(last).len(),
        picks(filter, messages.push(last)[place]),
        forall|message: MsgView| #[trigger]
            messages.contains(message) ==> !picks(filter, message),
    ensures
        messages.push(last).remove(place) == messages,
{
    if place < messages.len() {
        assert(messages.contains(messages[place]));
    }
    assert(messages.push(last).remove(place) =~= messages);
}

/// A deletion against a database without faults takes the message away from
/// the one collection that has it.
pub proof fn lemma_delete_run(
    delete: IdDeleteView,
    store: Store,
    choice: spec_fn(Seq<char>, Seq<MsgView>) -> int,
    place: Seq<char>,
)
    requires
        delete.failure is None,
        !delete.deleted,
        delete.todo.contains(place),
        picked(stored(store, place), delete.filter).len() > 0,
        forall|name: Seq<char>| #![trigger stored(store, name)]
            name != place ==> picked(stored(store, name), delete.filter).len() == 0,
    ensures
        delete_run(delete, store, choice).0.failure is None,
        delete_run(delete, store, choice).0.deleted,
        delete_run(delete, store, choice).1 == store.insert(
            place,
            stored(store, place).remove(choice(place, stored(store, place))),
        ),
    decreases delete.todo.len(),
{
    let first = delete.todo[0];
    if first == place {
        let after = delete.after(DeleteEventView::Deleted(1));
        let messages = stored(store, place);
        let left = store.insert(place, messages.remove(choice(place, messages)));
        assert(delete_run(after, left, choice) == (after, left));
    } else {
        let next = delete.after(DeleteEventView::Deleted(0));
        let i = choose|i: int| 0 <= i < delete.todo.len() && delete.todo[i] == place;
        assert(next.todo[i - 1] == place);
        assert(picked(stored(store, first), delete.filter).len() == 0);
        lemma_delete_run(next, store, choice, place);
    }
}

/// A stream after several events, and what it handed on.
pub open spec fn stream_after(stream: MessageStreamView, events: Seq<StreamEventView>) -> (
    MessageStreamView,
    Seq<Result<MsgView, ErrorView>>,
)
    decreases events.len(),
{
    if events.len() == 0 {
        (stream, Seq::empty())
    } else {
        let (before, items) = stream_after(stream, events.drop_last());
        (
            before.after(events.last()),
            match events.last() {
                StreamEventView::Item(item) => items.push(item),
                _ => items,
            },
        )
    }
}

/// The events of a stream with these answers.
pub open spec fn answer_events(answers: Seq<Seq<MsgView>>) -> Seq<StreamEventView>
    decreases answers.len(),
{
    if answers.len() == 0 {
        Seq::empty()
    } else {
        (answer_events(answers.drop_last()) + answers.last().map_values(
            |message: MsgView| StreamEventView::Item(Ok(message)),
        )).push(StreamEventView::Drained)
    }
}

/// Messages as items of a stream.
pub open spec fn as_items(messages: Seq<MsgView>) -> Seq<Result<MsgView, ErrorView>> {
    messages.map_values(|message: MsgView| Ok::<MsgView, ErrorView>(message))
}

proof fn lemma_stream_items(
    stream: MessageStreamView,
    events: Seq<StreamEventView>,
    messages: Seq<MsgView>,
)
    ensures
        ({
            let more = messages.map_values(
                |message: MsgView| StreamEventView::Item(Ok(message)),
            );
            let (before, items) = stream_after(stream, events);
            stream_after(stream, events + more) == (before, items + as_items(messages))
        }),
    decreases messages.len(),
{
    let more = messages.map_values(|message: MsgView| StreamEventView::Item(Ok(message)));
    let (before, items) = stream_after(stream, events);
    if messages.len() == 0 {
        assert(events + more =~= events);
        assert(items + as_items(messages) =~= items);
    } else {
        let front = messages.drop_last();
        lemma_stream_items(stream, events, front);
        assert((events + more).drop_last() =~= events + front.map_values(
            |message: MsgView| StreamEventView::Item(Ok(message)),
        ));
        assert((items + as_items(front)).push(Ok(messages.last())) =~= items + as_items(messages));
    }
}

/// A stream hands on each answer in turn, and then the next one.
pub proof fn lemma_stream_answers(stream: MessageStreamView, answers: Seq<Seq<MsgView>>)
    requires
        answers.len() <= stream.todo.len(),
    ensures
        stream_after(stream, answer_events(answers)) == (
            MessageStreamView { todo: stream.todo.skip(answers.len() as int), ..stream },
            as_items(answers.flatten()),
        ),
    decreases answers.len(),
{
    if answers.len() == 0 {
        assert(stream.todo.skip(0) =~= stream.todo);
        assert(as_items(answers.flatten()) =~= Seq::empty());
    } else {
        let (front, last) = (answers.drop_last(), answers.last());
        lemma_stream_answers(stream, front);
        let events = answer_events(front);
        let more = last.map_values(|message: MsgView| StreamEventView::Item(Ok(message)));
        lemma_stream_items(stream, events, last);
        assert(answer_events(answers).drop_last() =~= events + more);
        front.lemma_flatten_push(last);
        assert(front.push(last) =~= answers);
        assert(as_items(front.flatten() + last) =~= as_items(front.flatten()) + as_items(last));
        assert(stream.todo.skip(front.len() as int).drop_first() =~= stream.todo.skip(
            answers.len() as int,
        ));
    }
}

/// The answers of some collections hold what the filter picks from them, each
/// message as often as it is there.
pub proof fn lemma_answers(
    answers: Seq<Seq<MsgView>>,
    store: Store,
    names: Seq<Seq<char>>,
    filter: FilterView,
)
    requires
        are_answers(answers, store, names, filter),
    ensures
        answers.flatten().to_multiset() == read_from(store, names, filter).to_multiset(),
    decreases names.len(),
{
    if names.len() > 0 {
        let (rest, later) = (answers.drop_first(), names.drop_first());
        assert forall|i: int| 0 <= i < later.len() implies is_answer(
            #[trigger] rest[i],
            store,
            later[i],
            filter,
        ) by {
            assert(rest[i] == answers[i + 1]);
        }
        lemma_answers(rest, store, later, filter);
        let found = picked(stored(store, names[0]), filter);
        assert(is_answer(answers[0], store, names[0], filter));
        vstd::seq_lib::lemma_multiset_commutative(answers[0], rest.flatten());
        vstd::seq_lib::lemma_multiset_commutative(found, read_from(store, later, filter));
    }
}

} // verus!
