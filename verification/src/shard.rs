//! Where messages lie: one collection for each month and each slice of the
//! users.

use std::collections::hash_map::DefaultHasher;
use std::hash::{Hash, Hasher};

use vstd::prelude::*;
use vstd::std_specs::hash::DefaultHasherAdditionalSpecFns;

use crate::calendar::{has_date, month_after, month_before, month_of, month_or, year_month_text};
use crate::calendar::{lemma_year_month_parts, month_text, year_text, FIRST_MONTH, LAST_MONTH};
use crate::calendar::{clock_may_read, months_after, months_before, utc_now, year_month_or};
use crate::message::{GroupMemSeq, Msg};
use crate::message::{member_views, GroupMemSeqView, MsgView};
use crate::text::{decimal, split, text_less, texts};
use crate::text::{decimal_text, is_text_less, joined, split_text};
use crate::text::{lemma_decimal, lemma_split_at_mark, lemma_split_unmarked};

verus! {

/// The name of the collection of a month and a slice of the users.
pub open spec fn collection_name(month: int, user_range: u8) -> Seq<char> {
    "msg_box_"@ + year_month_text(month) + "_"@ + decimal(user_range as nat)
}

/// Whether the text names the collection of some month and some slice.
pub open spec fn is_collection_name(name: Seq<char>) -> bool {
    exists|month: int, user_range: u8| name == #[trigger] collection_name(month, user_range)
}

/// The pieces between the underscores of a collection's name: two fixed words,
/// the year, the month and the slice.
pub proof fn lemma_name_pieces(month: int, user_range: u8)
    ensures
        split(collection_name(month, user_range), '_') == seq![
            seq!['m', 's', 'g'],
            seq!['b', 'o', 'x'],
            year_text(month / 12),
            month_text(month),
            decimal(user_range as nat),
        ],
{
    let (msg, bx) = (seq!['m', 's', 'g'], seq!['b', 'o', 'x']);
    let (year, place, slice) = (year_text(month / 12), month_text(month), decimal(user_range as nat));
    reveal_strlit("msg_box_");
    reveal_strlit("_");
    lemma_year_month_parts(month, month);
    lemma_decimal(user_range as nat);
    assert(!slice.contains('_')) by {
        if slice.contains('_') {
            let i = choose|i: int| 0 <= i < slice.len() && slice[i] == '_';
            assert('0' <= slice[i] <= '9');
        }
    }
    let tail = place + seq!['_'] + slice;
    let dated = year + seq!['_'] + tail;
    let boxed = bx + seq!['_'] + dated;
    assert(collection_name(month, user_range) =~= msg + seq!['_'] + boxed);
    lemma_split_at_mark(msg, boxed, '_');
    lemma_split_at_mark(bx, dated, '_');
    lemma_split_at_mark(year, tail, '_');
    lemma_split_at_mark(place, slice, '_');
    lemma_split_unmarked(msg, '_');
    lemma_split_unmarked(bx, '_');
    lemma_split_unmarked(year, '_');
    lemma_split_unmarked(place, '_');
    lemma_split_unmarked(slice, '_');
    assert(split(collection_name(month, user_range), '_') =~= seq![msg, bx, year, place, slice]);
}

/// Different months and different slices have different collections.
pub proof fn law_collections_are_distinct(
    month: int,
    user_range: u8,
    other_month: int,
    other_range: u8,
)
    requires
        collection_name(month, user_range) == collection_name(other_month, other_range),
    ensures
        month == other_month,
        user_range == other_range,
{
    lemma_name_pieces(month, user_range);
    lemma_name_pieces(other_month, other_range);
    let pieces = split(collection_name(month, user_range), '_');
    assert(pieces[2] == year_text(other_month / 12));
    assert(pieces[3] == month_text(other_month));
    assert(pieces[4] == decimal(other_range as nat));
    lemma_year_month_parts(month, other_month);
    lemma_decimal(user_range as nat);
    lemma_decimal(other_range as nat);
}

/// The writes by which `str`'s `Hash::hash` feeds the text to a hasher.
pub uninterp spec fn str_hash_writes(text: Seq<char>) -> Seq<Seq<u8>>;

/// `Hash::hash` of `str` feeds the text to the hasher, after what it was fed
/// before. What is fed depends on the text alone.
#[verifier::external_body]
fn hash_text(text: &str, hasher: &mut DefaultHasher)
    ensures
        final(hasher)@ == old(hasher)@ + str_hash_writes(text@),
{
    text.hash(hasher)
}

/// The slice of the users that a user belongs to.
pub open spec fn user_range(user_id: Seq<char>, user_shards: u8) -> u8 {
    (DefaultHasher::spec_finish(str_hash_writes(user_id)) % user_shards as u64) as u8
}

/// A message and the collection that it goes to.
#[derive(Debug, PartialEq, Eq)]
pub struct Insert {
    pub collection: String,
    pub message: Msg,
}

pub struct InsertView {
    pub collection: Seq<char>,
    pub message: MsgView,
}

impl View for Insert {
    type V = InsertView;

    open spec fn view(&self) -> InsertView {
        InsertView { collection: self.collection@, message: self.message@ }
    }
}

/// What a list of insertions holds.
pub open spec fn insert_views(inserts: Seq<Insert>) -> Seq<InsertView> {
    inserts.map_values(|insert: Insert| insert@)
}

/// The insertion that puts a message into the box of its receiver: into the
/// collection of the month in which it was sent, or of the present month where
/// the moment of sending has no date.
pub open spec fn insert_of(message: MsgView, user_shards: u8, now: int) -> InsertView {
    InsertView {
        collection: collection_name(
            month_or(message.send_time as int, now),
            user_range(message.receiver_id, user_shards),
        ),
        message,
    }
}

/// The sender's own copy of a group message, which lies in the sender's box.
pub open spec fn sender_copy(message: MsgView) -> MsgView {
    MsgView { receiver_id: message.sender_id, ..message }
}

/// The copy of a group message for one member, who has it under a number of
/// their own and does not see the sender's.
pub open spec fn member_copy(message: MsgView, member: GroupMemSeqView) -> MsgView {
    MsgView { receiver_id: member.mem_id, seq: member.cur_seq, send_seq: 0, ..message }
}

/// The insertions of a group message: the sender's copy, then one for each
/// member.
pub open spec fn group_inserts(
    message: MsgView,
    members: Seq<GroupMemSeqView>,
    user_shards: u8,
    now: int,
) -> Seq<InsertView> {
    seq![insert_of(sender_copy(message), user_shards, now)] + members.map_values(
        |member: GroupMemSeqView| insert_of(member_copy(message, member), user_shards, now),
    )
}

/// A group message is inserted once for the sender and once for each member, in
/// their order. Every copy tells the same as the message, but for the receiver
/// and the numbers: the sender's has those of the message, a member's has the
/// member's own number and none of the sender's. Each lies in the slice of its
/// own receiver, in the month of the message.
pub proof fn law_every_copy_tells_the_same(
    message: MsgView,
    members: Seq<GroupMemSeqView>,
    user_shards: u8,
    now: int,
)
    ensures
        ({
            let inserts = group_inserts(message, members, user_shards, now);
            &&& inserts.len() == members.len() + 1
            &&& inserts[0].message.receiver_id == message.sender_id
            &&& inserts[0].message.seq == message.seq
            &&& inserts[0].message.send_seq == message.send_seq
            &&& forall|i: int|
                0 <= i < members.len() ==> {
                    let copy = (#[trigger] inserts[i + 1]).message;
                    &&& copy.receiver_id == members[i].mem_id
                    &&& copy.seq == members[i].cur_seq
                    &&& copy.send_seq == 0
                }
            &&& forall|i: int|
                0 <= i < inserts.len() ==> {
                    let copy = (#[trigger] inserts[i]).message;
                    &&& copy.client_id == message.client_id
                    &&& copy.server_id == message.server_id
                    &&& copy.create_time == message.create_time
                    &&& copy.send_time == message.send_time
                    &&& copy.content_type == message.content_type
                    &&& copy.content == message.content
                    &&& copy.sender_id == message.sender_id
                    &&& copy.msg_type == message.msg_type
                    &&& copy.is_read == message.is_read
                    &&& copy.platform == message.platform
                    &&& copy.group_id == message.group_id
                    &&& copy.avatar == message.avatar
                    &&& copy.nickname == message.nickname
                    &&& copy.related_msg_id == message.related_msg_id
                }
            &&& forall|i: int|
                0 <= i < inserts.len() ==> (#[trigger] inserts[i]).collection == collection_name(
                    month_or(message.send_time as int, now),
                    user_range(inserts[i].message.receiver_id, user_shards),
                )
        }),
{
    let inserts = group_inserts(message, members, user_shards, now);
    assert forall|i: int| 0 <= i < members.len() implies #[trigger] inserts[i + 1] == insert_of(
        member_copy(message, members[i]),
        user_shards,
        now,
    ) by {}
    assert forall|i: int| 0 <= i < inserts.len() implies {
        let copy = (#[trigger] inserts[i]).message;
        &&& copy.client_id == message.client_id
        &&& copy.server_id == message.server_id
        &&& copy.create_time == message.create_time
        &&& copy.send_time == message.send_time
        &&& copy.content_type == message.content_type
        &&& copy.content == message.content
        &&& copy.sender_id == message.sender_id
        &&& copy.msg_type == message.msg_type
        &&& copy.is_read == message.is_read
        &&& copy.platform == message.platform
        &&& copy.group_id == message.group_id
        &&& copy.avatar == message.avatar
        &&& copy.nickname == message.nickname
        &&& copy.related_msg_id == message.related_msg_id
        &&& inserts[i].collection == collection_name(
            month_or(message.send_time as int, now),
            user_range(copy.receiver_id, user_shards),
        )
    } by {
        if i > 0 {
            assert(inserts[i] == insert_of(
                member_copy(message, members[i - 1]),
                user_shards,
                now,
            ));
        }
    }
}

/// A message is inserted as it is, in the month in which it was sent and the
/// slice of its receiver: the hash of the receiver's name decides the slice.
pub proof fn law_a_message_is_inserted_as_it_is(message: MsgView, user_shards: u8, now: int)
    requires
        user_shards > 0,
    ensures
        insert_of(message, user_shards, now).message == message,
        has_date(message.send_time as int) ==> insert_of(message, user_shards, now).collection
            == collection_name(
            month_of(message.send_time as int),
            user_range(message.receiver_id, user_shards),
        ),
        !has_date(message.send_time as int) ==> insert_of(message, user_shards, now).collection
            == collection_name(month_of(now), user_range(message.receiver_id, user_shards)),
        user_range(message.receiver_id, user_shards) as int == DefaultHasher::spec_finish(
            str_hash_writes(message.receiver_id),
        ) as int % user_shards as int,
{
}

/// An insertion shows its collection and its message as they are, alone and in a
/// list.
pub proof fn law_insertions_show_what_they_hold(inserts: Seq<Insert>, i: int)
    requires
        0 <= i < inserts.len(),
    ensures
        insert_views(inserts).len() == inserts.len(),
        insert_views(inserts)[i].collection == inserts[i].collection@,
        insert_views(inserts)[i].message == inserts[i].message@,
{
}

/// The collections of a slice of the users in the present month and the months
/// before it, as many as asked for, the present month first.
pub open spec fn recent_collections(user_range: u8, months: nat, now: int) -> Seq<Seq<char>> {
    Seq::new(
        months,
        |back: int| collection_name(month_before(month_of(now), back), user_range),
    )
}

/// The collections of one month, one for each slice of the users.
pub open spec fn month_collections(month: int, user_shards: nat) -> Seq<Seq<char>> {
    Seq::new(user_shards, |slice: int| collection_name(month, slice as u8))
}

/// The collections of several months, month by month.
pub open spec fn collections_of(months: Seq<int>, user_shards: nat) -> Seq<Seq<char>>
    decreases months.len(),
{
    if months.len() == 0 {
        Seq::empty()
    } else {
        collections_of(months.drop_last(), user_shards) + month_collections(
            months.last(),
            user_shards,
        )
    }
}

/// Every name in such a list is that of a collection.
pub proof fn lemma_collections_of(months: Seq<int>, user_shards: nat)
    requires
        user_shards <= 256,
    ensures
        forall|i: int|
            0 <= i < collections_of(months, user_shards).len() ==> is_collection_name(
                #[trigger] collections_of(months, user_shards)[i],
            ),
        forall|name: Seq<char>| #[trigger]
            collections_of(months, user_shards).contains(name) <==> exists|month: int, slice: u8|
                months.contains(month) && slice < user_shards && name == #[trigger] collection_name(
                    month,
                    slice,
                ),
    decreases months.len(),
{
    let names = collections_of(months, user_shards);
    if months.len() > 0 {
        let (front, last) = (months.drop_last(), months.last());
        lemma_collections_of(front, user_shards);
        let head = collections_of(front, user_shards);
        let tail = month_collections(last, user_shards);
        assert forall|i: int| 0 <= i < names.len() implies is_collection_name(
            #[trigger] names[i],
        ) by {
            if i < head.len() {
                assert(names[i] == head[i]);
            } else {
                assert(names[i] == collection_name(last, (i - head.len()) as u8));
            }
        }
        assert forall|name: Seq<char>| #[trigger] names.contains(name) implies exists|
            month: int,
            slice: u8,
        |
            months.contains(month) && slice < user_shards && name == #[trigger] collection_name(
                month,
                slice,
            ) by {
            let i = choose|i: int| 0 <= i < names.len() && names[i] == name;
            if i < head.len() {
                assert(head.contains(head[i]));
                let (month, slice) = choose|month: int, slice: u8|
                    front.contains(month) && slice < user_shards && name
                        == #[trigger] collection_name(month, slice);
                let j = choose|j: int| 0 <= j < front.len() && front[j] == month;
                assert(months[j] == month);
                assert(name == collection_name(month, slice));
            } else {
                let slice = (i - head.len()) as u8;
                assert(months[months.len() - 1] == last);
                assert(name == collection_name(last, slice));
            }
        }
        assert forall|month: int, slice: u8|
            months.contains(month) && slice < user_shards implies names.contains(
            #[trigger] collection_name(month, slice),
        ) by {
            let name = collection_name(month, slice);
            let j = choose|j: int| 0 <= j < months.len() && months[j] == month;
            if j < front.len() {
                assert(front[j] == month);
                assert(head.contains(name));
                let i = choose|i: int| 0 <= i < head.len() && head[i] == name;
                assert(names[i] == name);
            } else {
                assert(tail[slice as int] == name);
                assert(names[head.len() + slice as int] == name);
            }
        }
    } else {
        assert(names.len() == 0);
    }
}

/// The months that get their collections at the start: the present one, the
/// three before it and the three after it.
pub open spec fn startup_months(now: int) -> Seq<int> {
    seq![
        month_before(month_of(now), 3),
        month_before(month_of(now), 2),
        month_before(month_of(now), 1),
        month_after(month_of(now), 0),
        month_after(month_of(now), 1),
        month_after(month_of(now), 2),
        month_after(month_of(now), 3),
    ]
}

/// The months whose collections the daily maintenance looks after: the present
/// one and the three after it.
pub open spec fn maintained_months(now: int) -> Seq<int> {
    seq![
        month_after(month_of(now), 0),
        month_after(month_of(now), 1),
        month_after(month_of(now), 2),
        month_after(month_of(now), 3),
    ]
}

/// The name of the collection of a moment and a slice of the users. A moment
/// that has no date counts as `now`.
pub fn collection_name_at(timestamp: i64, user_range: u8, now: i64) -> (name: String)
    requires
        has_date(now as int),
    ensures
        name@ == collection_name(month_or(timestamp as int, now as int), user_range),
{
    let year_month = year_month_or(timestamp, now);
    let start = joined("msg_box_", year_month.as_str());
    let start = joined(start.as_str(), "_");
    let slice = decimal_text(user_range as u64);
    joined(start.as_str(), slice.as_str())
}

/// The messages of all users, sharded by month and by user.
///
/// It knows the collections that are in use and those whose indexes are in
/// place. No collection occurs twice in either list.
#[derive(Debug)]
pub struct HybridShardedMsgBox {
    db_name: String,
    active_collections: Vec<String>,
    collection_cache: Vec<String>,
    user_shards: u8,
}

pub struct MsgBoxView {
    /// The database that holds the collections.
    pub db_name: Seq<char>,
    /// The collections in use.
    pub active: Seq<Seq<char>>,
    /// The collections whose indexes are in place.
    pub cached: Seq<Seq<char>>,
    /// Into how many slices the users are divided.
    pub user_shards: u8,
}

impl View for HybridShardedMsgBox {
    type V = MsgBoxView;

    closed spec fn view(&self) -> MsgBoxView {
        MsgBoxView {
            db_name: self.db_name@,
            active: texts(self.active_collections@),
            cached: texts(self.collection_cache@),
            user_shards: self.user_shards,
        }
    }
}

/// A list with one more name, unless it holds the name already.
pub open spec fn with_name(names: Seq<Seq<char>>, name: Seq<char>) -> Seq<Seq<char>> {
    if names.contains(name) {
        names
    } else {
        names.push(name)
    }
}

/// What a list holds with one more name.
pub proof fn lemma_with_name(names: Seq<Seq<char>>, name: Seq<char>)
    ensures
        with_name(names, name).contains(name),
        forall|other: Seq<char>| #[trigger]
            with_name(names, name).contains(other) <==> names.contains(other) || other == name,
        names.no_duplicates() ==> with_name(names, name).no_duplicates(),
{
    if !names.contains(name) {
        assert(names.push(name)[names.len() as int] == name);
        assert forall|other: Seq<char>| names.contains(other) implies #[trigger] names.push(
            name,
        ).contains(other) by {
            let i = choose|i: int| 0 <= i < names.len() && names[i] == other;
            assert(names.push(name)[i] == other);
        }
    }
}

/// Whether the list of names holds the name.
fn holds_name(names: &Vec<String>, name: &str) -> (found: bool)
    ensures
        found == texts(names@).contains(name@),
{
    let wanted = name.to_owned();
    let mut i: usize = 0;
    while i < names.len()
        invariant
            i <= names.len(),
            wanted@ == name@,
            forall|j: int| 0 <= j < i ==> texts(names@)[j] != name@,
        decreases names.len() - i,
    {
        if names[i] == wanted {
            assert(texts(names@)[i as int] == name@);
            return true;
        }
        i = i + 1;
    }
    false
}

impl MsgBoxView {
    /// No collection occurs twice, and whatever is in use has the name of a
    /// collection and its indexes in place.
    pub open spec fn wf(self) -> bool {
        &&& self.active.no_duplicates()
        &&& self.cached.no_duplicates()
        &&& forall|name: Seq<char>| #[trigger]
            self.active.contains(name) ==> is_collection_name(name) && self.cached.contains(name)
    }
}

impl HybridShardedMsgBox {
    /// A box that has no collections yet.
    pub fn new(db_name: String, user_shards: u8) -> (msg_box: Self)
        ensures
            msg_box@ == (MsgBoxView {
                db_name: db_name@,
                active: Seq::empty(),
                cached: Seq::empty(),
                user_shards,
            }),
            msg_box@.wf(),
    {
        let msg_box = HybridShardedMsgBox {
            db_name,
            active_collections: Vec::new(),
            collection_cache: Vec::new(),
            user_shards,
        };
        assert(msg_box@.active =~= Seq::empty());
        assert(msg_box@.cached =~= Seq::empty());
        msg_box
    }

    /// The database that holds the collections.
    pub fn db_name(&self) -> (name: &str)
        ensures
            name@ == self@.db_name,
    {
        self.db_name.as_str()
    }

    /// Into how many slices the users are divided.
    pub fn user_shards(&self) -> (count: u8)
        ensures
            count == self@.user_shards,
    {
        self.user_shards
    }

    /// The collections in use.
    pub fn active_collections(&self) -> (names: Vec<String>)
        ensures
            texts(names@) == self@.active,
    {
        let mut names: Vec<String> = Vec::new();
        let mut i: usize = 0;
        while i < self.active_collections.len()
            invariant
                i <= self.active_collections.len(),
                names@.len() == i,
                forall|j: int| 0 <= j < i ==> names@[j]@ == self.active_collections@[j]@,
            decreases self.active_collections.len() - i,
        {
            names.push(self.active_collections[i].clone());
            i = i + 1;
        }
        assert(texts(names@) =~= texts(self.active_collections@));
        names
    }

    /// Whether the collection is in use.
    pub fn is_active(&self, name: &str) -> (active: bool)
        ensures
            active == self@.active.contains(name@),
    {
        holds_name(&self.active_collections, name)
    }

    /// Whether the indexes of the collection are in place.
    pub fn is_cached(&self, name: &str) -> (cached: bool)
        ensures
            cached == self@.cached.contains(name@),
    {
        holds_name(&self.collection_cache, name)
    }

    /// Takes note that the collection is in use.
    pub(crate) fn track(&mut self, name: &str)
        requires
            old(self)@.wf(),
            is_collection_name(name@),
            old(self)@.cached.contains(name@),
        ensures
            final(self)@ == (MsgBoxView { active: with_name(old(self)@.active, name@), ..old(self)@ }),
            final(self)@.wf(),
    {
        if !self.is_active(name) {
            let ghost before = self.active_collections@;
            self.active_collections.push(name.to_owned());
            assert(texts(self.active_collections@) =~= texts(before).push(name@));
            proof {
                lemma_with_name(texts(before), name@);
            }
        }
    }

    /// Takes note that the indexes of the collection are in place.
    pub(crate) fn remember(&mut self, name: &str)
        requires
            old(self)@.wf(),
        ensures
            final(self)@ == (MsgBoxView { cached: with_name(old(self)@.cached, name@), ..old(self)@ }),
            final(self)@.wf(),
    {
        if !self.is_cached(name) {
            let ghost before = self.collection_cache@;
            self.collection_cache.push(name.to_owned());
            assert(texts(self.collection_cache@) =~= texts(before).push(name@));
            proof {
                lemma_with_name(texts(before), name@);
            }
        }
    }

    /// The slice of the users that a user belongs to.
    pub fn get_user_range(&self, user_id: &str) -> (range: u8)
        requires
            self@.user_shards > 0,
        ensures
            range == user_range(user_id@, self@.user_shards),
            range < self@.user_shards,
            range as int == DefaultHasher::spec_finish(str_hash_writes(user_id@)) as int
                % self@.user_shards as int,
    {
        let mut hasher = DefaultHasher::new();
        hash_text(user_id, &mut hasher);
        assert(hasher@ =~= str_hash_writes(user_id@));
        let rest: u64 = hasher.finish() % (self.user_shards as u64);
        rest as u8
    }

    /// The name of the collection of a moment and a slice of the users. A
    /// moment that has no date counts as the present.
    pub fn get_collection_name(&self, timestamp: i64, user_range: u8) -> (name: String)
        ensures
            has_date(timestamp as int) ==> name@ == collection_name(
                month_of(timestamp as int),
                user_range,
            ),
            exists|now: i64|
                clock_may_read(now) && name@ == #[trigger] collection_name(
                    month_or(timestamp as int, now as int),
                    user_range,
                ),
    {
        let now: i64 = utc_now();
        collection_name_at(timestamp, user_range, now)
    }

    /// The insertion that puts a message into the box of its receiver, decided
    /// at the moment `now`.
    pub fn save_message_at(&self, message: &Msg, now: i64) -> (insert: Insert)
        requires
            self@.user_shards > 0,
            has_date(now as int),
        ensures
            insert@ == insert_of(message@, self@.user_shards, now as int),
            insert.message@ == message@,
            insert.collection@ == collection_name(
                month_or(message.send_time as int, now as int),
                user_range(message.receiver_id@, self@.user_shards),
            ),
    {
        let range: u8 = self.get_user_range(message.receiver_id.as_str());
        Insert {
            collection: collection_name_at(message.send_time, range, now),
            message: message.clone(),
        }
    }

    /// The insertion that puts a message into the box of its receiver.
    pub fn save_message(&self, message: &Msg) -> (insert: Insert)
        requires
            self@.user_shards > 0,
        ensures
            has_date(message.send_time as int) ==> insert@ == insert_of(
                message@,
                self@.user_shards,
                message.send_time as int,
            ),
            exists|now: i64|
                clock_may_read(now) && insert@ == #[trigger] insert_of(
                    message@,
                    self@.user_shards,
                    now as int,
                ),
            insert.message@ == message@,
            has_date(message.send_time as int) ==> insert.collection@ == collection_name(
                month_of(message.send_time as int),
                user_range(message.receiver_id@, self@.user_shards),
            ),
    {
        let now: i64 = utc_now();
        self.save_message_at(message, now)
    }

    /// The insertions of a group message, decided at the moment `now`.
    pub fn save_group_msg_at(&self, message: &Msg, members: &Vec<GroupMemSeq>, now: i64) -> (inserts:
        Vec<Insert>)
        requires
            self@.user_shards > 0,
            has_date(now as int),
        ensures
            insert_views(inserts@) == group_inserts(
                message@,
                member_views(members@),
                self@.user_shards,
                now as int,
            ),
            inserts@.len() == members@.len() + 1,
            inserts@[0].message@ == (MsgView { receiver_id: message.sender_id@, ..message@ }),
            forall|i: int|
                0 <= i < members@.len() ==> (#[trigger] inserts@[i + 1]).message@ == (MsgView {
                    receiver_id: members@[i].mem_id@,
                    seq: members@[i].cur_seq,
                    send_seq: 0,
                    ..message@
                }),
    {
        let mut sender_msg = message.clone();
        sender_msg.receiver_id = message.sender_id.clone();
        let mut inserts: Vec<Insert> = Vec::new();
        inserts.push(self.save_message_at(&sender_msg, now));
        let ghost all = member_views(members@);
        let mut i: usize = 0;
        assert(all.take(0) =~= Seq::empty());
        assert(insert_views(inserts@) =~= group_inserts(
            message@,
            all.take(0),
            self@.user_shards,
            now as int,
        ));
        while i < members.len()
            invariant
                i <= members.len(),
                self@.user_shards > 0,
                has_date(now as int),
                all == member_views(members@),
                insert_views(inserts@) == group_inserts(
                    message@,
                    all.take(i as int),
                    self@.user_shards,
                    now as int,
                ),
            decreases members.len() - i,
        {
            let ghost before = inserts@;
            let mut copy = message.clone();
            copy.send_seq = 0;
            copy.seq = members[i].cur_seq;
            copy.receiver_id = members[i].mem_id.clone();
            let insert = self.save_message_at(&copy, now);
            let ghost added = insert@;
            inserts.push(insert);
            assert(insert_views(inserts@) =~= insert_views(before).push(added));
            assert(all.take(i + 1) =~= all.take(i as int).push(all[i as int]));
            i = i + 1;
            assert(insert_views(inserts@) =~= group_inserts(
                message@,
                all.take(i as int),
                self@.user_shards,
                now as int,
            ));
        }
        assert(all.take(all.len() as int) =~= all);
        proof {
            assert(insert_views(inserts@).len() == inserts@.len());
            assert(insert_views(inserts@)[0] == inserts@[0]@);
            assert forall|i: int| 0 <= i < members@.len() implies (#[trigger] inserts@[i
                + 1]).message@ == (MsgView {
                receiver_id: members@[i].mem_id@,
                seq: members@[i].cur_seq,
                send_seq: 0,
                ..message@
            }) by {
                assert(insert_views(inserts@)[i + 1] == inserts@[i + 1]@);
                assert(all[i] == members@[i]@);
            }
        }
        inserts
    }

    /// The insertions of a group message: the sender's copy, then one for each
    /// member.
    pub fn save_group_msg(&self, message: &Msg, members: &Vec<GroupMemSeq>) -> (inserts: Vec<Insert>)
        requires
            self@.user_shards > 0,
        ensures
            has_date(message.send_time as int) ==> insert_views(inserts@) == group_inserts(
                message@,
                member_views(members@),
                self@.user_shards,
                message.send_time as int,
            ),
            exists|now: i64|
                clock_may_read(now) && insert_views(inserts@) == #[trigger] group_inserts(
                    message@,
                    member_views(members@),
                    self@.user_shards,
                    now as int,
                ),
    {
        let now: i64 = utc_now();
        let inserts = self.save_group_msg_at(message, members, now);
        assert(has_date(message.send_time as int) ==> group_inserts(
            message@,
            member_views(members@),
            self@.user_shards,
            now as int,
        ) =~= group_inserts(
            message@,
            member_views(members@),
            self@.user_shards,
            message.send_time as int,
        ));
        inserts
    }

    /// The collections of a user in the present month and the months before
    /// it, as many as asked for.
    pub fn recent_collections_at(&self, user_id: &str, months: u32, now: i64) -> (names: Vec<String>)
        requires
            self@.user_shards > 0,
            has_date(now as int),
        ensures
            texts(names@) == recent_collections(
                user_range(user_id@, self@.user_shards),
                months as nat,
                now as int,
            ),
    {
        let range: u8 = self.get_user_range(user_id);
        let mut names: Vec<String> = Vec::new();
        let mut back: u32 = 0;
        assert(texts(names@) =~= recent_collections(range, 0, now as int));
        while back < months
            invariant
                back <= months,
                has_date(now as int),
                texts(names@) == recent_collections(range, back as nat, now as int),
            decreases months - back,
        {
            let ghost before = names@;
            let name = collection_name_at(months_before(now, back), range, now);
            let ghost added = name@;
            names.push(name);
            assert(texts(names@) =~= texts(before).push(added));
            back = back + 1;
            assert(texts(names@) =~= recent_collections(range, back as nat, now as int));
        }
        names
    }

    /// The collections of the month of a moment, added to a list.
    fn add_month_collections(&self, names: &mut Vec<String>, moment: i64, now: i64)
        requires
            has_date(moment as int),
            has_date(now as int),
        ensures
            texts(final(names)@) == texts(old(names)@) + month_collections(
                month_of(moment as int),
                self@.user_shards as nat,
            ),
    {
        let ghost start = texts(names@);
        let ghost month = month_of(moment as int);
        let mut slice: u8 = 0;
        assert(texts(names@) =~= start + month_collections(month, 0));
        while slice < self.user_shards
            invariant
                slice <= self.user_shards,
                has_date(moment as int),
                has_date(now as int),
                month == month_of(moment as int),
                texts(names@) == start + month_collections(month, slice as nat),
            decreases self.user_shards - slice,
        {
            let ghost before = names@;
            let name = collection_name_at(moment, slice, now);
            let ghost added = name@;
            names.push(name);
            assert(texts(names@) =~= texts(before).push(added));
            slice = slice + 1;
            assert(texts(names@) =~= start + month_collections(month, slice as nat));
        }
    }

    /// The collections that get their indexes at the start, in this order.
    pub fn startup_collections_at(&self, now: i64) -> (names: Vec<String>)
        requires
            has_date(now as int),
        ensures
            texts(names@) == collections_of(startup_months(now as int), self@.user_shards as nat),
    {
        let ghost months = startup_months(now as int);
        let mut names: Vec<String> = Vec::new();
        let mut back: u32 = 3;
        assert(texts(names@) =~= collections_of(months.take(0), self@.user_shards as nat));
        while back > 0
            invariant
                back <= 3,
                has_date(now as int),
                months == startup_months(now as int),
                texts(names@) == collections_of(months.take(3 - back), self@.user_shards as nat),
            decreases back,
        {
            let moment = months_before(now, back);
            self.add_month_collections(&mut names, moment, now);
            assert(months.take(4 - back).drop_last() =~= months.take(3 - back));
            assert(months.take(4 - back).last() == month_of(moment as int));
            back = back - 1;
        }
        let mut offset: u32 = 0;
        while offset <= 3
            invariant
                offset <= 4,
                has_date(now as int),
                months == startup_months(now as int),
                texts(names@) == collections_of(months.take(offset + 3), self@.user_shards as nat),
            decreases 4 - offset,
        {
            let moment = months_after(now, offset);
            self.add_month_collections(&mut names, moment, now);
            assert(months.take(offset + 4).drop_last() =~= months.take(offset + 3));
            assert(months.take(offset + 4).last() == month_of(moment as int));
            offset = offset + 1;
        }
        assert(months.take(7) =~= months);
        names
    }

    /// The collections that the daily maintenance looks after, in this order.
    pub fn maintained_collections_at(&self, now: i64) -> (names: Vec<String>)
        requires
            has_date(now as int),
        ensures
            texts(names@) == collections_of(maintained_months(now as int), self@.user_shards as nat),
    {
        let ghost months = maintained_months(now as int);
        let mut names: Vec<String> = Vec::new();
        let mut offset: u32 = 0;
        assert(texts(names@) =~= collections_of(months.take(0), self@.user_shards as nat));
        while offset <= 3
            invariant
                offset <= 4,
                has_date(now as int),
                months == maintained_months(now as int),
                texts(names@) == collections_of(months.take(offset as int), self@.user_shards as nat),
            decreases 4 - offset,
        {
            let moment = months_after(now, offset);
            self.add_month_collections(&mut names, moment, now);
            assert(months.take(offset + 1).drop_last() =~= months.take(offset as int));
            assert(months.take(offset + 1).last() == month_of(moment as int));
            offset = offset + 1;
        }
        assert(months.take(4) =~= months);
        names
    }

    /// Forgets that collections from before the given month are in use.
    pub(crate) fn drop_outdated(&mut self, threshold: &str)
        requires
            old(self)@.wf(),
        ensures
            final(self)@ == (MsgBoxView {
                active: old(self)@.active.filter(
                    |name: Seq<char>| !is_outdated(name, threshold@),
                ),
                ..old(self)@
            }),
            final(self)@.wf(),
    {
        let ghost keep = |name: Seq<char>| !is_outdated(name, threshold@);
        let ghost all = self@.active;
        let mut kept: Vec<String> = Vec::new();
        let mut i: usize = 0;
        proof {
            reveal(Seq::filter);
            assert(texts(kept@) =~= all.take(0).filter(keep));
        }
        while i < self.active_collections.len()
            invariant
                i <= self.active_collections.len(),
                self@ == old(self)@,
                self@.wf(),
                all == texts(self.active_collections@),
                all == self@.active,
                keep == (|name: Seq<char>| !is_outdated(name, threshold@)),
                texts(kept@) == all.take(i as int).filter(keep),
            decreases self.active_collections.len() - i,
        {
            let name = &self.active_collections[i];
            let ghost before = kept@;
            assert(all[i as int] == name@);
            proof {
                assert(self@.active.contains(name@));
                lemma_collection_pieces(name@);
                reveal(Seq::filter);
                assert(all.take(i + 1).drop_last() =~= all.take(i as int));
            }
            if !has_outdated_name(name.as_str(), threshold) {
                kept.push(name.clone());
                assert(texts(kept@) =~= texts(before).push(name@));
            }
            i = i + 1;
        }
        assert(all.take(all.len() as int) =~= all);
        self.active_collections = kept;
        proof {
            lemma_filter_names(all, keep);
        }
    }
}

/// A list keeps its names apart when some are taken out, and gains none.
pub proof fn lemma_filter_names(names: Seq<Seq<char>>, keep: spec_fn(Seq<char>) -> bool)
    ensures
        names.no_duplicates() ==> names.filter(keep).no_duplicates(),
        forall|name: Seq<char>| #[trigger]
            names.filter(keep).contains(name) <==> names.contains(name) && keep(name),
    decreases names.len(),
{
    reveal(Seq::filter);
    if names.len() > 0 {
        let (front, last) = (names.drop_last(), names.last());
        lemma_filter_names(front, keep);
        let rest = front.filter(keep);
        assert forall|name: Seq<char>| #[trigger] names.contains(name) <==> front.contains(name)
            || name == last by {
            assert(names[names.len() - 1] == last);
            if front.contains(name) {
                let i = choose|i: int| 0 <= i < front.len() && front[i] == name;
                assert(names[i] == name);
            }
            if names.contains(name) && name != last {
                let i = choose|i: int| 0 <= i < names.len() && names[i] == name;
                assert(front[i] == name);
            }
        }
        if keep(last) {
            assert(names.filter(keep) == rest.push(last));
            assert forall|name: Seq<char>| #[trigger] rest.push(last).contains(name)
                <==> rest.contains(name) || name == last by {
                assert(rest.push(last)[rest.len() as int] == last);
                if rest.contains(name) {
                    let i = choose|i: int| 0 <= i < rest.len() && rest[i] == name;
                    assert(rest.push(last)[i] == name);
                }
            }
            if names.no_duplicates() {
                assert(!front.contains(last)) by {
                    if front.contains(last) {
                        let i = choose|i: int| 0 <= i < front.len() && front[i] == last;
                        assert(names[i] == names[names.len() - 1]);
                    }
                }
                assert(!rest.contains(last));
            }
        }
    } else {
        assert(names.filter(keep).len() == 0);
    }
}

/// The name of a collection has five pieces; the third and fourth are year and
/// month.
pub proof fn lemma_collection_pieces(name: Seq<char>)
    requires
        is_collection_name(name),
    ensures
        split(name, '_').len() == 5,
{
    let (month, slice) = choose|month: int, slice: u8| name == #[trigger] collection_name(month, slice);
    lemma_name_pieces(month, slice);
}

/// The year and month in the name of a collection.
pub open spec fn name_year_month(name: Seq<char>) -> Seq<char> {
    split(name, '_')[2] + "_"@ + split(name, '_')[3]
}

/// Whether a collection is from before the given year and month, by the order
/// of the texts.
pub open spec fn is_outdated(name: Seq<char>, threshold: Seq<char>) -> bool {
    text_less(name_year_month(name), threshold)
}

/// Whether a collection is from before the given year and month.
fn has_outdated_name(name: &str, threshold: &str) -> (outdated: bool)
    requires
        split(name@, '_').len() > 3,
    ensures
        outdated == is_outdated(name@, threshold@),
{
    let parts = split_text(name, '_');
    assert(texts(parts@).len() == parts.len());
    let year_month = joined(parts[2].as_str(), "_");
    let year_month = joined(year_month.as_str(), parts[3].as_str());
    assert(texts(parts@)[2] == parts@[2]@ && texts(parts@)[3] == parts@[3]@);
    is_text_less(year_month.as_str(), threshold)
}

/// The year and month in the name of a collection are those of its month.
pub proof fn lemma_name_year_month(month: int, user_range: u8)
    ensures
        name_year_month(collection_name(month, user_range)) == year_month_text(month),
{
    lemma_name_pieces(month, user_range);
    reveal_strlit("_");
    assert("_"@ =~= seq!['_']);
}

/// The recent collections are those of the present month, the month before it
/// and so on, of the one slice and as many as asked for.
pub proof fn law_recent_collections_go_back_month_by_month(
    user_range: u8,
    months: nat,
    now: int,
    back: int,
)
    requires
        0 <= back < months,
        month_of(now) - back >= FIRST_MONTH,
    ensures
        recent_collections(user_range, months, now).len() == months,
        recent_collections(user_range, months, now)[back] == collection_name(
            month_of(now) - back,
            user_range,
        ),
{
}

proof fn lemma_months_in_a_row(months: Seq<int>, first: int, user_shards: u8, name: Seq<char>)
    requires
        forall|i: int| 0 <= i < months.len() ==> #[trigger] months[i] == first + i,
    ensures
        collections_of(months, user_shards as nat).contains(name) <==> exists|
            month: int,
            slice: u8,
        |
            first <= month < first + months.len() && slice < user_shards && name
                == #[trigger] collection_name(month, slice),
{
    lemma_collections_of(months, user_shards as nat);
    assert forall|month: int| #[trigger] months.contains(month) <==> first <= month < first
        + months.len() by {
        if first <= month < first + months.len() {
            assert(months[month - first] == month);
        }
    }
}

/// The start gets ready the months from three before the present one to three
/// after it: each of them for every slice of the users, and no other collection.
pub proof fn law_months_that_the_start_makes_ready(now: int, user_shards: u8, name: Seq<char>)
    requires
        FIRST_MONTH <= month_of(now) - 3,
        month_of(now) + 3 <= LAST_MONTH,
    ensures
        collections_of(startup_months(now), user_shards as nat).contains(name) <==> exists|
            month: int,
            slice: u8,
        |
            month_of(now) - 3 <= month <= month_of(now) + 3 && slice < user_shards && name
                == #[trigger] collection_name(month, slice),
{
    lemma_months_in_a_row(startup_months(now), month_of(now) - 3, user_shards, name);
}

/// Maintenance looks after the months from the present one to three after it:
/// each of them for every slice of the users, and no other collection.
pub proof fn law_months_that_maintenance_looks_after(now: int, user_shards: u8, name: Seq<char>)
    requires
        FIRST_MONTH <= month_of(now),
        month_of(now) + 3 <= LAST_MONTH,
    ensures
        collections_of(maintained_months(now), user_shards as nat).contains(name) <==> exists|
            month: int,
            slice: u8,
        |
            month_of(now) <= month <= month_of(now) + 3 && slice < user_shards && name
                == #[trigger] collection_name(month, slice),
{
    lemma_months_in_a_row(maintained_months(now), month_of(now), user_shards, name);
}

} // verus!
