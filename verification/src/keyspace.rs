//! A picture of what the cache holds, and what holds of it.
//!
//! Each key holds a text, a hash of numbers or a set of members. A command on a
//! key that holds another kind of thing is refused and changes nothing. A text
//! may have a moment, in seconds, from which on it is gone.

use vstd::prelude::*;

use crate::cache::{given_to, group_key, seq_key, send_seq_key, start_counter, start_counters};
use crate::cache::{start_send_counters, CommandView, CUR_SEQ_KEY, IS_LOADED, MAX_SEQ_KEY};
use crate::cache::{register_key, save_code, SEQ_NO_NEED_LOAD, USER_ONLINE_SET};
use crate::counter::{after_drawing, counts_exactly, drawn, Drawn, SeqCounter};
use crate::counter::{GROUP_SEQ_SCRIPT, SINGLE_SEQ_SCRIPT};

verus! {

/// What a key holds.
pub enum EntryView {
    Text { value: Seq<char>, until: Option<int> },
    Hash(Map<Seq<char>, i64>),
    Members(Set<Seq<char>>),
}

pub type Keyspace = Map<Seq<char>, EntryView>;

/// Whether what the key holds is still there at this moment.
pub open spec fn lives(held: Keyspace, now: int, key: Seq<char>) -> bool {
    held.contains_key(key) && match held[key] {
        EntryView::Text { value, until: Some(until) } => now < until,
        _ => true,
    }
}

/// The text at a key at this moment.
pub open spec fn text_at(held: Keyspace, now: int, key: Seq<char>) -> Option<Seq<char>> {
    if lives(held, now, key) {
        match held[key] {
            EntryView::Text { value, until } => Some(value),
            _ => None,
        }
    } else {
        None
    }
}

/// Whether the key can hold a hash.
pub open spec fn takes_hash(held: Keyspace, key: Seq<char>) -> bool {
    held.contains_key(key) ==> held[key] is Hash
}

/// Whether the key can hold a set.
pub open spec fn takes_members(held: Keyspace, key: Seq<char>) -> bool {
    held.contains_key(key) ==> held[key] is Members
}

/// The hash at a key: empty where there is none.
pub open spec fn hash_at(held: Keyspace, key: Seq<char>) -> Map<Seq<char>, i64> {
    if held.contains_key(key) {
        match held[key] {
            EntryView::Hash(fields) => fields,
            _ => Map::empty(),
        }
    } else {
        Map::empty()
    }
}

/// The set at a key: empty where there is none.
pub open spec fn members_at(held: Keyspace, key: Seq<char>) -> Set<Seq<char>> {
    if held.contains_key(key) {
        match held[key] {
            EntryView::Members(members) => members,
            _ => Set::empty(),
        }
    } else {
        Set::empty()
    }
}

/// What a field holds.
pub open spec fn field_at(held: Keyspace, key: Seq<char>, field: Seq<char>) -> Option<i64> {
    if hash_at(held, key).contains_key(field) {
        Some(hash_at(held, key)[field])
    } else {
        None
    }
}

/// What the cache holds with this set at a key. A set without members is not
/// kept.
pub open spec fn with_members(held: Keyspace, key: Seq<char>, members: Set<Seq<char>>) -> Keyspace {
    if members == Set::<Seq<char>>::empty() {
        held.remove(key)
    } else {
        held.insert(key, EntryView::Members(members))
    }
}

/// What the cache holds after a command at this moment. Scripts are not among
/// these, and questions change nothing.
pub open spec fn applied(held: Keyspace, now: int, command: CommandView) -> Keyspace {
    match command {
        CommandView::SetText { key, value } => held.insert(
            key,
            EntryView::Text { value, until: None },
        ),
        CommandView::SetTextFor { key, value, seconds } => held.insert(
            key,
            EntryView::Text { value, until: Some(now + seconds) },
        ),
        CommandView::HSetNumber { key, field, number } => if refuses_hash(held, now, key) {
            held
        } else {
            held.insert(key, EntryView::Hash(hash_at(held, key).insert(field, number)))
        },
        CommandView::SAdd { key, member } => if lives(held, now, key) && !takes_members(held, key) {
            held
        } else {
            held.insert(key, EntryView::Members(members_at(held, key).insert(member)))
        },
        CommandView::SRem { key, members } => if lives(held, now, key) && !takes_members(
            held,
            key,
        ) {
            held
        } else {
            with_members(held, key, members_at(held, key).difference(members.to_set()))
        },
        CommandView::Del { key } => held.remove(key),
        _ => held,
    }
}

/// What the cache holds after several commands at one moment.
pub open spec fn all_applied(held: Keyspace, now: int, commands: Seq<CommandView>) -> Keyspace
    decreases commands.len(),
{
    if commands.len() == 0 {
        held
    } else {
        applied(all_applied(held, now, commands.drop_last()), now, commands.last())
    }
}

/// What the cache holds after commands at several moments.
pub open spec fn applied_over_time(held: Keyspace, commands: Seq<(int, CommandView)>) -> Keyspace
    decreases commands.len(),
{
    if commands.len() == 0 {
        held
    } else {
        let (now, command) = commands.last();
        applied(applied_over_time(held, commands.drop_last()), now, command)
    }
}

/// The key that a command changes, where it changes one. Scripts are not among
/// these.
pub open spec fn changed_key(command: CommandView) -> Option<Seq<char>> {
    match command {
        CommandView::SetText { key, value } => Some(key),
        CommandView::SetTextFor { key, value, seconds } => Some(key),
        CommandView::HSetNumber { key, field, number } => Some(key),
        CommandView::SAdd { key, member } => Some(key),
        CommandView::SRem { key, members } => Some(key),
        CommandView::Del { key } => Some(key),
        _ => None,
    }
}

/// Whether the key is one that belongs to no single user or group.
pub open spec fn is_fixed_key(key: Seq<char>) -> bool {
    key == USER_ONLINE_SET@ || key == IS_LOADED@
}

/// Different users and groups have different keys, and none of these keys, nor
/// any of the fixed ones, is also used for something else.
pub proof fn law_keys_are_distinct(a: Seq<char>, b: Seq<char>)
    ensures
        seq_key(a) == seq_key(b) ==> a == b,
        send_seq_key(a) == send_seq_key(b) ==> a == b,
        group_key(a) == group_key(b) ==> a == b,
        register_key(a) == register_key(b) ==> a == b,
        seq_key(a) != send_seq_key(b),
        seq_key(a) != group_key(b),
        seq_key(a) != register_key(b),
        send_seq_key(a) != group_key(b),
        send_seq_key(a) != register_key(b),
        group_key(a) != register_key(b),
        !is_fixed_key(seq_key(a)),
        !is_fixed_key(send_seq_key(a)),
        !is_fixed_key(group_key(a)),
        !is_fixed_key(register_key(a)),
        USER_ONLINE_SET@ != IS_LOADED@,
{
    reveal_strlit("seq:");
    reveal_strlit("send_seq:");
    reveal_strlit(":");
    reveal_strlit("group_members_id");
    reveal_strlit("register_code");
    reveal_strlit("user_online_set");
    reveal_strlit("seq_need_load");
    assert(seq_key(a).skip(4) =~= a && seq_key(b).skip(4) =~= b);
    assert(send_seq_key(a).skip(9) =~= a && send_seq_key(b).skip(9) =~= b);
    assert(group_key(a).skip(17) =~= a && group_key(b).skip(17) =~= b);
    assert(register_key(a).skip(14) =~= a && register_key(b).skip(14) =~= b);
    assert(seq_key(a)[2] == 'q' && seq_key(a)[3] == ':' && seq_key(a)[0] == 's');
    assert(send_seq_key(b)[2] == 'n' && send_seq_key(a)[2] == 'n' && send_seq_key(a)[0] == 's');
    assert(group_key(a)[0] == 'g' && group_key(b)[0] == 'g');
    assert(register_key(a)[0] == 'r' && register_key(b)[0] == 'r');
    assert(USER_ONLINE_SET@[0] == 'u');
    assert(IS_LOADED@[0] == 's' && IS_LOADED@[2] == 'q' && IS_LOADED@[3] == '_');
}

/// Whether every counter that the cache holds is a hash.
pub open spec fn has_counters(held: Keyspace) -> bool {
    forall|user_id: Seq<char>|
        #![trigger seq_key(user_id)]
        #![trigger send_seq_key(user_id)]
        takes_hash(held, seq_key(user_id)) && takes_hash(held, send_seq_key(user_id))
}

/// Whether a counter stands at a number, with none set aside beyond it.
pub open spec fn stands_at(held: Keyspace, key: Seq<char>, seq: i64) -> bool {
    &&& field_at(held, key, CUR_SEQ_KEY@) == Some(seq)
    &&& field_at(held, key, MAX_SEQ_KEY@) == Some(seq)
}

/// Starting a counter sets it, and leaves all other keys as they are.
proof fn lemma_start_counter(held: Keyspace, now: int, commands: Seq<CommandView>, key: Seq<char>, seq: i64)
    requires
        takes_hash(all_applied(held, now, commands), key),
    ensures
        ({
            let before = all_applied(held, now, commands);
            let after = all_applied(held, now, commands + start_counter(key, seq));
            &&& stands_at(after, key, seq)
            &&& takes_hash(after, key)
            &&& forall|other: Seq<char>|
                #![trigger after.contains_key(other)]
                #![trigger after[other]]
                other != key ==> (after.contains_key(other) <==> before.contains_key(other))
                    && after[other] == before[other]
        }),
{
    reveal_strlit("cur_seq");
    reveal_strlit("max_seq");
    assert(CUR_SEQ_KEY@[0] != MAX_SEQ_KEY@[0]);
    let all = commands + start_counter(key, seq);
    let first = CommandView::HSetNumber { key, field: CUR_SEQ_KEY@, number: seq };
    assert(all.drop_last() =~= commands.push(first));
    assert(commands.push(first).drop_last() =~= commands);
    let middle = all_applied(held, now, commands.push(first));
    assert(middle == applied(all_applied(held, now, commands), now, first));
    assert(all_applied(held, now, all) == applied(middle, now, all.last()));
}

/// Starting the counters of users sets what each received and sent, to the last
/// numbers that the list gives for them.
pub proof fn law_started_counters_are_read_back(
    held: Keyspace,
    now: int,
    max_seq: Seq<(String, i64, i64)>,
    i: int,
)
    requires
        has_counters(held),
        0 <= i < max_seq.len(),
        forall|j: int| i < j < max_seq.len() ==> (#[trigger] max_seq[j]).0@ != max_seq[i].0@,
    ensures
        stands_at(
            all_applied(held, now, start_counters(max_seq)),
            send_seq_key(max_seq[i].0@),
            max_seq[i].1,
        ),
        stands_at(
            all_applied(held, now, start_counters(max_seq)),
            seq_key(max_seq[i].0@),
            max_seq[i].2,
        ),
    decreases max_seq.len(),
{
    let front = max_seq.drop_last();
    let (user_id, send_seq, rec_seq) = max_seq.last();
    lemma_counters_stay_hashes(held, now, front);
    let rest = start_counters(front);
    let sending = rest + start_counter(send_seq_key(user_id@), send_seq);
    law_keys_are_distinct(user_id@, user_id@);
    lemma_start_counter(held, now, rest, send_seq_key(user_id@), send_seq);
    assert(takes_hash(all_applied(held, now, rest), seq_key(user_id@)));
    lemma_start_counter(held, now, sending, seq_key(user_id@), rec_seq);
    if i < front.len() {
        assert forall|j: int| i < j < front.len() implies (#[trigger] front[j]).0@ != front[i].0@ by {
            assert(front[j] == max_seq[j]);
        }
        law_started_counters_are_read_back(held, now, front, i);
        let other = max_seq[i].0@;
        assert(other != user_id@) by {
            assert(max_seq[max_seq.len() - 1].0@ != other);
        }
        law_keys_are_distinct(other, user_id@);
        law_keys_are_distinct(user_id@, other);
    }
}

proof fn lemma_counters_stay_hashes(held: Keyspace, now: int, max_seq: Seq<(String, i64, i64)>)
    requires
        has_counters(held),
    ensures
        has_counters(all_applied(held, now, start_counters(max_seq))),
    decreases max_seq.len(),
{
    if max_seq.len() > 0 {
        let front = max_seq.drop_last();
        let (user_id, send_seq, rec_seq) = max_seq.last();
        lemma_counters_stay_hashes(held, now, front);
        let rest = start_counters(front);
        let sending = rest + start_counter(send_seq_key(user_id@), send_seq);
        law_keys_are_distinct(user_id@, user_id@);
        assert(takes_hash(all_applied(held, now, rest), send_seq_key(user_id@)));
        lemma_start_counter(held, now, rest, send_seq_key(user_id@), send_seq);
        assert(takes_hash(all_applied(held, now, rest), seq_key(user_id@)));
        lemma_start_counter(held, now, sending, seq_key(user_id@), rec_seq);
        let after = all_applied(held, now, start_counters(max_seq));
        assert forall|other: Seq<char>|
            #![trigger seq_key(other)]
            #![trigger send_seq_key(other)]
            takes_hash(after, seq_key(other)) && takes_hash(after, send_seq_key(other)) by {
            law_keys_are_distinct(other, user_id@);
            law_keys_are_distinct(user_id@, other);
            assert(takes_hash(all_applied(held, now, rest), seq_key(other)));
            assert(after.contains_key(seq_key(other)) || !after.contains_key(seq_key(other)));
            assert(after.contains_key(send_seq_key(other)) || !after.contains_key(
                send_seq_key(other),
            ));
        }
    }
}

/// Starting the counters of what users send sets them to the last numbers that
/// the list gives for them.
pub proof fn law_started_send_counters_are_read_back(
    held: Keyspace,
    now: int,
    max_seq: Seq<(String, i64)>,
    i: int,
)
    requires
        has_counters(held),
        0 <= i < max_seq.len(),
        forall|j: int| i < j < max_seq.len() ==> (#[trigger] max_seq[j]).0@ != max_seq[i].0@,
    ensures
        stands_at(
            all_applied(held, now, start_send_counters(max_seq)),
            send_seq_key(max_seq[i].0@),
            max_seq[i].1,
        ),
    decreases max_seq.len(),
{
    let front = max_seq.drop_last();
    let (user_id, send_seq) = max_seq.last();
    lemma_send_counters_stay_hashes(held, now, front);
    lemma_start_counter(held, now, start_send_counters(front), send_seq_key(user_id@), send_seq);
    if i < front.len() {
        assert forall|j: int| i < j < front.len() implies (#[trigger] front[j]).0@ != front[i].0@ by {
            assert(front[j] == max_seq[j]);
        }
        law_started_send_counters_are_read_back(held, now, front, i);
        let other = max_seq[i].0@;
        assert(other != user_id@) by {
            assert(max_seq[max_seq.len() - 1].0@ != other);
        }
        law_keys_are_distinct(other, user_id@);
    }
}

proof fn lemma_send_counters_stay_hashes(held: Keyspace, now: int, max_seq: Seq<(String, i64)>)
    requires
        has_counters(held),
    ensures
        has_counters(all_applied(held, now, start_send_counters(max_seq))),
    decreases max_seq.len(),
{
    if max_seq.len() > 0 {
        let front = max_seq.drop_last();
        let (user_id, send_seq) = max_seq.last();
        lemma_send_counters_stay_hashes(held, now, front);
        let rest = start_send_counters(front);
        assert(takes_hash(all_applied(held, now, rest), send_seq_key(user_id@)));
        lemma_start_counter(held, now, rest, send_seq_key(user_id@), send_seq);
        let after = all_applied(held, now, start_send_counters(max_seq));
        assert forall|other: Seq<char>|
            #![trigger seq_key(other)]
            #![trigger send_seq_key(other)]
            takes_hash(after, seq_key(other)) && takes_hash(after, send_seq_key(other)) by {
            law_keys_are_distinct(other, user_id@);
            assert(takes_hash(all_applied(held, now, rest), seq_key(other)));
            assert(after.contains_key(seq_key(other)) || !after.contains_key(seq_key(other)));
            assert(after.contains_key(send_seq_key(other)) || !after.contains_key(
                send_seq_key(other),
            ));
        }
    }
}

/// Saving members adds them to those that the group has, and touches nothing
/// else.
pub proof fn law_saved_members_are_members(
    held: Keyspace,
    now: int,
    group_id: Seq<char>,
    members: Seq<Seq<char>>,
    other: Seq<char>,
)
    requires
        takes_members(held, group_key(group_id)),
    ensures
        ({
            let commands = members.map_values(
                |member: Seq<char>| CommandView::SAdd { key: group_key(group_id), member },
            );
            let after = all_applied(held, now, commands);
            &&& takes_members(after, group_key(group_id))
            &&& members_at(after, group_key(group_id)) == members_at(
                held,
                group_key(group_id),
            ).union(members.to_set())
            &&& other != group_key(group_id) ==> (after.contains_key(other) <==> held.contains_key(
                other,
            )) && after[other] == held[other]
        }),
    decreases members.len(),
{
    let key = group_key(group_id);
    let commands = members.map_values(|member: Seq<char>| CommandView::SAdd { key, member });
    if members.len() == 0 {
        assert(members.to_set() =~= Set::empty());
        assert(members_at(held, key).union(members.to_set()) =~= members_at(held, key));
    } else {
        let (front, last) = (members.drop_last(), members.last());
        law_saved_members_are_members(held, now, group_id, front, other);
        assert(commands.drop_last() =~= front.map_values(
            |member: Seq<char>| CommandView::SAdd { key, member },
        ));
        assert(members.to_set() =~= front.to_set().insert(last)) by {
            assert forall|member: Seq<char>| members.contains(member) <==> front.contains(member)
                || member == last by {
                if front.contains(member) {
                    let i = choose|i: int| 0 <= i < front.len() && front[i] == member;
                    assert(members[i] == member);
                }
                if members.contains(member) && member != last {
                    let i = choose|i: int| 0 <= i < members.len() && members[i] == member;
                    assert(front[i] == member);
                }
                assert(members[members.len() - 1] == last);
            }
        }
        assert(members_at(held, key).union(front.to_set()).insert(last) =~= members_at(
            held,
            key,
        ).union(members.to_set()));
    }
}

/// A member that is added is one of the group; one that is taken out is not,
/// and the others stay.
pub proof fn law_members_come_and_go(held: Keyspace, now: int, group_id: Seq<char>, member_id: Seq<char>)
    requires
        takes_members(held, group_key(group_id)),
    ensures
        ({
            let key = group_key(group_id);
            let added = applied(held, now, CommandView::SAdd { key, member: member_id });
            let removed = applied(held, now, CommandView::SRem { key, members: seq![member_id] });
            &&& members_at(added, key) == members_at(held, key).insert(member_id)
            &&& members_at(removed, key) == members_at(held, key).remove(member_id)
        }),
{
    let key = group_key(group_id);
    assert(seq![member_id][0] == member_id);
    assert(members_at(held, key).difference(seq![member_id].to_set()) =~= members_at(
        held,
        key,
    ).remove(member_id));
}

/// A group that is dropped has no members, and the other groups keep theirs.
pub proof fn law_dropped_groups_are_empty(
    held: Keyspace,
    now: int,
    group_id: Seq<char>,
    other_id: Seq<char>,
)
    ensures
        ({
            let after = applied(held, now, CommandView::Del { key: group_key(group_id) });
            &&& members_at(after, group_key(group_id)) == Set::<Seq<char>>::empty()
            &&& other_id != group_id ==> members_at(after, group_key(other_id)) == members_at(
                held,
                group_key(other_id),
            )
        }),
{
    law_keys_are_distinct(group_id, other_id);
}

proof fn lemma_untouched(held: Keyspace, commands: Seq<(int, CommandView)>, key: Seq<char>)
    requires
        forall|i: int|
            0 <= i < commands.len() ==> changed_key((#[trigger] commands[i]).1) != Some(key),
    ensures
        applied_over_time(held, commands).contains_key(key) <==> held.contains_key(key),
        applied_over_time(held, commands)[key] == held[key],
    decreases commands.len(),
{
    if commands.len() > 0 {
        let front = commands.drop_last();
        assert forall|i: int| 0 <= i < front.len() implies changed_key((#[trigger] front[i]).1)
            != Some(key) by {
            assert(front[i] == commands[i]);
        }
        lemma_untouched(held, front, key);
        assert(changed_key(commands[commands.len() - 1].1) != Some(key));
    }
}

/// A registration code is given back for five minutes from its own saving and
/// gone from then on, whatever is done to other keys in the meantime.
pub proof fn law_each_code_lives_from_its_own_saving(
    held: Keyspace,
    saved_at: int,
    email: Seq<char>,
    code: Seq<char>,
    later: Seq<(int, CommandView)>,
    moment: int,
)
    requires
        forall|i: int|
            0 <= i < later.len() ==> changed_key((#[trigger] later[i]).1) != Some(
                register_key(email),
            ),
    ensures
        ({
            let saved = applied(held, saved_at, save_code(email, code));
            text_at(applied_over_time(saved, later), moment, register_key(email)) == if moment
                < saved_at + 300 {
                Some(code)
            } else {
                None
            }
        }),
{
    lemma_untouched(applied(held, saved_at, save_code(email, code)), later, register_key(email));
}

/// Saving or dropping the code of one address leaves the code of any other as it
/// is, and its time limit too.
pub proof fn law_codes_are_kept_apart(
    held: Keyspace,
    now: int,
    email: Seq<char>,
    code: Seq<char>,
    other: Seq<char>,
    moment: int,
)
    requires
        other != email,
    ensures
        ({
            let drop_code = CommandView::Del { key: register_key(email) };
            &&& text_at(applied(held, now, save_code(email, code)), moment, register_key(other))
                == text_at(held, moment, register_key(other))
            &&& text_at(applied(held, now, drop_code), moment, register_key(other)) == text_at(
                held,
                moment,
                register_key(other),
            )
        }),
{
    law_keys_are_distinct(email, other);
}

/// A code that was dropped is not given back.
pub proof fn law_dropped_codes_are_gone(held: Keyspace, now: int, email: Seq<char>, moment: int)
    ensures
        text_at(
            applied(held, now, CommandView::Del { key: register_key(email) }),
            moment,
            register_key(email),
        ) is None,
{
}

/// Logging in counts a user once, however often they do it; logging out undoes
/// it.
pub proof fn law_each_user_online_counts_once(held: Keyspace, now: int, user_id: Seq<char>)
    requires
        takes_members(held, USER_ONLINE_SET@),
        members_at(held, USER_ONLINE_SET@).finite(),
    ensures
        ({
            let key = USER_ONLINE_SET@;
            let before = members_at(held, key);
            let login = CommandView::SAdd { key, member: user_id };
            let logout = CommandView::SRem { key, members: seq![user_id] };
            let online = members_at(applied(held, now, login), key);
            &&& online.len() == before.len() + (if before.contains(user_id) {
                0int
            } else {
                1
            })
            &&& members_at(applied(applied(held, now, login), now, login), key) == online
            &&& !before.contains(user_id) ==> members_at(
                applied(applied(held, now, login), now, logout),
                key,
            ) == before
        }),
{
    let key = USER_ONLINE_SET@;
    let before = members_at(held, key);
    assert(seq![user_id][0] == user_id);
    if before.contains(user_id) {
        assert(before.insert(user_id) =~= before);
    } else {
        assert(before.insert(user_id).difference(seq![user_id].to_set()) =~= before);
    }
    assert(before.insert(user_id).insert(user_id) =~= before.insert(user_id));
}

/// Once it is noted that the counters are loaded, the note is read back, however
/// much later.
pub proof fn law_loaded_note_is_read_back(held: Keyspace, now: int, later: int)
    ensures
        ({
            let note = CommandView::SetText { key: IS_LOADED@, value: SEQ_NO_NEED_LOAD@ };
            text_at(applied(held, now, note), later, IS_LOADED@) == Some(SEQ_NO_NEED_LOAD@)
        }),
{
}

/// The counter at a key. One that was never used stands at zero.
pub open spec fn counter_at(held: Keyspace, key: Seq<char>) -> SeqCounter {
    SeqCounter {
        cur_seq: match field_at(held, key, CUR_SEQ_KEY@) {
            Some(cur_seq) => cur_seq,
            None => 0,
        },
        max_seq: field_at(held, key, MAX_SEQ_KEY@),
    }
}

/// What the cache holds after a counter gave out a number.
pub open spec fn with_counter(held: Keyspace, key: Seq<char>, counter: SeqCounter) -> Keyspace {
    held.insert(
        key,
        EntryView::Hash(
            hash_at(held, key).insert(CUR_SEQ_KEY@, counter.cur_seq).insert(
                MAX_SEQ_KEY@,
                counter.max_seq->0,
            ),
        ),
    )
}

/// Whether a command on the hash at a key is refused at this moment, because the
/// key holds another kind of thing.
pub open spec fn refuses_hash(held: Keyspace, now: int, key: Seq<char>) -> bool {
    lives(held, now, key) && !takes_hash(held, key)
}

/// What the cache holds after the script for one counter ran on a key. Where the
/// key holds another kind of thing the script fails and changes nothing.
pub open spec fn single_drawn(held: Keyspace, now: int, key: Seq<char>, seq_step: i32) -> Keyspace {
    if refuses_hash(held, now, key) {
        held
    } else {
        with_counter(held, key, after_drawing(counter_at(held, key), seq_step))
    }
}

/// What the cache holds after the script for a group ran, and whether it ran to
/// its end. It stops at the first member whose key holds another kind of thing.
pub open spec fn group_drawn(
    held: Keyspace,
    now: int,
    members: Seq<Seq<char>>,
    seq_step: i32,
) -> (Keyspace, bool)
    decreases members.len(),
{
    if members.len() == 0 {
        (held, true)
    } else {
        let (before, runs) = group_drawn(held, now, members.drop_last(), seq_step);
        let key = seq_key(members.last());
        if runs && !refuses_hash(before, now, key) {
            (single_drawn(before, now, key, seq_step), true)
        } else {
            (before, false)
        }
    }
}

/// The counter of a member when it is their turn.
pub open spec fn counter_in_turn(
    held: Keyspace,
    now: int,
    members: Seq<Seq<char>>,
    seq_step: i32,
    i: int,
) -> SeqCounter {
    counter_at(group_drawn(held, now, members.take(i), seq_step).0, seq_key(members[i]))
}

/// What the script for a group gives out, where it runs to its end.
pub open spec fn group_drawings(
    held: Keyspace,
    now: int,
    members: Seq<Seq<char>>,
    seq_step: i32,
) -> Seq<Drawn> {
    Seq::new(
        members.len(),
        |i: int| drawn(counter_in_turn(held, now, members, seq_step, i), seq_step),
    )
}

/// A drawing moves the counter that it draws from, and no other.
pub proof fn law_drawing_moves_one_counter(
    held: Keyspace,
    now: int,
    key: Seq<char>,
    seq_step: i32,
    other: Seq<char>,
)
    requires
        !refuses_hash(held, now, key),
        counts_exactly(counter_at(held, key), seq_step),
    ensures
        counter_at(single_drawn(held, now, key, seq_step), key) == after_drawing(
            counter_at(held, key),
            seq_step,
        ),
        other != key ==> counter_at(single_drawn(held, now, key, seq_step), other) == counter_at(
            held,
            other,
        ),
{
    reveal_strlit("cur_seq");
    reveal_strlit("max_seq");
    assert(CUR_SEQ_KEY@[0] != MAX_SEQ_KEY@[0]);
}

/// A drawing from a key that holds another kind of thing changes nothing.
pub proof fn law_refused_drawings_change_nothing(
    held: Keyspace,
    now: int,
    key: Seq<char>,
    seq_step: i32,
)
    requires
        refuses_hash(held, now, key),
    ensures
        single_drawn(held, now, key, seq_step) == held,
{
}

proof fn lemma_group_drawn(
    held: Keyspace,
    now: int,
    members: Seq<Seq<char>>,
    seq_step: i32,
    user_id: Seq<char>,
)
    requires
        !members.contains(user_id),
    ensures
        counter_at(group_drawn(held, now, members, seq_step).0, seq_key(user_id)) == counter_at(
            held,
            seq_key(user_id),
        ),
    decreases members.len(),
{
    if members.len() > 0 {
        let (front, last) = (members.drop_last(), members.last());
        assert(members[members.len() - 1] == last);
        assert(!front.contains(user_id)) by {
            if front.contains(user_id) {
                let i = choose|i: int| 0 <= i < front.len() && front[i] == user_id;
                assert(members[i] == user_id);
            }
        }
        lemma_group_drawn(held, now, front, seq_step, user_id);
        law_keys_are_distinct(user_id, last);
    }
}

/// Drawing for a group gives each member what drawing for that member alone
/// would have given, where none is listed twice.
pub proof fn law_group_drawing_is_drawing_for_each(
    held: Keyspace,
    now: int,
    members: Seq<Seq<char>>,
    seq_step: i32,
    i: int,
)
    requires
        members.no_duplicates(),
        group_drawn(held, now, members, seq_step).1,
        0 <= i < members.len(),
        counts_exactly(counter_at(held, seq_key(members[i])), seq_step),
    ensures
        group_drawings(held, now, members, seq_step)[i] == drawn(
            counter_at(held, seq_key(members[i])),
            seq_step,
        ),
{
    let before = members.take(i);
    assert(!before.contains(members[i])) by {
        if before.contains(members[i]) {
            let j = choose|j: int| 0 <= j < before.len() && before[j] == members[i];
            assert(members[j] == members[i]);
        }
    }
    lemma_group_drawn(held, now, before, seq_step, members[i]);
}

/// Each member of a group gets the number that was drawn for them in their turn,
/// where the answer tells of each drawing in turn. One that is listed twice gets
/// two numbers.
pub proof fn law_members_get_their_own_numbers(
    held: Keyspace,
    now: int,
    members: Seq<Seq<char>>,
    seq_step: i32,
    drawings: Seq<(i64, i64, i64)>,
    i: int,
)
    requires
        0 <= i < members.len(),
        group_drawn(held, now, members, seq_step).1,
        counts_exactly(counter_in_turn(held, now, members, seq_step, i), seq_step),
        drawings == group_drawings(held, now, members, seq_step).map_values(
            |given: Drawn|
                (
                    given.cur_seq,
                    given.max_seq,
                    if given.updated {
                        1i64
                    } else {
                        0i64
                    },
                ),
        ),
    ensures
        ({
            let given = group_drawings(held, now, members, seq_step)[i];
            let member = given_to(members, drawings)[i];
            &&& given_to(members, drawings).len() == members.len()
            &&& member.mem_id == members[i]
            &&& member.cur_seq == given.cur_seq
            &&& member.max_seq == given.max_seq
            &&& member.need_update == given.updated
        }),
{
}

/// The first number of a user that the cache does not know is one; the numbers
/// up to the step are set aside with it.
pub proof fn law_counting_starts_at_one(held: Keyspace, user_id: Seq<char>, seq_step: i32)
    requires
        seq_step >= 1,
        !held.contains_key(seq_key(user_id)),
    ensures
        drawn(counter_at(held, seq_key(user_id)), seq_step) == (Drawn {
            cur_seq: 1,
            max_seq: seq_step as i64,
            updated: false,
        }),
{
}

/// The scripts name the fields of a counter by the words that the commands name
/// them by, and are for the rest the texts that count in these fields.
pub proof fn law_scripts_count_in_the_fields_of_a_counter()
    ensures
        SINGLE_SEQ_SCRIPT@ == "\n        local cur_seq = redis.call('HINCRBY', KEYS[1], '"@ +
            CUR_SEQ_KEY@ +
            "', 1)\n        local max_seq = redis.call('HGET', KEYS[1], '"@ +
            MAX_SEQ_KEY@ +
            "')\n        local updated = false\n        if max_seq == false then\n            max_seq = tonumber(ARGV[1])\n            redis.call('HSET', KEYS[1], '"@ +
            MAX_SEQ_KEY@ +
            "', max_seq)\n            end\n        if tonumber(cur_seq) > tonumber(max_seq) then\n            max_seq = tonumber(max_seq) + ARGV[1]\n            redis.call('HSET', KEYS[1], '"@ +
            MAX_SEQ_KEY@ +
            "', max_seq)\n            updated = true\n        end\n        return {cur_seq, max_seq, updated}\n        "@,
        GROUP_SEQ_SCRIPT@ == "\n        local seq_step = tonumber(ARGV[1])\n        local result = {}\n\n        for i=2,#ARGV do\n            local key = \"seq:\" .. ARGV[i]\n            local cur_seq = redis.call('HINCRBY', key, '"@ +
            CUR_SEQ_KEY@ +
            "', 1)\n            local max_seq = redis.call('HGET', key, '"@ +
            MAX_SEQ_KEY@ +
            "')\n            local updated = 0\n            if max_seq == false then\n                max_seq = seq_step\n                redis.call('HSET', key, '"@ +
            MAX_SEQ_KEY@ +
            "', max_seq)\n            else\n                max_seq = tonumber(max_seq)\n            end\n            if cur_seq > max_seq then\n                max_seq = max_seq + seq_step\n                redis.call('HSET', key, '"@ +
            MAX_SEQ_KEY@ +
            "', max_seq)\n                updated = 1\n            end\n            table.insert(result, {cur_seq, max_seq, updated})\n        end\n\n        return result\n        "@,
{
    reveal_strlit("cur_seq");
    reveal_strlit("max_seq");
    reveal_strlit("\n        local cur_seq = redis.call('HINCRBY', KEYS[1], 'cur_seq', 1)\n        local max_seq = redis.call('HGET', KEYS[1], 'max_seq')\n        local updated = false\n        if max_seq == false then\n            max_seq = tonumber(ARGV[1])\n            redis.call('HSET', KEYS[1], 'max_seq', max_seq)\n            end\n        if tonumber(cur_seq) > tonumber(max_seq) then\n            max_seq = tonumber(max_seq) + ARGV[1]\n            redis.call('HSET', KEYS[1], 'max_seq', max_seq)\n            updated = true\n        end\n        return {cur_seq, max_seq, updated}\n        ");
    reveal_strlit("\n        local seq_step = tonumber(ARGV[1])\n        local result = {}\n\n        for i=2,#ARGV do\n            local key = \"seq:\" .. ARGV[i]\n            local cur_seq = redis.call('HINCRBY', key, 'cur_seq', 1)\n            local max_seq = redis.call('HGET', key, 'max_seq')\n            local updated = 0\n            if max_seq == false then\n                max_seq = seq_step\n                redis.call('HSET', key, 'max_seq', max_seq)\n            else\n                max_seq = tonumber(max_seq)\n            end\n            if cur_seq > max_seq then\n                max_seq = max_seq + seq_step\n                redis.call('HSET', key, 'max_seq', max_seq)\n                updated = 1\n            end\n            table.insert(result, {cur_seq, max_seq, updated})\n        end\n\n        return result\n        ");
    reveal_strlit("')\n            local updated = 0\n            if max_seq == false then\n                max_seq = seq_step\n                redis.call('HSET', key, '");
    reveal_strlit("')\n        local updated = false\n        if max_seq == false then\n            max_seq = tonumber(ARGV[1])\n            redis.call('HSET', KEYS[1], '");
    reveal_strlit("', 1)\n            local max_seq = redis.call('HGET', key, '");
    reveal_strlit("', 1)\n        local max_seq = redis.call('HGET', KEYS[1], '");
    reveal_strlit("', max_seq)\n                updated = 1\n            end\n            table.insert(result, {cur_seq, max_seq, updated})\n        end\n\n        return result\n        ");
    reveal_strlit("', max_seq)\n            else\n                max_seq = tonumber(max_seq)\n            end\n            if cur_seq > max_seq then\n                max_seq = max_seq + seq_step\n                redis.call('HSET', key, '");
    reveal_strlit("', max_seq)\n            end\n        if tonumber(cur_seq) > tonumber(max_seq) then\n            max_seq = tonumber(max_seq) + ARGV[1]\n            redis.call('HSET', KEYS[1], '");
    reveal_strlit("', max_seq)\n            updated = true\n        end\n        return {cur_seq, max_seq, updated}\n        ");
    reveal_strlit("\n        local cur_seq = redis.call('HINCRBY', KEYS[1], '");
    reveal_strlit("\n        local seq_step = tonumber(ARGV[1])\n        local result = {}\n\n        for i=2,#ARGV do\n            local key = \"seq:\" .. ARGV[i]\n            local cur_seq = redis.call('HINCRBY', key, '");
    assert(SINGLE_SEQ_SCRIPT@ =~= "\n        local cur_seq = redis.call('HINCRBY', KEYS[1], '"@ +
        CUR_SEQ_KEY@ +
        "', 1)\n        local max_seq = redis.call('HGET', KEYS[1], '"@ +
        MAX_SEQ_KEY@ +
        "')\n        local updated = false\n        if max_seq == false then\n            max_seq = tonumber(ARGV[1])\n            redis.call('HSET', KEYS[1], '"@ +
        MAX_SEQ_KEY@ +
        "', max_seq)\n            end\n        if tonumber(cur_seq) > tonumber(max_seq) then\n            max_seq = tonumber(max_seq) + ARGV[1]\n            redis.call('HSET', KEYS[1], '"@ +
        MAX_SEQ_KEY@ +
        "', max_seq)\n            updated = true\n        end\n        return {cur_seq, max_seq, updated}\n        "@);
    assert(GROUP_SEQ_SCRIPT@ =~= "\n        local seq_step = tonumber(ARGV[1])\n        local result = {}\n\n        for i=2,#ARGV do\n            local key = \"seq:\" .. ARGV[i]\n            local cur_seq = redis.call('HINCRBY', key, '"@ +
        CUR_SEQ_KEY@ +
        "', 1)\n            local max_seq = redis.call('HGET', key, '"@ +
        MAX_SEQ_KEY@ +
        "')\n            local updated = 0\n            if max_seq == false then\n                max_seq = seq_step\n                redis.call('HSET', key, '"@ +
        MAX_SEQ_KEY@ +
        "', max_seq)\n            else\n                max_seq = tonumber(max_seq)\n            end\n            if cur_seq > max_seq then\n                max_seq = max_seq + seq_step\n                redis.call('HSET', key, '"@ +
        MAX_SEQ_KEY@ +
        "', max_seq)\n                updated = 1\n            end\n            table.insert(result, {cur_seq, max_seq, updated})\n        end\n\n        return result\n        "@);
}

} // verus!
