//! Putting messages in order, without disturbing those of equal rank.

use vstd::prelude::*;

use crate::message::Msg;
use crate::message::{message_views, MsgView};

verus! {

/// By what messages are ordered.
#[derive(Debug, PartialEq, Eq)]
pub enum MessageOrder {
    /// By the receiver's number.
    BySeq,
    /// By the time of sending, and within one second by the sender's number
    /// where the given user sent the message, by the receiver's otherwise.
    Conversation { user_id: String },
}

pub enum MessageOrderView {
    BySeq,
    Conversation { user_id: Seq<char> },
}

impl View for MessageOrder {
    type V = MessageOrderView;

    open spec fn view(&self) -> MessageOrderView {
        match self {
            MessageOrder::BySeq => MessageOrderView::BySeq,
            MessageOrder::Conversation { user_id } => MessageOrderView::Conversation {
                user_id: user_id@,
            },
        }
    }
}

/// What decides the place of a message: first and second rank.
pub open spec fn rank(order: MessageOrderView, message: MsgView) -> (i64, i64) {
    match order {
        MessageOrderView::BySeq => (message.seq, 0),
        MessageOrderView::Conversation { user_id } => (
            message.send_time,
            if message.sender_id == user_id {
                message.send_seq
            } else {
                message.seq
            },
        ),
    }
}

pub open spec fn rank_at_most(a: (i64, i64), b: (i64, i64)) -> bool {
    a.0 < b.0 || (a.0 == b.0 && a.1 <= b.1)
}

/// No message stands before one of lower rank.
pub open spec fn is_ordered(messages: Seq<MsgView>, order: MessageOrderView) -> bool {
    forall|i: int, j: int|
        0 <= i < j < messages.len() ==> rank_at_most(
            rank(order, #[trigger] messages[i]),
            rank(order, #[trigger] messages[j]),
        )
}

pub open spec fn has_rank(order: MessageOrderView, wanted: (i64, i64)) -> spec_fn(MsgView) -> bool {
    |message: MsgView| rank(order, message) == wanted
}

/// The messages of one rank, as they follow each other.
pub open spec fn of_rank(messages: Seq<MsgView>, order: MessageOrderView, wanted: (i64, i64)) -> Seq<
    MsgView,
> {
    messages.filter(has_rank(order, wanted))
}

/// The messages of the input in order, those of equal rank as they stood.
pub open spec fn is_stable_sort(
    output: Seq<MsgView>,
    input: Seq<MsgView>,
    order: MessageOrderView,
) -> bool {
    &&& is_ordered(output, order)
    &&& output.len() == input.len()
    &&& forall|wanted: (i64, i64)| #[trigger]
        of_rank(output, order, wanted) == of_rank(input, order, wanted)
}

impl MessageOrder {
    /// What decides the place of a message.
    fn rank_of(&self, message: &Msg) -> (ranks: (i64, i64))
        ensures
            ranks == rank(self@, message@),
    {
        match self {
            MessageOrder::BySeq => (message.seq, 0),
            MessageOrder::Conversation { user_id } => {
                if message.sender_id == *user_id {
                    (message.send_time, message.send_seq)
                } else {
                    (message.send_time, message.seq)
                }
            },
        }
    }

    /// Whether `a` may stand before `b`.
    fn at_most(&self, a: &Msg, b: &Msg) -> (ordered: bool)
        ensures
            ordered == rank_at_most(rank(self@, a@), rank(self@, b@)),
    {
        let left = self.rank_of(a);
        let right = self.rank_of(b);
        left.0 < right.0 || (left.0 == right.0 && left.1 <= right.1)
    }
}

proof fn lemma_of_rank_push(messages: Seq<MsgView>, last: MsgView, order: MessageOrderView, wanted: (i64, i64))
    ensures
        of_rank(messages.push(last), order, wanted) == (if rank(order, last) == wanted {
            of_rank(messages, order, wanted).push(last)
        } else {
            of_rank(messages, order, wanted)
        }),
{
    reveal(Seq::filter);
    assert(messages.push(last).drop_last() =~= messages);
}

proof fn lemma_of_rank_add(a: Seq<MsgView>, b: Seq<MsgView>, order: MessageOrderView, wanted: (i64, i64))
    ensures
        of_rank(a + b, order, wanted) == of_rank(a, order, wanted) + of_rank(b, order, wanted),
    decreases b.len(),
{
    reveal(Seq::filter);
    if b.len() == 0 {
        assert(a + b =~= a);
        assert(of_rank(b, order, wanted) =~= Seq::empty());
    } else {
        let front = b.drop_last();
        lemma_of_rank_add(a, front, order, wanted);
        lemma_of_rank_push(a + front, b.last(), order, wanted);
        lemma_of_rank_push(front, b.last(), order, wanted);
        assert((a + front).push(b.last()) =~= a + b);
        assert(front.push(b.last()) =~= b);
        assert(of_rank(a + b, order, wanted) =~= of_rank(a, order, wanted) + of_rank(b, order, wanted));
    }
}

proof fn lemma_no_rank(messages: Seq<MsgView>, order: MessageOrderView, wanted: (i64, i64))
    requires
        forall|i: int| 0 <= i < messages.len() ==> rank(order, #[trigger] messages[i]) != wanted,
    ensures
        of_rank(messages, order, wanted) == Seq::<MsgView>::empty(),
    decreases messages.len(),
{
    reveal(Seq::filter);
    if messages.len() > 0 {
        let front = messages.drop_last();
        assert forall|i: int| 0 <= i < front.len() implies rank(order, #[trigger] front[i]) != wanted by {
            assert(front[i] == messages[i]);
        }
        lemma_no_rank(front, order, wanted);
        lemma_of_rank_push(front, messages.last(), order, wanted);
        assert(front.push(messages.last()) =~= messages);
    }
}

/// The messages from last to first.
fn reversed(messages: Vec<Msg>) -> (turned: Vec<Msg>)
    ensures
        message_views(turned@) == message_views(messages@).reverse(),
{
    let ghost whole = message_views(messages@);
    let mut rest = messages;
    let mut turned: Vec<Msg> = Vec::new();
    while rest.len() > 0
        invariant
            message_views(turned@) == whole.skip(rest@.len() as int).reverse(),
            message_views(rest@) == whole.take(rest@.len() as int),
            rest@.len() <= whole.len(),
        decreases rest@.len(),
    {
        let ghost before = turned@;
        let ghost length = rest@.len();
        assert(message_views(rest@).last() == whole[length - 1]);
        if let Some(message) = rest.pop() {
            turned.push(message);
            assert(message_views(turned@) =~= message_views(before).push(message@));
            assert(message_views(rest@) =~= whole.take(length - 1));
            assert(whole.skip(length - 1).reverse() =~= whole.skip(length as int).reverse().push(message@));
        }
    }
    assert(whole.skip(0) =~= whole);
    turned
}

/// Every message of the first list may stand before every message of the second.
spec fn all_at_most(first: Seq<MsgView>, second: Seq<MsgView>, order: MessageOrderView) -> bool {
    forall|i: int, j: int|
        0 <= i < first.len() && 0 <= j < second.len() ==> rank_at_most(
            rank(order, #[trigger] first[i]),
            rank(order, #[trigger] second[j]),
        )
}

/// Taking the last message of the left list, where it ranks above the whole
/// right list, keeps what each rank holds in all.
proof fn lemma_take_left(
    left: Seq<MsgView>,
    right: Seq<MsgView>,
    tail: Seq<MsgView>,
    order: MessageOrderView,
    wanted: (i64, i64),
)
    requires
        left.len() > 0,
        is_ordered(right, order),
        right.len() > 0 ==> !rank_at_most(rank(order, left.last()), rank(order, right.last())),
    ensures
        of_rank(left, order, wanted) + of_rank(right, order, wanted) + of_rank(tail, order, wanted)
            == of_rank(left.drop_last(), order, wanted) + of_rank(right, order, wanted) + of_rank(
            seq![left.last()] + tail,
            order,
            wanted,
        ),
{
    let taken = left.last();
    assert(left.drop_last().push(taken) =~= left);
    lemma_of_rank_push(left.drop_last(), taken, order, wanted);
    lemma_of_rank_add(seq![taken], tail, order, wanted);
    lemma_of_rank_push(Seq::empty(), taken, order, wanted);
    assert(Seq::<MsgView>::empty().push(taken) =~= seq![taken]);
    lemma_no_rank(Seq::empty(), order, wanted);
    if rank(order, taken) == wanted {
        assert forall|i: int| 0 <= i < right.len() implies rank(order, #[trigger] right[i]) != wanted by {
            if i < right.len() - 1 {
                assert(rank_at_most(rank(order, right[i]), rank(order, right[right.len() - 1])));
            }
        }
        lemma_no_rank(right, order, wanted);
    }
    assert(of_rank(left, order, wanted) + of_rank(right, order, wanted) + of_rank(tail, order, wanted)
        =~= of_rank(left.drop_last(), order, wanted) + of_rank(right, order, wanted) + of_rank(
        seq![taken] + tail,
        order,
        wanted,
    ));
}

/// Taking the last message of the right list keeps what each rank holds in all.
proof fn lemma_take_right(
    left: Seq<MsgView>,
    right: Seq<MsgView>,
    tail: Seq<MsgView>,
    order: MessageOrderView,
    wanted: (i64, i64),
)
    requires
        right.len() > 0,
    ensures
        of_rank(left, order, wanted) + of_rank(right, order, wanted) + of_rank(tail, order, wanted)
            == of_rank(left, order, wanted) + of_rank(right.drop_last(), order, wanted) + of_rank(
            seq![right.last()] + tail,
            order,
            wanted,
        ),
{
    let taken = right.last();
    assert(right.drop_last().push(taken) =~= right);
    lemma_of_rank_push(right.drop_last(), taken, order, wanted);
    lemma_of_rank_add(seq![taken], tail, order, wanted);
    lemma_of_rank_push(Seq::empty(), taken, order, wanted);
    assert(Seq::<MsgView>::empty().push(taken) =~= seq![taken]);
    lemma_no_rank(Seq::empty(), order, wanted);
    assert(of_rank(left, order, wanted) + of_rank(right, order, wanted) + of_rank(tail, order, wanted)
        =~= of_rank(left, order, wanted) + of_rank(right.drop_last(), order, wanted) + of_rank(
        seq![taken] + tail,
        order,
        wanted,
    ));
}

/// Whether `left`, `right` and `tail` hold what `first` and `second` held, with
/// the tail in order and above the rest.
spec fn is_merging(
    left: Seq<MsgView>,
    right: Seq<MsgView>,
    tail: Seq<MsgView>,
    first: Seq<MsgView>,
    second: Seq<MsgView>,
    order: MessageOrderView,
) -> bool {
    &&& is_ordered(left, order)
    &&& is_ordered(right, order)
    &&& is_ordered(tail, order)
    &&& all_at_most(left, tail, order)
    &&& all_at_most(right, tail, order)
    &&& left.len() + right.len() + tail.len() == first.len() + second.len()
    &&& forall|wanted: (i64, i64)|
        #![trigger of_rank(first, order, wanted)]
        #![trigger of_rank(tail, order, wanted)]
        of_rank(left, order, wanted) + of_rank(right, order, wanted) + of_rank(tail, order, wanted)
            == of_rank(first, order, wanted) + of_rank(second, order, wanted)
}

proof fn lemma_merge_left(
    left: Seq<MsgView>,
    right: Seq<MsgView>,
    tail: Seq<MsgView>,
    first: Seq<MsgView>,
    second: Seq<MsgView>,
    order: MessageOrderView,
)
    requires
        is_merging(left, right, tail, first, second, order),
        left.len() > 0,
        right.len() > 0 ==> !rank_at_most(rank(order, left.last()), rank(order, right.last())),
    ensures
        is_merging(left.drop_last(), right, seq![left.last()] + tail, first, second, order),
{
    let (less, more) = (left.drop_last(), seq![left.last()] + tail);
    assert forall|wanted: (i64, i64)|
        #![trigger of_rank(first, order, wanted)]
        #![trigger of_rank(more, order, wanted)]
        of_rank(less, order, wanted) + of_rank(right, order, wanted) + of_rank(more, order, wanted)
            == of_rank(first, order, wanted) + of_rank(second, order, wanted) by {
        lemma_take_left(left, right, tail, order, wanted);
    }
    assert forall|i: int, j: int| 0 <= i < right.len() && 0 <= j < more.len() implies rank_at_most(
        rank(order, #[trigger] right[i]),
        rank(order, #[trigger] more[j]),
    ) by {
        assert(i < right.len() - 1 ==> rank_at_most(
            rank(order, right[i]),
            rank(order, right[right.len() - 1]),
        ));
        assert(j > 0 ==> more[j] == tail[j - 1]);
    }
    assert forall|i: int, j: int| 0 <= i < less.len() && 0 <= j < more.len() implies rank_at_most(
        rank(order, #[trigger] less[i]),
        rank(order, #[trigger] more[j]),
    ) by {
        assert(less[i] == left[i]);
        assert(j > 0 ==> more[j] == tail[j - 1]);
    }
    assert forall|i: int, j: int| 0 <= i < j < more.len() implies rank_at_most(
        rank(order, #[trigger] more[i]),
        rank(order, #[trigger] more[j]),
    ) by {
        assert(more[j] == tail[j - 1]);
        if i == 0 {
            assert(rank_at_most(rank(order, left[left.len() - 1]), rank(order, tail[j - 1])));
        } else {
            assert(more[i] == tail[i - 1]);
        }
    }
}

proof fn lemma_merge_right(
    left: Seq<MsgView>,
    right: Seq<MsgView>,
    tail: Seq<MsgView>,
    first: Seq<MsgView>,
    second: Seq<MsgView>,
    order: MessageOrderView,
)
    requires
        is_merging(left, right, tail, first, second, order),
        right.len() > 0,
        left.len() > 0 ==> rank_at_most(rank(order, left.last()), rank(order, right.last())),
    ensures
        is_merging(left, right.drop_last(), seq![right.last()] + tail, first, second, order),
{
    let (less, more) = (right.drop_last(), seq![right.last()] + tail);
    assert forall|wanted: (i64, i64)|
        #![trigger of_rank(first, order, wanted)]
        #![trigger of_rank(more, order, wanted)]
        of_rank(left, order, wanted) + of_rank(less, order, wanted) + of_rank(more, order, wanted)
            == of_rank(first, order, wanted) + of_rank(second, order, wanted) by {
        lemma_take_right(left, right, tail, order, wanted);
    }
    assert forall|i: int, j: int| 0 <= i < left.len() && 0 <= j < more.len() implies rank_at_most(
        rank(order, #[trigger] left[i]),
        rank(order, #[trigger] more[j]),
    ) by {
        assert(i < left.len() - 1 ==> rank_at_most(
            rank(order, left[i]),
            rank(order, left[left.len() - 1]),
        ));
        assert(j > 0 ==> more[j] == tail[j - 1]);
    }
    assert forall|i: int, j: int| 0 <= i < less.len() && 0 <= j < more.len() implies rank_at_most(
        rank(order, #[trigger] less[i]),
        rank(order, #[trigger] more[j]),
    ) by {
        assert(less[i] == right[i]);
        assert(j > 0 ==> more[j] == tail[j - 1]);
    }
    assert forall|i: int, j: int| 0 <= i < j < more.len() implies rank_at_most(
        rank(order, #[trigger] more[i]),
        rank(order, #[trigger] more[j]),
    ) by {
        assert(more[j] == tail[j - 1]);
        if i == 0 {
            assert(rank_at_most(rank(order, right[right.len() - 1]), rank(order, tail[j - 1])));
        } else {
            assert(more[i] == tail[i - 1]);
        }
    }
}

/// The messages of two ordered lists in one, those of the first list before
/// those of the second where they are of equal rank.
fn merge(first: Vec<Msg>, second: Vec<Msg>, order: &MessageOrder) -> (merged: Vec<Msg>)
    requires
        is_ordered(message_views(first@), order@),
        is_ordered(message_views(second@), order@),
    ensures
        is_stable_sort(
            message_views(merged@),
            message_views(first@) + message_views(second@),
            order@,
        ),
{
    let ghost (whole_first, whole_second) = (message_views(first@), message_views(second@));
    let mut left = first;
    let mut right = second;
    let mut turned: Vec<Msg> = Vec::new();
    proof {
        assert(message_views(turned@).reverse() =~= Seq::<MsgView>::empty());
        assert forall|wanted: (i64, i64)|
            of_rank(whole_first, order@, wanted) + of_rank(whole_second, order@, wanted)
                + of_rank(Seq::empty(), order@, wanted) == #[trigger] of_rank(whole_first, order@, wanted)
                + of_rank(whole_second, order@, wanted) by {
            lemma_no_rank(Seq::empty(), order@, wanted);
            assert(of_rank(whole_first, order@, wanted) + of_rank(whole_second, order@, wanted)
                + Seq::<MsgView>::empty() =~= of_rank(whole_first, order@, wanted)
                + of_rank(whole_second, order@, wanted));
        }
    }
    while left.len() > 0 || right.len() > 0
        invariant
            is_merging(
                message_views(left@),
                message_views(right@),
                message_views(turned@).reverse(),
                whole_first,
                whole_second,
                order@,
            ),
        decreases left@.len() + right@.len(),
    {
        let ghost (l, r, t) = (message_views(left@), message_views(right@), message_views(turned@));
        let from_right = if left.len() == 0 {
            true
        } else if right.len() == 0 {
            false
        } else {
            order.at_most(&left[left.len() - 1], &right[right.len() - 1])
        };
        proof {
            if from_right {
                lemma_merge_right(l, r, t.reverse(), whole_first, whole_second, order@);
            } else {
                lemma_merge_left(l, r, t.reverse(), whole_first, whole_second, order@);
            }
        }
        let next = if from_right {
            right.pop()
        } else {
            left.pop()
        };
        if let Some(message) = next {
            turned.push(message);
            assert(message_views(turned@).reverse() =~= seq![message@] + t.reverse());
            assert(message_views(left@) =~= if from_right {
                l
            } else {
                l.drop_last()
            });
            assert(message_views(right@) =~= if from_right {
                r.drop_last()
            } else {
                r
            });
        }
    }
    let merged = reversed(turned);
    proof {
        let output = message_views(merged@);
        assert forall|wanted: (i64, i64)| #[trigger]
            of_rank(output, order@, wanted) == of_rank(whole_first + whole_second, order@, wanted) by {
            lemma_of_rank_add(whole_first, whole_second, order@, wanted);
            lemma_no_rank(message_views(left@), order@, wanted);
            lemma_no_rank(message_views(right@), order@, wanted);
            assert(Seq::<MsgView>::empty() + Seq::<MsgView>::empty() + of_rank(output, order@, wanted)
                =~= of_rank(output, order@, wanted));
        }
    }
    merged
}

/// The messages in order, those of equal rank as they stood.
pub fn sort_messages(messages: Vec<Msg>, order: &MessageOrder) -> (sorted: Vec<Msg>)
    ensures
        is_stable_sort(message_views(sorted@), message_views(messages@), order@),
    decreases messages@.len(),
{
    if messages.len() <= 1 {
        return messages;
    }
    let ghost whole = message_views(messages@);
    let mut front = messages;
    let middle: usize = front.len() / 2;
    let back = front.split_off(middle);
    let ghost (a, b) = (message_views(front@), message_views(back@));
    assert(a + b =~= whole);
    let left = sort_messages(front, order);
    let right = sort_messages(back, order);
    let merged = merge(left, right, order);
    proof {
        let (x, y) = (message_views(left@), message_views(right@));
        assert forall|wanted: (i64, i64)| #[trigger]
            of_rank(message_views(merged@), order@, wanted) == of_rank(whole, order@, wanted) by {
            lemma_of_rank_add(a, b, order@, wanted);
            lemma_of_rank_add(x, y, order@, wanted);
        }
    }
    merged
}

/// A message occurs as often among those of its rank as in the whole list.
proof fn lemma_count_of_rank(messages: Seq<MsgView>, order: MessageOrderView, message: MsgView)
    ensures
        messages.to_multiset().count(message) == of_rank(
            messages,
            order,
            rank(order, message),
        ).to_multiset().count(message),
    decreases messages.len(),
{
    broadcast use vstd::seq_lib::group_to_multiset_ensures;

    let wanted = rank(order, message);
    if messages.len() > 0 {
        let (front, last) = (messages.drop_last(), messages.last());
        assert(front.push(last) =~= messages);
        lemma_count_of_rank(front, order, message);
        lemma_of_rank_push(front, last, order, wanted);
    } else {
        lemma_no_rank(messages, order, wanted);
        assert(messages =~= Seq::empty());
    }
}

/// Sorting loses no message and adds none: each occurs as often as before.
pub proof fn law_sort_keeps_messages(
    output: Seq<MsgView>,
    input: Seq<MsgView>,
    order: MessageOrderView,
)
    requires
        is_stable_sort(output, input, order),
    ensures
        output.to_multiset() == input.to_multiset(),
        forall|message: MsgView| #[trigger] output.contains(message) <==> input.contains(message),
{
    broadcast use vstd::seq_lib::group_to_multiset_ensures;

    assert forall|message: MsgView| #[trigger]
        output.to_multiset().count(message) == input.to_multiset().count(message) by {
        lemma_count_of_rank(output, order, message);
        lemma_count_of_rank(input, order, message);
        let wanted = rank(order, message);
        assert(of_rank(output, order, wanted) == of_rank(input, order, wanted));
    }
    assert(output.to_multiset() =~= input.to_multiset());
    assert forall|message: MsgView| #[trigger] output.contains(message) <==> input.contains(
        message,
    ) by {
        assert(output.contains(message) <==> output.to_multiset().count(message) > 0);
        assert(input.contains(message) <==> input.to_multiset().count(message) > 0);
    }
}

proof fn lemma_of_rank_first(messages: Seq<MsgView>, order: MessageOrderView)
    requires
        messages.len() > 0,
    ensures
        of_rank(messages, order, rank(order, messages[0])).len() > 0,
        of_rank(messages, order, rank(order, messages[0]))[0] == messages[0],
        forall|wanted: (i64, i64)| #[trigger]
            of_rank(messages.drop_first(), order, wanted) == (if rank(order, messages[0]) == wanted {
                of_rank(messages, order, wanted).drop_first()
            } else {
                of_rank(messages, order, wanted)
            }),
{
    let (head, tail) = (seq![messages[0]], messages.drop_first());
    assert(messages =~= head + tail);
    assert(Seq::<MsgView>::empty().push(messages[0]) =~= head);
    assert forall|wanted: (i64, i64)| of_rank(messages, order, wanted) == (if rank(
        order,
        messages[0],
    ) == wanted {
        head
    } else {
        Seq::empty()
    }) + #[trigger] of_rank(tail, order, wanted) by {
        lemma_of_rank_add(head, tail, order, wanted);
        lemma_of_rank_push(Seq::empty(), messages[0], order, wanted);
        lemma_no_rank(Seq::empty(), order, wanted);
    }
    let own = rank(order, messages[0]);
    assert(of_rank(messages, order, own) == head + of_rank(tail, order, own));
    assert forall|wanted: (i64, i64)| #[trigger]
        of_rank(tail, order, wanted) == (if rank(order, messages[0]) == wanted {
            of_rank(messages, order, wanted).drop_first()
        } else {
            of_rank(messages, order, wanted)
        }) by {
        assert((head + of_rank(tail, order, wanted)).drop_first() =~= of_rank(tail, order, wanted));
        assert(Seq::<MsgView>::empty() + of_rank(tail, order, wanted) =~= of_rank(tail, order, wanted));
    }
}

/// There is one way only to sort a list without disturbing equal ranks.
pub proof fn law_sort_is_determined(
    one: Seq<MsgView>,
    other: Seq<MsgView>,
    input: Seq<MsgView>,
    order: MessageOrderView,
)
    requires
        is_stable_sort(one, input, order),
        is_stable_sort(other, input, order),
    ensures
        one == other,
{
    assert forall|wanted: (i64, i64)| #[trigger]
        of_rank(one, order, wanted) == of_rank(other, order, wanted) by {
        assert(of_rank(other, order, wanted) == of_rank(input, order, wanted));
    }
    lemma_ordered_equal(one, other, order);
}

proof fn lemma_ordered_equal(one: Seq<MsgView>, other: Seq<MsgView>, order: MessageOrderView)
    requires
        is_ordered(one, order),
        is_ordered(other, order),
        one.len() == other.len(),
        forall|wanted: (i64, i64)| #[trigger]
            of_rank(one, order, wanted) == of_rank(other, order, wanted),
    ensures
        one == other,
    decreases one.len(),
{
    if one.len() > 0 {
        let (p, q) = (rank(order, one[0]), rank(order, other[0]));
        lemma_of_rank_first(one, order);
        lemma_of_rank_first(other, order);
        lemma_rank_occurs(other, order, p);
        assert(of_rank(one, order, q) == of_rank(other, order, q));
        lemma_rank_occurs(one, order, q);
        let i = choose|i: int| 0 <= i < other.len() && rank(order, #[trigger] other[i]) == p;
        let j = choose|j: int| 0 <= j < one.len() && rank(order, #[trigger] one[j]) == q;
        assert(i > 0 ==> rank_at_most(q, p));
        assert(j > 0 ==> rank_at_most(p, q));
        assert(p == q);
        assert(one[0] == other[0]);
        assert forall|wanted: (i64, i64)| #[trigger]
            of_rank(one.drop_first(), order, wanted) == of_rank(other.drop_first(), order, wanted) by {
            assert(of_rank(one, order, wanted) == of_rank(other, order, wanted));
        }
        lemma_ordered_equal(one.drop_first(), other.drop_first(), order);
        assert(one =~= seq![one[0]] + one.drop_first());
        assert(other =~= seq![other[0]] + other.drop_first());
    } else {
        assert(one =~= other);
    }
}

proof fn lemma_rank_occurs(messages: Seq<MsgView>, order: MessageOrderView, wanted: (i64, i64))
    requires
        of_rank(messages, order, wanted).len() > 0,
    ensures
        exists|i: int| 0 <= i < messages.len() && rank(order, #[trigger] messages[i]) == wanted,
{
    if forall|i: int| 0 <= i < messages.len() ==> rank(order, #[trigger] messages[i]) != wanted {
        lemma_no_rank(messages, order, wanted);
    }
}

/// An order shows by what it is.
pub proof fn law_orders_show_by_what_they_are(order: MessageOrder)
    ensures
        match order {
            MessageOrder::BySeq => order@ is BySeq,
            MessageOrder::Conversation { user_id } => order@ == (MessageOrderView::Conversation {
                user_id: user_id@,
            }),
        },
{
}

/// Sorting puts messages in order: by the receiver's number, or in a conversation
/// by the time of sending and then by the user's own number among what they sent
/// and the receiver's number else. Messages between which this does not decide
/// stay as they stood.
pub proof fn law_sorted_messages_are_in_order(
    output: Seq<MsgView>,
    input: Seq<MsgView>,
    user_id: Seq<char>,
    i: int,
    j: int,
)
    requires
        0 <= i < j < output.len(),
    ensures
        is_stable_sort(output, input, MessageOrderView::BySeq) ==> output[i].seq <= output[j].seq,
        is_stable_sort(output, input, MessageOrderView::Conversation { user_id }) ==> {
            let first = if output[i].sender_id == user_id {
                output[i].send_seq
            } else {
                output[i].seq
            };
            let second = if output[j].sender_id == user_id {
                output[j].send_seq
            } else {
                output[j].seq
            };
            ||| output[i].send_time < output[j].send_time
            ||| output[i].send_time == output[j].send_time && first <= second
        },
{
    let by_time = MessageOrderView::Conversation { user_id };
    if is_stable_sort(output, input, MessageOrderView::BySeq) {
        assert(rank_at_most(
            rank(MessageOrderView::BySeq, output[i]),
            rank(MessageOrderView::BySeq, output[j]),
        ));
    }
    if is_stable_sort(output, input, by_time) {
        assert(rank_at_most(rank(by_time, output[i]), rank(by_time, output[j])));
    }
}

} // verus!
