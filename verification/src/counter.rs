//! The numbers of a user's messages.
//!
//! Each user has two counters: one for what they receive and one for what they
//! send. A counter holds the last number given out and the last number that is
//! set aside for it. The scripts below run inside the cache, where nothing can
//! come between their steps.

use vstd::prelude::*;

verus! {

/// How many numbers are set aside at a time, unless configured otherwise.
pub const DEFAULT_SEQ_STEP: i32 = 5000;

/// Two to the power of 53. The numbers of the scripts' language are doubles,
/// which hold every whole number up to this one and not the next.
pub const SEQ_LIMIT: i64 = 9_007_199_254_740_992;

/// Gives out the next number of one counter. The counter is the key; the number
/// of numbers to set aside is the argument.
pub const SINGLE_SEQ_SCRIPT: &'static str = "
        local cur_seq = redis.call('HINCRBY', KEYS[1], 'cur_seq', 1)
        local max_seq = redis.call('HGET', KEYS[1], 'max_seq')
        local updated = false
        if max_seq == false then
            max_seq = tonumber(ARGV[1])
            redis.call('HSET', KEYS[1], 'max_seq', max_seq)
            end
        if tonumber(cur_seq) > tonumber(max_seq) then
            max_seq = tonumber(max_seq) + ARGV[1]
            redis.call('HSET', KEYS[1], 'max_seq', max_seq)
            updated = true
        end
        return {cur_seq, max_seq, updated}
        ";

/// Gives out the next number of what each member of a group receives. The
/// arguments are the number of numbers to set aside and the members.
pub const GROUP_SEQ_SCRIPT: &'static str = "
        local seq_step = tonumber(ARGV[1])
        local result = {}

        for i=2,#ARGV do
            local key = \"seq:\" .. ARGV[i]
            local cur_seq = redis.call('HINCRBY', key, 'cur_seq', 1)
            local max_seq = redis.call('HGET', key, 'max_seq')
            local updated = 0
            if max_seq == false then
                max_seq = seq_step
                redis.call('HSET', key, 'max_seq', max_seq)
            else
                max_seq = tonumber(max_seq)
            end
            if cur_seq > max_seq then
                max_seq = max_seq + seq_step
                redis.call('HSET', key, 'max_seq', max_seq)
                updated = 1
            end
            table.insert(result, {cur_seq, max_seq, updated})
        end

        return result
        ";

/// A counter: the last number given out, and the last one set aside. A counter
/// that was never used has given out none, and has none set aside.
#[derive(Clone, Copy, Debug, PartialEq, Eq)]
pub struct SeqCounter {
    pub cur_seq: i64,
    pub max_seq: Option<i64>,
}

/// What a counter gives out: the number, the last number that is set aside
/// after it, and whether more numbers were set aside for it.
#[derive(Clone, Copy, Debug, PartialEq, Eq)]
pub struct Drawn {
    pub cur_seq: i64,
    pub max_seq: i64,
    pub updated: bool,
}

/// The last number that is set aside before a number is given out.
pub open spec fn reserve(counter: SeqCounter, seq_step: i32) -> int {
    match counter.max_seq {
        Some(max_seq) => max_seq as int,
        None => seq_step as int,
    }
}

/// What a counter gives out next.
pub open spec fn drawn(counter: SeqCounter, seq_step: i32) -> Drawn {
    let next = counter.cur_seq + 1;
    let reserve = reserve(counter, seq_step);
    Drawn {
        cur_seq: next as i64,
        max_seq: (if next > reserve {
            reserve + seq_step
        } else {
            reserve
        }) as i64,
        updated: next > reserve,
    }
}

/// The counter after it gave out a number.
pub open spec fn after_drawing(counter: SeqCounter, seq_step: i32) -> SeqCounter {
    SeqCounter {
        cur_seq: drawn(counter, seq_step).cur_seq,
        max_seq: Some(drawn(counter, seq_step).max_seq),
    }
}

/// Whether the next number, and the last one set aside after it, are numbers of
/// this size.
pub open spec fn can_draw(counter: SeqCounter, seq_step: i32) -> bool {
    &&& counter.cur_seq < i64::MAX
    &&& counter.cur_seq + 1 > reserve(counter, seq_step) ==> i64::MIN <= reserve(counter, seq_step)
        + seq_step <= i64::MAX
}

/// Whether the scripts count exactly in giving out the next number.
pub open spec fn counts_exactly(counter: SeqCounter, seq_step: i32) -> bool {
    &&& -SEQ_LIMIT <= counter.cur_seq < SEQ_LIMIT
    &&& -SEQ_LIMIT <= reserve(counter, seq_step) <= SEQ_LIMIT
    &&& -SEQ_LIMIT <= drawn(counter, seq_step).max_seq <= SEQ_LIMIT
}

impl SeqCounter {
    /// Gives out the next number.
    pub fn draw(&mut self, seq_step: i32) -> (given: Drawn)
        requires
            can_draw(*old(self), seq_step),
        ensures
            given == drawn(*old(self), seq_step),
            *final(self) == after_drawing(*old(self), seq_step),
            given.cur_seq == old(self).cur_seq + 1,
            given.updated == (given.cur_seq > match old(self).max_seq {
                Some(max_seq) => max_seq as int,
                None => seq_step as int,
            }),
            given.max_seq == (match old(self).max_seq {
                Some(max_seq) => max_seq as int,
                None => seq_step as int,
            }) + (if given.updated {
                seq_step as int
            } else {
                0
            }),
            final(self).cur_seq == given.cur_seq,
            final(self).max_seq == Some(given.max_seq),
    {
        let cur_seq: i64 = self.cur_seq + 1;
        let mut max_seq: i64 = match self.max_seq {
            Some(max_seq) => max_seq,
            None => seq_step as i64,
        };
        let mut updated = false;
        if cur_seq > max_seq {
            max_seq = max_seq + seq_step as i64;
            updated = true;
        }
        self.cur_seq = cur_seq;
        self.max_seq = Some(max_seq);
        Drawn { cur_seq, max_seq, updated }
    }
}

/// The counter after it gave out so many numbers.
pub open spec fn after_drawings(counter: SeqCounter, seq_step: i32, count: nat) -> SeqCounter
    decreases count,
{
    if count == 0 {
        counter
    } else {
        after_drawing(after_drawings(counter, seq_step, (count - 1) as nat), seq_step)
    }
}

/// Whether no number was given out that was not set aside.
pub open spec fn is_covered(counter: SeqCounter) -> bool {
    match counter.max_seq {
        Some(max_seq) => counter.cur_seq <= max_seq,
        None => counter.cur_seq <= 0,
    }
}

/// A counter gives out a number once only, and in order: after so many drawings
/// it has gone up by as many.
pub proof fn law_numbers_follow_each_other(counter: SeqCounter, seq_step: i32, count: nat)
    requires
        forall|done: nat|
            done < count ==> can_draw(#[trigger] after_drawings(counter, seq_step, done), seq_step),
    ensures
        after_drawings(counter, seq_step, count).cur_seq == counter.cur_seq + count,
    decreases count,
{
    if count > 0 {
        law_numbers_follow_each_other(counter, seq_step, (count - 1) as nat);
        assert(can_draw(after_drawings(counter, seq_step, (count - 1) as nat), seq_step));
    }
}

/// With a positive step no number is given out that was not set aside before
/// or is set aside with it, and more are set aside exactly when those that were
/// are used up.
pub proof fn law_numbers_are_set_aside(counter: SeqCounter, seq_step: i32)
    requires
        seq_step >= 1,
        can_draw(counter, seq_step),
        is_covered(counter),
    ensures
        is_covered(after_drawing(counter, seq_step)),
        drawn(counter, seq_step).cur_seq <= drawn(counter, seq_step).max_seq,
        drawn(counter, seq_step).updated <==> counter.max_seq == Some(counter.cur_seq),
        drawn(counter, seq_step).updated ==> drawn(counter, seq_step).max_seq == counter.cur_seq
            + seq_step,
{
}

/// A counter gives out the number after its last one, and keeps it. Where that is
/// past the last number set aside, as many as the step are set aside beyond it,
/// and the answer says so; else nothing is. A counter that has none set aside
/// begins with the step.
pub proof fn law_a_drawing_moves_the_counter_by_one(counter: SeqCounter, seq_step: i32)
    requires
        can_draw(counter, seq_step),
    ensures
        ({
            let given = drawn(counter, seq_step);
            let after = after_drawing(counter, seq_step);
            let aside = match counter.max_seq {
                Some(max_seq) => max_seq as int,
                None => seq_step as int,
            };
            &&& given.cur_seq == counter.cur_seq + 1
            &&& after.cur_seq == given.cur_seq
            &&& after.max_seq == Some(given.max_seq)
            &&& given.cur_seq <= aside ==> !given.updated && given.max_seq == aside
            &&& given.cur_seq > aside ==> given.updated && given.max_seq == aside + seq_step
        }),
{
}

} // verus!
