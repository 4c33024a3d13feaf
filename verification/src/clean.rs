//! Clearing out what is older than it needs to be kept.

use vstd::prelude::*;

use crate::calendar::{has_date, lemma_date_bounds, month_before, month_of, year_month_text};
use crate::calendar::{clock_may_read, format_year_month, months_before, utc_now, year_month_or};
use crate::filter::Filter;
use crate::filter::FilterView;
use crate::shard::HybridShardedMsgBox;
use crate::shard::{is_outdated, MsgBoxView};
use crate::walk::Walk;

verus! {

/// How many seconds pass between two rounds.
pub const CLEANING_INTERVAL_SECS: u64 = 86400;

/// The number of whole months of thirty days in a number of days, towards zero.
pub open spec fn months_of_days(days: int) -> int {
    if days >= 0 {
        days / 30
    } else {
        -((-days) / 30)
    }
}

/// How many months before the present a collection goes out of use, for
/// messages that are kept so many days. A number that does not fit is cut to
/// its low bits.
pub open spec fn kept_months(period: i64) -> u32 {
    (months_of_days(period as int) + 2) as u32
}

/// The moment before which messages are expired.
pub open spec fn cutoff(period: int, now: int) -> int {
    now - period * 86400
}

/// The month before which collections go out of use.
pub open spec fn threshold_month(period: i64, now: int) -> int {
    month_before(month_of(now), kept_months(period) as int)
}

/// One round of clearing out, through all collections in use.
#[derive(Debug)]
pub struct CleanRound {
    filter: Filter,
    walk: Walk,
    threshold: String,
}

pub struct CleanRoundView {
    /// Which messages are expired.
    pub filter: FilterView,
    /// The collections to clear, the one at hand first.
    pub todo: Seq<Seq<char>>,
    /// The year and month before which collections go out of use.
    pub threshold: Seq<char>,
}

impl View for CleanRound {
    type V = CleanRoundView;

    closed spec fn view(&self) -> CleanRoundView {
        CleanRoundView { filter: self.filter@, todo: self.walk@, threshold: self.threshold@ }
    }
}

impl CleanRoundView {
    /// After the collection at hand was visited.
    pub open spec fn next(self) -> CleanRoundView {
        CleanRoundView { todo: self.todo.drop_first(), ..self }
    }
}

/// What comes of clearing a collection.
#[derive(Debug)]
pub enum CleanEvent {
    /// The database does not list the collection.
    Missing,
    /// So many messages are gone.
    Deleted(u64),
    /// The deletion failed.
    Failed,
}

/// The round that is due at the moment `now`.
pub open spec fn round_of(active: Seq<Seq<char>>, period: i64, kept_types: Seq<i32>, now: int) -> CleanRoundView {
    CleanRoundView {
        filter: FilterView::Expired { cutoff: cutoff(period as int, now) as i64, kept_types },
        todo: active,
        threshold: year_month_text(threshold_month(period, now)),
    }
}

impl CleanRound {
    /// Which messages to delete.
    pub fn filter(&self) -> (filter: &Filter)
        ensures
            filter@ == self@.filter,
    {
        &self.filter
    }

    /// The collection to clear next.
    pub fn current(&self) -> (name: Option<String>)
        ensures
            match name {
                Some(name) => self@.todo.len() > 0 && name@ == self@.todo[0],
                None => self@.todo.len() == 0,
            },
    {
        self.walk.current()
    }

    /// Takes note of what came of clearing the collection at hand. Whatever it
    /// was, the round goes on.
    pub fn on_event(&mut self, event: CleanEvent)
        requires
            old(self)@.todo.len() > 0,
        ensures
            final(self)@ == old(self)@.next(),
            final(self)@ == (CleanRoundView {
                todo: old(self)@.todo.drop_first(),
                ..old(self)@
            }),
    {
        match event {
            CleanEvent::Missing | CleanEvent::Deleted(_) | CleanEvent::Failed => {
                self.walk.advance();
            },
        }
    }

    /// Ends the round: collections that are too old go out of use.
    pub fn finish(self, msg_box: &mut HybridShardedMsgBox)
        requires
            old(msg_box)@.wf(),
        ensures
            final(msg_box)@.wf(),
            final(msg_box)@ == (MsgBoxView {
                active: old(msg_box)@.active.filter(
                    |name: Seq<char>| !is_outdated(name, self@.threshold),
                ),
                ..old(msg_box)@
            }),
    {
        msg_box.drop_outdated(self.threshold.as_str());
    }
}

impl HybridShardedMsgBox {
    /// The round that is due at the moment `now`, for messages that are kept so
    /// many days, but for some types that are kept for good.
    pub fn clean_receive_box_at(&self, period: i64, types: Vec<i32>, now: i64) -> (round: CleanRound)
        requires
            has_date(now as int),
            has_date(cutoff(period as int, now as int)),
        ensures
            round@ == round_of(self@.active, period, types@, now as int),
            round@.filter == (FilterView::Expired {
                cutoff: (now - period * 86400) as i64,
                kept_types: types@,
            }),
            round@.todo == self@.active,
    {
        proof {
            lemma_date_bounds(now as int);
            lemma_date_bounds(cutoff(period as int, now as int));
        }
        let cutoff: i64 = now - period * 86400;
        let quotient: i64 = if period >= 0 {
            period / 30
        } else {
            -((-period) / 30)
        };
        let outdated: i64 = months_before(now, (quotient + 2) as u32);
        CleanRound {
            filter: Filter::Expired { cutoff, kept_types: types },
            walk: Walk::new(self.active_collections()),
            threshold: year_month_or(outdated, now),
        }
    }

    /// The round that is due now, or nothing where the days to keep reach
    /// beyond all dates.
    pub fn clean_receive_box(&self, period: i64, types: Vec<i32>) -> (round: Option<CleanRound>)
        ensures
            exists|now: i64|
                #![trigger round_of(self@.active, period, types@, now as int)]
                clock_may_read(now) && match round {
                    Some(round) => has_date(cutoff(period as int, now as int)) && round@ == round_of(
                        self@.active,
                        period,
                        types@,
                        now as int,
                    ),
                    None => !has_date(cutoff(period as int, now as int)),
                },
    {
        let now: i64 = utc_now();
        let ghost due = round_of(self@.active, period, types@, now as int);
        if cutoff_has_date(period, now) {
            Some(self.clean_receive_box_at(period, types, now))
        } else {
            None
        }
    }
}

/// Whether the days to keep end on a date.
pub fn cutoff_has_date(period: i64, now: i64) -> (dated: bool)
    requires
        has_date(now as int),
    ensures
        dated == has_date(cutoff(period as int, now as int)),
{
    proof {
        lemma_date_bounds(now as int);
        if has_date(cutoff(period as int, now as int)) {
            lemma_date_bounds(cutoff(period as int, now as int));
        }
    }
    if period < -1_000_000_000 || period > 1_000_000_000 {
        return false;
    }
    match format_year_month(now - period * 86400) {
        Some(_) => true,
        None => false,
    }
}

} // verus!
