//! When to review a conversation for what is worth remembering, and how.
use vstd::prelude::*;

verus! {

/// Guidance handed to the background curator.
pub const MEMORY_REVIEW_GUIDANCE: &'static str =
    "Review the conversation above and curate memory if anything durable stands out.\n\nSave with the `memory` tool only when it will still matter next week: a user preference or correction, an environment fact, a stable convention. Prefer declarative facts ('User prefers X') over imperatives ('Always do Y'). Skip transient details — task outcomes, PR/issue numbers, commit SHAs, 'phase done'. Tidy obviously stale or duplicated entries with `replace`/`remove`. If nothing is worth saving, do nothing.";

/// Counts turns and says when a review is due.
#[derive(Debug)]
pub struct ReviewScheduler {
    interval: u32,
    since: u32,
}

/// The model of a scheduler: how many turns there are from one review to the next, none
/// for never, and how many have passed.
pub ghost struct ScheduleView {
    pub interval: nat,
    pub since: nat,
}

impl View for ReviewScheduler {
    type V = ScheduleView;

    closed spec fn view(&self) -> ScheduleView {
        ScheduleView { interval: self.interval as nat, since: self.since as nat }
    }
}

/// The scheduler after one more turn.
pub open spec fn next_turn(s: ScheduleView) -> ScheduleView {
    if s.interval == 0 {
        s
    } else if s.since + 1 >= s.interval {
        ScheduleView { since: 0, ..s }
    } else {
        ScheduleView { since: s.since + 1, ..s }
    }
}

/// Whether one more turn makes a review due.
pub open spec fn is_due(s: ScheduleView) -> bool {
    s.interval > 0 && s.since + 1 >= s.interval
}

impl ReviewScheduler {
    #[verifier::type_invariant]
    spec fn short_of_due(self) -> bool {
        self.since == 0 || self.since < self.interval
    }

    /// A scheduler for the given interval; with 0 no review is ever due.
    pub fn new(interval: u32) -> (r: ReviewScheduler)
        ensures
            r@ == (ScheduleView { interval: interval as nat, since: 0 }),
    {
        ReviewScheduler { interval, since: 0 }
    }

    /// Whether a review is ever due.
    pub fn enabled(&self) -> (r: bool)
        ensures
            r == (self@.interval > 0),
    {
        self.interval > 0
    }

    /// Records one completed turn, and says whether a review is due.
    pub fn record_turn(&mut self) -> (r: bool)
        ensures
            r == is_due(old(self)@),
            final(self)@ == next_turn(old(self)@),
    {
        proof {
            use_type_invariant(&*self);
        }
        if self.interval == 0 {
            return false;
        }
        if self.since + 1 >= self.interval {
            self.since = 0;
            true
        } else {
            self.since = self.since + 1;
            false
        }
    }

    /// How many turns have passed since the last review.
    pub fn turns_since(&self) -> (r: u32)
        ensures
            r == self@.since,
    {
        self.since
    }
}

/// A new scheduler after `turns` turns.
pub open spec fn after_turns(interval: nat, turns: nat) -> ScheduleView
    decreases turns,
{
    if turns == 0 {
        ScheduleView { interval, since: 0 }
    } else {
        next_turn(after_turns(interval, (turns - 1) as nat))
    }
}

/// A review is due at every turn whose number is a multiple of the interval, and at no
/// other; with no interval at none.
pub proof fn reviews_come_every_interval(interval: nat, turns: nat)
    ensures
        interval == 0 ==> !is_due(after_turns(interval, turns)),
        interval > 0 ==> after_turns(interval, turns).since == turns % interval,
        interval > 0 ==> (is_due(after_turns(interval, turns)) <==> (turns + 1) % interval == 0),
        after_turns(interval, turns).interval == interval,
    decreases turns,
{
    if turns > 0 {
        reviews_come_every_interval(interval, (turns - 1) as nat);
    }
    if interval > 0 {
        vstd::arithmetic::div_mod::lemma_mod_bound(turns as int, interval as int);
        if turns > 0 {
            next_remainder((turns - 1) as int, interval as int);
        } else {
            vstd::arithmetic::div_mod::lemma_small_mod(0, interval);
        }
        next_remainder(turns as int, interval as int);
    }
}

proof fn next_remainder(n: int, d: int)
    requires
        n >= 0,
        d > 0,
    ensures
        (n + 1) % d == if n % d + 1 >= d {
            0
        } else {
            n % d + 1
        },
{
    assert((n + 1) % d == if n % d + 1 >= d {
        0
    } else {
        n % d + 1
    }) by (nonlinear_arith)
        requires
            n >= 0,
            d > 0,
    ;
}

} // verus!
