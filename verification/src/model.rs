//! The mathematical model of the tracker: an ordered list of buckets and the
//! time of the last attribution.

use vstd::prelude::*;

verus! {

/// One bucket: a window title and the focus time credited to it so far, in
/// nanoseconds.
pub struct Bucket {
    pub title: Seq<char>,
    pub nanos: nat,
}

/// The time that is credited when the previous attribution happened at `last`
/// and the clock now reads `now`. A clock that has moved backwards credits
/// nothing.
pub open spec fn elapsed_between(last: nat, now: nat) -> nat {
    if now >= last {
        (now - last) as nat
    } else {
        0
    }
}

/// The new content of a bucket that held `held` and is credited `elapsed`.
/// A bucket stops growing at `u64::MAX` nanoseconds.
pub open spec fn credit(held: nat, elapsed: nat) -> nat {
    if held + elapsed <= u64::MAX {
        held + elapsed
    } else {
        u64::MAX as nat
    }
}

/// Whether some bucket in `buckets` is keyed by `title`.
pub open spec fn has_title(buckets: Seq<Bucket>, title: Seq<char>) -> bool {
    exists|i: int| 0 <= i < buckets.len() && #[trigger] buckets[i].title == title
}

/// No two buckets share a title.
pub open spec fn distinct_titles(buckets: Seq<Bucket>) -> bool {
    forall|i: int, j: int|
        0 <= i < j < buckets.len() ==> #[trigger] buckets[i].title != #[trigger] buckets[j].title
}

/// The sum of the focus times of all buckets.
pub open spec fn total_nanos(buckets: Seq<Bucket>) -> nat
    decreases buckets.len(),
{
    if buckets.len() == 0 {
        0
    } else {
        total_nanos(buckets.drop_last()) + buckets.last().nanos
    }
}

/// What a snapshot of the tracker shows: the buckets in the order in which
/// their titles were first seen, and the time of the last attribution.
pub struct TrackerView {
    pub buckets: Seq<Bucket>,
    pub last_transition: nat,
}

/// One poll: what the probe reported, if anything, and what the clock read.
pub struct Poll {
    pub observation: Option<Seq<char>>,
    pub now: nat,
}

impl TrackerView {
    /// A tracker without buckets whose last attribution happened at `now`.
    pub open spec fn fresh(now: nat) -> TrackerView {
        TrackerView { buckets: Seq::empty(), last_transition: now }
    }

    /// Every title keys one bucket at most, and every number fits the
    /// machine word that holds it.
    pub open spec fn wf(self) -> bool {
        &&& distinct_titles(self.buckets)
        &&& forall|i: int|
            0 <= i < self.buckets.len() ==> #[trigger] self.buckets[i].nanos <= u64::MAX
        &&& self.last_transition <= u64::MAX
    }

    /// The buckets as a mapping from title to focus time.
    pub open spec fn records(self) -> Map<Seq<char>, nat> {
        Map::new(
            |title: Seq<char>| has_title(self.buckets, title),
            |title: Seq<char>| self.buckets[self.position(title)].nanos,
        )
    }

    /// Where the bucket keyed by `title` stands, if there is one.
    pub open spec fn position(self, title: Seq<char>) -> int {
        choose|i: int| 0 <= i < self.buckets.len() && #[trigger] self.buckets[i].title == title
    }

    /// The focus time held for `title`: zero while the title is unknown.
    pub open spec fn held(self, title: Seq<char>) -> nat {
        if has_title(self.buckets, title) {
            self.buckets[self.position(title)].nanos
        } else {
            0
        }
    }

    /// The sum of the focus times of all buckets.
    pub open spec fn total(self) -> nat {
        total_nanos(self.buckets)
    }

    /// Starting over at `now`: all buckets are dropped and the clock is read
    /// anew.
    pub open spec fn reset(self, now: nat) -> TrackerView {
        TrackerView::fresh(now)
    }

    /// Dropping the buckets while keeping the time of the last attribution.
    pub open spec fn cleared(self) -> TrackerView {
        TrackerView { buckets: Seq::empty(), last_transition: self.last_transition }
    }

    /// Seeing `title` in focus at `now`: the time since the last attribution
    /// goes to the bucket of `title`, which is appended if it is new, and
    /// `now` becomes the time of the last attribution.
    pub open spec fn observe(self, title: Seq<char>, now: nat) -> TrackerView {
        let elapsed = elapsed_between(self.last_transition, now);
        TrackerView {
            buckets: if has_title(self.buckets, title) {
                Seq::new(
                    self.buckets.len(),
                    |i: int|
                        if self.buckets[i].title == title {
                            Bucket { title, nanos: credit(self.buckets[i].nanos, elapsed) }
                        } else {
                            self.buckets[i]
                        },
                )
            } else {
                self.buckets.push(Bucket { title, nanos: credit(0, elapsed) })
            },
            last_transition: now,
        }
    }

    /// One poll: an observation is attributed, a failed probe changes
    /// nothing.
    pub open spec fn update(self, poll: Poll) -> TrackerView {
        match poll.observation {
            Some(title) => self.observe(title, poll.now),
            None => self,
        }
    }

    /// The polls of `polls` applied in order.
    pub open spec fn run(self, polls: Seq<Poll>) -> TrackerView
        decreases polls.len(),
    {
        if polls.len() == 0 {
            self
        } else {
            self.run(polls.drop_last()).update(polls.last())
        }
    }

    /// The time that one poll hands to a bucket: the elapsed time for an
    /// observation, nothing for a failed probe.
    pub open spec fn credited_by(self, poll: Poll) -> nat {
        match poll.observation {
            Some(_) => elapsed_between(self.last_transition, poll.now),
            None => 0,
        }
    }

    /// The time that the polls of `polls`, applied in order, hand to buckets.
    pub open spec fn credited(self, polls: Seq<Poll>) -> nat
        decreases polls.len(),
    {
        if polls.len() == 0 {
            0
        } else {
            self.credited(polls.drop_last()) + self.run(polls.drop_last()).credited_by(
                polls.last(),
            )
        }
    }
}

/// Every clock reading of `polls` fits a machine word.
pub open spec fn readings_fit(polls: Seq<Poll>) -> bool {
    forall|i: int| 0 <= i < polls.len() ==> (#[trigger] polls[i]).now <= u64::MAX
}

/// Every probe of `polls` saw a window.
pub open spec fn all_observed(polls: Seq<Poll>) -> bool {
    forall|i: int| 0 <= i < polls.len() ==> (#[trigger] polls[i]).observation is Some
}

/// The clock never moves backwards: no reading of `polls` lies before
/// `start`, nor before an earlier reading.
pub open spec fn clock_advances(start: nat, polls: Seq<Poll>) -> bool {
    &&& forall|i: int| 0 <= i < polls.len() ==> start <= (#[trigger] polls[i]).now
    &&& forall|i: int, j: int|
        0 <= i < j < polls.len() ==> (#[trigger] polls[i]).now <= (#[trigger] polls[j]).now
}

} // verus!
