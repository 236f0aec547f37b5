//! What holds of the model across several steps.

use vstd::prelude::*;
use crate::model::{
    all_observed, clock_advances, credit, elapsed_between, has_title, readings_fit, total_nanos,
    Bucket, Poll, TrackerView,
};

verus! {

/// Replacing one bucket changes the total by the difference of the two
/// focus times.
proof fn lemma_total_update(buckets: Seq<Bucket>, at: int, bucket: Bucket)
    requires
        0 <= at < buckets.len(),
    ensures
        total_nanos(buckets.update(at, bucket)) + buckets[at].nanos == total_nanos(buckets)
            + bucket.nanos,
    decreases buckets.len(),
{
    let changed = buckets.update(at, bucket);
    if at == buckets.len() - 1 {
        assert(changed.drop_last() =~= buckets.drop_last());
    } else {
        assert(changed.drop_last() =~= buckets.drop_last().update(at, bucket));
        lemma_total_update(buckets.drop_last(), at, bucket);
    }
}

/// No bucket holds more than the total.
proof fn lemma_bucket_within_total(buckets: Seq<Bucket>, at: int)
    requires
        0 <= at < buckets.len(),
    ensures
        buckets[at].nanos <= total_nanos(buckets),
    decreases buckets.len(),
{
    if at < buckets.len() - 1 {
        lemma_bucket_within_total(buckets.drop_last(), at);
    }
}

/// An observation keeps the state well formed, as long as the clock reading
/// fits a machine word.
pub proof fn lemma_observe_wf(view: TrackerView, title: Seq<char>, now: nat)
    requires
        view.wf(),
        now <= u64::MAX,
    ensures
        view.observe(title, now).wf(),
{
    let after = view.observe(title, now);
    if has_title(view.buckets, title) {
        assert forall|i: int, j: int|
            0 <= i < j < after.buckets.len() implies after.buckets[i].title
            != after.buckets[j].title by {
            assert(after.buckets[i].title == view.buckets[i].title);
            assert(after.buckets[j].title == view.buckets[j].title);
        }
    } else {
        assert forall|i: int, j: int|
            0 <= i < j < after.buckets.len() implies after.buckets[i].title
            != after.buckets[j].title by {
            if j < view.buckets.len() {
                assert(after.buckets[i].title == view.buckets[i].title);
                assert(after.buckets[j].title == view.buckets[j].title);
            } else {
                assert(view.buckets[i].title != title);
            }
        }
    }
}

/// Attribution is additive: unless a bucket would outgrow `u64::MAX`, an
/// observation raises the sum of all buckets by exactly the time that has
/// elapsed since the last attribution.
pub proof fn lemma_observe_adds_elapsed(view: TrackerView, title: Seq<char>, now: nat)
    requires
        view.wf(),
        view.total() + elapsed_between(view.last_transition, now) <= u64::MAX,
    ensures
        view.observe(title, now).total() == view.total() + elapsed_between(
            view.last_transition,
            now,
        ),
{
    let elapsed = elapsed_between(view.last_transition, now);
    let after = view.observe(title, now);
    if has_title(view.buckets, title) {
        let at = view.position(title);
        let grown = Bucket { title, nanos: credit(view.buckets[at].nanos, elapsed) };
        lemma_bucket_within_total(view.buckets, at);
        assert forall|i: int| 0 <= i < view.buckets.len() implies after.buckets[i]
            == view.buckets.update(at, grown)[i] by {
            if i != at {
                if i < at {
                    assert(view.buckets[i].title != view.buckets[at].title);
                } else {
                    assert(view.buckets[at].title != view.buckets[i].title);
                }
            }
        }
        assert(after.buckets =~= view.buckets.update(at, grown));
        lemma_total_update(view.buckets, at, grown);
    } else {
        let added = Bucket { title, nanos: credit(0, elapsed) };
        assert(view.buckets.push(added).drop_last() =~= view.buckets);
    }
}

/// A run of polls keeps the state well formed.
pub proof fn lemma_run_wf(view: TrackerView, polls: Seq<Poll>)
    requires
        view.wf(),
        readings_fit(polls),
    ensures
        view.run(polls).wf(),
    decreases polls.len(),
{
    if polls.len() > 0 {
        let earlier = polls.drop_last();
        lemma_run_wf(view, earlier);
        if let Some(title) = polls.last().observation {
            lemma_observe_wf(view.run(earlier), title, polls.last().now);
        }
    }
}

/// Additivity over a run of polls: unless a bucket would outgrow
/// `u64::MAX`, the sum of all buckets rises by exactly the time that the
/// polls credit.
pub proof fn lemma_run_adds_credited(view: TrackerView, polls: Seq<Poll>)
    requires
        view.wf(),
        readings_fit(polls),
        view.total() + view.credited(polls) <= u64::MAX,
    ensures
        view.run(polls).total() == view.total() + view.credited(polls),
    decreases polls.len(),
{
    if polls.len() > 0 {
        let earlier = polls.drop_last();
        lemma_run_adds_credited(view, earlier);
        lemma_run_wf(view, earlier);
        if let Some(title) = polls.last().observation {
            lemma_observe_adds_elapsed(view.run(earlier), title, polls.last().now);
        }
    }
}

/// Under a clock that never moves backwards, the time of the last
/// attribution never moves backwards either, and the polls credit exactly
/// the time between the last attribution before them and the last one among
/// them.
pub proof fn lemma_steady_clock(view: TrackerView, polls: Seq<Poll>)
    requires
        clock_advances(view.last_transition, polls),
    ensures
        view.last_transition <= view.run(polls).last_transition,
        view.credited(polls) == view.run(polls).last_transition - view.last_transition,
        polls.len() > 0 ==> view.run(polls).last_transition <= polls.last().now,
        polls.len() > 0 && polls.last().observation is Some ==> view.run(polls).last_transition
            == polls.last().now,
    decreases polls.len(),
{
    if polls.len() > 0 {
        let earlier = polls.drop_last();
        assert forall|i: int| 0 <= i < earlier.len() implies view.last_transition <= (
        #[trigger] earlier[i]).now by {
            assert(earlier[i] == polls[i]);
        }
        assert forall|i: int, j: int| 0 <= i < j < earlier.len() implies (#[trigger] earlier[i]).now
            <= (#[trigger] earlier[j]).now by {
            assert(earlier[i] == polls[i]);
            assert(earlier[j] == polls[j]);
        }
        lemma_steady_clock(view, earlier);
        if earlier.len() > 0 {
            assert(earlier.last() == polls[earlier.len() - 1]);
            assert(polls[earlier.len() - 1].now <= polls[polls.len() - 1].now);
        } else {
            assert(view.last_transition <= polls[0].now);
        }
    }
}

/// Additivity between two boundaries: starting without buckets, as after a
/// reset or a cleanup, and polling under a clock that never moves backwards
/// with no failed probe, the sum of all buckets is the time from the last
/// attribution before the polls to the last poll.
pub proof fn lemma_additivity(start: TrackerView, polls: Seq<Poll>)
    requires
        start.wf(),
        start.buckets.len() == 0,
        polls.len() > 0,
        all_observed(polls),
        readings_fit(polls),
        clock_advances(start.last_transition, polls),
    ensures
        start.run(polls).total() == polls.last().now - start.last_transition,
{
    lemma_steady_clock(start, polls);
    assert(polls.last() == polls[polls.len() - 1]);
    lemma_run_adds_credited(start, polls);
}

/// A reset forgets everything before it: two resets in a row leave what the
/// second one alone leaves, a state without buckets whose last attribution
/// is the second reset's own clock reading.
pub proof fn lemma_reset_twice(view: TrackerView, first: nat, second: nat)
    ensures
        view.reset(first).buckets.len() == 0,
        view.reset(first).last_transition == first,
        view.reset(first).reset(second) == view.reset(second),
        view.reset(first).reset(second).buckets.len() == 0,
        view.reset(first).reset(second).last_transition == second,
{
}

/// A failed probe changes neither the buckets nor the time of the last
/// attribution, whatever the clock reads.
pub proof fn lemma_failed_probe_is_skipped(view: TrackerView, now: nat)
    ensures
        view.update(Poll { observation: None, now }) == view,
{
}

/// Credit goes to the title seen at the end of an interval: after an
/// observation the bucket of the observed title holds what it held before
/// plus the elapsed time, every other bucket holds what it held, and no
/// other title has appeared.
pub proof fn lemma_observe_records(view: TrackerView, title: Seq<char>, now: nat)
    requires
        view.wf(),
    ensures
        view.observe(title, now).records() == view.records().insert(
            title,
            credit(view.held(title), elapsed_between(view.last_transition, now)),
        ),
        view.observe(title, now).last_transition == now,
{
    let after = view.observe(title, now);
    let elapsed = elapsed_between(view.last_transition, now);
    let expected = view.records().insert(title, credit(view.held(title), elapsed));
    assert forall|other: Seq<char>| has_title(after.buckets, other) <==> (other == title
        || has_title(view.buckets, other)) by {
        if has_title(after.buckets, other) {
            let i = after.position(other);
            if other != title {
                assert(view.buckets[i].title == other);
            }
        }
        if has_title(view.buckets, other) {
            let i = view.position(other);
            assert(after.buckets[i].title == other);
        }
        if other == title {
            if has_title(view.buckets, title) {
                assert(after.buckets[view.position(title)].title == title);
            } else {
                assert(after.buckets[view.buckets.len() as int].title == title);
            }
        }
    }
    assert forall|other: Seq<char>|
        has_title(after.buckets, other) implies #[trigger] after.records()[other]
        == expected[other] by {
        let i = after.position(other);
        if has_title(view.buckets, other) {
            lemma_position_is_unique(view, view.position(other), other);
            lemma_position_is_unique(view, i, other);
        }
    }
    assert(after.records() =~= expected);
}

/// What a snapshot shows never shrinks under an observation: every bucket
/// keeps its position and its title, and holds at least what it held.
pub proof fn lemma_observe_keeps_buckets(view: TrackerView, title: Seq<char>, now: nat)
    requires
        view.wf(),
    ensures
        view.buckets.len() <= view.observe(title, now).buckets.len(),
        forall|i: int|
            0 <= i < view.buckets.len() ==> {
                &&& (#[trigger] view.observe(title, now).buckets[i]).title == view.buckets[i].title
                &&& view.observe(title, now).buckets[i].nanos >= view.buckets[i].nanos
            },
{
}

/// What a snapshot shows never shrinks under a run of polls: every bucket
/// keeps its position and its title, and holds at least what it held. A
/// snapshot taken after any number of polls therefore never shows a smaller
/// focus time, or lacks a title, that an earlier one showed.
pub proof fn lemma_run_keeps_buckets(view: TrackerView, polls: Seq<Poll>)
    requires
        view.wf(),
        readings_fit(polls),
    ensures
        view.buckets.len() <= view.run(polls).buckets.len(),
        forall|i: int|
            0 <= i < view.buckets.len() ==> {
                &&& (#[trigger] view.run(polls).buckets[i]).title == view.buckets[i].title
                &&& view.run(polls).buckets[i].nanos >= view.buckets[i].nanos
            },
    decreases polls.len(),
{
    if polls.len() > 0 {
        let earlier = polls.drop_last();
        lemma_run_keeps_buckets(view, earlier);
        lemma_run_wf(view, earlier);
        if let Some(title) = polls.last().observation {
            lemma_observe_keeps_buckets(view.run(earlier), title, polls.last().now);
        }
    }
}

/// The same in terms of the mapping from title to focus time: under a run
/// of polls no title disappears and no focus time decreases.
pub proof fn lemma_run_keeps_records(view: TrackerView, polls: Seq<Poll>)
    requires
        view.wf(),
        readings_fit(polls),
    ensures
        forall|title: Seq<char>| #[trigger]
            view.records().contains_key(title) ==> {
                &&& view.run(polls).records().contains_key(title)
                &&& view.run(polls).records()[title] >= view.records()[title]
            },
{
    let after = view.run(polls);
    lemma_run_keeps_buckets(view, polls);
    lemma_run_wf(view, polls);
    assert forall|title: Seq<char>| #[trigger] view.records().contains_key(title) implies {
        &&& after.records().contains_key(title)
        &&& after.records()[title] >= view.records()[title]
    } by {
        let at = view.position(title);
        assert(after.buckets[at].title == title);
        lemma_position_is_unique(after, at, title);
    }
}

/// A cleanup is no reset: it drops the buckets but keeps the time of the
/// last attribution, so the observation that follows it is credited the
/// time since the last attribution before the cleanup.
pub proof fn lemma_cleanup_keeps_clock(view: TrackerView, title: Seq<char>, now: nat)
    ensures
        view.cleared().buckets.len() == 0,
        view.cleared().last_transition == view.last_transition,
        view.cleared().observe(title, now) == (TrackerView {
            buckets: seq![
                Bucket { title, nanos: credit(0, elapsed_between(view.last_transition, now)) },
            ],
            last_transition: now,
        }),
{
    let after = view.cleared().observe(title, now);
    assert(after.buckets =~= seq![
        Bucket { title, nanos: credit(0, elapsed_between(view.last_transition, now)) },
    ]);
}

/// The mapping from title to focus time shows exactly what the buckets
/// hold: the bucket at any position is found under its title, with its
/// focus time.
pub proof fn lemma_bucket_is_record(view: TrackerView, at: int)
    requires
        view.wf(),
        0 <= at < view.buckets.len(),
    ensures
        view.records().contains_key(view.buckets[at].title),
        view.records()[view.buckets[at].title] == view.buckets[at].nanos,
        view.held(view.buckets[at].title) == view.buckets[at].nanos,
{
    lemma_position_is_unique(view, at, view.buckets[at].title);
}

/// There are as many buckets as there are recorded titles.
pub proof fn lemma_one_bucket_per_title(view: TrackerView)
    requires
        view.wf(),
    ensures
        view.records().dom().finite(),
        view.records().dom().len() == view.buckets.len(),
    decreases view.buckets.len(),
{
    if view.buckets.len() == 0 {
        assert(view.records().dom() =~= Set::<Seq<char>>::empty());
    } else {
        let shorter = TrackerView {
            buckets: view.buckets.drop_last(),
            last_transition: view.last_transition,
        };
        let last = view.buckets.last();
        assert forall|i: int| 0 <= i < shorter.buckets.len() implies #[trigger] shorter.buckets[i]
            == view.buckets[i] by {}
        lemma_one_bucket_per_title(shorter);
        assert forall|title: Seq<char>| has_title(view.buckets, title) <==> (title == last.title
            || has_title(shorter.buckets, title)) by {
            if has_title(view.buckets, title) {
                let i = view.position(title);
                if i < shorter.buckets.len() {
                    assert(shorter.buckets[i].title == title);
                }
            }
            if has_title(shorter.buckets, title) {
                let i = shorter.position(title);
                assert(view.buckets[i].title == title);
            }
            if title == last.title {
                assert(view.buckets[view.buckets.len() - 1].title == title);
            }
        }
        if has_title(shorter.buckets, last.title) {
            let i = shorter.position(last.title);
            assert(view.buckets[i].title != view.buckets[view.buckets.len() - 1].title);
        }
        assert(view.records().dom() =~= shorter.records().dom().insert(last.title));
    }
}

/// In a well-formed state the bucket keyed by a title is found at one
/// position only.
proof fn lemma_position_is_unique(view: TrackerView, at: int, title: Seq<char>)
    requires
        view.wf(),
        0 <= at < view.buckets.len(),
        view.buckets[at].title == title,
    ensures
        view.position(title) == at,
        has_title(view.buckets, title),
{
    let found = view.position(title);
    if found < at {
        assert(view.buckets[found].title != view.buckets[at].title);
    } else if at < found {
        assert(view.buckets[at].title != view.buckets[found].title);
    }
}

} // verus!
