//! The executable tracker state and its lifecycle operations.

use vstd::prelude::*;
use crate::laws::{lemma_bucket_is_record, lemma_observe_records, lemma_one_bucket_per_title};
use crate::model::{credit, elapsed_between, has_title, Bucket, Poll, TrackerView};

verus! {

/// One recorded window: its title and the focus time credited to it, in
/// nanoseconds.
struct WindowRecord {
    title: String,
    nanos: u64,
}

/// The state of one tracker: the recorded windows, in the order in which
/// their titles were first seen, and the time of the last attribution.
///
/// Times are nanosecond counts read from a clock of the caller's choice.
/// The state is an ordinary owned value; a program that polls and reports
/// from different threads keeps it behind one lock.
pub struct TrackerState {
    records: Vec<WindowRecord>,
    last_transition: u64,
}

impl View for TrackerState {
    type V = TrackerView;

    closed spec fn view(&self) -> TrackerView {
        TrackerView {
            buckets: Seq::new(
                self.records@.len(),
                |i: int|
                    Bucket { title: self.records@[i].title@, nanos: self.records@[i].nanos as nat },
            ),
            last_transition: self.last_transition as nat,
        }
    }
}

impl TrackerState {
    #[verifier::type_invariant]
    spec fn well_formed(&self) -> bool {
        self@.wf()
    }

    /// A tracker without records whose last attribution happened at `now`.
    pub fn new(now: u64) -> (state: TrackerState)
        ensures
            state@ == TrackerView::fresh(now as nat),
            state@.wf(),
    {
        let state = TrackerState { records: Vec::new(), last_transition: now };
        assert(state@.buckets =~= Seq::<Bucket>::empty());
        state
    }
}

/// Whether two strings hold the same text, decided on their UTF-8 bytes.
fn same_text(a: &str, b: &str) -> (same: bool)
    ensures
        same == (a@ == b@),
{
    let x = a.as_bytes();
    let y = b.as_bytes();
    proof {
        vstd::utf8::encode_utf8_decode_utf8(a@);
        vstd::utf8::encode_utf8_decode_utf8(b@);
    }
    if x.len() != y.len() {
        return false;
    }
    let mut i: usize = 0;
    while i < x.len()
        invariant
            i <= x@.len(),
            x@.len() == y@.len(),
            forall|k: int| 0 <= k < i ==> x@[k] == y@[k],
            a@ == b@ ==> x@ == y@,
            x@ == y@ ==> a@ == b@,
        decreases x@.len() - i,
    {
        if x[i] != y[i] {
            return false;
        }
        i += 1;
    }
    assert(x@ =~= y@);
    true
}

/// Where the record titled `title` stands among `records`, if there is one.
fn position_of(records: &Vec<WindowRecord>, title: &str) -> (found: Option<usize>)
    ensures
        match found {
            Some(i) => i < records@.len() && records@[i as int].title@ == title@,
            None => forall|k: int| 0 <= k < records@.len() ==> records@[k].title@ != title@,
        },
{
    let mut i: usize = 0;
    while i < records.len()
        invariant
            i <= records@.len(),
            forall|k: int| 0 <= k < i ==> records@[k].title@ != title@,
        decreases records@.len() - i,
    {
        if same_text(records[i].title.as_str(), title) {
            return Some(i);
        }
        i += 1;
    }
    None
}

/// Attributes the time since the last attribution to `title`, seen in focus
/// at `now`.
///
/// The elapsed time is `now` minus the time of the last attribution, or zero
/// if the clock has moved backwards. It is added to the record of `title`,
/// which is appended with that time if the title is new; a record stops
/// growing at `u64::MAX`. Then `now` becomes the time of the last
/// attribution.
pub fn add_or_update_window(state: &mut TrackerState, title: &str, now: u64)
    ensures
        final(state)@ == old(state)@.observe(title@, now as nat),
        final(state)@.records() == old(state)@.records().insert(
            title@,
            credit(
                old(state)@.held(title@),
                elapsed_between(old(state)@.last_transition, now as nat),
            ),
        ),
        final(state)@.last_transition == now,
        final(state)@.wf(),
{
    proof {
        use_type_invariant(&*state);
        lemma_observe_records(state@, title@, now as nat);
    }
    let ghost before = state@;
    let elapsed: u64 = now.saturating_sub(state.last_transition);
    let mut records: Vec<WindowRecord> = Vec::new();
    std::mem::swap(&mut records, &mut state.records);
    let ghost held = records@;
    assert(forall|k: int|
        0 <= k < held.len() ==> #[trigger] before.buckets[k].title == held[k].title@);
    match position_of(&records, title) {
        Some(i) => {
            let credited: u64 = records[i].nanos.saturating_add(elapsed);
            records[i].nanos = credited;
            assert(before.buckets[i as int].title == title@);
        },
        None => {
            records.push(WindowRecord { title: title.to_owned(), nanos: elapsed });
            assert(!has_title(before.buckets, title@));
        },
    }
    assert forall|a: int, b: int| 0 <= a < b < records@.len() implies records@[a].title@
        != records@[b].title@ by {
        if b < held.len() {
            assert(before.buckets[a].title != before.buckets[b].title);
        } else {
            assert(before.buckets[a].title != title@);
        }
    }
    state.records = records;
    state.last_transition = now;
    assert(state@.buckets =~= before.observe(title@, now as nat).buckets);
}

/// Starts over: drops all records and takes `now` as the time of the last
/// attribution.
pub fn wt_init(state: &mut TrackerState, now: u64)
    ensures
        final(state)@ == old(state)@.reset(now as nat),
        final(state)@.wf(),
{
    let fresh = TrackerState::new(now);
    proof {
        use_type_invariant(&fresh);
    }
    *state = fresh;
}

/// One poll at `now`: an observed title is attributed as in
/// [`add_or_update_window`]; a probe that saw nothing leaves the state as it
/// is, so that the time it missed goes to the title that is seen next.
pub fn wt_update(state: &mut TrackerState, observation: Option<String>, now: u64)
    ensures
        final(state)@ == old(state)@.update(
            Poll { observation: option_text(observation), now: now as nat },
        ),
        observation is None ==> final(state)@ == old(state)@,
        final(state)@.wf(),
{
    proof {
        use_type_invariant(&*state);
    }
    match observation {
        Some(title) => add_or_update_window(state, title.as_str(), now),
        None => {},
    }
}

/// The text of an observation, if there is one.
pub open spec fn option_text(observation: Option<String>) -> Option<Seq<char>> {
    match observation {
        Some(title) => Some(title@),
        None => None,
    }
}

/// The number of distinct titles recorded.
pub fn wt_get_window_count(state: &TrackerState) -> (count: usize)
    ensures
        count == state@.buckets.len(),
        count == state@.records().dom().len(),
{
    proof {
        use_type_invariant(state);
        lemma_one_bucket_per_title(state@);
    }
    state.records.len()
}

/// The record at position `index` of the snapshot order, which is the order
/// in which the titles were first seen; nothing if `index` is out of range.
pub fn wt_get_window_info(state: &TrackerState, index: usize) -> (info: Option<(String, u64)>)
    ensures
        match info {
            Some(pair) => {
                &&& index < state@.buckets.len()
                &&& pair.0@ == state@.buckets[index as int].title
                &&& pair.1 == state@.buckets[index as int].nanos
                &&& state@.records().contains_key(pair.0@)
                &&& state@.records()[pair.0@] == pair.1
            },
            None => index >= state@.buckets.len(),
        },
{
    if index < state.records.len() {
        proof {
            use_type_invariant(state);
            lemma_bucket_is_record(state@, index as int);
        }
        let record = &state.records[index];
        Some((record.title.clone(), record.nanos))
    } else {
        None
    }
}

/// A copy of all records, in snapshot order: one pair for each recorded
/// title, with the focus time recorded for it.
pub fn wt_get_all_windows(state: &TrackerState) -> (windows: Vec<(String, u64)>)
    ensures
        windows@.len() == state@.buckets.len(),
        forall|i: int|
            0 <= i < windows@.len() ==> (#[trigger] windows@[i]).0@ == state@.buckets[i].title
                && windows@[i].1 == state@.buckets[i].nanos,
        forall|i: int|
            0 <= i < windows@.len() ==> state@.records().contains_key((#[trigger] windows@[i]).0@)
                && state@.records()[windows@[i].0@] == windows@[i].1,
{
    let mut windows: Vec<(String, u64)> = Vec::new();
    let mut i: usize = 0;
    while i < state.records.len()
        invariant
            i <= state.records@.len(),
            windows@.len() == i,
            forall|k: int|
                0 <= k < i ==> (#[trigger] windows@[k]).0@ == state.records@[k].title@
                    && windows@[k].1 == state.records@[k].nanos,
        decreases state.records@.len() - i,
    {
        let record = &state.records[i];
        windows.push((record.title.clone(), record.nanos));
        i += 1;
    }
    proof {
        use_type_invariant(state);
        assert forall|i: int| 0 <= i < windows@.len() implies state@.records().contains_key(
            (#[trigger] windows@[i]).0@,
        ) && state@.records()[windows@[i].0@] == windows@[i].1 by {
            lemma_bucket_is_record(state@, i);
        }
    }
    windows
}

/// Drops all records and keeps the time of the last attribution.
pub fn wt_cleanup(state: &mut TrackerState)
    ensures
        final(state)@ == old(state)@.cleared(),
        final(state)@.wf(),
{
    proof {
        use_type_invariant(&*state);
    }
    let cleared = TrackerState::new(state.last_transition);
    proof {
        use_type_invariant(&cleared);
    }
    *state = cleared;
}

} // verus!
