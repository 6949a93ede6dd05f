//! What holds of every run, whatever the program reports to it.

use vstd::prelude::*;
use crate::error::PullError;
use crate::manifest::ManifestView;
use crate::pipeline::{go, halt, size_mismatch, step_spec, Action, Event, Run, Stage};

verus! {

/// The run's state and action after each of `events`, told in turn to a run
/// that stands at `run`. The action at place `k` is answered by the event at
/// place `k + 1`.
pub open spec fn trace(run: Run, m: ManifestView, events: Seq<Event>) -> Seq<(Run, Action)>
    decreases events.len(),
{
    if events.len() == 0 {
        Seq::empty()
    } else {
        let before = trace(run, m, events.drop_last());
        let at = if before.len() == 0 {
            run
        } else {
            before.last().0
        };
        before.push(step_spec(at, m, events.last()))
    }
}

/// Somewhere in the trace the object of file `f` was found to have its
/// declared length.
pub open spec fn checked(tr: Seq<(Run, Action)>, events: Seq<Event>, m: ManifestView, f: int) -> bool {
    exists|s: int|
        0 <= s && s + 1 < events.len() && (#[trigger] tr[s]).1 == Action::StatObject(f as usize)
            && events[s + 1] == Event::Size(m.files[f].size)
}

/// Somewhere in the trace the object of file `f` was found to have its
/// declared length, and later the file was copied into staging.
pub open spec fn copied(tr: Seq<(Run, Action)>, events: Seq<Event>, m: ManifestView, f: int) -> bool {
    exists|s: int, j: int|
        0 <= s < j && j + 1 < events.len() && (#[trigger] tr[s]).1 == Action::StatObject(
            f as usize,
        ) && events[s + 1] == Event::Size(m.files[f].size) && (#[trigger] tr[j]).1
            == Action::CopyFile(f as usize) && events[j + 1] == Event::Done
}

/// Every file before file `i` was checked and copied.
pub open spec fn copied_below(
    tr: Seq<(Run, Action)>,
    events: Seq<Event>,
    m: ManifestView,
    i: int,
) -> bool {
    forall|f: int| 0 <= f < i ==> copied(tr, events, m, f)
}

/// What the build stages of a run have behind them.
pub open spec fn build_invariant(run: Run, m: ManifestView, events: Seq<Event>) -> bool {
    let tr = trace(run, m, events);
    events.len() > 0 ==> {
        let now = tr.last();
        &&& now.1 is Promote ==> now.0.stage is Promoting
        &&& match now.0.stage {
            Stage::Checking(i) => i < m.files.len() && now.1 == Action::StatObject(i)
                && copied_below(tr, events, m, i as int),
            Stage::Placing(i) => i < m.files.len() && checked(tr, events, m, i as int)
                && copied_below(tr, events, m, i as int),
            Stage::Copying(i) => i < m.files.len() && checked(tr, events, m, i as int) && now.1
                == Action::CopyFile(i) && copied_below(tr, events, m, i as int),
            Stage::Promoting => copied_below(tr, events, m, m.files.len() as int),
            _ => true,
        }
    }
}

/// A trace has one entry for each event, and the trace of a shorter telling
/// is the beginning of the trace of a longer one.
pub proof fn lemma_trace_prefix(run: Run, m: ManifestView, events: Seq<Event>)
    ensures
        trace(run, m, events).len() == events.len(),
        events.len() > 0 ==> trace(run, m, events.drop_last()) == trace(
            run,
            m,
            events,
        ).drop_last(),
    decreases events.len(),
{
    if events.len() > 0 {
        lemma_trace_prefix(run, m, events.drop_last());
        assert(trace(run, m, events).drop_last() =~= trace(run, m, events.drop_last()));
    }
}

proof fn lemma_copied_stays(run: Run, m: ManifestView, events: Seq<Event>, f: int)
    requires
        events.len() > 0,
        copied(trace(run, m, events.drop_last()), events.drop_last(), m, f),
    ensures
        copied(trace(run, m, events), events, m, f),
{
    let short = events.drop_last();
    let tr0 = trace(run, m, short);
    let tr = trace(run, m, events);
    lemma_trace_prefix(run, m, events);
    lemma_trace_prefix(run, m, short);
    let (s, j) = choose|s: int, j: int|
        0 <= s < j && j + 1 < short.len() && (#[trigger] tr0[s]).1 == Action::StatObject(
            f as usize,
        ) && short[s + 1] == Event::Size(m.files[f].size) && (#[trigger] tr0[j]).1
            == Action::CopyFile(f as usize) && short[j + 1] == Event::Done;
    assert(tr[s] == tr0[s] && tr[j] == tr0[j]);
    assert(events[s + 1] == short[s + 1] && events[j + 1] == short[j + 1]);
}

proof fn lemma_checked_stays(run: Run, m: ManifestView, events: Seq<Event>, f: int)
    requires
        events.len() > 0,
        checked(trace(run, m, events.drop_last()), events.drop_last(), m, f),
    ensures
        checked(trace(run, m, events), events, m, f),
{
    let short = events.drop_last();
    let tr0 = trace(run, m, short);
    let tr = trace(run, m, events);
    lemma_trace_prefix(run, m, events);
    lemma_trace_prefix(run, m, short);
    let s = choose|s: int|
        0 <= s && s + 1 < short.len() && (#[trigger] tr0[s]).1 == Action::StatObject(f as usize)
            && short[s + 1] == Event::Size(m.files[f].size);
    assert(tr[s] == tr0[s]);
    assert(events[s + 1] == short[s + 1]);
}

proof fn lemma_copied_below_stays(run: Run, m: ManifestView, events: Seq<Event>, i: int)
    requires
        events.len() > 0,
        copied_below(trace(run, m, events.drop_last()), events.drop_last(), m, i),
    ensures
        copied_below(trace(run, m, events), events, m, i),
{
    assert forall|f: int| 0 <= f < i implies copied(trace(run, m, events), events, m, f) by {
        lemma_copied_stays(run, m, events, f);
    }
}

/// The build invariant holds of every run from its start.
pub proof fn lemma_build_invariant(run: Run, m: ManifestView, events: Seq<Event>)
    requires
        run.stage is Start,
        m.files.len() <= usize::MAX,
    ensures
        build_invariant(run, m, events),
    decreases events.len(),
{
    if events.len() > 0 {
        let short = events.drop_last();
        let e = events.last();
        lemma_build_invariant(run, m, short);
        lemma_trace_prefix(run, m, events);
        lemma_trace_prefix(run, m, short);
        let tr0 = trace(run, m, short);
        let tr = trace(run, m, events);
        let last = short.len() - 1;
        let at = if tr0.len() == 0 {
            run
        } else {
            tr0.last().0
        };
        let now = step_spec(at, m, e);
        assert(tr.last() == now);
        match at.stage {
            Stage::Checking(i) => {
                if now.0.stage is Placing {
                    assert(tr[last] == tr0[last]);
                    assert(events[last + 1] == e);
                    assert(checked(tr, events, m, i as int));
                    lemma_copied_below_stays(run, m, events, i as int);
                }
            },
            Stage::Placing(i) => {
                if now.0.stage is Copying {
                    lemma_checked_stays(run, m, events, i as int);
                    lemma_copied_below_stays(run, m, events, i as int);
                }
            },
            Stage::Copying(i) => {
                if e is Done {
                    lemma_checked_stays(run, m, events, i as int);
                    lemma_copied_below_stays(run, m, events, i as int);
                    let s = choose|s: int|
                        0 <= s && s + 1 < events.len() && (#[trigger] tr[s]).1
                            == Action::StatObject(i) && events[s + 1] == Event::Size(
                            m.files[i as int].size,
                        );
                    let s0 = choose|s: int|
                        0 <= s && s + 1 < short.len() && (#[trigger] tr0[s]).1
                            == Action::StatObject(i) && short[s + 1] == Event::Size(
                            m.files[i as int].size,
                        );
                    assert(tr[s0] == tr0[s0]);
                    assert(events[s0 + 1] == short[s0 + 1]);
                    assert(tr[last] == tr0[last]);
                    assert(events[last + 1] == e);
                    assert(s0 < last);
                    assert(copied(tr, events, m, i as int));
                    assert(copied_below(tr, events, m, i + 1));
                }
            },
            _ => {},
        }
    }
}

/// Atomic visibility. Whenever a run that began at its start asks for
/// staging to be promoted, every file of the manifest has been copied into
/// staging, each from an object that had its declared length when it was
/// looked at before the copy. So a snapshot becomes visible only complete,
/// and a run that stops earlier has promoted nothing.
pub proof fn lemma_promote_only_complete(run: Run, m: ManifestView, events: Seq<Event>)
    requires
        run.stage is Start,
        m.files.len() <= usize::MAX,
        events.len() > 0,
        trace(run, m, events).last().1 is Promote,
    ensures
        forall|f: int| 0 <= f < m.files.len() ==> copied(trace(run, m, events), events, m, f),
{
    lemma_build_invariant(run, m, events);
}

/// What is left of a run once the snapshot was found in place.
pub open spec fn settled(stage: Stage, pointer_current: bool) -> bool {
    stage is Finished || stage is Failed || (stage is Switching && !pointer_current)
}

/// Re-running is idle. Where the first look finds the version's snapshot in
/// place, the run never fetches, stores, stages, copies or promotes
/// anything; and where the pointer holds the snapshot's path already, it
/// does not switch the pointer either: it finishes at once.
pub proof fn lemma_rerun_is_idle(run: Run, m: ManifestView, events: Seq<Event>, pointer_current: bool)
    requires
        run.stage is Start,
        events.len() >= 2,
        events[0] == Event::Begin,
        events[1] == (Event::Inspected { snapshot_present: true, pointer_current }),
    ensures
        settled(trace(run, m, events).last().0.stage, pointer_current),
        ({
            let action = trace(run, m, events).last().1;
            action is Finish || action is Abort || (action is Switch && !pointer_current)
        }),
        events.len() == 2 && pointer_current ==> trace(run, m, events).last().1 is Finish,
    decreases events.len(),
{
    let short = events.drop_last();
    lemma_trace_prefix(run, m, events);
    lemma_trace_prefix(run, m, short);
    if events.len() == 2 {
        let first = short.drop_last();
        assert(first.len() == 0);
        assert(trace(run, m, short).last() == step_spec(run, m, short.last()));
        assert(short.last() == events[0]);
        assert(events.last() == events[1]);
    } else {
        assert(short[0] == events[0] && short[1] == events[1]);
        lemma_rerun_is_idle(run, m, short, pointer_current);
    }
}

/// An object that is in the store is not fetched again: told that the
/// object of a file exists, the run turns to the next file.
pub proof fn lemma_present_object_kept(run: Run, m: ManifestView, i: usize)
    requires
        run.stage == Stage::Ensuring(i),
    ensures
        !(step_spec(run, m, Event::Found(true)).1 is Fetch),
        !(step_spec(run, m, Event::Found(true)).1 is Persist),
{
}

/// Nothing is stored or copied with a length other than the declared one.
/// The run asks for an object to be moved into the store only when told
/// that the declared number of bytes was written for it; it asks whether a
/// file's place is free only when told that the file's object has its
/// declared length on disk; and it asks for the copy only when told that the
/// place is free.
pub proof fn lemma_lengths_guarded(run: Run, m: ManifestView, event: Event, f: usize)
    ensures
        step_spec(run, m, event).1 == Action::Persist(f) ==> f < m.files.len() && run.stage is Fetching
            && event == Event::Wrote(m.files[f as int].size),
        step_spec(run, m, event).1 == Action::ProbeDestination(f) ==> f < m.files.len() && run.stage
            == Stage::Checking(f) && event == Event::Size(m.files[f as int].size),
        step_spec(run, m, event).1 == Action::CopyFile(f) ==> f < m.files.len() && run.stage
            == Stage::Placing(f) && event == Event::Found(false),
{
}

/// A length that differs from the declared one stops the run with a
/// validation error, after a fetch as well as before a copy; so does an
/// object that is missing before its copy, with a consistency error.
pub proof fn lemma_wrong_length_stops(run: Run, m: ManifestView, f: usize, k: usize, n: u64)
    requires
        f < m.files.len(),
        n != m.files[f as int].size,
    ensures
        run.stage == Stage::Fetching(f, k) ==> step_spec(run, m, Event::Wrote(n)) == halt(
            run,
            size_mismatch(m.files[f as int].size, n),
        ),
        run.stage == Stage::Checking(f) ==> step_spec(run, m, Event::Size(n)) == halt(
            run,
            size_mismatch(m.files[f as int].size, n),
        ),
        run.stage == Stage::Checking(f) ==> step_spec(run, m, Event::Missing).1 is Abort,
{
}

/// Fail-over inside a run. While an origin fails on its own account and
/// another is left, the run asks the next one; any other failure, and the
/// last origin's, stops the run with that error. The first origin that
/// delivers the declared number of bytes ends the fetching: the run asks for
/// the object to be stored, and no further origin is asked for it.
pub proof fn lemma_fetch_fails_over(run: Run, m: ManifestView, i: usize, k: usize, e: PullError)
    requires
        run.stage == Stage::Fetching(i, k),
        i < m.files.len(),
    ensures
        e.retryable() && k + 1 < run.origins ==> step_spec(run, m, Event::Failed(e)) == go(
            run,
            Stage::Fetching(i, (k + 1) as usize),
            Action::Fetch { file: i, origin: (k + 1) as usize },
        ),
        !(e.retryable() && k + 1 < run.origins) ==> step_spec(run, m, Event::Failed(e)) == halt(
            run,
            e,
        ),
        step_spec(run, m, Event::Wrote(m.files[i as int].size)) == go(
            run,
            Stage::Storing(i),
            Action::Persist(i),
        ),
{
}

} // verus!
