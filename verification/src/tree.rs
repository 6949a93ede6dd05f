//! A model of the root directory, and what every run leaves in it.
//!
//! The model says how the directory answers each action of a run and what
//! the action does to it. A failed action leaves it as it was. The theorems
//! hold of every run that is told the truth about such a directory.

use vstd::prelude::*;
use crate::layout::snapshot_path;
use crate::manifest::ManifestView;
use crate::paths::{rel_path, slash};
use crate::pipeline::{step_spec, Action, Event, Run, Stage};
use crate::text::join;

verus! {

/// The root directory, as far as a run reads or writes it.
pub struct Tree {
    /// The object store: the length of each object, by name.
    pub objects: Map<Seq<char>, u64>,
    /// The length of the temporary file that the last fetch wrote.
    pub fetched: u64,
    /// The staging directory: the object copied to each place.
    pub staging: Map<Seq<char>, Seq<char>>,
    /// The visible snapshots: for each version, the object at each place.
    pub snapshots: Map<Seq<char>, Map<Seq<char>, Seq<char>>>,
    /// What the pointer holds, if it exists.
    pub current: Option<Seq<char>>,
}

/// The place of file `f` below a snapshot's root.
pub open spec fn place(m: ManifestView, f: int) -> Seq<char> {
    join(rel_path(m.files[f].path)->Ok_0, slash())
}

/// What the pointer holds when the manifest's version is current.
pub open spec fn target(m: ManifestView) -> Seq<char> {
    snapshot_path(m.version)
}

/// Whether `event` can be the answer to `action` on `tree`. Any action can
/// fail.
pub open spec fn answers(tree: Tree, m: ManifestView, action: Action, event: Event) -> bool {
    event is Failed || match action {
        Action::Inspect => event == (Event::Inspected {
            snapshot_present: tree.snapshots.contains_key(m.version),
            pointer_current: tree.current == Some(target(m)),
        }),
        Action::ProbeObject(i) => event == Event::Found(
            tree.objects.contains_key(m.files[i as int].hash),
        ),
        Action::Fetch { file, origin } => event is Wrote,
        Action::StatObject(i) => if tree.objects.contains_key(m.files[i as int].hash) {
            event == Event::Size(tree.objects[m.files[i as int].hash])
        } else {
            event is Missing
        },
        Action::ProbeDestination(i) => event == Event::Found(
            tree.staging.contains_key(place(m, i as int)),
        ),
        Action::Finish => false,
        Action::Abort(_) => false,
        _ => event is Done,
    }
}

/// The tree after `action` was answered by `event`.
pub open spec fn effect(tree: Tree, m: ManifestView, action: Action, event: Event) -> Tree {
    if event is Failed {
        tree
    } else {
        match action {
            Action::Fetch { file, origin } => Tree { fetched: event->Wrote_0, ..tree },
            Action::Persist(i) => if tree.objects.contains_key(m.files[i as int].hash) {
                tree
            } else {
                Tree { objects: tree.objects.insert(m.files[i as int].hash, tree.fetched), ..tree }
            },
            Action::CreateStaging => Tree { staging: Map::empty(), ..tree },
            Action::CopyFile(i) => Tree {
                staging: tree.staging.insert(place(m, i as int), m.files[i as int].hash),
                ..tree
            },
            Action::Promote => Tree {
                snapshots: tree.snapshots.insert(m.version, tree.staging),
                ..tree
            },
            Action::Switch => Tree { current: Some(target(m)), ..tree },
            _ => tree,
        }
    }
}

/// A run and its directory at one instant.
pub struct World {
    pub tree: Tree,
    pub run: Run,
    /// The action that the run has asked for and that is not answered yet.
    pub pending: Action,
    /// Whether every event so far was a possible answer.
    pub truthful: bool,
}

/// The world after the pending action was answered by `event`.
pub open spec fn advance(w: World, m: ManifestView, event: Event) -> World {
    let next = step_spec(w.run, m, event);
    World {
        tree: effect(w.tree, m, w.pending, event),
        run: next.0,
        pending: next.1,
        truthful: w.truthful && answers(w.tree, m, w.pending, event),
    }
}

/// The world after a run that stands at its start over `tree` was told
/// `events` in turn: the first event begins the run, each later one answers
/// the pending action.
pub open spec fn world_after(tree: Tree, origins: usize, m: ManifestView, events: Seq<Event>) -> World
    decreases events.len(),
{
    if events.len() == 0 {
        World {
            tree,
            run: Run { stage: Stage::Start, origins },
            pending: Action::Finish,
            truthful: true,
        }
    } else if events.len() == 1 {
        let next = step_spec(Run { stage: Stage::Start, origins }, m, events[0]);
        World { tree, run: next.0, pending: next.1, truthful: events[0] is Begin }
    } else {
        advance(world_after(tree, origins, m, events.drop_last()), m, events.last())
    }
}

/// The first `i` files have acceptable paths.
pub open spec fn paths_ok(m: ManifestView, i: int) -> bool {
    forall|f: int| 0 <= f < i ==> rel_path(#[trigger] m.files[f].path) is Ok
}

/// The object of file `f` is in the store with its declared length.
pub open spec fn stored(tree: Tree, m: ManifestView, f: int) -> bool {
    tree.objects.contains_key(m.files[f].hash) && tree.objects[m.files[f].hash] == m.files[f].size
}

/// `files` holds, for each of the first `i` files, the file's object at
/// the file's place, and that object is in the store with its declared
/// length.
pub open spec fn holds_files(
    files: Map<Seq<char>, Seq<char>>,
    tree: Tree,
    m: ManifestView,
    i: int,
) -> bool {
    forall|f: int|
        0 <= f < i ==> files.contains_key(#[trigger] place(m, f)) && files[place(m, f)]
            == m.files[f].hash && stored(tree, m, f)
}

/// The version's snapshot is visible and complete.
pub open spec fn complete(tree: Tree, m: ManifestView) -> bool {
    tree.snapshots.contains_key(m.version) && paths_ok(m, m.files.len() as int) && holds_files(
        tree.snapshots[m.version],
        tree,
        m,
        m.files.len() as int,
    )
}

/// What was in the directory before the run is still there, unchanged:
/// every object, every snapshot, and no other snapshot than the version's
/// has appeared. An object that the run added is the object of a file, with
/// that file's declared length.
pub open spec fn preserves(before: Tree, tree: Tree, m: ManifestView) -> bool {
    &&& forall|h: Seq<char>| #[trigger]
        before.objects.contains_key(h) ==> tree.objects.contains_key(h) && tree.objects[h]
            == before.objects[h]
    &&& forall|h: Seq<char>| #[trigger]
        tree.objects.contains_key(h) && !before.objects.contains_key(h) ==> exists|f: int|
            0 <= f < m.files.len() && #[trigger] m.files[f].hash == h && tree.objects[h]
                == m.files[f].size
    &&& forall|v: Seq<char>| #[trigger]
        before.snapshots.contains_key(v) ==> tree.snapshots.contains_key(v) && tree.snapshots[v]
            == before.snapshots[v]
    &&& forall|v: Seq<char>| #[trigger]
        tree.snapshots.contains_key(v) && v != m.version ==> before.snapshots.contains_key(v)
    &&& tree.current == before.current || (tree.current == Some(target(m))
        && tree.snapshots.contains_key(m.version))
}

/// What holds of a truthful run's world, by stage.
pub open spec fn sound(before: Tree, w: World, m: ManifestView) -> bool {
    let n = m.files.len() as int;
    let absent = !w.tree.snapshots.contains_key(m.version);
    let built = !before.snapshots.contains_key(m.version) ==> complete(w.tree, m);
    &&& preserves(before, w.tree, m)
    &&& w.tree.snapshots.contains_key(m.version) ==> built
    &&& w.pending is Abort <==> w.run.stage is Failed
    &&& match w.run.stage {
        Stage::Start => w.tree == before,
        Stage::Inspecting => w.tree == before && w.pending is Inspect,
        Stage::Ensuring(i) => absent && i < n && paths_ok(m, i + 1) && w.pending
            == Action::ProbeObject(i),
        Stage::Fetching(i, k) => absent && i < n && paths_ok(m, i + 1) && w.pending == (
        Action::Fetch { file: i, origin: k }) && !w.tree.objects.contains_key(m.files[i as int].hash),
        Stage::Storing(i) => absent && i < n && paths_ok(m, i + 1) && w.pending == Action::Persist(
            i,
        ) && w.tree.fetched == m.files[i as int].size,
        Stage::Staging => absent && paths_ok(m, n) && w.pending is CreateStaging,
        Stage::Checking(i) => absent && i < n && paths_ok(m, n) && w.pending == Action::StatObject(
            i,
        ) && holds_files(w.tree.staging, w.tree, m, i as int),
        Stage::Placing(i) => absent && i < n && paths_ok(m, n) && w.pending
            == Action::ProbeDestination(i) && holds_files(w.tree.staging, w.tree, m, i as int)
            && stored(w.tree, m, i as int),
        Stage::Copying(i) => absent && i < n && paths_ok(m, n) && w.pending == Action::CopyFile(i)
            && holds_files(w.tree.staging, w.tree, m, i as int) && stored(w.tree, m, i as int)
            && !w.tree.staging.contains_key(place(m, i as int)),
        Stage::Promoting => absent && paths_ok(m, n) && w.pending is Promote && holds_files(
            w.tree.staging,
            w.tree,
            m,
            n,
        ),
        Stage::Switching => w.tree.snapshots.contains_key(m.version) && w.pending is Switch,
        Stage::Finished => w.tree.snapshots.contains_key(m.version) && w.tree.current == Some(
            target(m),
        ) && w.pending is Finish,
        Stage::Failed => true,
    }
    &&& before.snapshots.contains_key(m.version) ==> w.tree.objects == before.objects
        && w.tree.snapshots == before.snapshots && w.tree.staging == before.staging
}

/// One answered action keeps a sound world sound.
proof fn lemma_sound_step(before: Tree, w0: World, m: ManifestView, e: Event)
    requires
        m.files.len() <= usize::MAX,
        sound(before, w0, m),
        !(w0.run.stage is Start),
        answers(w0.tree, m, w0.pending, e),
    ensures
        sound(before, advance(w0, m, e), m),
{
    let n = m.files.len() as int;
    let w = advance(w0, m, e);
    match w0.run.stage {
        Stage::Ensuring(i) => {
            if w.run.stage is Ensuring {
                assert(rel_path(m.files[i + 1].path) is Ok);
                assert(paths_ok(m, i + 2));
            }
            assert(sound(before, w, m));
        },
        Stage::Storing(i) => {
            if e is Done {
                let h = m.files[i as int].hash;
                if w.run.stage is Ensuring {
                    assert(rel_path(m.files[i + 1].path) is Ok);
                    assert(paths_ok(m, i + 2));
                }
                assert forall|x: Seq<char>| #[trigger]
                    w.tree.objects.contains_key(x) && !before.objects.contains_key(
                        x,
                    ) implies exists|f: int|
                    0 <= f < m.files.len() && #[trigger] m.files[f].hash == x && w.tree.objects[x]
                        == m.files[f].size by {
                    if x == h && !w0.tree.objects.contains_key(h) {
                        assert(m.files[i as int].hash == x);
                    } else {
                        assert(w0.tree.objects.contains_key(x));
                        assert(w.tree.objects[x] == w0.tree.objects[x]);
                    }
                }
                assert(preserves(before, w.tree, m));
            }
            assert(sound(before, w, m));
        },
        Stage::Copying(i) => {
            if e is Done {
                let at = place(m, i as int);
                assert forall|f: int| 0 <= f < i + 1 implies w.tree.staging.contains_key(
                    #[trigger] place(m, f),
                ) && w.tree.staging[place(m, f)] == m.files[f].hash && stored(w.tree, m, f) by {
                    if f < i {
                        assert(w0.tree.staging.contains_key(place(m, f)));
                        assert(place(m, f) != at);
                    }
                }
                assert(holds_files(w.tree.staging, w.tree, m, i + 1));
            }
            assert(sound(before, w, m));
        },
        Stage::Promoting => {
            if e is Done {
                assert(w.tree.snapshots[m.version] == w0.tree.staging);
                assert(holds_files(w.tree.snapshots[m.version], w.tree, m, n));
                assert(complete(w.tree, m));
                assert(preserves(before, w.tree, m));
            }
            assert(sound(before, w, m));
        },
        Stage::Inspecting => {
            assert(sound(before, w, m));
        },
        Stage::Fetching(i, k) => {
            assert(sound(before, w, m));
        },
        Stage::Staging => {
            assert(sound(before, w, m));
        },
        Stage::Checking(i) => {
            assert(sound(before, w, m));
        },
        Stage::Placing(i) => {
            assert(sound(before, w, m));
        },
        Stage::Switching => {
            assert(sound(before, w, m));
        },
        Stage::Finished => {
            assert(sound(before, w, m));
        },
        Stage::Failed => {
            assert(sound(before, w, m));
        },
        Stage::Start => {},
    }
}

/// Every truthful run is sound at every instant.
pub proof fn lemma_sound(tree: Tree, origins: usize, m: ManifestView, events: Seq<Event>)
    requires
        m.files.len() <= usize::MAX,
        world_after(tree, origins, m, events).truthful,
    ensures
        sound(tree, world_after(tree, origins, m, events), m),
        events.len() > 0 ==> !(world_after(tree, origins, m, events).run.stage is Start),
    decreases events.len(),
{
    if events.len() >= 2 {
        let short = events.drop_last();
        lemma_sound(tree, origins, m, short);
        lemma_sound_step(tree, world_after(tree, origins, m, short), m, events.last());
    }
}

/// Atomic visibility and the lengths of what is visible. At every instant
/// of a truthful run over a directory that did not hold the version's
/// snapshot, the snapshot is either not visible or complete: it holds every
/// file of the manifest at its place, each file's object is in the store,
/// and each has the length that the manifest declares.
pub proof fn lemma_visible_snapshot_complete(
    tree: Tree,
    origins: usize,
    m: ManifestView,
    events: Seq<Event>,
)
    requires
        m.files.len() <= usize::MAX,
        world_after(tree, origins, m, events).truthful,
        !tree.snapshots.contains_key(m.version),
        world_after(tree, origins, m, events).tree.snapshots.contains_key(m.version),
    ensures
        complete(world_after(tree, origins, m, events).tree, m),
{
    lemma_sound(tree, origins, m, events);
}

/// Nothing shows before promotion. At every instant of a truthful run over
/// a directory that did not hold the version's snapshot, as long as the run
/// has not been told that staging was promoted, the snapshot is not visible:
/// a run that is killed or fails up to then leaves no snapshot of the
/// version at all.
pub proof fn lemma_unpromoted_run_shows_nothing(
    tree: Tree,
    origins: usize,
    m: ManifestView,
    events: Seq<Event>,
)
    requires
        m.files.len() <= usize::MAX,
        world_after(tree, origins, m, events).truthful,
        !tree.snapshots.contains_key(m.version),
        ({
            let stage = world_after(tree, origins, m, events).run.stage;
            !(stage is Switching || stage is Finished || stage is Failed)
        }),
    ensures
        !world_after(tree, origins, m, events).tree.snapshots.contains_key(m.version),
{
    lemma_sound(tree, origins, m, events);
}

/// The pointer is right. A truthful run that finishes leaves the version's
/// snapshot visible and the pointer holding its path.
pub proof fn lemma_finished_run_points_at_snapshot(
    tree: Tree,
    origins: usize,
    m: ManifestView,
    events: Seq<Event>,
)
    requires
        m.files.len() <= usize::MAX,
        world_after(tree, origins, m, events).truthful,
        world_after(tree, origins, m, events).run.stage is Finished,
    ensures
        world_after(tree, origins, m, events).tree.snapshots.contains_key(m.version),
        world_after(tree, origins, m, events).tree.current == Some(target(m)),
        !tree.snapshots.contains_key(m.version) ==> complete(
            world_after(tree, origins, m, events).tree,
            m,
        ),
{
    lemma_sound(tree, origins, m, events);
}

/// Nothing published is rewritten. At every instant of a truthful run,
/// every object and every snapshot that the directory held before is there
/// unchanged, every object that the run added has the length declared for
/// it, and the pointer holds what it held before or the path of the
/// version's visible snapshot.
pub proof fn lemma_run_preserves(tree: Tree, origins: usize, m: ManifestView, events: Seq<Event>)
    requires
        m.files.len() <= usize::MAX,
        world_after(tree, origins, m, events).truthful,
    ensures
        preserves(tree, world_after(tree, origins, m, events).tree, m),
{
    lemma_sound(tree, origins, m, events);
}

/// Running again changes nothing. A truthful run over a directory that
/// holds the version's snapshot adds no object and no snapshot; and where
/// the pointer holds the snapshot's path already, the pointer keeps it.
pub proof fn lemma_rerun_changes_nothing(
    tree: Tree,
    origins: usize,
    m: ManifestView,
    events: Seq<Event>,
)
    requires
        m.files.len() <= usize::MAX,
        world_after(tree, origins, m, events).truthful,
        tree.snapshots.contains_key(m.version),
    ensures
        world_after(tree, origins, m, events).tree.objects == tree.objects,
        world_after(tree, origins, m, events).tree.snapshots == tree.snapshots,
        tree.current == Some(target(m)) ==> world_after(tree, origins, m, events).tree.current
            == tree.current,
{
    lemma_sound(tree, origins, m, events);
}

} // verus!
