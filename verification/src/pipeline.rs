//! One run of the puller as a state machine. The program around the library
//! performs each action that the run asks for and reports what came of it;
//! the run decides what follows.

use vstd::prelude::*;
use crate::error::{ConsistencyError, PullError, ValidationError};
use crate::failover::{first_attempt, first_attempt_spec, next_attempt, next_attempt_spec, Attempt};
use crate::manifest::{hash_ok, validate_hash, Manifest, ManifestView};
use crate::paths::{rel_path, validate_rel_path};

verus! {

/// Where a run stands. An index names a file of the manifest, by its place.
#[derive(Clone, Copy, Debug, PartialEq, Eq, Structural)]
pub enum Stage {
    /// Nothing has been asked yet.
    Start,
    /// Waiting to hear whether the snapshot and the pointer are in place.
    Inspecting,
    /// Waiting to hear whether the file's object is in the store.
    Ensuring(usize),
    /// Waiting for the file's object to come from the origin named second.
    Fetching(usize, usize),
    /// Waiting for the fetched object to be moved into the store.
    Storing(usize),
    /// Waiting for the staging directory.
    Staging,
    /// Waiting for the length of the file's object in the store.
    Checking(usize),
    /// Waiting to hear whether the file's place in staging is taken.
    Placing(usize),
    /// Waiting for the file to be copied into staging.
    Copying(usize),
    /// Waiting for staging to be renamed to the snapshot.
    Promoting,
    /// Waiting for the pointer to be switched.
    Switching,
    /// The run has converged.
    Finished,
    /// The run has stopped on an error.
    Failed,
}

/// What the program reports to the run.
#[derive(Clone, Copy, Debug, PartialEq, Eq, Structural)]
pub enum Event {
    /// The run may begin.
    Begin,
    /// Whether the version's snapshot exists, and whether the pointer
    /// already holds its path.
    Inspected { snapshot_present: bool, pointer_current: bool },
    /// Whether what was probed exists.
    Found(bool),
    /// An origin answered with success, and so many bytes were written.
    Wrote(u64),
    /// The object has this length on disk.
    Size(u64),
    /// There is no such object on disk.
    Missing,
    /// The action was carried out.
    Done,
    /// The action failed.
    Failed(PullError),
}

/// What the run asks the program to do next.
#[derive(Clone, Copy, Debug, PartialEq, Eq, Structural)]
pub enum Action {
    /// Look whether the version's snapshot exists and whether the pointer
    /// holds its path; answer with `Inspected`.
    Inspect,
    /// Look whether the file's object is in the store; answer with `Found`.
    ProbeObject(usize),
    /// Stream the file's object from the origin into a temporary file in
    /// the store; answer with `Wrote` or `Failed`.
    Fetch { file: usize, origin: usize },
    /// Flush the temporary file, rename it to the object's name unless that
    /// name is taken, which is as good, make it read-only to others, and
    /// flush the store's directory; answer with `Done` or `Failed`.
    Persist(usize),
    /// Make a fresh hidden staging directory; answer with `Done` or `Failed`.
    CreateStaging,
    /// Read the length of the file's object; answer with `Size`, `Missing`
    /// or `Failed`.
    StatObject(usize),
    /// Make the directories above the file's place in staging and look
    /// whether the place is taken; answer with `Found` or `Failed`.
    ProbeDestination(usize),
    /// Copy the file's object to its place in staging through a flushed
    /// temporary file; answer with `Done` or `Failed`.
    CopyFile(usize),
    /// Rename staging to the snapshot's name and flush the directory above;
    /// answer with `Done` or `Failed`.
    Promote,
    /// Replace the pointer by one that holds the snapshot's path, in one
    /// rename, unless it holds that path already, and flush the root;
    /// answer with `Done` or `Failed`.
    Switch,
    /// Nothing is left to do.
    Finish,
    /// Stop with this error.
    Abort(PullError),
}

/// A run: where it stands, and over how many origins it fails over.
#[derive(Clone, Copy, Debug, PartialEq, Eq, Structural)]
pub struct Run {
    pub stage: Stage,
    pub origins: usize,
}

/// The error for an event that the run's stage does not wait for.
pub open spec fn unexpected() -> PullError {
    PullError::Consistency(ConsistencyError::UnexpectedEvent)
}

/// The error for an object of `actual` bytes where `expected` are declared.
pub open spec fn size_mismatch(expected: u64, actual: u64) -> PullError {
    PullError::Validation(ValidationError::SizeMismatch { expected, actual })
}

/// The run moves to `stage` and asks for `action`.
pub open spec fn go(run: Run, stage: Stage, action: Action) -> (Run, Action) {
    (Run { stage, origins: run.origins }, action)
}

/// The run stops on `e`.
pub open spec fn halt(run: Run, e: PullError) -> (Run, Action) {
    (Run { stage: Stage::Failed, origins: run.origins }, Action::Abort(e))
}

/// The run turns to the object of file `i`: the file's path is checked
/// before anything is fetched for it; after the last file, staging begins.
pub open spec fn enter_ensure(run: Run, m: ManifestView, i: int) -> (Run, Action) {
    if i >= m.files.len() {
        go(run, Stage::Staging, Action::CreateStaging)
    } else {
        match rel_path(m.files[i].path) {
            Err(e) => halt(run, PullError::Validation(ValidationError::UnsafePath(e))),
            Ok(_) => go(run, Stage::Ensuring(i as usize), Action::ProbeObject(i as usize)),
        }
    }
}

/// The run turns to the copy of file `i`; after the last file, staging is
/// promoted.
pub open spec fn enter_copy(run: Run, m: ManifestView, i: int) -> (Run, Action) {
    if i >= m.files.len() {
        go(run, Stage::Promoting, Action::Promote)
    } else {
        go(run, Stage::Checking(i as usize), Action::StatObject(i as usize))
    }
}

/// The run asks the first origin for the object of file `i`.
pub open spec fn begin_fetch(run: Run, i: usize) -> (Run, Action) {
    match first_attempt_spec(run.origins as nat) {
        Attempt::Try(k) => go(run, Stage::Fetching(i, k), Action::Fetch { file: i, origin: k }),
        Attempt::GiveUp(e) => halt(run, e),
        Attempt::Settled(_) => halt(run, unexpected()),
    }
}

/// The run after origin `k` failed to serve the object of file `i`.
pub open spec fn retry_fetch(run: Run, i: usize, k: usize, e: PullError) -> (Run, Action) {
    match next_attempt_spec(run.origins as nat, k as nat, Err(e)) {
        Attempt::Try(next) => go(
            run,
            Stage::Fetching(i, next),
            Action::Fetch { file: i, origin: next },
        ),
        Attempt::GiveUp(last) => halt(run, last),
        Attempt::Settled(_) => halt(run, unexpected()),
    }
}

/// The run's rule: the stage and the action that follow `event`.
///
/// A snapshot that exists is never built again. An object that exists is
/// never fetched again. An object is fetched only under a name that cannot
/// leave the store, and stored only with the declared length. A file is
/// copied only from an object that still has the declared length, and only
/// to a place that is free. Staging is promoted only after the last copy.
/// Only a failed connection or status moves on to the next origin; any
/// other failure stops the run.
pub open spec fn step_spec(run: Run, m: ManifestView, event: Event) -> (Run, Action) {
    match run.stage {
        Stage::Start => match event {
            Event::Begin => go(run, Stage::Inspecting, Action::Inspect),
            _ => halt(run, unexpected()),
        },
        Stage::Inspecting => match event {
            Event::Inspected { snapshot_present, pointer_current } => if !snapshot_present {
                enter_ensure(run, m, 0)
            } else if pointer_current {
                go(run, Stage::Finished, Action::Finish)
            } else {
                go(run, Stage::Switching, Action::Switch)
            },
            Event::Failed(e) => halt(run, e),
            _ => halt(run, unexpected()),
        },
        Stage::Ensuring(i) => if i >= m.files.len() {
            halt(run, unexpected())
        } else {
            match event {
                Event::Found(present) => if present {
                    enter_ensure(run, m, i + 1)
                } else if !hash_ok(m.files[i as int].hash) {
                    halt(run, PullError::Validation(ValidationError::InvalidHash))
                } else {
                    begin_fetch(run, i)
                },
                Event::Failed(e) => halt(run, e),
                _ => halt(run, unexpected()),
            }
        },
        Stage::Fetching(i, k) => if i >= m.files.len() {
            halt(run, unexpected())
        } else {
            match event {
                Event::Wrote(n) => if n == m.files[i as int].size {
                    go(run, Stage::Storing(i), Action::Persist(i))
                } else {
                    halt(run, size_mismatch(m.files[i as int].size, n))
                },
                Event::Failed(e) => retry_fetch(run, i, k, e),
                _ => halt(run, unexpected()),
            }
        },
        Stage::Storing(i) => if i >= m.files.len() {
            halt(run, unexpected())
        } else {
            match event {
                Event::Done => enter_ensure(run, m, i + 1),
                Event::Failed(e) => halt(run, e),
                _ => halt(run, unexpected()),
            }
        },
        Stage::Staging => match event {
            Event::Done => enter_copy(run, m, 0),
            Event::Failed(e) => halt(run, e),
            _ => halt(run, unexpected()),
        },
        Stage::Checking(i) => if i >= m.files.len() {
            halt(run, unexpected())
        } else {
            match event {
                Event::Size(n) => if n == m.files[i as int].size {
                    go(run, Stage::Placing(i), Action::ProbeDestination(i))
                } else {
                    halt(run, size_mismatch(m.files[i as int].size, n))
                },
                Event::Missing => halt(
                    run,
                    PullError::Consistency(ConsistencyError::MissingObject),
                ),
                Event::Failed(e) => halt(run, e),
                _ => halt(run, unexpected()),
            }
        },
        Stage::Placing(i) => if i >= m.files.len() {
            halt(run, unexpected())
        } else {
            match event {
                Event::Found(taken) => if taken {
                    halt(run, PullError::Consistency(ConsistencyError::DestinationExists))
                } else {
                    go(run, Stage::Copying(i), Action::CopyFile(i))
                },
                Event::Failed(e) => halt(run, e),
                _ => halt(run, unexpected()),
            }
        },
        Stage::Copying(i) => if i >= m.files.len() {
            halt(run, unexpected())
        } else {
            match event {
                Event::Done => enter_copy(run, m, i + 1),
                Event::Failed(e) => halt(run, e),
                _ => halt(run, unexpected()),
            }
        },
        Stage::Promoting => match event {
            Event::Done => go(run, Stage::Switching, Action::Switch),
            Event::Failed(e) => halt(run, e),
            _ => halt(run, unexpected()),
        },
        Stage::Switching => match event {
            Event::Done => go(run, Stage::Finished, Action::Finish),
            Event::Failed(e) => halt(run, e),
            _ => halt(run, unexpected()),
        },
        Stage::Finished => halt(run, unexpected()),
        Stage::Failed => halt(run, unexpected()),
    }
}

impl Run {
    /// A run that has not begun, over `origins` origins.
    pub fn new(origins: usize) -> (run: Run)
        ensures
            run == (Run { stage: Stage::Start, origins }),
    {
        Run { stage: Stage::Start, origins }
    }

    /// Whether the run has ended, well or badly.
    pub fn is_over(&self) -> (over: bool)
        ensures
            over == (self.stage is Finished || self.stage is Failed),
    {
        match self.stage {
            Stage::Finished => true,
            Stage::Failed => true,
            _ => false,
        }
    }

    fn go(&mut self, stage: Stage, action: Action) -> (r: Action)
        ensures
            (*final(self), r) == go(*old(self), stage, action),
    {
        self.stage = stage;
        action
    }

    fn halt(&mut self, e: PullError) -> (r: Action)
        ensures
            (*final(self), r) == halt(*old(self), e),
    {
        self.stage = Stage::Failed;
        Action::Abort(e)
    }

    fn enter_ensure(&mut self, manifest: &Manifest, i: usize) -> (r: Action)
        ensures
            (*final(self), r) == enter_ensure(*old(self), manifest@, i as int),
    {
        if i >= manifest.files.len() {
            return self.go(Stage::Staging, Action::CreateStaging);
        }
        match validate_rel_path(manifest.files[i].path.as_str()) {
            Err(e) => self.halt(PullError::Validation(ValidationError::UnsafePath(e))),
            Ok(_) => self.go(Stage::Ensuring(i), Action::ProbeObject(i)),
        }
    }

    fn enter_copy(&mut self, manifest: &Manifest, i: usize) -> (r: Action)
        ensures
            (*final(self), r) == enter_copy(*old(self), manifest@, i as int),
    {
        if i >= manifest.files.len() {
            self.go(Stage::Promoting, Action::Promote)
        } else {
            self.go(Stage::Checking(i), Action::StatObject(i))
        }
    }

    fn attempt(&mut self, i: usize, attempt: Attempt) -> (r: Action)
        ensures
            (*final(self), r) == (match attempt {
                Attempt::Try(k) => go(
                    *old(self),
                    Stage::Fetching(i, k),
                    Action::Fetch { file: i, origin: k },
                ),
                Attempt::GiveUp(e) => halt(*old(self), e),
                Attempt::Settled(_) => halt(*old(self), unexpected()),
            }),
    {
        match attempt {
            Attempt::Try(k) => self.go(Stage::Fetching(i, k), Action::Fetch { file: i, origin: k }),
            Attempt::GiveUp(e) => self.halt(e),
            Attempt::Settled(_) => self.halt(
                PullError::Consistency(ConsistencyError::UnexpectedEvent),
            ),
        }
    }

    /// Takes the report of what came of the last action and returns the
    /// next action.
    pub fn step(&mut self, manifest: &Manifest, event: Event) -> (action: Action)
        ensures
            (*final(self), action) == step_spec(*old(self), manifest@, event),
    {
        let odd = PullError::Consistency(ConsistencyError::UnexpectedEvent);
        let n: usize = manifest.files.len();
        match self.stage {
            Stage::Start => match event {
                Event::Begin => self.go(Stage::Inspecting, Action::Inspect),
                _ => self.halt(odd),
            },
            Stage::Inspecting => match event {
                Event::Inspected { snapshot_present, pointer_current } => {
                    if !snapshot_present {
                        self.enter_ensure(manifest, 0)
                    } else if pointer_current {
                        self.go(Stage::Finished, Action::Finish)
                    } else {
                        self.go(Stage::Switching, Action::Switch)
                    }
                },
                Event::Failed(e) => self.halt(e),
                _ => self.halt(odd),
            },
            Stage::Ensuring(i) => {
                if i >= n {
                    return self.halt(odd);
                }
                match event {
                    Event::Found(present) => {
                        if present {
                            self.enter_ensure(manifest, i + 1)
                        } else if validate_hash(manifest.files[i].hash.as_str()).is_err() {
                            self.halt(PullError::Validation(ValidationError::InvalidHash))
                        } else {
                            let first = first_attempt(self.origins);
                            self.attempt(i, first)
                        }
                    },
                    Event::Failed(e) => self.halt(e),
                    _ => self.halt(odd),
                }
            },
            Stage::Fetching(i, k) => {
                if i >= n {
                    return self.halt(odd);
                }
                let size: u64 = manifest.files[i].size;
                match event {
                    Event::Wrote(written) => {
                        if written == size {
                            self.go(Stage::Storing(i), Action::Persist(i))
                        } else {
                            self.halt(
                                PullError::Validation(
                                    ValidationError::SizeMismatch { expected: size, actual: written },
                                ),
                            )
                        }
                    },
                    Event::Failed(e) => {
                        let next = next_attempt(self.origins, k, Err(e));
                        self.attempt(i, next)
                    },
                    _ => self.halt(odd),
                }
            },
            Stage::Storing(i) => {
                if i >= n {
                    return self.halt(odd);
                }
                match event {
                    Event::Done => self.enter_ensure(manifest, i + 1),
                    Event::Failed(e) => self.halt(e),
                    _ => self.halt(odd),
                }
            },
            Stage::Staging => match event {
                Event::Done => self.enter_copy(manifest, 0),
                Event::Failed(e) => self.halt(e),
                _ => self.halt(odd),
            },
            Stage::Checking(i) => {
                if i >= n {
                    return self.halt(odd);
                }
                let size: u64 = manifest.files[i].size;
                match event {
                    Event::Size(on_disk) => {
                        if on_disk == size {
                            self.go(Stage::Placing(i), Action::ProbeDestination(i))
                        } else {
                            self.halt(
                                PullError::Validation(
                                    ValidationError::SizeMismatch { expected: size, actual: on_disk },
                                ),
                            )
                        }
                    },
                    Event::Missing => self.halt(
                        PullError::Consistency(ConsistencyError::MissingObject),
                    ),
                    Event::Failed(e) => self.halt(e),
                    _ => self.halt(odd),
                }
            },
            Stage::Placing(i) => {
                if i >= n {
                    return self.halt(odd);
                }
                match event {
                    Event::Found(taken) => {
                        if taken {
                            self.halt(PullError::Consistency(ConsistencyError::DestinationExists))
                        } else {
                            self.go(Stage::Copying(i), Action::CopyFile(i))
                        }
                    },
                    Event::Failed(e) => self.halt(e),
                    _ => self.halt(odd),
                }
            },
            Stage::Copying(i) => {
                if i >= n {
                    return self.halt(odd);
                }
                match event {
                    Event::Done => self.enter_copy(manifest, i + 1),
                    Event::Failed(e) => self.halt(e),
                    _ => self.halt(odd),
                }
            },
            Stage::Promoting => match event {
                Event::Done => self.go(Stage::Switching, Action::Switch),
                Event::Failed(e) => self.halt(e),
                _ => self.halt(odd),
            },
            Stage::Switching => match event {
                Event::Done => self.go(Stage::Finished, Action::Finish),
                Event::Failed(e) => self.halt(e),
                _ => self.halt(odd),
            },
            Stage::Finished => self.halt(odd),
            Stage::Failed => self.halt(odd),
        }
    }
}

} // verus!
