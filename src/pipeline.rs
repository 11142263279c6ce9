use vstd::prelude::*;
use crate::coords::ChunkCoordinate;

verus! {

/// Where a tracked chunk is in its lifecycle. A coordinate that is not
/// tracked at all is unresident.
#[derive(Clone, Copy, PartialEq, Eq, Structural, Debug)]
pub enum Phase {
    /// A generation task is running; it persists the chunk when done.
    Generating,
    /// A remesh task is running on the persisted chunk.
    Remeshing,
    /// The chunk's meshes are published.
    Resident,
    /// The last task failed; the chunk shows no geometry.
    Failed,
}

/// What happens to a chunk coordinate.
#[derive(Clone, Copy, PartialEq, Eq, Structural, Debug)]
pub enum Event {
    /// The load manager wants the chunk; `stored` says whether the store
    /// already holds it.
    LoadRequested { stored: bool },
    /// The generation task ended; `ok` when it generated and persisted the chunk.
    GenerationFinished { ok: bool },
    /// The remesh task ended; `ok` when it produced the chunk's meshes.
    RemeshFinished { ok: bool },
    /// A block of the chunk was changed and persisted.
    Edited,
    /// The load manager wants the chunk gone.
    UnloadRequested,
}

/// What the scheduling loop must do after a transition.
#[derive(Clone, Copy, PartialEq, Eq, Structural, Debug)]
pub enum Action {
    Nothing,
    /// Submit a generation task for the coordinate.
    StartGeneration,
    /// Submit a remesh task for the coordinate.
    StartRemesh,
    /// Replace the coordinate's published meshes with the new ones.
    PublishMeshes,
    /// Take the coordinate's meshes down and record the failure.
    ReportFailure,
    /// Take the coordinate's meshes down and stop tracking it.
    RetractMeshes,
}

/// Whether a task of the chunk is in flight.
pub open spec fn busy(p: Phase) -> bool {
    p == Phase::Generating || p == Phase::Remeshing
}

/// The phase after `e` happens to a coordinate in phase `p` (`None`: unresident).
pub open spec fn next_phase(p: Option<Phase>, e: Event) -> Option<Phase> {
    match (p, e) {
        (None, Event::LoadRequested { stored }) | (Some(Phase::Failed), Event::LoadRequested { stored }) => {
            if stored {
                Some(Phase::Remeshing)
            } else {
                Some(Phase::Generating)
            }
        },
        (Some(Phase::Generating), Event::GenerationFinished { ok }) => {
            if ok {
                Some(Phase::Remeshing)
            } else {
                Some(Phase::Failed)
            }
        },
        (Some(Phase::Remeshing), Event::RemeshFinished { ok }) => {
            if ok {
                Some(Phase::Resident)
            } else {
                Some(Phase::Failed)
            }
        },
        (Some(Phase::Resident), Event::Edited) => Some(Phase::Remeshing),
        (Some(Phase::Resident), Event::UnloadRequested) | (Some(Phase::Failed), Event::UnloadRequested) => None,
        _ => p,
    }
}

/// The action that goes with the transition of `next_phase(p, e)`.
pub open spec fn action_of(p: Option<Phase>, e: Event) -> Action {
    match (p, e) {
        (None, Event::LoadRequested { stored }) | (Some(Phase::Failed), Event::LoadRequested { stored }) => {
            if stored {
                Action::StartRemesh
            } else {
                Action::StartGeneration
            }
        },
        (Some(Phase::Generating), Event::GenerationFinished { ok }) => {
            if ok {
                Action::StartRemesh
            } else {
                Action::ReportFailure
            }
        },
        (Some(Phase::Remeshing), Event::RemeshFinished { ok }) => {
            if ok {
                Action::PublishMeshes
            } else {
                Action::ReportFailure
            }
        },
        (Some(Phase::Resident), Event::Edited) => Action::StartRemesh,
        (Some(Phase::Resident), Event::UnloadRequested) | (Some(Phase::Failed), Event::UnloadRequested) => {
            Action::RetractMeshes
        },
        _ => Action::Nothing,
    }
}

/// One transition of a coordinate's lifecycle: a load starts a remesh of a
/// stored chunk or a generation of a new one; a finished generation starts
/// its remesh; a finished remesh publishes; an edit of a resident chunk
/// remeshes it; an unload drops a resident or failed chunk. A chunk with a
/// task in flight is never dropped: its unload waits for the task.
pub fn step(p: Option<Phase>, e: Event) -> (r: (Option<Phase>, Action))
    ensures
        r.0 == next_phase(p, e),
        r.1 == action_of(p, e),
{
    match (p, e) {
        (None, Event::LoadRequested { stored }) | (Some(Phase::Failed), Event::LoadRequested { stored }) => {
            if stored {
                (Some(Phase::Remeshing), Action::StartRemesh)
            } else {
                (Some(Phase::Generating), Action::StartGeneration)
            }
        },
        (Some(Phase::Generating), Event::GenerationFinished { ok }) => {
            if ok {
                (Some(Phase::Remeshing), Action::StartRemesh)
            } else {
                (Some(Phase::Failed), Action::ReportFailure)
            }
        },
        (Some(Phase::Remeshing), Event::RemeshFinished { ok }) => {
            if ok {
                (Some(Phase::Resident), Action::PublishMeshes)
            } else {
                (Some(Phase::Failed), Action::ReportFailure)
            }
        },
        (Some(Phase::Resident), Event::Edited) => (Some(Phase::Remeshing), Action::StartRemesh),
        (Some(Phase::Resident), Event::UnloadRequested) | (Some(Phase::Failed), Event::UnloadRequested) => {
            (None, Action::RetractMeshes)
        },
        _ => (p, Action::Nothing),
    }
}

/// A chunk with a task in flight stays tracked, in the same phase, whatever
/// unload request comes; and every remesh of a new chunk follows its generation.
pub proof fn in_flight_chunks_are_kept(p: Phase)
    requires
        busy(p),
    ensures
        next_phase(Some(p), Event::UnloadRequested) == Some(p),
        action_of(Some(p), Event::UnloadRequested) == Action::Nothing,
        next_phase(None, Event::LoadRequested { stored: false }) == Some(Phase::Generating),
        next_phase(Some(Phase::Generating), Event::RemeshFinished { ok: true }) == Some(
            Phase::Generating,
        ),
{
}

/// One tracked coordinate and its phase.
#[derive(Clone, Copy, PartialEq, Eq, Structural, Debug)]
pub struct TrackedChunk {
    pub coord: ChunkCoordinate,
    pub phase: Phase,
}

/// The phase of `c` among `s`, `None` when it is not tracked.
pub open spec fn phase_in(s: Seq<TrackedChunk>, c: ChunkCoordinate) -> Option<Phase> {
    if exists|i: int| 0 <= i < s.len() && (#[trigger] s[i]).coord == c {
        Some(s[choose|i: int| 0 <= i < s.len() && (#[trigger] s[i]).coord == c].phase)
    } else {
        None
    }
}

/// Whether no two entries of `s` track the same coordinate.
pub open spec fn coords_unique(s: Seq<TrackedChunk>) -> bool {
    forall|i: int, j: int|
        0 <= i < s.len() && 0 <= j < s.len() && i != j ==> (#[trigger] s[i]).coord != (
        #[trigger] s[j]).coord
}

pub proof fn lemma_phase_at(s: Seq<TrackedChunk>, i: int)
    requires
        coords_unique(s),
        0 <= i < s.len(),
    ensures
        phase_in(s, s[i].coord) == Some(s[i].phase),
{
    let c = s[i].coord;
    assert(exists|j: int| 0 <= j < s.len() && (#[trigger] s[j]).coord == c);
    let k = choose|j: int| 0 <= j < s.len() && (#[trigger] s[j]).coord == c;
    assert(k == i);
}

proof fn lemma_phase_absent(s: Seq<TrackedChunk>, c: ChunkCoordinate)
    requires
        forall|i: int| 0 <= i < s.len() ==> (#[trigger] s[i]).coord != c,
    ensures
        phase_in(s, c) is None,
{
}

/// The phase of every coordinate that the scheduling loop tracks.
pub struct PipelineTable {
    entries: Vec<TrackedChunk>,
}

impl View for PipelineTable {
    type V = Seq<TrackedChunk>;

    closed spec fn view(&self) -> Seq<TrackedChunk> {
        self.entries@
    }
}

impl PipelineTable {
    pub open spec fn wf(&self) -> bool {
        coords_unique(self@)
    }

    /// The phase of `c`, `None` when it is not tracked.
    pub open spec fn phase(&self, c: ChunkCoordinate) -> Option<Phase> {
        phase_in(self@, c)
    }

    /// A table that tracks nothing.
    pub fn new() -> (r: PipelineTable)
        ensures
            r.wf(),
            r@.len() == 0,
            forall|c: ChunkCoordinate| r.phase(c) is None,
    {
        PipelineTable { entries: Vec::new() }
    }

    /// The tracked coordinates with their phases.
    pub fn entries(&self) -> (r: &Vec<TrackedChunk>)
        ensures
            r@ == self@,
    {
        &self.entries
    }

    fn find(&self, c: &ChunkCoordinate) -> (r: Option<usize>)
        requires
            self.wf(),
        ensures
            r is None ==> forall|i: int| 0 <= i < self@.len() ==> (#[trigger] self@[i]).coord != *c,
            r matches Some(i) ==> i < self@.len() && self@[i as int].coord == *c,
    {
        let mut i: usize = 0;
        while i < self.entries.len()
            invariant
                i <= self@.len(),
                forall|j: int| 0 <= j < i ==> (#[trigger] self@[j]).coord != *c,
            decreases self@.len() - i,
        {
            if self.entries[i].coord == *c {
                return Some(i);
            }
            i += 1;
        }
        None
    }

    /// The phase of `c`, `None` when it is not tracked.
    pub fn phase_of(&self, c: &ChunkCoordinate) -> (r: Option<Phase>)
        requires
            self.wf(),
        ensures
            r == self.phase(*c),
    {
        match self.find(c) {
            Some(i) => {
                proof {
                    lemma_phase_at(self@, i as int);
                }
                Some(self.entries[i].phase)
            },
            None => {
                proof {
                    lemma_phase_absent(self@, *c);
                }
                None
            },
        }
    }

    /// Applies `e` to coordinate `c`: its phase moves by `next_phase`, every
    /// other coordinate keeps its own, and the action to perform is returned.
    pub fn apply(&mut self, c: &ChunkCoordinate, e: Event) -> (r: Action)
        requires
            old(self).wf(),
        ensures
            final(self).wf(),
            r == action_of(old(self).phase(*c), e),
            final(self).phase(*c) == next_phase(old(self).phase(*c), e),
            forall|d: ChunkCoordinate| d != *c ==> #[trigger] final(self).phase(d) == old(self).phase(d),
    {
        let ghost s = self@;
        let current = self.phase_of(c);
        let (next, action) = step(current, e);
        match self.find(c) {
            Some(i) => {
                match next {
                    Some(p) => {
                        self.entries.set(i, TrackedChunk { coord: *c, phase: p });
                        assert forall|a: int, b: int|
                            0 <= a < self@.len() && 0 <= b < self@.len() && a != b implies (
                        #[trigger] self@[a]).coord != (#[trigger] self@[b]).coord by {
                            assert(a != i ==> self@[a] == s[a]);
                            assert(b != i ==> self@[b] == s[b]);
                        }
                        proof { lemma_phase_at(self@, i as int); }
                        assert forall|d: ChunkCoordinate| d != *c implies #[trigger] self.phase(d)
                            == phase_in(s, d) by {
                            if exists|j: int| 0 <= j < s.len() && (#[trigger] s[j]).coord == d {
                                let j = choose|j: int| 0 <= j < s.len() && (#[trigger] s[j]).coord == d;
                                lemma_phase_at(s, j);
                                assert(self@[j] == s[j]);
                                lemma_phase_at(self@, j);
                            } else {
                                assert forall|j: int| 0 <= j < self@.len() implies (
                                #[trigger] self@[j]).coord != d by {
                                    if j != i {
                                        assert(self@[j] == s[j]);
                                    }
                                }
                            }
                        }
                    },
                    None => {
                        self.entries.remove(i);
                        assert forall|a: int, b: int|
                            0 <= a < self@.len() && 0 <= b < self@.len() && a != b implies (
                        #[trigger] self@[a]).coord != (#[trigger] self@[b]).coord by {
                            let a2 = if a < i { a } else { a + 1 };
                            let b2 = if b < i { b } else { b + 1 };
                            assert(self@[a] == s[a2] && self@[b] == s[b2]);
                        }
                        assert forall|j: int| 0 <= j < self@.len() implies (#[trigger] self@[j]).coord
                            != *c by {
                            let j2 = if j < i { j } else { j + 1 };
                            assert(self@[j] == s[j2]);
                        }
                        assert forall|d: ChunkCoordinate| d != *c implies #[trigger] self.phase(d)
                            == phase_in(s, d) by {
                            if exists|j: int| 0 <= j < s.len() && (#[trigger] s[j]).coord == d {
                                let j = choose|j: int| 0 <= j < s.len() && (#[trigger] s[j]).coord == d;
                                lemma_phase_at(s, j);
                                assert(j != i);
                                let j3 = if j < i { j } else { j - 1 };
                                assert(self@[j3] == s[j]);
                                lemma_phase_at(self@, j3);
                            } else {
                                assert forall|j: int| 0 <= j < self@.len() implies (
                                #[trigger] self@[j]).coord != d by {
                                    let j2 = if j < i { j } else { j + 1 };
                                    assert(self@[j] == s[j2]);
                                }
                            }
                        }
                    },
                }
            },
            None => {
                match next {
                    Some(p) => {
                        self.entries.push(TrackedChunk { coord: *c, phase: p });
                        assert forall|a: int, b: int|
                            0 <= a < self@.len() && 0 <= b < self@.len() && a != b implies (
                        #[trigger] self@[a]).coord != (#[trigger] self@[b]).coord by {
                            assert(a < s.len() ==> self@[a] == s[a]);
                            assert(b < s.len() ==> self@[b] == s[b]);
                        }
                        proof { lemma_phase_at(self@, s.len() as int); }
                        assert forall|d: ChunkCoordinate| d != *c implies #[trigger] self.phase(d)
                            == phase_in(s, d) by {
                            if exists|j: int| 0 <= j < s.len() && (#[trigger] s[j]).coord == d {
                                let j = choose|j: int| 0 <= j < s.len() && (#[trigger] s[j]).coord == d;
                                lemma_phase_at(s, j);
                                assert(self@[j] == s[j]);
                                lemma_phase_at(self@, j);
                            } else {
                                assert forall|j: int| 0 <= j < self@.len() implies (
                                #[trigger] self@[j]).coord != d by {
                                    if j < s.len() {
                                        assert(self@[j] == s[j]);
                                    }
                                }
                            }
                        }
                    },
                    None => {},
                }
            },
        }
        action
    }
}

} // verus!
