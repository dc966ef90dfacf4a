use vstd::prelude::*;

use core::ops::Range;

use crate::emd_state::EmdState;
use crate::sources::DownloadableMod;

verus! {

/// What a slice worker waits for on its current mod.
pub enum Phase {
    /// The mod's registry is to be asked for an artifact.
    Resolving,
    /// The artifact is known; is a file of its name already in the destination?
    Checking(DownloadableMod),
    /// The artifact is to be downloaded.
    Downloading(DownloadableMod),
}

/// What the outside world answers to a step.
pub enum Event {
    /// The registry's answer: an artifact, or why there is none.
    Resolved(Result<DownloadableMod, String>),
    /// Whether a file of the artifact's name already exists in the destination.
    Exists(bool),
    /// How the download ended.
    DownloadDone(Result<(), String>),
}

/// What a slice worker asks the outside world to do next.
#[derive(PartialEq, Eq, Structural, Clone, Copy, Debug)]
pub enum Step {
    /// Resolve the mod at this index of the job's list.
    Resolve(usize),
    /// Check whether the pending artifact's file already exists.
    CheckExists,
    /// Download the pending artifact.
    Download,
    /// Every mod of the slice has been handled.
    Finished,
}

/// The outcome of one mod, to be shown to the user.
pub enum Report {
    /// The artifact's file is already in the destination; nothing was downloaded.
    AlreadyExists(DownloadableMod),
    /// The mod of this name was downloaded.
    Downloaded(String),
    /// The mod of this name failed, for this reason.
    Failed(String, String),
}

/// A slice worker as plain values.
pub struct TaskView {
    /// Index in the job's list of the slice's first mod.
    pub first: int,
    /// The names of the slice's mods.
    pub names: Seq<String>,
    /// Position in the slice of the mod being handled.
    pub pos: int,
    pub phase: Phase,
}

/// The worker after it is done with its current mod.
pub open spec fn advance(t: TaskView) -> TaskView {
    TaskView { pos: t.pos + 1, phase: Phase::Resolving, ..t }
}

/// The worker with a new phase on the same mod.
pub open spec fn with_phase(t: TaskView, p: Phase) -> TaskView {
    TaskView { phase: p, ..t }
}

/// The next step of a worker.
pub open spec fn next_step_spec(t: TaskView) -> Step {
    if t.pos >= t.names.len() {
        Step::Finished
    } else {
        match t.phase {
            Phase::Resolving => Step::Resolve((t.first + t.pos) as usize),
            Phase::Checking(_) => Step::CheckExists,
            Phase::Downloading(_) => Step::Download,
        }
    }
}

/// How a worker answers an event: its new state and the report it makes, if any. Each mod ends
/// in exactly one report, and a failure ends only its own mod. An event that does not answer
/// the current step changes nothing.
pub open spec fn step_spec(t: TaskView, e: Event) -> (TaskView, Option<Report>) {
    if t.pos < 0 || t.pos >= t.names.len() {
        (t, None)
    } else {
        let name = t.names[t.pos];
        match t.phase {
            Phase::Resolving => match e {
                Event::Resolved(Ok(a)) => (with_phase(t, Phase::Checking(a)), None),
                Event::Resolved(Err(why)) => (advance(t), Some(Report::Failed(name, why))),
                _ => (t, None),
            },
            Phase::Checking(a) => match e {
                Event::Exists(true) => (advance(t), Some(Report::AlreadyExists(a))),
                Event::Exists(false) => (with_phase(t, Phase::Downloading(a)), None),
                _ => (t, None),
            },
            Phase::Downloading(_) => match e {
                Event::DownloadDone(Ok(())) => (advance(t), Some(Report::Downloaded(name))),
                Event::DownloadDone(Err(why)) => (advance(t), Some(Report::Failed(name, why))),
                _ => (t, None),
            },
        }
    }
}

/// A well-formed worker: its position lies within its slice, and the slice within `usize`.
pub open spec fn task_wf(t: TaskView) -> bool {
    0 <= t.first && 0 <= t.pos <= t.names.len() && t.first + t.names.len() <= usize::MAX
}

/// The worker for one slice of a job: it handles the slice's mods one after the other.
pub struct SliceTask {
    first: usize,
    names: Vec<String>,
    pos: usize,
    phase: Phase,
}

impl View for SliceTask {
    type V = TaskView;

    closed spec fn view(&self) -> TaskView {
        TaskView {
            first: self.first as int,
            names: self.names@,
            pos: self.pos as int,
            phase: self.phase,
        }
    }
}

impl SliceTask {
    /// The worker for the mods of `state` in `range`, about to resolve the first of them.
    pub fn new(state: &EmdState, range: Range<usize>) -> (r: SliceTask)
        requires
            range.start <= range.end <= state.mods_spec().len(),
        ensures
            r@.first == range.start,
            r@.names.len() == range.end - range.start,
            forall|i: int|
                0 <= i < r@.names.len() ==> (#[trigger] r@.names[i])@
                    == state.mods_spec()[range.start + i].name_spec(),
            r@.pos == 0,
            r@.phase is Resolving,
            task_wf(r@),
    {
        let list = state.mod_list();
        let mut names: Vec<String> = Vec::new();
        let mut i: usize = range.start;
        while i < range.end
            invariant
                range.start <= i <= range.end <= list@.len(),
                list@ == state.mods_spec(),
                names@.len() == i - range.start,
                forall|k: int|
                    0 <= k < names@.len() ==> (#[trigger] names@[k])@ == list@[range.start
                        + k].name_spec(),
            decreases range.end - i,
        {
            names.push(list[i].name().clone());
            i += 1;
        }
        SliceTask { first: range.start, names, pos: 0, phase: Phase::Resolving }
    }

    /// What the worker needs done next.
    pub fn next_step(&self) -> (r: Step)
        requires
            task_wf(self@),
        ensures
            r == next_step_spec(self@),
    {
        if self.pos >= self.names.len() {
            return Step::Finished;
        }
        match &self.phase {
            Phase::Resolving => Step::Resolve(self.first + self.pos),
            Phase::Checking(_) => Step::CheckExists,
            Phase::Downloading(_) => Step::Download,
        }
    }

    /// The artifact the worker is checking or downloading, if any.
    pub fn pending(&self) -> (r: Option<&DownloadableMod>)
        ensures
            match self@.phase {
                Phase::Resolving => r is None,
                Phase::Checking(a) => r == Some(&a),
                Phase::Downloading(a) => r == Some(&a),
            },
    {
        match &self.phase {
            Phase::Resolving => None,
            Phase::Checking(a) => Some(a),
            Phase::Downloading(a) => Some(a),
        }
    }

    /// Takes in the answer to the last step, and returns the report it completes, if any.
    pub fn handle(&mut self, event: Event) -> (r: Option<Report>)
        requires
            task_wf(old(self)@),
        ensures
            (final(self)@, r) == step_spec(old(self)@, event),
            task_wf(final(self)@),
    {
        if self.pos >= self.names.len() {
            return None;
        }
        let mut phase = Phase::Resolving;
        core::mem::swap(&mut phase, &mut self.phase);
        match phase {
            Phase::Resolving => match event {
                Event::Resolved(Ok(a)) => {
                    self.phase = Phase::Checking(a);
                    None
                },
                Event::Resolved(Err(why)) => {
                    let name = self.names[self.pos].clone();
                    self.pos += 1;
                    Some(Report::Failed(name, why))
                },
                _ => None,
            },
            Phase::Checking(a) => match event {
                Event::Exists(true) => {
                    self.pos += 1;
                    Some(Report::AlreadyExists(a))
                },
                Event::Exists(false) => {
                    self.phase = Phase::Downloading(a);
                    None
                },
                _ => {
                    self.phase = Phase::Checking(a);
                    None
                },
            },
            Phase::Downloading(a) => match event {
                Event::DownloadDone(Ok(())) => {
                    let name = self.names[self.pos].clone();
                    self.pos += 1;
                    Some(Report::Downloaded(name))
                },
                Event::DownloadDone(Err(why)) => {
                    let name = self.names[self.pos].clone();
                    self.pos += 1;
                    Some(Report::Failed(name, why))
                },
                _ => {
                    self.phase = Phase::Downloading(a);
                    None
                },
            },
        }
    }
}

/// A mod that cannot be resolved fails alone: the worker reports the failure under that mod's
/// name and goes on to resolve the next mod of its slice, or finishes.
pub proof fn lemma_failure_isolated(t: TaskView, why: String)
    requires
        task_wf(t),
        t.pos < t.names.len(),
        t.phase is Resolving,
    ensures
        ({
            let (t2, r) = step_spec(t, Event::Resolved(Err(why)));
            &&& r == Some(Report::Failed(t.names[t.pos], why))
            &&& t2.names == t.names && t2.first == t.first
            &&& t2.pos == t.pos + 1
            &&& task_wf(t2)
            &&& next_step_spec(t2) == if t.pos + 1 < t.names.len() {
                Step::Resolve((t.first + t.pos + 1) as usize)
            } else {
                Step::Finished
            }
        }),
{
}

/// A mod whose file is already in the destination is not downloaded again: once its artifact
/// is resolved the worker checks for the file, and when the file exists it reports
/// "already exists" for that artifact and moves on to the next mod.
pub proof fn lemma_existing_file_skipped(t: TaskView, a: DownloadableMod)
    requires
        task_wf(t),
        t.pos < t.names.len(),
        t.phase is Resolving,
    ensures
        ({
            let (t1, r1) = step_spec(t, Event::Resolved(Ok(a)));
            let (t2, r2) = step_spec(t1, Event::Exists(true));
            &&& r1 is None
            &&& next_step_spec(t1) == Step::CheckExists
            &&& r2 == Some(Report::AlreadyExists(a))
            &&& t2.pos == t.pos + 1
            &&& t2.phase is Resolving
            &&& next_step_spec(t2) != Step::Download
        }),
{
}

} // verus!
