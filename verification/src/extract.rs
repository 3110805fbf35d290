//! Extraction of chunks to a destination: which directories to make first, and then,
//! chunk by chunk, what to write.
//!
//! The pipeline decides and decodes; it touches no file system. Whoever drives it makes
//! the directories and writes the files, and tells the pipeline how each went.

use crate::archive::{payload_outcome, ChunkDescriptor, DecodeError, Decoder};
use crate::path::{parent_path, segment_start, SEPARATOR};
use crate::resolver::{resolved_path, PathResolver};
use vstd::hash_map::StringHashMap;
use vstd::prelude::*;

verus! {

/// The texts of `strings`, in order.
pub open spec fn texts(strings: Seq<String>) -> Seq<Seq<char>> {
    Seq::new(strings.len(), |i: int| strings[i]@)
}

/// The paths that the chunks `chunks` are shown under, given the known paths `known`.
pub open spec fn paths_of(chunks: Seq<ChunkDescriptor>, known: Map<u64, Seq<char>>) -> Seq<Seq<char>> {
    Seq::new(chunks.len(), |k: int| resolved_path(known, chunks[k].hash))
}

/// The directories that hold the entries at `paths`: the parent of each path that has
/// one, each once, in the order in which they are first needed.
pub open spec fn parent_dirs(paths: Seq<Seq<char>>) -> Seq<Seq<char>>
    decreases paths.len(),
{
    if paths.len() == 0 {
        Seq::empty()
    } else {
        let rest = parent_dirs(paths.drop_last());
        match parent_path(paths.last()) {
            Some(q) => if rest.contains(q) {
                rest
            } else {
                rest.push(q)
            },
            None => rest,
        }
    }
}

/// The directory plan names no directory twice, names the parent of every path that
/// has one, and names nothing else.
pub proof fn law_parent_dirs(paths: Seq<Seq<char>>)
    ensures
        parent_dirs(paths).no_duplicates(),
        forall|k: int|
            0 <= k < paths.len() && parent_path(#[trigger] paths[k]) is Some ==> parent_dirs(
                paths,
            ).contains(parent_path(paths[k])->0),
        forall|j: int|
            0 <= j < parent_dirs(paths).len() ==> exists|k: int|
                0 <= k < paths.len() && parent_path(#[trigger] paths[k]) == Some(
                    #[trigger] parent_dirs(paths)[j],
                ),
    decreases paths.len(),
{
    if paths.len() > 0 {
        let front = paths.drop_last();
        let rest = parent_dirs(front);
        let here = parent_dirs(paths);
        law_parent_dirs(front);
        assert forall|k: int|
            0 <= k < paths.len() && parent_path(#[trigger] paths[k]) is Some implies here.contains(
            parent_path(paths[k])->0,
        ) by {
            let q = parent_path(paths[k])->0;
            if k < front.len() {
                assert(front[k] == paths[k]);
                let at = choose|at: int| 0 <= at < rest.len() && rest[at] == q;
                assert(here[at] == q);
            } else if rest.contains(q) {
            } else {
                assert(here[rest.len() as int] == q);
            }
        }
        assert forall|j: int| 0 <= j < here.len() implies exists|k: int|
            0 <= k < paths.len() && parent_path(#[trigger] paths[k]) == Some(#[trigger] here[j]) by {
            if j < rest.len() {
                assert(here[j] == rest[j]);
                let k = choose|k: int|
                    0 <= k < front.len() && parent_path(#[trigger] front[k]) == Some(rest[j]);
                assert(paths[k] == front[k]);
            } else {
                assert(parent_path(paths[paths.len() - 1]) == Some(here[j]));
            }
        }
    }
}

/// The path of the directory that holds the entry at `path`.
pub fn parent_of(path: &str) -> (r: Option<String>)
    ensures
        match r {
            Some(dir) => parent_path(path@) == Some(dir@),
            None => parent_path(path@) is None,
        },
{
    let n = path.unicode_len();
    let ghost p = path@;
    let mut start: usize = 0;
    let mut i: usize = 0;
    assert(p.subrange(0, 0) =~= Seq::<char>::empty());
    for c in it: path.chars()
        invariant
            n == p.len(),
            p == path@,
            it.seq() == p,
            i == it.index(),
            start <= i,
            start == segment_start(p.subrange(0, i as int)),
    {
        assert(p.subrange(0, i + 1).drop_last() =~= p.subrange(0, i as int));
        assert(p.subrange(0, i + 1).last() == c);
        if c == SEPARATOR {
            start = i + 1;
        }
        i = i + 1;
    }
    assert(p.subrange(0, n as int) =~= p);
    if start == 0 {
        None
    } else {
        Some(path.substring_char(0, start - 1).to_owned())
    }
}

/// The directories to make before anything is written to the entries at `paths`.
pub fn plan_directories(paths: &Vec<String>) -> (r: Vec<String>)
    ensures
        texts(r@) == parent_dirs(texts(paths@)),
{
    let mut out: Vec<String> = Vec::new();
    let mut seen: StringHashMap<bool> = StringHashMap::new();
    let ghost all = texts(paths@);
    let mut k: usize = 0;
    assert(all.subrange(0, 0) =~= Seq::<Seq<char>>::empty());
    assert(texts(out@) =~= parent_dirs(all.subrange(0, 0)));
    while k < paths.len()
        invariant
            k <= paths@.len(),
            all == texts(paths@),
            texts(out@) == parent_dirs(all.subrange(0, k as int)),
            forall|q: Seq<char>| #[trigger] seen@.contains_key(q) <==> texts(out@).contains(q),
        decreases paths@.len() - k,
    {
        assert(all.subrange(0, k + 1).drop_last() =~= all.subrange(0, k as int));
        assert(all.subrange(0, k + 1).last() == paths@[k as int]@);
        let ghost before = texts(out@);
        match parent_of(paths[k].as_str()) {
            None => {},
            Some(dir) => {
                if !seen.contains_key(dir.as_str()) {
                    seen.insert(dir.clone(), true);
                    out.push(dir);
                    proof {
                        let q = dir@;
                        assert(texts(out@) =~= before.push(q));
                        assert forall|x: Seq<char>| #[trigger]
                            seen@.contains_key(x) <==> texts(out@).contains(x) by {
                            if before.contains(x) {
                                let at = choose|at: int| 0 <= at < before.len() && before[at] == x;
                                assert(texts(out@)[at] == x);
                            }
                            if x == q {
                                assert(texts(out@)[before.len() as int] == x);
                            }
                        }
                    }
                }
            },
        }
        k = k + 1;
    }
    assert(all.subrange(0, k as int) =~= all);
    out
}

/// Why a chunk was not extracted.
#[derive(Clone, Copy, Debug, PartialEq, Eq, Structural)]
pub enum FailureCause {
    /// Its payload could not be decoded.
    Decode(DecodeError),
    /// Its file could not be written; the code is that of the operating system, or 0.
    Io { os_code: i32 },
}

/// Why an extraction ended early.
#[derive(Clone, Copy, Debug, PartialEq, Eq, Structural)]
pub enum ExtractionError {
    /// The directories could not be made; the code is that of the operating system, or 0.
    DirectoriesFailed { os_code: i32 },
    /// The chunk with the hash `hash` failed.
    ChunkFailed { hash: u64, cause: FailureCause },
    /// The driver asked to stop.
    Cancelled,
}

/// What the driver reports of the step it was asked to do.
#[derive(Clone, Copy, Debug, PartialEq, Eq, Structural)]
pub enum Event {
    /// It was done.
    Succeeded,
    /// It failed; the code is that of the operating system, or 0.
    Failed { os_code: i32 },
    /// It may or may not have been done: the extraction is to stop.
    Cancelled,
}

/// Where an extraction stands.
#[derive(Clone, Copy, Debug, PartialEq, Eq, Structural)]
pub enum Phase {
    /// The driver is making the directories.
    Directories,
    /// The driver is writing the file of the next chunk.
    Writing,
    /// Every chunk was written.
    Done,
    /// The extraction ended early.
    Failed(ExtractionError),
}

/// What the driver is to do next.
pub enum Action {
    /// Write `payload` to the file at `path` below the destination; it is the payload
    /// of the chunk at `index`.
    Write { index: usize, path: String, payload: Vec<u8> },
    /// Nothing more: the extraction has ended, well or early.
    Finish { outcome: Result<(), ExtractionError> },
}

/// An action as a mathematical value.
pub enum ActionView {
    Write { index: int, path: Seq<char>, payload: Seq<u8> },
    Finish { outcome: Result<(), ExtractionError> },
}

impl View for Action {
    type V = ActionView;

    open spec fn view(&self) -> ActionView {
        match *self {
            Action::Write { index, path, payload } => ActionView::Write {
                index: index as int,
                path: path@,
                payload: payload@,
            },
            Action::Finish { outcome } => ActionView::Finish { outcome },
        }
    }
}

/// How far an extraction has come: `completed` of `total` chunks are written.
#[derive(Clone, Copy, Debug, PartialEq, Eq, Structural)]
pub struct Progress {
    pub completed: usize,
    pub total: usize,
}

/// An extraction as a mathematical value.
pub struct PipelineView {
    /// The bytes of the archive.
    pub bytes: Seq<u8>,
    /// The chunks to extract, in order.
    pub chunks: Seq<ChunkDescriptor>,
    /// The path of each chunk below the destination.
    pub paths: Seq<Seq<char>>,
    /// How many chunks are written.
    pub completed: int,
    /// Where the extraction stands.
    pub phase: Phase,
}

impl PipelineView {
    /// Whether the value is one that an extraction can take.
    pub open spec fn wf(self) -> bool {
        &&& self.paths.len() == self.chunks.len()
        &&& 0 <= self.completed <= self.chunks.len()
        &&& self.phase is Writing ==> self.completed < self.chunks.len()
        &&& self.phase is Directories ==> self.completed == 0
        &&& self.phase is Done ==> self.completed == self.chunks.len()
    }

    /// The extraction turned towards the chunk at `k`, with `k` chunks written, and
    /// what the driver is to do for it: write its payload, or stop where it cannot be
    /// decoded or no chunk is left.
    pub open spec fn turn_to(self, k: int) -> (PipelineView, ActionView) {
        if k >= self.chunks.len() {
            (
                PipelineView { completed: k, phase: Phase::Done, ..self },
                ActionView::Finish { outcome: Ok(()) },
            )
        } else {
            match payload_outcome(self.bytes, self.chunks[k]) {
                Ok(payload) => (
                    PipelineView { completed: k, phase: Phase::Writing, ..self },
                    ActionView::Write { index: k, path: self.paths[k], payload },
                ),
                Err(e) => self.fail(
                    k,
                    ExtractionError::ChunkFailed {
                        hash: self.chunks[k].hash,
                        cause: FailureCause::Decode(e),
                    },
                ),
            }
        }
    }

    /// The extraction ended early with `error`, with `k` chunks written.
    pub open spec fn fail(self, k: int, error: ExtractionError) -> (PipelineView, ActionView) {
        (
            PipelineView { completed: k, phase: Phase::Failed(error), ..self },
            ActionView::Finish { outcome: Err(error) },
        )
    }

    /// What `event` makes of the extraction, and what the driver is to do next.
    pub open spec fn step(self, event: Event) -> (PipelineView, ActionView) {
        match self.phase {
            Phase::Done => (self, ActionView::Finish { outcome: Ok(()) }),
            Phase::Failed(error) => (self, ActionView::Finish { outcome: Err(error) }),
            Phase::Directories => match event {
                Event::Succeeded => self.turn_to(0),
                Event::Failed { os_code } => self.fail(
                    0,
                    ExtractionError::DirectoriesFailed { os_code },
                ),
                Event::Cancelled => self.fail(0, ExtractionError::Cancelled),
            },
            Phase::Writing => match event {
                Event::Succeeded => self.turn_to(self.completed + 1),
                Event::Failed { os_code } => self.fail(
                    self.completed,
                    ExtractionError::ChunkFailed {
                        hash: self.chunks[self.completed].hash,
                        cause: FailureCause::Io { os_code },
                    },
                ),
                Event::Cancelled => self.fail(self.completed, ExtractionError::Cancelled),
            },
        }
    }
}

/// The extraction of a list of chunks from one archive.
pub struct ExtractionPipeline {
    decoder: Decoder,
    chunks: Vec<ChunkDescriptor>,
    paths: Vec<String>,
    completed: usize,
    phase: Phase,
}

impl View for ExtractionPipeline {
    type V = PipelineView;

    closed spec fn view(&self) -> PipelineView {
        PipelineView {
            bytes: self.decoder.bytes(),
            chunks: self.chunks@,
            paths: texts(self.paths@),
            completed: self.completed as int,
            phase: self.phase,
        }
    }
}

impl ExtractionPipeline {
    /// An extraction of `chunks` through `decoder`, each chunk to the path that
    /// `resolver` knows for its hash or to its placeholder path. It starts by waiting
    /// for the directories.
    pub fn new(decoder: Decoder, chunks: Vec<ChunkDescriptor>, resolver: &PathResolver) -> (r:
        ExtractionPipeline)
        ensures
            r@.wf(),
            r@ == (PipelineView {
                bytes: decoder.bytes(),
                chunks: chunks@,
                paths: paths_of(chunks@, resolver@),
                completed: 0,
                phase: Phase::Directories,
            }),
    {
        let mut paths: Vec<String> = Vec::new();
        let mut k: usize = 0;
        while k < chunks.len()
            invariant
                k <= chunks@.len(),
                paths@.len() == k,
                forall|j: int| 0 <= j < k ==> paths@[j]@ == resolved_path(resolver@, chunks@[j].hash),
            decreases chunks@.len() - k,
        {
            paths.push(resolver.path_of(chunks[k].hash));
            k = k + 1;
        }
        assert(texts(paths@) =~= paths_of(chunks@, resolver@));
        ExtractionPipeline { decoder, chunks, paths, completed: 0, phase: Phase::Directories }
    }

    /// The directories to make below the destination before the first step.
    pub fn directories(&self) -> (r: Vec<String>)
        ensures
            texts(r@) == parent_dirs(self@.paths),
    {
        plan_directories(&self.paths)
    }

    /// How far the extraction has come.
    pub fn progress(&self) -> (r: Progress)
        ensures
            r.completed == self@.completed,
            r.total == self@.chunks.len(),
    {
        Progress { completed: self.completed, total: self.chunks.len() }
    }

    /// Where the extraction stands.
    pub fn phase(&self) -> (r: Phase)
        ensures
            r == self@.phase,
    {
        self.phase
    }

    fn fail(&mut self, error: ExtractionError) -> (action: Action)
        ensures
            (final(self)@, action@) == old(self)@.fail(old(self)@.completed, error),
    {
        self.phase = Phase::Failed(error);
        Action::Finish { outcome: Err(error) }
    }

    fn turn_to(&mut self, k: usize) -> (action: Action)
        requires
            old(self)@.paths.len() == old(self)@.chunks.len(),
            k <= old(self)@.chunks.len(),
        ensures
            (final(self)@, action@) == old(self)@.turn_to(k as int),
    {
        self.completed = k;
        if k >= self.chunks.len() {
            self.phase = Phase::Done;
            Action::Finish { outcome: Ok(()) }
        } else {
            let chunk = self.chunks[k];
            match self.decoder.decode_chunk(&chunk) {
                Ok(payload) => {
                    self.phase = Phase::Writing;
                    Action::Write { index: k, path: self.paths[k].clone(), payload }
                },
                Err(e) => self.fail(
                    ExtractionError::ChunkFailed { hash: chunk.hash, cause: FailureCause::Decode(e) },
                ),
            }
        }
    }

    /// Takes the driver's report of the last step and says what to do next. The first
    /// report is that of the directories. Once the extraction has ended, every report
    /// gets the same answer.
    pub fn step(&mut self, event: Event) -> (action: Action)
        requires
            old(self)@.wf(),
        ensures
            final(self)@.wf(),
            (final(self)@, action@) == old(self)@.step(event),
    {
        match self.phase {
            Phase::Done => Action::Finish { outcome: Ok(()) },
            Phase::Failed(error) => Action::Finish { outcome: Err(error) },
            Phase::Directories => match event {
                Event::Succeeded => self.turn_to(0),
                Event::Failed { os_code } => self.fail(ExtractionError::DirectoriesFailed { os_code }),
                Event::Cancelled => self.fail(ExtractionError::Cancelled),
            },
            Phase::Writing => match event {
                Event::Succeeded => {
                    let total = self.chunks.len();
                    assert(self.completed < total);
                    self.turn_to(self.completed + 1)
                },
                Event::Failed { os_code } => {
                    let hash = self.chunks[self.completed].hash;
                    self.fail(
                        ExtractionError::ChunkFailed { hash, cause: FailureCause::Io { os_code } },
                    )
                },
                Event::Cancelled => self.fail(ExtractionError::Cancelled),
            },
        }
    }
}

/// The extraction `start` after the driver reported `events` in turn.
pub open spec fn run(start: PipelineView, events: Seq<Event>) -> PipelineView
    decreases events.len(),
{
    if events.len() == 0 {
        start
    } else {
        run(start, events.drop_last()).step(events.last()).0
    }
}

/// The actions that the driver was given for the reports `events`, in turn.
pub open spec fn answers(start: PipelineView, events: Seq<Event>) -> Seq<ActionView>
    decreases events.len(),
{
    if events.len() == 0 {
        Seq::empty()
    } else {
        answers(start, events.drop_last()).push(
            run(start, events.drop_last()).step(events.last()).1,
        )
    }
}

/// `count` reports of success.
pub open spec fn successes(count: nat) -> Seq<Event> {
    Seq::new(count, |i: int| Event::Succeeded)
}

/// Whether the first `count` chunks of `view` can be decoded.
pub open spec fn decodable_before(view: PipelineView, count: int) -> bool {
    forall|k: int| 0 <= k < count ==> (#[trigger] payload_outcome(view.bytes, view.chunks[k])) is Ok
}

/// The action that writes the chunk at `k` of `view`.
pub open spec fn write_of(view: PipelineView, k: int) -> ActionView {
    ActionView::Write {
        index: k,
        path: view.paths[k],
        payload: payload_outcome(view.bytes, view.chunks[k])->Ok_0,
    }
}

/// Progress never falls. A step keeps the extraction well formed, keeps what is
/// extracted, and leaves at least as many chunks written as before, never more than
/// there are.
pub proof fn law_progress_never_falls(view: PipelineView, event: Event)
    requires
        view.wf(),
    ensures
        view.step(event).0.wf(),
        view.step(event).0.bytes == view.bytes,
        view.step(event).0.chunks == view.chunks,
        view.step(event).0.paths == view.paths,
        view.completed <= view.step(event).0.completed <= view.chunks.len(),
        view.step(event).0.phase is Done ==> view.step(event).0.completed == view.chunks.len(),
{
}

/// Once an extraction has ended it stays as it is, and every report is answered with
/// its outcome: nothing is written after the end.
pub proof fn law_end_is_final(view: PipelineView, events: Seq<Event>)
    requires
        view.phase is Done || view.phase is Failed,
    ensures
        run(view, events) == view,
        forall|i: int|
            0 <= i < events.len() ==> #[trigger] answers(view, events)[i] == (ActionView::Finish {
                outcome: match view.phase {
                    Phase::Failed(error) => Err(error),
                    _ => Ok(()),
                },
            }),
        answers(view, events).len() == events.len(),
    decreases events.len(),
{
    if events.len() > 0 {
        law_end_is_final(view, events.drop_last());
    }
}

/// Running on: the reports `first` and then `second` lead where `second` leads from
/// where `first` led, and get the answers of both.
pub proof fn lemma_run_add(start: PipelineView, first: Seq<Event>, second: Seq<Event>)
    ensures
        run(start, first + second) == run(run(start, first), second),
        answers(start, first + second) == answers(start, first) + answers(
            run(start, first),
            second,
        ),
    decreases second.len(),
{
    if second.len() == 0 {
        assert(first + second =~= first);
        assert(answers(start, first) + answers(run(start, first), second) =~= answers(
            start,
            first,
        ));
    } else {
        lemma_run_add(start, first, second.drop_last());
        assert((first + second).drop_last() =~= first + second.drop_last());
        assert((first + second).last() == second.last());
        assert(answers(start, first + second) =~= answers(start, first) + answers(
            run(start, first),
            second,
        ));
    }
}

/// While chunks decode and writes succeed, each report of success is answered with the
/// next chunk: after `count` such reports, `count - 1` chunks are written and the
/// answers were the writes of the chunks before, in order.
pub proof fn lemma_run_of_successes(start: PipelineView, count: nat)
    requires
        start.wf(),
        start.phase is Directories,
        1 <= count <= start.chunks.len() + 1,
        decodable_before(start, count - 1),
    ensures
        run(start, successes(count)) == start.turn_to(count - 1).0,
        answers(start, successes(count)).len() == count,
        answers(start, successes(count)).last() == start.turn_to(count - 1).1,
        forall|k: int| 0 <= k < count - 1 ==> #[trigger] answers(start, successes(count))[k] == write_of(start, k),
    decreases count,
{
    let events = successes(count);
    let before = successes((count - 1) as nat);
    assert(events.drop_last() =~= before);
    if count == 1 {
        assert(run(start, before) == start);
    } else {
        lemma_run_of_successes(start, (count - 1) as nat);
        let k = count - 2;
        assert(payload_outcome(start.bytes, start.chunks[k]) is Ok);
        let mid = run(start, before);
        assert(mid == start.turn_to(k).0);
        assert(mid.step(Event::Succeeded) == start.turn_to(count - 1));
        assert(answers(start, before)[k] == write_of(start, k));
    }
}

/// Where every chunk decodes and every write succeeds, the extraction writes every
/// chunk once, in order, each to its path with its decoded payload, and ends well with
/// all of them written.
pub proof fn law_all_chunks_written(start: PipelineView)
    requires
        start.wf(),
        start.phase is Directories,
        decodable_before(start, start.chunks.len() as int),
    ensures
        ({
            let total = start.chunks.len();
            let events = successes(total + 1);
            &&& run(start, events).phase is Done
            &&& run(start, events).completed == total
            &&& answers(start, events).len() == total + 1
            &&& forall|k: int| 0 <= k < total ==> #[trigger] answers(start, events)[k] == write_of(start, k)
            &&& answers(start, events)[total as int] == (ActionView::Finish { outcome: Ok(()) })
        }),
{
    lemma_run_of_successes(start, start.chunks.len() + 1);
}

/// Where the chunk at `bad` is the first that cannot be decoded, the extraction
/// writes the chunks before it, in order, then ends with the failure of that chunk,
/// which names its hash; whatever is reported after that, nothing more is written.
pub proof fn law_stops_at_first_failure(start: PipelineView, bad: int, later: Seq<Event>)
    requires
        start.wf(),
        start.phase is Directories,
        0 <= bad < start.chunks.len(),
        decodable_before(start, bad),
        payload_outcome(start.bytes, start.chunks[bad]) is Err,
    ensures
        ({
            let events = successes((bad + 1) as nat) + later;
            let error = ExtractionError::ChunkFailed {
                hash: start.chunks[bad].hash,
                cause: FailureCause::Decode(payload_outcome(start.bytes, start.chunks[bad])->Err_0),
            };
            &&& run(start, events).phase == Phase::Failed(error)
            &&& run(start, events).completed == bad
            &&& answers(start, events).len() == events.len()
            &&& forall|k: int| 0 <= k < bad ==> #[trigger] answers(start, events)[k] == write_of(start, k)
            &&& forall|k: int|
                bad <= k < events.len() ==> #[trigger] answers(start, events)[k] == (
                ActionView::Finish { outcome: Err(error) })
        }),
{
    let first = successes((bad + 1) as nat);
    lemma_run_of_successes(start, (bad + 1) as nat);
    lemma_run_add(start, first, later);
    law_end_is_final(run(start, first), later);
    let all = answers(start, first + later);
    assert forall|k: int| 0 <= k < bad implies #[trigger] all[k] == write_of(start, k) by {
        assert(all[k] == answers(start, first)[k]);
    }
    assert forall|k: int| bad <= k < (first + later).len() implies #[trigger] all[k] == (
    ActionView::Finish {
        outcome: Err(
            ExtractionError::ChunkFailed {
                hash: start.chunks[bad].hash,
                cause: FailureCause::Decode(payload_outcome(start.bytes, start.chunks[bad])->Err_0),
            },
        ),
    }) by {
        if k == bad {
            assert(all[k] == answers(start, first)[k]);
        } else {
            assert(all[k] == answers(run(start, first), later)[k - first.len()]);
        }
    }
}

} // verus!
