//! The debounce state machine of the watcher.
//!
//! Qualifying file events queue their paths and restart a fixed window; the
//! queue is handed out as one batch by the first tick at which the window,
//! measured from the latest qualifying event, has elapsed. Time is a
//! monotonic count of milliseconds that the caller supplies.

use crate::text::{chars_equal, chars_of, str_equal};
use vstd::prelude::*;

verus! {

/// Length of the debounce window in milliseconds.
pub const DEBOUNCE_MILLIS: u64 = 100;

/// What happened to a file, as far as the watcher tells events apart.
#[derive(Debug, Clone, Copy, PartialEq, Eq, Structural)]
pub enum FileEventKind {
    /// A file was created.
    CreateFile,
    /// The data of a file was modified.
    ModifyData,
    /// A file was modified in a way that is not known.
    ModifyAny,
    /// Anything else.
    Other,
}

/// A path of a file event, with its extension if it has one.
#[derive(Debug, Clone, PartialEq, Eq)]
pub struct EventPath {
    pub path: String,
    pub extension: Option<String>,
}

/// Mathematical model of an [`EventPath`].
pub struct EventPathView {
    pub path: Seq<char>,
    pub extension: Option<Seq<char>>,
}

impl DeepView for EventPath {
    type V = EventPathView;

    open spec fn deep_view(&self) -> EventPathView {
        EventPathView { path: self.path@, extension: self.extension.deep_view() }
    }
}

/// A file event.
#[derive(Debug, Clone, PartialEq, Eq)]
pub struct FileEvent {
    pub kind: FileEventKind,
    pub paths: Vec<EventPath>,
}

/// Mathematical model of a [`FileEvent`].
pub struct FileEventView {
    pub kind: FileEventKind,
    pub paths: Seq<EventPathView>,
}

impl DeepView for FileEvent {
    type V = FileEventView;

    open spec fn deep_view(&self) -> FileEventView {
        FileEventView { kind: self.kind, paths: self.paths.deep_view() }
    }
}

/// State of the watcher.
#[derive(Debug, Clone, Copy, PartialEq, Eq, Structural)]
pub enum WatcherState {
    /// No path is queued.
    Idle,
    /// At least one path is queued and the window is running.
    Pending,
    /// A batch was handed out and is being applied.
    Processing,
}

/// Whether a path has the extension of transcript files.
pub open spec fn is_log_path(path: EventPathView) -> bool {
    path.extension == Some("jsonl"@)
}

/// Whether an event is of a kind that the watcher reacts to.
pub open spec fn is_change(kind: FileEventKind) -> bool {
    kind == FileEventKind::CreateFile || kind == FileEventKind::ModifyData || kind
        == FileEventKind::ModifyAny
}

/// Whether an event qualifies: it creates or modifies, and one of its paths
/// is that of a transcript file.
pub open spec fn qualifies(event: FileEventView) -> bool {
    is_change(event.kind) && exists|i: int|
        0 <= i < event.paths.len() && is_log_path(#[trigger] event.paths[i])
}

/// The queue after one path is queued: unchanged if it holds the path.
pub open spec fn queued(queue: Seq<Seq<char>>, path: Seq<char>) -> Seq<Seq<char>> {
    if queue.contains(path) {
        queue
    } else {
        queue.push(path)
    }
}

/// The queue after the transcript paths among the first `k` paths of an
/// event are queued.
pub open spec fn queued_paths(queue: Seq<Seq<char>>, paths: Seq<EventPathView>, k: int) -> Seq<
    Seq<char>,
>
    decreases k,
{
    if k <= 0 {
        queue
    } else if is_log_path(paths[k - 1]) {
        queued(queued_paths(queue, paths, k - 1), paths[k - 1].path)
    } else {
        queued_paths(queue, paths, k - 1)
    }
}

/// Model of the debouncer: the queued paths, the time of the latest
/// qualifying event while the window is running, and whether a batch is
/// being applied.
pub struct DebounceView {
    pub queue: Seq<Seq<char>>,
    pub last_event: Option<u64>,
    pub processing: bool,
}

/// The state that a debouncer is in.
pub open spec fn state_of(state: DebounceView) -> WatcherState {
    if state.processing {
        WatcherState::Processing
    } else if state.queue.len() == 0 {
        WatcherState::Idle
    } else {
        WatcherState::Pending
    }
}

/// The debouncer after an event at time `now`: a qualifying event queues
/// its transcript paths and restarts the window; any other event changes
/// nothing.
pub open spec fn after_event(state: DebounceView, event: FileEventView, now: u64) -> DebounceView {
    if qualifies(event) {
        DebounceView {
            queue: queued_paths(state.queue, event.paths, event.paths.len() as int),
            last_event: Some(now),
            processing: state.processing,
        }
    } else {
        state
    }
}

/// Whether a tick at time `now` finds the window elapsed with paths queued
/// and no batch being applied.
pub open spec fn is_due(state: DebounceView, now: u64) -> bool {
    !state.processing && state.queue.len() > 0 && (state.last_event matches Some(at) && now >= at
        && now - at >= DEBOUNCE_MILLIS)
}

/// The debouncer after a tick at time `now`: emptied and processing if the
/// batch was due, unchanged otherwise.
pub open spec fn after_tick(state: DebounceView, now: u64) -> DebounceView {
    if is_due(state, now) {
        DebounceView { queue: Seq::empty(), last_event: None, processing: true }
    } else {
        state
    }
}

/// The debouncer after the batch that was handed out is applied.
pub open spec fn after_batch(state: DebounceView) -> DebounceView {
    DebounceView { queue: state.queue, last_event: state.last_event, processing: false }
}

/// The batch that a tick at time `now` hands out, if it is due.
pub open spec fn batch_at(state: DebounceView, now: u64) -> Option<Seq<Seq<char>>> {
    if is_due(state, now) {
        Some(state.queue)
    } else {
        None
    }
}

/// The debounce state machine.
pub struct Debouncer {
    queue: Vec<String>,
    last_event: Option<u64>,
    processing: bool,
}

impl Debouncer {
    #[verifier::type_invariant]
    spec fn well_formed(&self) -> bool {
        forall|i: int, j: int|
            0 <= i < j < self.queue@.len() ==> (#[trigger] self.queue@[i])@ != (
            #[trigger] self.queue@[j])@
    }
}

/// Whether the event is of a kind that the watcher reacts to.
pub fn is_change_kind(kind: FileEventKind) -> (change: bool)
    ensures
        change == is_change(kind),
{
    match kind {
        FileEventKind::CreateFile => true,
        FileEventKind::ModifyData => true,
        FileEventKind::ModifyAny => true,
        FileEventKind::Other => false,
    }
}

/// Whether the path has the extension of transcript files.
pub fn has_log_extension(path: &EventPath) -> (log: bool)
    ensures
        log == is_log_path(path.deep_view()),
{
    match &path.extension {
        Some(extension) => str_equal(extension.as_str(), "jsonl"),
        None => false,
    }
}

/// Whether the event qualifies for processing (see [`qualifies`]).
pub fn is_qualifying_event(event: &FileEvent) -> (yes: bool)
    ensures
        yes == qualifies(event.deep_view()),
{
    if !is_change_kind(event.kind) {
        return false;
    }
    let mut k: usize = 0;
    while k < event.paths.len()
        invariant
            k <= event.paths.len(),
            is_change(event.kind),
            forall|i: int| 0 <= i < k ==> !is_log_path(#[trigger] event.deep_view().paths[i]),
        decreases event.paths.len() - k,
    {
        assert(event.deep_view().paths[k as int] == event.paths@[k as int].deep_view());
        if has_log_extension(&event.paths[k]) {
            assert(is_log_path(event.deep_view().paths[k as int]));
            return true;
        }
        k += 1;
    }
    false
}

impl Debouncer {
    /// The queued paths, the time of the latest qualifying event, and
    /// whether a batch is being applied.
    pub closed spec fn view(&self) -> DebounceView {
        DebounceView {
            queue: self.queue.deep_view(),
            last_event: self.last_event,
            processing: self.processing,
        }
    }

    /// An idle debouncer.
    pub fn new() -> (debouncer: Self)
        ensures
            debouncer@ == (DebounceView {
                queue: Seq::empty(),
                last_event: None,
                processing: false,
            }),
    {
        let debouncer = Debouncer { queue: Vec::new(), last_event: None, processing: false };
        assert(debouncer.queue.deep_view() =~= Seq::empty());
        debouncer
    }

    /// The state of the watcher.
    pub fn state(&self) -> (state: WatcherState)
        ensures
            state == state_of(self@),
    {
        if self.processing {
            WatcherState::Processing
        } else if self.queue.len() == 0 {
            WatcherState::Idle
        } else {
            WatcherState::Pending
        }
    }

    /// Number of queued paths.
    pub fn pending_count(&self) -> (count: usize)
        ensures
            count == self@.queue.len(),
    {
        self.queue.len()
    }

    /// Recalls that no path is queued twice. Does nothing when run.
    pub fn queue_is_distinct(&self)
        ensures
            self@.queue.no_duplicates(),
    {
        proof {
            use_type_invariant(self);
        }
        assert forall|i: int, j: int|
            0 <= i < self@.queue.len() && 0 <= j < self@.queue.len() && i != j implies self@.queue[i]
            != self@.queue[j] by {
            assert(self@.queue[i] == self.queue@[i]@);
            assert(self@.queue[j] == self.queue@[j]@);
            if i < j {
                assert(self.queue@[i]@ != self.queue@[j]@);
            } else {
                assert(self.queue@[j]@ != self.queue@[i]@);
            }
        }
    }

    fn enqueue(&mut self, path: &str)
        ensures
            final(self)@.queue == queued(old(self)@.queue, path@),
            final(self)@.last_event == old(self)@.last_event,
            final(self)@.processing == old(self)@.processing,
    {
        let wanted = chars_of(path);
        proof {
            use_type_invariant(&*self);
        }
        let mut k: usize = 0;
        while k < self.queue.len()
            invariant
                k <= self.queue.len(),
                wanted@ == path@,
                *self == *old(self),
                forall|i: int| 0 <= i < k ==> (#[trigger] self.queue@[i])@ != path@,
            decreases self.queue.len() - k,
        {
            let held = chars_of(self.queue[k].as_str());
            if chars_equal(&held, &wanted) {
                assert(self@.queue[k as int] == path@);
                return ;
            }
            k += 1;
        }
        let ghost before = self.queue.deep_view();
        proof {
            if before.contains(path@) {
                let i = choose|i: int| 0 <= i < before.len() && before[i] == path@;
                assert(before[i] == self.queue@[i]@);
            }
        }
        let mut queue: Vec<String> = Vec::new();
        core::mem::swap(&mut self.queue, &mut queue);
        queue.push(path.to_owned());
        assert(queue.deep_view() =~= before.push(path@));
        self.queue = queue;
    }

    /// Takes note of a file event at time `now`. A qualifying event queues
    /// each of its transcript paths once and restarts the window; any other
    /// event is ignored.
    pub fn on_event(&mut self, event: &FileEvent, now: u64)
        ensures
            final(self)@ == after_event(old(self)@, event.deep_view(), now),
    {
        if !is_qualifying_event(event) {
            return ;
        }
        let mut k: usize = 0;
        while k < event.paths.len()
            invariant
                k <= event.paths.len(),
                self@.queue == queued_paths(old(self)@.queue, event.deep_view().paths, k as int),
                self@.processing == old(self)@.processing,
            decreases event.paths.len() - k,
        {
            assert(event.deep_view().paths[k as int] == event.paths@[k as int].deep_view());
            if has_log_extension(&event.paths[k]) {
                self.enqueue(event.paths[k].path.as_str());
            }
            k += 1;
        }
        proof {
            use_type_invariant(&*self);
        }
        self.last_event = Some(now);
    }

    /// Takes note that the batch handed out last was applied.
    pub fn finish_batch(&mut self)
        ensures
            final(self)@ == after_batch(old(self)@),
    {
        proof {
            use_type_invariant(&*self);
        }
        self.processing = false;
    }

    /// Polls the debouncer at time `now`. If paths are queued, the window has
    /// elapsed since the latest qualifying event and no batch is being
    /// applied, the queue is handed out as one batch and the debouncer is
    /// processing until [`Debouncer::finish_batch`]; otherwise nothing
    /// changes.
    pub fn on_tick(&mut self, now: u64) -> (batch: Option<Vec<String>>)
        ensures
            final(self)@ == after_tick(old(self)@, now),
            batch.deep_view() == batch_at(old(self)@, now),
    {
        if self.processing || self.queue.len() == 0 {
            return None;
        }
        match self.last_event {
            Some(at) => {
                if now >= at && now - at >= DEBOUNCE_MILLIS {
                    let mut batch: Vec<String> = Vec::new();
                    core::mem::swap(&mut self.queue, &mut batch);
                    self.last_event = None;
                    self.processing = true;
                    assert(self.queue.deep_view() =~= Seq::empty());
                    Some(batch)
                } else {
                    None
                }
            },
            None => None,
        }
    }
}

/// One input to the debouncer, at a time: an event, a tick, or the end of
/// the batch that is being applied.
pub enum WatchInput {
    Event { event: FileEventView, at: u64 },
    Tick { at: u64 },
    BatchDone { at: u64 },
}

/// The time of an input.
pub open spec fn input_time(input: WatchInput) -> u64 {
    match input {
        WatchInput::Event { at, .. } => at,
        WatchInput::Tick { at } => at,
        WatchInput::BatchDone { at } => at,
    }
}

/// The debouncer after one input.
pub open spec fn stepped(state: DebounceView, input: WatchInput) -> DebounceView {
    match input {
        WatchInput::Event { event, at } => after_event(state, event, at),
        WatchInput::Tick { at } => after_tick(state, at),
        WatchInput::BatchDone { .. } => after_batch(state),
    }
}

/// The batch that one input makes the debouncer hand out.
pub open spec fn handed_out(state: DebounceView, input: WatchInput) -> Option<Seq<Seq<char>>> {
    match input {
        WatchInput::Tick { at } => batch_at(state, at),
        _ => None,
    }
}

/// The debouncer after a sequence of inputs.
pub open spec fn run(state: DebounceView, inputs: Seq<WatchInput>) -> DebounceView
    decreases inputs.len(),
{
    if inputs.len() == 0 {
        state
    } else {
        stepped(run(state, inputs.drop_last()), inputs.last())
    }
}

/// Number of batches handed out during a sequence of inputs.
pub open spec fn batch_count(state: DebounceView, inputs: Seq<WatchInput>) -> nat
    decreases inputs.len(),
{
    if inputs.len() == 0 {
        0
    } else {
        let before = batch_count(state, inputs.drop_last());
        match handed_out(run(state, inputs.drop_last()), inputs.last()) {
            Some(_) => before + 1,
            None => before,
        }
    }
}

/// Whether an event names `path` as a transcript path.
pub open spec fn names_log_path(event: FileEventView, path: Seq<char>) -> bool {
    exists|i: int|
        0 <= i < event.paths.len() && is_log_path(#[trigger] event.paths[i]) && event.paths[i].path
            == path
}

/// Queueing keeps what was queued, adds the path, and adds nothing twice.
pub proof fn lemma_queued(queue: Seq<Seq<char>>, path: Seq<char>)
    requires
        queue.no_duplicates(),
    ensures
        queued(queue, path).no_duplicates(),
        queued(queue, path).contains(path),
        forall|other: Seq<char>| queue.contains(other) ==> queued(queue, path).contains(other),
{
    let after = queued(queue, path);
    if !queue.contains(path) {
        assert(after[queue.len() as int] == path);
        assert forall|other: Seq<char>| queue.contains(other) implies after.contains(other) by {
            let i = choose|i: int| 0 <= i < queue.len() && queue[i] == other;
            assert(after[i] == other);
        }
    }
}

/// Queueing the transcript paths of an event keeps what was queued, adds
/// each of those paths, and adds nothing twice.
pub proof fn lemma_queued_paths(queue: Seq<Seq<char>>, paths: Seq<EventPathView>, k: int)
    requires
        queue.no_duplicates(),
        0 <= k <= paths.len(),
    ensures
        queued_paths(queue, paths, k).no_duplicates(),
        forall|other: Seq<char>|
            queue.contains(other) ==> queued_paths(queue, paths, k).contains(other),
        forall|i: int|
            0 <= i < k && is_log_path(#[trigger] paths[i]) ==> queued_paths(queue, paths, k).contains(
                paths[i].path,
            ),
    decreases k,
{
    if k > 0 {
        lemma_queued_paths(queue, paths, k - 1);
        let before = queued_paths(queue, paths, k - 1);
        if is_log_path(paths[k - 1]) {
            lemma_queued(before, paths[k - 1].path);
        }
    }
}

/// The time of the latest qualifying event among the first `k` inputs.
pub open spec fn latest_qualifying(inputs: Seq<WatchInput>, k: int) -> Option<u64>
    decreases k,
{
    if k <= 0 {
        None
    } else {
        match inputs[k - 1] {
            WatchInput::Event { event, at } => if qualifies(event) {
                Some(at)
            } else {
                latest_qualifying(inputs, k - 1)
            },
            _ => latest_qualifying(inputs, k - 1),
        }
    }
}

/// Whether input `i` comes while the window is running: less than the
/// window after the latest qualifying event before it.
pub open spec fn window_runs(inputs: Seq<WatchInput>, i: int) -> bool {
    latest_qualifying(inputs, i) matches Some(latest) && input_time(inputs[i]) < latest
        + DEBOUNCE_MILLIS
}

/// Whether the inputs are one burst for `path`: they begin with a
/// qualifying event that names the path, and every later input, be it an
/// event, a tick or the end of an earlier batch, comes while the window is
/// running. Each qualifying event restarts the window, so a burst may last
/// longer than one window.
pub open spec fn is_burst(inputs: Seq<WatchInput>, path: Seq<char>) -> bool {
    &&& inputs.len() > 0
    &&& inputs[0] matches WatchInput::Event { event, .. } && qualifies(event) && names_log_path(
        event,
        path,
    )
    &&& forall|i: int| 0 < i < inputs.len() ==> window_runs(inputs, i)
}

/// Debounce coalescing. A burst for a path hands out no batch, however many
/// events for the path and ticks it holds and however long it lasts; it
/// leaves the path queued exactly once, with the window running from the
/// latest qualifying event of the burst. Unless an earlier batch is still
/// being applied, a tick at which that window has elapsed then hands out
/// one batch, which holds the path exactly once, and empties the queue. So
/// the burst leads to exactly one processing attempt for the path.
pub proof fn lemma_burst_gives_one_batch(
    state: DebounceView,
    inputs: Seq<WatchInput>,
    path: Seq<char>,
    expiry: u64,
)
    requires
        state.queue.no_duplicates(),
        is_burst(inputs, path),
        latest_qualifying(inputs, inputs.len() as int) matches Some(latest) && expiry >= latest
            + DEBOUNCE_MILLIS,
        !run(state, inputs).processing,
    ensures
        batch_count(state, inputs) == 0,
        run(state, inputs).queue.contains(path),
        run(state, inputs).queue.no_duplicates(),
        run(state, inputs).last_event == latest_qualifying(inputs, inputs.len() as int),
        batch_at(run(state, inputs), expiry) == Some(run(state, inputs).queue),
        after_tick(run(state, inputs), expiry).queue.len() == 0,
{
    lemma_burst_is_quiet(state, inputs, path, inputs.len() as int);
    assert(inputs.take(inputs.len() as int) =~= inputs);
    let end = run(state, inputs);
    let i = choose|i: int| 0 <= i < end.queue.len() && end.queue[i] == path;
    assert(end.queue.len() > 0);
}

/// During the first `k` inputs of a burst no batch is handed out, the path
/// stays queued once, and the window runs from the latest qualifying event
/// so far.
pub proof fn lemma_burst_is_quiet(
    state: DebounceView,
    inputs: Seq<WatchInput>,
    path: Seq<char>,
    k: int,
)
    requires
        state.queue.no_duplicates(),
        is_burst(inputs, path),
        0 < k <= inputs.len(),
    ensures
        batch_count(state, inputs.take(k)) == 0,
        run(state, inputs.take(k)).queue.contains(path),
        run(state, inputs.take(k)).queue.no_duplicates(),
        run(state, inputs.take(k)).last_event is Some,
        run(state, inputs.take(k)).last_event == latest_qualifying(inputs, k),
    decreases k,
{
    let prefix = inputs.take(k);
    let front = prefix.drop_last();
    let input = prefix.last();
    assert(input == inputs[k - 1]);
    if k == 1 {
        assert(front =~= Seq::empty());
        assert(run(state, front) == state);
        assert(batch_count(state, front) == 0);
        let event = inputs[0]->event;
        lemma_queued_paths(state.queue, event.paths, event.paths.len() as int);
        assert(handed_out(state, input) is None);
    } else {
        assert(front =~= inputs.take(k - 1));
        lemma_burst_is_quiet(state, inputs, path, k - 1);
        let before = run(state, front);
        assert(window_runs(inputs, k - 1));
        match input {
            WatchInput::Event { event, at } => {
                if qualifies(event) {
                    lemma_queued_paths(before.queue, event.paths, event.paths.len() as int);
                }
            },
            WatchInput::Tick { at } => {
                assert(at == input_time(inputs[k - 1]));
                assert(!is_due(before, at));
            },
            WatchInput::BatchDone { .. } => {},
        }
        assert(batch_count(state, front) == 0);
        assert(handed_out(before, input) is None);
    }
}

} // verus!
