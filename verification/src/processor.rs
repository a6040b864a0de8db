//! The event processor: a debounce map with one pending event per path and
//! a bounded queue of index operations.
use std::collections::VecDeque;
use vstd::prelude::*;
use vstd::string::*;
use crate::models::{FileEntry, FileEntryView, IndexOperation, OperationView};
use crate::watcher::{EventView, FilesystemEvent, QueueError};

verus! {

/// An event that waits for its path to come to rest.
pub struct PendingView {
    pub event: EventView,
    /// When the event arrived, in milliseconds on the caller's clock.
    pub since_ms: u64,
}

/// The state of the processor.
pub struct ProcessorView {
    /// The pending events, in the order in which their paths were first
    /// seen.
    pub pending: Seq<PendingView>,
    /// How long a path has to be at rest before its event is emitted, in
    /// milliseconds.
    pub debounce_ms: u64,
    /// The queued operations, head first.
    pub queue: Seq<OperationView>,
    /// Most operations that the queue may hold.
    pub capacity: usize,
}

/// Milliseconds from `since_ms` to `now_ms`; zero where the clock reads
/// less than it did.
pub open spec fn elapsed(now_ms: u64, since_ms: u64) -> int {
    if now_ms >= since_ms {
        now_ms - since_ms
    } else {
        0
    }
}

/// The event has waited the debounce time out.
pub open spec fn is_ready(p: PendingView, now_ms: u64, debounce_ms: u64) -> bool {
    elapsed(now_ms, p.since_ms) >= debounce_ms
}

/// The first of the observed entries that is at `path`: what is known of
/// the file there, if it still exists.
pub open spec fn observation_of(observed: Seq<FileEntryView>, path: Seq<char>) -> Option<
    FileEntryView,
>
    decreases observed.len(),
{
    if observed.len() == 0 {
        None
    } else if observed[0].path == path {
        Some(observed[0])
    } else {
        observation_of(observed.drop_first(), path)
    }
}

/// The operation that an event becomes. A creation becomes an `Add` and a
/// modification an `Update` of what is observed at the path now, and
/// nothing where the file is gone. A removal becomes a `Delete`, a move a
/// `Move`.
pub open spec fn operation_of(event: EventView, observed: Option<FileEntryView>) -> Option<
    OperationView,
> {
    match event {
        EventView::Created(path) => match observed {
            Some(entry) => Some(OperationView::Add(entry)),
            None => None,
        },
        EventView::Modified(path) => match observed {
            Some(entry) => Some(OperationView::Update(entry)),
            None => None,
        },
        EventView::Deleted(path) => Some(OperationView::Delete(path)),
        EventView::Moved { from, to } => Some(OperationView::Move { from, to }),
    }
}

/// Whether the event needs an observation of its path to become an
/// operation.
pub open spec fn needs_observation(event: EventView) -> bool {
    event is Created || event is Modified
}

/// The pending events that have not waited the debounce time out, in order.
pub open spec fn waiting_part(pending: Seq<PendingView>, now_ms: u64, debounce_ms: u64) -> Seq<
    PendingView,
>
    decreases pending.len(),
{
    if pending.len() == 0 {
        Seq::empty()
    } else {
        let before = waiting_part(pending.drop_last(), now_ms, debounce_ms);
        if is_ready(pending.last(), now_ms, debounce_ms) {
            before
        } else {
            before.push(pending.last())
        }
    }
}

/// The operations that the ready events become, in the order of the
/// pending events.
pub open spec fn emitted(
    pending: Seq<PendingView>,
    now_ms: u64,
    debounce_ms: u64,
    observed: Seq<FileEntryView>,
) -> Seq<OperationView>
    decreases pending.len(),
{
    if pending.len() == 0 {
        Seq::empty()
    } else {
        let before = emitted(pending.drop_last(), now_ms, debounce_ms, observed);
        let last = pending.last();
        if is_ready(last, now_ms, debounce_ms) {
            match operation_of(last.event, observation_of(observed, last.event.principal_path())) {
                Some(op) => before.push(op),
                None => before,
            }
        } else {
            before
        }
    }
}

/// The paths of the ready events that need an observation, in the order of
/// the pending events.
pub open spec fn paths_to_observe(pending: Seq<PendingView>, now_ms: u64, debounce_ms: u64) -> Seq<
    Seq<char>,
>
    decreases pending.len(),
{
    if pending.len() == 0 {
        Seq::empty()
    } else {
        let before = paths_to_observe(pending.drop_last(), now_ms, debounce_ms);
        let last = pending.last();
        if is_ready(last, now_ms, debounce_ms) && needs_observation(last.event) {
            before.push(last.event.principal_path())
        } else {
            before
        }
    }
}

/// Some pending event waits under `path`.
pub open spec fn waits_under(pending: Seq<PendingView>, path: Seq<char>) -> bool {
    exists|i: int| 0 <= i < pending.len() && (#[trigger] pending[i]).event.principal_path() == path
}

/// Position of the pending event that waits under `path`.
pub open spec fn pending_position(pending: Seq<PendingView>, path: Seq<char>) -> int {
    choose|i: int| 0 <= i < pending.len() && (#[trigger] pending[i]).event.principal_path() == path
}

/// No two pending events wait under the same path.
pub open spec fn one_per_path(pending: Seq<PendingView>) -> bool {
    forall|i: int, j: int|
        0 <= i < j < pending.len() ==> (#[trigger] pending[i]).event.principal_path() != (
        #[trigger] pending[j]).event.principal_path()
}

impl ProcessorView {
    /// The invariant of the processor: at most one pending event per path,
    /// and no more queued operations than the queue may hold.
    pub open spec fn wf(self) -> bool {
        &&& one_per_path(self.pending)
        &&& self.queue.len() <= self.capacity
    }

    /// The processor after an event arrived at `now_ms`: the event takes
    /// the place of the one that waited under its path, or is added to the
    /// pending events.
    pub open spec fn add(self, event: EventView, now_ms: u64) -> ProcessorView {
        let arrived = PendingView { event, since_ms: now_ms };
        if waits_under(self.pending, event.principal_path()) {
            ProcessorView {
                pending: self.pending.update(
                    pending_position(self.pending, event.principal_path()),
                    arrived,
                ),
                ..self
            }
        } else {
            ProcessorView { pending: self.pending.push(arrived), ..self }
        }
    }

    /// The processor after the events arrived in order, each at its time.
    pub open spec fn add_all(self, events: Seq<EventView>, times: Seq<u64>) -> ProcessorView
        decreases events.len(),
    {
        if events.len() == 0 || times.len() != events.len() {
            self
        } else {
            self.add_all(events.drop_last(), times.drop_last()).add(events.last(), times.last())
        }
    }
}

/// An event with the time at which it arrived.
pub struct PendingEvent {
    event: FilesystemEvent,
    since_ms: u64,
}

impl View for PendingEvent {
    type V = PendingView;

    closed spec fn view(&self) -> PendingView {
        PendingView { event: self.event@, since_ms: self.since_ms }
    }
}

/// Debounces filesystem events and queues the operations they become.
///
/// The pending events are kept as a list in the order in which their paths
/// were first seen, so that the order of the emitted operations is the
/// same on every run.
pub struct EventProcessor {
    pending_events: Vec<PendingEvent>,
    debounce_ms: u64,
    operation_queue: VecDeque<IndexOperation>,
    max_queue_size: usize,
}

/// The views of a list of pending events.
spec fn pending_views(pending: Seq<PendingEvent>) -> Seq<PendingView> {
    Seq::new(pending.len(), |i: int| pending[i]@)
}

/// The views of the queued operations.
spec fn queue_views(queue: Seq<IndexOperation>) -> Seq<OperationView> {
    Seq::new(queue.len(), |i: int| queue[i]@)
}

impl View for EventProcessor {
    type V = ProcessorView;

    closed spec fn view(&self) -> ProcessorView {
        ProcessorView {
            pending: pending_views(self.pending_events@),
            debounce_ms: self.debounce_ms,
            queue: queue_views(self.operation_queue@),
            capacity: self.max_queue_size,
        }
    }
}

/// In a well-formed processor a path names one pending position.
pub proof fn lemma_pending_position(pending: Seq<PendingView>, path: Seq<char>, at: int)
    requires
        one_per_path(pending),
        0 <= at < pending.len(),
        pending[at].event.principal_path() == path,
    ensures
        waits_under(pending, path),
        pending_position(pending, path) == at,
{
    let p = pending_position(pending, path);
    if p < at {
        assert(pending[p].event.principal_path() != pending[at].event.principal_path());
    } else if at < p {
        assert(pending[at].event.principal_path() != pending[p].event.principal_path());
    }
}

/// Every event that still waits was pending before.
proof fn lemma_waiting_part_members(pending: Seq<PendingView>, now_ms: u64, debounce_ms: u64)
    ensures
        forall|k: int|
            0 <= k < waiting_part(pending, now_ms, debounce_ms).len() ==> pending.contains(
                #[trigger] waiting_part(pending, now_ms, debounce_ms)[k],
            ),
        waiting_part(pending, now_ms, debounce_ms).len() <= pending.len(),
    decreases pending.len(),
{
    if pending.len() > 0 {
        let head = pending.drop_last();
        lemma_waiting_part_members(head, now_ms, debounce_ms);
        let w = waiting_part(pending, now_ms, debounce_ms);
        assert forall|k: int| 0 <= k < w.len() implies pending.contains(#[trigger] w[k]) by {
            if k < waiting_part(head, now_ms, debounce_ms).len() {
                let x = waiting_part(head, now_ms, debounce_ms)[k];
                assert(head.contains(x));
                let i = choose|i: int| 0 <= i < head.len() && head[i] == x;
                assert(pending[i] == x);
            } else {
                assert(pending[pending.len() - 1] == w[k]);
            }
        }
    }
}

/// Dropping the ready events leaves at most one pending event per path.
pub proof fn lemma_waiting_part_one_per_path(
    pending: Seq<PendingView>,
    now_ms: u64,
    debounce_ms: u64,
)
    requires
        one_per_path(pending),
    ensures
        one_per_path(waiting_part(pending, now_ms, debounce_ms)),
    decreases pending.len(),
{
    if pending.len() > 0 {
        let head = pending.drop_last();
        assert(one_per_path(head)) by {
            assert forall|i: int, j: int| 0 <= i < j < head.len() implies (
            #[trigger] head[i]).event.principal_path() != (
            #[trigger] head[j]).event.principal_path() by {
                assert(pending[i].event.principal_path() != pending[j].event.principal_path());
            }
        }
        lemma_waiting_part_one_per_path(head, now_ms, debounce_ms);
        lemma_waiting_part_members(head, now_ms, debounce_ms);
        let before = waiting_part(head, now_ms, debounce_ms);
        let w = waiting_part(pending, now_ms, debounce_ms);
        if !is_ready(pending.last(), now_ms, debounce_ms) {
            assert forall|i: int, j: int| 0 <= i < j < w.len() implies (
            #[trigger] w[i]).event.principal_path() != (
            #[trigger] w[j]).event.principal_path() by {
                if j == before.len() {
                    assert(head.contains(before[i]));
                    let a = choose|a: int| 0 <= a < head.len() && head[a] == before[i];
                    assert(pending[a].event.principal_path() != pending[pending.len()
                        - 1].event.principal_path());
                } else {
                    assert(before[i].event.principal_path() != before[j].event.principal_path());
                }
            }
        }
    }
}

/// Adding an event keeps one pending event per path.
pub proof fn lemma_add_wf(s: ProcessorView, event: EventView, now_ms: u64)
    requires
        s.wf(),
    ensures
        s.add(event, now_ms).wf(),
        s.add(event, now_ms).queue == s.queue,
        s.add(event, now_ms).capacity == s.capacity,
        s.add(event, now_ms).pending.len() <= s.pending.len() + 1,
{
    let path = event.principal_path();
    let t = s.add(event, now_ms);
    if waits_under(s.pending, path) {
        let at = pending_position(s.pending, path);
        assert forall|i: int, j: int| 0 <= i < j < t.pending.len() implies (
        #[trigger] t.pending[i]).event.principal_path() != (
        #[trigger] t.pending[j]).event.principal_path() by {
            assert(s.pending[i].event.principal_path() != s.pending[j].event.principal_path());
        }
    } else {
        assert forall|i: int, j: int| 0 <= i < j < t.pending.len() implies (
        #[trigger] t.pending[i]).event.principal_path() != (
        #[trigger] t.pending[j]).event.principal_path() by {
            if j == s.pending.len() {
                assert(s.pending[i].event.principal_path() != path);
            } else {
                assert(s.pending[i].event.principal_path() != s.pending[j].event.principal_path());
            }
        }
    }
}

/// Bounded memory: whatever events arrive, at most one event is pending
/// for each path, there are no more pending events than events arrived and
/// were pending before, and the queue stays within its capacity.
pub proof fn lemma_stream_keeps_bounds(s: ProcessorView, events: Seq<EventView>, times: Seq<u64>)
    requires
        s.wf(),
    ensures
        s.add_all(events, times).wf(),
        one_per_path(s.add_all(events, times).pending),
        s.add_all(events, times).pending.len() <= s.pending.len() + events.len(),
        s.add_all(events, times).queue == s.queue,
        s.add_all(events, times).queue.len() <= s.add_all(events, times).capacity,
    decreases events.len(),
{
    if events.len() > 0 && times.len() == events.len() {
        lemma_stream_keeps_bounds(s, events.drop_last(), times.drop_last());
        lemma_add_wf(s.add_all(events.drop_last(), times.drop_last()), events.last(), times.last());
    }
}

/// Events that all arrive under one path, at a processor with nothing
/// pending, leave one pending event: the last of them, with its time.
pub proof fn lemma_one_path_collapses(
    s: ProcessorView,
    events: Seq<EventView>,
    times: Seq<u64>,
    path: Seq<char>,
)
    requires
        s.pending.len() == 0,
        events.len() >= 1,
        times.len() == events.len(),
        forall|i: int| 0 <= i < events.len() ==> (#[trigger] events[i]).principal_path() == path,
    ensures
        s.add_all(events, times) == (ProcessorView {
            pending: seq![PendingView { event: events.last(), since_ms: times.last() }],
            ..s
        }),
    decreases events.len(),
{
    let arrived = PendingView { event: events.last(), since_ms: times.last() };
    if events.len() == 1 {
        assert(events.drop_last().len() == 0);
        assert(s.add_all(events.drop_last(), times.drop_last()) == s);
        assert(!waits_under(s.pending, path));
        assert(s.pending.push(arrived) =~= seq![arrived]);
    } else {
        let head = events.drop_last();
        lemma_one_path_collapses(s, head, times.drop_last(), path);
        let m = s.add_all(head, times.drop_last());
        let before = PendingView { event: head.last(), since_ms: times.drop_last().last() };
        assert(m.pending[0] == before);
        assert(head.last() == events[events.len() - 2]);
        assert(one_per_path(m.pending));
        lemma_pending_position(m.pending, path, 0);
        assert(m.pending.update(0, arrived) =~= seq![arrived]);
    }
}

/// For a single path: after any sequence of events under that path, the
/// first `process_pending` after the last event has come to rest emits
/// exactly one operation, whose kind follows from the last event alone: a
/// removal gives a `Delete`, a move a `Move`, a creation an `Add` and a
/// modification an `Update` of what is observed at the path. Nothing stays
/// pending. A creation or modification is only covered where the file is
/// still observed.
pub proof fn lemma_last_event_decides(
    s: ProcessorView,
    events: Seq<EventView>,
    times: Seq<u64>,
    path: Seq<char>,
    now_ms: u64,
    observed: Seq<FileEntryView>,
)
    requires
        s.pending.len() == 0,
        events.len() >= 1,
        times.len() == events.len(),
        forall|i: int| 0 <= i < events.len() ==> (#[trigger] events[i]).principal_path() == path,
        elapsed(now_ms, times.last()) >= s.debounce_ms,
        needs_observation(events.last()) ==> observation_of(observed, path) is Some,
    ensures
        ({
            let t = s.add_all(events, times);
            let ops = emitted(t.pending, now_ms, t.debounce_ms, observed);
            &&& t.pending.len() == 1
            &&& waiting_part(t.pending, now_ms, t.debounce_ms).len() == 0
            &&& ops.len() == 1
            &&& Some(ops[0]) == operation_of(events.last(), observation_of(observed, path))
            &&& events.last() matches EventView::Deleted(p) ==> ops[0] == OperationView::Delete(p)
            &&& events.last() matches EventView::Moved { from, to } ==> ops[0]
                == (OperationView::Move { from, to })
            &&& events.last() is Created ==> ops[0] == OperationView::Add(
                observation_of(observed, path)->0,
            )
            &&& events.last() is Modified ==> ops[0] == OperationView::Update(
                observation_of(observed, path)->0,
            )
        }),
{
    lemma_one_path_collapses(s, events, times, path);
    let arrived = PendingView { event: events.last(), since_ms: times.last() };
    let pending = seq![arrived];
    assert(pending.drop_last() =~= Seq::<PendingView>::empty());
    assert(pending.last() == arrived);
    assert(events.last().principal_path() == path);
    reveal_with_fuel(emitted, 2);
    reveal_with_fuel(waiting_part, 2);
}

/// The entry observed at `path`, if any.
fn find_observation<'a>(observed: &'a Vec<FileEntry>, path: &String) -> (found: Option<
    &'a FileEntry,
>)
    ensures
        match found {
            Some(entry) => observation_of(crate::models::entry_views(observed@), path@) == Some(
                entry@,
            ),
            None => observation_of(crate::models::entry_views(observed@), path@) is None,
        },
{
    let ghost all = crate::models::entry_views(observed@);
    let mut i: usize = 0;
    assert(all.skip(0) =~= all);
    while i < observed.len()
        invariant
            i <= observed.len(),
            all == crate::models::entry_views(observed@),
            observation_of(all, path@) == observation_of(all.skip(i as int), path@),
        decreases observed.len() - i,
    {
        let ghost rest = all.skip(i as int);
        assert(rest[0] == observed@[i as int]@);
        assert(rest.drop_first() =~= all.skip(i + 1));
        if observed[i].path == *path {
            return Some(&observed[i]);
        }
        i += 1;
    }
    None
}

impl EventProcessor {
    /// The invariant of the processor.
    pub open spec fn wf(&self) -> bool {
        self@.wf()
    }

    /// A processor with nothing pending and an empty queue.
    pub fn new(debounce_ms: u64, max_queue_size: usize) -> (p: EventProcessor)
        ensures
            p.wf(),
            p@ == (ProcessorView {
                pending: Seq::empty(),
                debounce_ms,
                queue: Seq::empty(),
                capacity: max_queue_size,
            }),
    {
        let p = EventProcessor {
            pending_events: Vec::new(),
            debounce_ms,
            operation_queue: VecDeque::new(),
            max_queue_size,
        };
        assert(p@.pending =~= Seq::empty());
        assert(p@.queue =~= Seq::empty());
        p
    }

    /// Turns an event into the operation that it stands for, given what is
    /// observed at its path now.
    pub fn event_to_operation(event: FilesystemEvent, observed: Option<&FileEntry>) -> (op: Option<
        IndexOperation,
    >)
        ensures
            match op {
                Some(o) => operation_of(
                    event@,
                    match observed {
                        Some(e) => Some(e@),
                        None => None,
                    },
                ) == Some(o@),
                None => operation_of(
                    event@,
                    match observed {
                        Some(e) => Some(e@),
                        None => None,
                    },
                ) is None,
            },
    {
        match event {
            FilesystemEvent::Created(path) => match observed {
                Some(entry) => Some(IndexOperation::Add(entry.duplicate())),
                None => None,
            },
            FilesystemEvent::Modified(path) => match observed {
                Some(entry) => Some(IndexOperation::Update(entry.duplicate())),
                None => None,
            },
            FilesystemEvent::Deleted(path) => Some(IndexOperation::Delete(path)),
            FilesystemEvent::Moved { from, to } => Some(IndexOperation::Move { from, to }),
        }
    }

    /// Position of the event that waits under `path`.
    fn find_pending(&self, path: &String) -> (found: Option<usize>)
        requires
            self.wf(),
        ensures
            match found {
                Some(at) => at < self.pending_events.len() && waits_under(self@.pending, path@)
                    && pending_position(self@.pending, path@) == at,
                None => !waits_under(self@.pending, path@),
            },
    {
        let mut i: usize = 0;
        while i < self.pending_events.len()
            invariant
                self.wf(),
                i <= self.pending_events.len(),
                forall|k: int|
                    0 <= k < i ==> (#[trigger] self@.pending[k]).event.principal_path() != path@,
            decreases self.pending_events.len() - i,
        {
            assert(self@.pending[i as int] == self.pending_events@[i as int]@);
            if *self.pending_events[i].event.principal_path() == *path {
                proof {
                    lemma_pending_position(self@.pending, path@, i as int);
                }
                return Some(i);
            }
            i += 1;
        }
        None
    }

    /// Takes in an event that arrived at `now_ms`. It replaces the event
    /// that waited under the same path, whatever its kind, and its debounce
    /// time starts anew.
    pub fn add_event(&mut self, event: FilesystemEvent, now_ms: u64)
        requires
            old(self).wf(),
        ensures
            final(self).wf(),
            final(self)@ == old(self)@.add(event@, now_ms),
    {
        let ghost before = self@;
        let ghost arrived = PendingView { event: event@, since_ms: now_ms };
        proof {
            lemma_add_wf(before, event@, now_ms);
        }
        match self.find_pending(event.principal_path()) {
            Some(at) => {
                self.pending_events.set(at, PendingEvent { event, since_ms: now_ms });
                assert(self@.pending =~= before.pending.update(at as int, arrived));
            },
            None => {
                self.pending_events.push(PendingEvent { event, since_ms: now_ms });
                assert(self@.pending =~= before.pending.push(arrived));
            },
        }
        assert(self@.queue =~= before.queue);
    }

    /// Whether the pending event at `at` has waited the debounce time out.
    fn ready_at(&self, at: usize, now_ms: u64) -> (r: bool)
        requires
            at < self.pending_events.len(),
        ensures
            r == is_ready(self@.pending[at as int], now_ms, self@.debounce_ms),
    {
        let since = self.pending_events[at].since_ms;
        let waited = if now_ms >= since {
            now_ms - since
        } else {
            0
        };
        waited >= self.debounce_ms
    }

    /// The paths that have to be observed before `process_pending` is called
    /// at `now_ms`: those of the ready creations and modifications.
    pub fn ready_paths(&self, now_ms: u64) -> (paths: Vec<String>)
        requires
            self.wf(),
        ensures
            crate::paths::views(paths@) == paths_to_observe(
                self@.pending,
                now_ms,
                self@.debounce_ms,
            ),
    {
        let ghost pending = self@.pending;
        let mut paths: Vec<String> = Vec::new();
        let mut i: usize = 0;
        assert(pending.take(0) =~= Seq::empty());
        assert(crate::paths::views(paths@) =~= Seq::empty());
        while i < self.pending_events.len()
            invariant
                self.wf(),
                pending == self@.pending,
                i <= self.pending_events.len(),
                crate::paths::views(paths@) == paths_to_observe(
                    pending.take(i as int),
                    now_ms,
                    self@.debounce_ms,
                ),
            decreases self.pending_events.len() - i,
        {
            let ghost next = pending.take(i + 1);
            assert(next.drop_last() =~= pending.take(i as int));
            assert(next.last() == pending[i as int]);
            assert(pending[i as int] == self.pending_events@[i as int]@);
            let needs = match &self.pending_events[i].event {
                FilesystemEvent::Created(_) => true,
                FilesystemEvent::Modified(_) => true,
                FilesystemEvent::Deleted(_) => false,
                FilesystemEvent::Moved { from, to } => false,
            };
            if needs && self.ready_at(i, now_ms) {
                let ghost before = crate::paths::views(paths@);
                paths.push(self.pending_events[i].event.principal_path().clone());
                assert(crate::paths::views(paths@) =~= before.push(
                    pending[i as int].event.principal_path(),
                ));
            }
            i += 1;
        }
        assert(pending.take(self.pending_events.len() as int) =~= pending);
        paths
    }

    /// Emits the operations of the events that have waited the debounce
    /// time out at `now_ms` and forgets those events. `observed` holds what
    /// is at the paths of `ready_paths` now: one entry for each that still
    /// exists. A creation or modification whose file is gone emits nothing.
    pub fn process_pending(&mut self, now_ms: u64, observed: &Vec<FileEntry>) -> (ops: Vec<
        IndexOperation,
    >)
        requires
            old(self).wf(),
        ensures
            final(self).wf(),
            crate::models::operation_views(ops@) == emitted(
                old(self)@.pending,
                now_ms,
                old(self)@.debounce_ms,
                crate::models::entry_views(observed@),
            ),
            final(self)@ == (ProcessorView {
                pending: waiting_part(old(self)@.pending, now_ms, old(self)@.debounce_ms),
                ..old(self)@
            }),
    {
        let ghost before = self@;
        let ghost pending = self@.pending;
        let ghost seen = crate::models::entry_views(observed@);
        let mut ops: Vec<IndexOperation> = Vec::new();
        let mut kept: Vec<PendingEvent> = Vec::new();
        let mut i: usize = 0;
        assert(pending.take(0) =~= Seq::empty());
        assert(crate::models::operation_views(ops@) =~= Seq::empty());
        assert(pending_views(kept@) =~= Seq::empty());
        while i < self.pending_events.len()
            invariant
                self.wf(),
                self@ == before,
                pending == self@.pending,
                seen == crate::models::entry_views(observed@),
                i <= self.pending_events.len(),
                crate::models::operation_views(ops@) == emitted(
                    pending.take(i as int),
                    now_ms,
                    before.debounce_ms,
                    seen,
                ),
                pending_views(kept@) == waiting_part(
                    pending.take(i as int),
                    now_ms,
                    before.debounce_ms,
                ),
            decreases self.pending_events.len() - i,
        {
            let ghost next = pending.take(i + 1);
            assert(next.drop_last() =~= pending.take(i as int));
            assert(next.last() == pending[i as int]);
            assert(pending[i as int] == self.pending_events@[i as int]@);
            let waiting = &self.pending_events[i];
            if self.ready_at(i, now_ms) {
                let found = find_observation(observed, waiting.event.principal_path());
                match EventProcessor::event_to_operation(waiting.event.duplicate(), found) {
                    Some(op) => {
                        let ghost done = crate::models::operation_views(ops@);
                        ops.push(op);
                        assert(crate::models::operation_views(ops@) =~= done.push(op@));
                    },
                    None => {},
                }
            } else {
                let ghost done = pending_views(kept@);
                kept.push(
                    PendingEvent { event: waiting.event.duplicate(), since_ms: waiting.since_ms },
                );
                assert(pending_views(kept@) =~= done.push(pending[i as int]));
            }
            i += 1;
        }
        assert(pending.take(self.pending_events.len() as int) =~= pending);
        proof {
            lemma_waiting_part_one_per_path(pending, now_ms, before.debounce_ms);
        }
        self.pending_events = kept;
        assert(self@.queue =~= before.queue);
        ops
    }

    /// Appends an operation to the queue, unless the queue is full.
    pub fn enqueue_operation(&mut self, operation: IndexOperation) -> (r: Result<(), QueueError>)
        requires
            old(self).wf(),
        ensures
            final(self).wf(),
            match r {
                Ok(()) => old(self)@.queue.len() < old(self)@.capacity && final(self)@ == (
                ProcessorView { queue: old(self)@.queue.push(operation@), ..old(self)@ }),
                Err(e) => old(self)@.queue.len() >= old(self)@.capacity && final(self)@ == old(
                    self,
                )@,
            },
    {
        if self.operation_queue.len() >= self.max_queue_size {
            return Err(QueueError::QueueFull);
        }
        let ghost before = self@;
        self.operation_queue.push_back(operation);
        assert(self@.queue =~= before.queue.push(operation@));
        assert(self@.pending =~= before.pending);
        Ok(())
    }

    /// Takes the operation at the head of the queue.
    pub fn dequeue_operation(&mut self) -> (op: Option<IndexOperation>)
        requires
            old(self).wf(),
        ensures
            final(self).wf(),
            match op {
                Some(o) => old(self)@.queue.len() > 0 && o@ == old(self)@.queue[0] && final(self)@
                    == (ProcessorView { queue: old(self)@.queue.drop_first(), ..old(self)@ }),
                None => old(self)@.queue.len() == 0 && final(self)@ == old(self)@,
            },
    {
        let ghost before = self@;
        let op = self.operation_queue.pop_front();
        proof {
            assert(self@.pending =~= before.pending);
            if op is Some {
                assert(self@.queue =~= before.queue.drop_first());
            } else {
                assert(self@.queue =~= before.queue);
            }
        }
        op
    }

    /// Number of pending events.
    pub fn pending_event_count(&self) -> (n: usize)
        ensures
            n == self@.pending.len(),
    {
        self.pending_events.len()
    }

    /// Number of queued operations.
    pub fn queued_operation_count(&self) -> (n: usize)
        ensures
            n == self@.queue.len(),
    {
        self.operation_queue.len()
    }

    /// Drops every pending event and every queued operation.
    pub fn clear(&mut self)
        ensures
            final(self).wf(),
            final(self)@ == (ProcessorView {
                pending: Seq::empty(),
                queue: Seq::empty(),
                ..old(self)@
            }),
    {
        self.pending_events.clear();
        self.operation_queue.clear();
        assert(self@.pending =~= Seq::empty());
        assert(self@.queue =~= Seq::empty());
    }
}

} // verus!
