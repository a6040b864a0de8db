//! The daemon's decisions: how the first scan is indexed, which roots are
//! watched, and what each tick of the loop does to the processor and the
//! store. The caller owns the loop: it waits, reads the notification
//! source and the filesystem, and hands over what it got.
use vstd::prelude::*;
use vstd::string::*;
use crate::config::Config;
use crate::database::{Database, StoreImage};
use crate::models::{
    entry_views, operation_views, FileEntry, FileEntryView, IndexOperation, OperationView,
};
use crate::paths::views;
use crate::processor::{emitted, waiting_part, EventProcessor, ProcessorView};
use crate::store_model::{StoreError, StoreView};
use crate::watcher::{EventView, FilesystemEvent};

verus! {

/// How long a path has to be at rest before its event is emitted, in
/// milliseconds.
pub const DEBOUNCE_MS: u64 = 200;

/// Most operations that wait in the queue.
pub const MAX_QUEUE_SIZE: usize = 10000;

/// One `Add` for each entry, in order.
pub open spec fn additions(entries: Seq<FileEntryView>) -> Seq<OperationView> {
    Seq::new(entries.len(), |i: int| OperationView::Add(entries[i]))
}

/// The operations cut into batches of `size`, the last one possibly
/// shorter.
pub open spec fn chunks_of(ops: Seq<OperationView>, size: nat) -> Seq<Seq<OperationView>>
    decreases ops.len(),
{
    if ops.len() == 0 || size == 0 {
        Seq::empty()
    } else if ops.len() <= size {
        seq![ops]
    } else {
        seq![ops.take(size as int)] + chunks_of(ops.skip(size as int), size)
    }
}

/// The views of a list of batches.
pub open spec fn batch_views(batches: Seq<Vec<IndexOperation>>) -> Seq<Seq<OperationView>> {
    Seq::new(batches.len(), |i: int| operation_views(batches[i]@))
}

/// The paths, followed by each candidate that exists and is not among the
/// paths before it.
pub open spec fn with_existing(
    paths: Seq<Seq<char>>,
    candidates: Seq<Seq<char>>,
    exists: Seq<bool>,
) -> Seq<Seq<char>>
    decreases candidates.len(),
{
    if candidates.len() == 0 || exists.len() != candidates.len() {
        paths
    } else {
        let before = with_existing(paths, candidates.drop_last(), exists.drop_last());
        if exists.last() && !before.contains(candidates.last()) {
            before.push(candidates.last())
        } else {
            before
        }
    }
}

/// The queue after the operations were offered to it in order: it takes
/// them until it is full.
pub open spec fn room(queue: Seq<OperationView>, capacity: usize, offered: nat) -> nat {
    if queue.len() >= capacity {
        0
    } else if capacity - queue.len() >= offered {
        offered
    } else {
        (capacity - queue.len()) as nat
    }
}

/// A count raised by `n`, up to the largest count.
pub open spec fn raised(count: u64, n: nat) -> u64 {
    if count + n > u64::MAX {
        u64::MAX
    } else {
        (count + n) as u64
    }
}

/// The state of the daemon.
pub struct DaemonView {
    pub store: StoreView,
    pub processor: ProcessorView,
    /// Most operations applied in one batch.
    pub batch_size: usize,
    /// Operations lost because the queue was full.
    pub dropped: u64,
}

impl DaemonView {
    pub open spec fn wf(self) -> bool {
        &&& self.store.wf()
        &&& self.processor.wf()
        &&& self.batch_size > 0
    }
}

/// The indexing daemon: the store, the event processor and the settings
/// that connect them.
pub struct IndexingDaemon {
    db: Database,
    event_processor: EventProcessor,
    batch_size: usize,
    dropped: u64,
}

impl View for IndexingDaemon {
    type V = DaemonView;

    closed spec fn view(&self) -> DaemonView {
        DaemonView {
            store: self.db@,
            processor: self.event_processor@,
            batch_size: self.batch_size,
            dropped: self.dropped,
        }
    }
}

/// What a flush did.
pub struct FlushReport {
    /// The operations taken from the queue.
    pub batch: Vec<IndexOperation>,
    /// Whether the store took them. An empty batch is not applied.
    pub result: Result<(), StoreError>,
}

/// One `Add` operation for each entry.
fn add_operations(entries: &[FileEntry], from: usize, to: usize) -> (ops: Vec<IndexOperation>)
    requires
        from <= to <= entries.len(),
    ensures
        operation_views(ops@) == additions(entry_views(entries@)).subrange(from as int, to as int),
{
    let mut ops: Vec<IndexOperation> = Vec::new();
    let mut i: usize = from;
    while i < to
        invariant
            from <= i <= to <= entries.len(),
            ops.len() == i - from,
            forall|k: int|
                0 <= k < ops.len() ==> (#[trigger] ops@[k])@ == OperationView::Add(
                    entries@[from + k]@,
                ),
        decreases to - i,
    {
        ops.push(IndexOperation::Add(entries[i].duplicate()));
        i += 1;
    }
    assert(operation_views(ops@) =~= additions(entry_views(entries@)).subrange(
        from as int,
        to as int,
    ));
    ops
}

/// The batches in which the entries of a scan are indexed: one `Add` per
/// entry, `batch_size` of them to a batch.
pub fn initial_batches(entries: &[FileEntry], batch_size: usize) -> (batches: Vec<
    Vec<IndexOperation>,
>)
    requires
        batch_size > 0,
    ensures
        batch_views(batches@) == chunks_of(additions(entry_views(entries@)), batch_size as nat),
{
    let ghost all = additions(entry_views(entries@));
    let mut batches: Vec<Vec<IndexOperation>> = Vec::new();
    let mut start: usize = 0;
    assert(all.skip(0) =~= all);
    assert(batch_views(batches@) =~= Seq::empty());
    while start < entries.len()
        invariant
            start <= entries.len(),
            batch_size > 0,
            all == additions(entry_views(entries@)),
            chunks_of(all, batch_size as nat) == batch_views(batches@) + chunks_of(
                all.skip(start as int),
                batch_size as nat,
            ),
        decreases entries.len() - start,
    {
        let end = if entries.len() - start <= batch_size {
            entries.len()
        } else {
            start + batch_size
        };
        let batch = add_operations(entries, start, end);
        let ghost rest = all.skip(start as int);
        let ghost done = batch_views(batches@);
        proof {
            if end == entries.len() {
                assert(all.subrange(start as int, end as int) =~= rest);
                assert(all.skip(end as int) =~= Seq::empty());
                assert(chunks_of(rest, batch_size as nat) =~= seq![rest] + chunks_of(
                    all.skip(end as int),
                    batch_size as nat,
                ));
            } else {
                assert(all.subrange(start as int, end as int) =~= rest.take(batch_size as int));
                assert(rest.skip(batch_size as int) =~= all.skip(end as int));
            }
        }
        batches.push(batch);
        proof {
            assert(batch_views(batches@) =~= done.push(all.subrange(start as int, end as int)));
            assert(done.push(all.subrange(start as int, end as int)) + chunks_of(
                all.skip(end as int),
                batch_size as nat,
            ) =~= done + (seq![all.subrange(start as int, end as int)] + chunks_of(
                all.skip(end as int),
                batch_size as nat,
            )));
        }
        start = end;
    }
    assert(all.skip(entries.len() as int) =~= Seq::empty());
    assert(batch_views(batches@) + Seq::<Seq<OperationView>>::empty() =~= batch_views(batches@));
    batches
}

/// Whether the list holds the path.
fn holds_path(paths: &Vec<String>, path: &String) -> (r: bool)
    ensures
        r == views(paths@).contains(path@),
{
    let mut i: usize = 0;
    while i < paths.len()
        invariant
            i <= paths.len(),
            forall|k: int| 0 <= k < i ==> views(paths@)[k] != path@,
        decreases paths.len() - i,
    {
        if paths[i] == *path {
            assert(views(paths@)[i as int] == path@);
            return true;
        }
        i += 1;
    }
    false
}

/// The roots to watch: the configured roots, then each application root
/// that exists and is not among them yet. `exists` says of each application
/// root whether it exists.
pub fn watch_roots(configured: Vec<String>, app_dirs: &Vec<String>, exists: &Vec<bool>) -> (roots: Vec<
    String,
>)
    requires
        exists.len() == app_dirs.len(),
    ensures
        views(roots@) == with_existing(views(configured@), views(app_dirs@), exists@),
{
    let ghost first = views(configured@);
    let ghost candidates = views(app_dirs@);
    let mut roots = configured;
    let mut i: usize = 0;
    assert(candidates.take(0) =~= Seq::empty());
    while i < app_dirs.len()
        invariant
            i <= app_dirs.len(),
            exists.len() == app_dirs.len(),
            candidates == views(app_dirs@),
            views(roots@) == with_existing(first, candidates.take(i as int), exists@.take(i as int)),
        decreases app_dirs.len() - i,
    {
        assert(candidates.take(i + 1).drop_last() =~= candidates.take(i as int));
        assert(exists@.take(i + 1).drop_last() =~= exists@.take(i as int));
        assert(candidates.take(i + 1).last() == app_dirs@[i as int]@);
        if exists[i] && !holds_path(&roots, &app_dirs[i]) {
            let ghost before = views(roots@);
            roots.push(app_dirs[i].clone());
            assert(views(roots@) =~= before.push(app_dirs@[i as int]@));
        }
        i += 1;
    }
    assert(candidates.take(app_dirs.len() as int) =~= candidates);
    assert(exists@.take(app_dirs.len() as int) =~= exists@);
    roots
}

/// The views of a list of events.
pub open spec fn event_views(events: Seq<FilesystemEvent>) -> Seq<EventView> {
    Seq::new(events.len(), |i: int| events[i]@)
}

/// The processor after the events arrived in order, all at `now_ms`.
pub open spec fn after_events(p: ProcessorView, events: Seq<EventView>, now_ms: u64) -> ProcessorView
    decreases events.len(),
{
    if events.len() == 0 {
        p
    } else {
        after_events(p, events.drop_last(), now_ms).add(events.last(), now_ms)
    }
}

impl IndexingDaemon {
    /// The invariant of the daemon.
    pub open spec fn wf(&self) -> bool {
        self@.wf()
    }

    /// A daemon over the persisted store `image`, with nothing pending.
    /// Fails where the store cannot be opened.
    pub fn new(config: &Config, image: StoreImage) -> (r: Result<IndexingDaemon, StoreError>)
        requires
            config@.valid(),
        ensures
            match r {
                Ok(daemon) => {
                    &&& daemon.wf()
                    &&& image@.open() == Ok::<StoreView, StoreError>(daemon@.store)
                    &&& daemon@.processor == (ProcessorView {
                        pending: Seq::empty(),
                        debounce_ms: DEBOUNCE_MS,
                        queue: Seq::empty(),
                        capacity: MAX_QUEUE_SIZE,
                    })
                    &&& daemon@.batch_size == config@.batch_size
                    &&& daemon@.dropped == 0
                },
                Err(e) => image@.open() == Err::<StoreView, StoreError>(e),
            },
    {
        let db = match Database::open(image) {
            Ok(db) => db,
            Err(e) => {
                return Err(e);
            },
        };
        Ok(
            IndexingDaemon {
                db,
                event_processor: EventProcessor::new(DEBOUNCE_MS, MAX_QUEUE_SIZE),
                batch_size: config.performance.batch_size,
                dropped: 0,
            },
        )
    }

    /// The store.
    pub fn database(&self) -> (db: &Database)
        ensures
            db@ == self@.store,
    {
        &self.db
    }

    /// Operations lost so far because the queue was full.
    pub fn dropped_operations(&self) -> (n: u64)
        ensures
            n == self@.dropped,
    {
        self.dropped
    }

    /// Indexes the entries of the first scan, batch by batch, and returns
    /// the number of batches. Stops at the first batch that the store
    /// refuses and returns its error; the batches before it stay applied
    /// and the refused one leaves no trace.
    pub fn initialize(&mut self, entries: &[FileEntry]) -> (r: Result<usize, StoreError>)
        requires
            old(self).wf(),
        ensures
            final(self).wf(),
            final(self)@.processor == old(self)@.processor,
            final(self)@.batch_size == old(self)@.batch_size,
            final(self)@.dropped == old(self)@.dropped,
            final(self)@.store == applied_until_refused(
                old(self)@.store,
                chunks_of(additions(entry_views(entries@)), old(self)@.batch_size as nat),
            ),
            match r {
                Ok(n) => {
                    &&& n == chunks_of(
                        additions(entry_views(entries@)),
                        old(self)@.batch_size as nat,
                    ).len()
                    &&& applied_batches(
                        old(self)@.store,
                        chunks_of(additions(entry_views(entries@)), old(self)@.batch_size as nat),
                    ) == Ok::<StoreView, StoreError>(final(self)@.store)
                },
                Err(e) => applied_batches(
                    old(self)@.store,
                    chunks_of(additions(entry_views(entries@)), old(self)@.batch_size as nat),
                ) == Err::<StoreView, StoreError>(e),
            },
    {
        let batches = initial_batches(entries, self.batch_size);
        let ghost all = batch_views(batches@);
        let ghost start = self@.store;
        let mut i: usize = 0;
        assert(all.skip(0) =~= all);
        while i < batches.len()
            invariant
                i <= batches.len(),
                all == batch_views(batches@),
                all == chunks_of(additions(entry_views(entries@)), old(self)@.batch_size as nat),
                start == old(self)@.store,
                self.wf(),
                self@.processor == old(self)@.processor,
                self@.batch_size == old(self)@.batch_size,
                self@.dropped == old(self)@.dropped,
                applied_batches(start, all) == applied_batches(self@.store, all.skip(i as int)),
                applied_until_refused(start, all) == applied_until_refused(
                    self@.store,
                    all.skip(i as int),
                ),
            decreases batches.len() - i,
        {
            let ghost rest = all.skip(i as int);
            assert(rest[0] == operation_views(batches@[i as int]@));
            assert(rest.drop_first() =~= all.skip(i + 1));
            match self.db.execute_batch(batches[i].as_slice()) {
                Ok(()) => {},
                Err(e) => {
                    return Err(e);
                },
            }
            i += 1;
        }
        Ok(batches.len())
    }

    /// Takes in the events that the watcher delivered by `now_ms`.
    pub fn add_events(&mut self, events: Vec<FilesystemEvent>, now_ms: u64)
        requires
            old(self).wf(),
        ensures
            final(self).wf(),
            final(self)@ == (DaemonView {
                processor: after_events(old(self)@.processor, event_views(events@), now_ms),
                ..old(self)@
            }),
    {
        let ghost all = event_views(events@);
        let ghost start = self@;
        let mut i: usize = 0;
        assert(all.take(0) =~= Seq::empty());
        while i < events.len()
            invariant
                i <= events.len(),
                all == event_views(events@),
                self.wf(),
                self@ == (DaemonView {
                    processor: after_events(start.processor, all.take(i as int), now_ms),
                    ..start
                }),
            decreases events.len() - i,
        {
            assert(all.take(i + 1).drop_last() =~= all.take(i as int));
            assert(all.take(i + 1).last() == events@[i as int]@);
            self.event_processor.add_event(events[i].duplicate(), now_ms);
            i += 1;
        }
        assert(all.take(events.len() as int) =~= all);
    }

    /// The paths to observe before `process_events` is called at `now_ms`.
    pub fn paths_to_observe(&self, now_ms: u64) -> (paths: Vec<String>)
        requires
            self.wf(),
        ensures
            views(paths@) == crate::processor::paths_to_observe(
                self@.processor.pending,
                now_ms,
                self@.processor.debounce_ms,
            ),
    {
        self.event_processor.ready_paths(now_ms)
    }

    /// Emits the operations of the events that came to rest by `now_ms`
    /// and queues them. What the full queue refuses is lost and counted.
    /// Returns the number of operations lost in this call.
    pub fn process_events(&mut self, now_ms: u64, observed: &Vec<FileEntry>) -> (lost: usize)
        requires
            old(self).wf(),
        ensures
            final(self).wf(),
            ({
                let ops = emitted(
                    old(self)@.processor.pending,
                    now_ms,
                    old(self)@.processor.debounce_ms,
                    entry_views(observed@),
                );
                let taken = room(
                    old(self)@.processor.queue,
                    old(self)@.processor.capacity,
                    ops.len(),
                );
                &&& lost == ops.len() - taken
                &&& final(self)@ == (DaemonView {
                    processor: ProcessorView {
                        pending: waiting_part(
                            old(self)@.processor.pending,
                            now_ms,
                            old(self)@.processor.debounce_ms,
                        ),
                        queue: old(self)@.processor.queue + ops.take(taken as int),
                        ..old(self)@.processor
                    },
                    dropped: raised(old(self)@.dropped, (ops.len() - taken) as nat),
                    ..old(self)@
                })
            }),
    {
        let ghost start = self@;
        let operations = self.event_processor.process_pending(now_ms, observed);
        let ghost ops = operation_views(operations@);
        let ghost mid = self@.processor;
        let ghost taken = room(start.processor.queue, start.processor.capacity, ops.len());
        let mut lost: usize = 0;
        let mut i: usize = 0;
        assert(mid.queue + ops.take(0) =~= mid.queue);
        while i < operations.len()
            invariant
                i <= operations.len(),
                ops == operation_views(operations@),
                self.wf(),
                lost <= i,
                self@.store == start.store,
                self@.batch_size == start.batch_size,
                self@.dropped == start.dropped,
                mid.queue == start.processor.queue,
                mid.capacity == start.processor.capacity,
                self@.processor == (ProcessorView {
                    queue: mid.queue + ops.take(i - lost),
                    ..mid
                }),
                i - lost == room(mid.queue, mid.capacity, i as nat),
            decreases operations.len() - i,
        {
            let ghost queue = self@.processor.queue;
            match self.event_processor.enqueue_operation(operations[i].duplicate()) {
                Ok(()) => {
                    assert(lost == 0);
                    assert(ops.take(i as int).push(ops[i as int]) =~= ops.take(i + 1));
                    assert(queue.push(ops[i as int]) =~= mid.queue + ops.take(i + 1));
                },
                Err(_) => {
                    lost += 1;
                },
            }
            i += 1;
        }
        self.dropped = if lost as u64 > u64::MAX - self.dropped {
            u64::MAX
        } else {
            self.dropped + lost as u64
        };
        lost
    }

    /// Takes up to a batch of operations from the head of the queue.
    pub fn next_batch(&mut self) -> (batch: Vec<IndexOperation>)
        requires
            old(self).wf(),
        ensures
            final(self).wf(),
            ({
                let n = if old(self)@.processor.queue.len() <= old(self)@.batch_size {
                    old(self)@.processor.queue.len() as int
                } else {
                    old(self)@.batch_size as int
                };
                &&& operation_views(batch@) == old(self)@.processor.queue.take(n)
                &&& final(self)@ == (DaemonView {
                    processor: ProcessorView {
                        queue: old(self)@.processor.queue.skip(n),
                        ..old(self)@.processor
                    },
                    ..old(self)@
                })
            }),
    {
        self.take_from_queue(self.batch_size)
    }

    /// Takes every operation from the queue.
    pub fn drain_queue(&mut self) -> (batch: Vec<IndexOperation>)
        requires
            old(self).wf(),
        ensures
            final(self).wf(),
            operation_views(batch@) == old(self)@.processor.queue,
            final(self)@ == (DaemonView {
                processor: ProcessorView { queue: Seq::empty(), ..old(self)@.processor },
                ..old(self)@
            }),
    {
        let ghost queue = self@.processor.queue;
        let count = self.event_processor.queued_operation_count();
        let batch = self.take_from_queue(count);
        assert(queue.take(queue.len() as int) =~= queue);
        assert(queue.skip(queue.len() as int) =~= Seq::empty());
        batch
    }

    /// Applies a batch to the store as one unit: all of its operations in
    /// order, or, where one fails, none.
    pub fn apply_batch(&mut self, batch: &[IndexOperation]) -> (r: Result<(), StoreError>)
        requires
            old(self).wf(),
        ensures
            final(self).wf(),
            final(self)@.processor == old(self)@.processor,
            final(self)@.batch_size == old(self)@.batch_size,
            final(self)@.dropped == old(self)@.dropped,
            match r {
                Ok(()) => old(self)@.store.apply_all(operation_views(batch@)) == Ok::<
                    StoreView,
                    StoreError,
                >(final(self)@.store),
                Err(e) => old(self)@.store.apply_all(operation_views(batch@)) == Err::<
                    StoreView,
                    StoreError,
                >(e) && final(self)@.store == old(self)@.store,
            },
    {
        self.db.execute_batch(batch)
    }

    /// Takes up to a batch of operations from the queue and applies them
    /// to the store as one unit. A batch that the store refuses is dropped.
    pub fn flush(&mut self) -> (report: FlushReport)
        requires
            old(self).wf(),
        ensures
            final(self).wf(),
            ({
                let n = if old(self)@.processor.queue.len() <= old(self)@.batch_size {
                    old(self)@.processor.queue.len() as int
                } else {
                    old(self)@.batch_size as int
                };
                &&& operation_views(report.batch@) == old(self)@.processor.queue.take(n)
                &&& final(self)@.processor == (ProcessorView {
                    queue: old(self)@.processor.queue.skip(n),
                    ..old(self)@.processor
                })
                &&& final(self)@.batch_size == old(self)@.batch_size
                &&& final(self)@.dropped == old(self)@.dropped
                &&& match report.result {
                    Ok(()) => old(self)@.store.apply_all(operation_views(report.batch@)) == Ok::<
                        StoreView,
                        StoreError,
                    >(final(self)@.store),
                    Err(e) => old(self)@.store.apply_all(operation_views(report.batch@)) == Err::<
                        StoreView,
                        StoreError,
                    >(e) && final(self)@.store == old(self)@.store,
                }
            }),
    {
        let batch = self.next_batch();
        let result = if batch.len() == 0 {
            assert(operation_views(batch@) =~= Seq::empty());
            Ok(())
        } else {
            self.apply_batch(batch.as_slice())
        };
        FlushReport { batch, result }
    }

    /// Takes every queued operation and applies them to the store as one
    /// last batch.
    pub fn shutdown(&mut self) -> (report: FlushReport)
        requires
            old(self).wf(),
        ensures
            final(self).wf(),
            operation_views(report.batch@) == old(self)@.processor.queue,
            final(self)@.processor == (ProcessorView {
                queue: Seq::empty(),
                ..old(self)@.processor
            }),
            final(self)@.batch_size == old(self)@.batch_size,
            final(self)@.dropped == old(self)@.dropped,
            match report.result {
                Ok(()) => old(self)@.store.apply_all(old(self)@.processor.queue) == Ok::<
                    StoreView,
                    StoreError,
                >(final(self)@.store),
                Err(e) => old(self)@.store.apply_all(old(self)@.processor.queue) == Err::<
                    StoreView,
                    StoreError,
                >(e) && final(self)@.store == old(self)@.store,
            },
    {
        let batch = self.drain_queue();
        let result = if batch.len() == 0 {
            assert(operation_views(batch@) =~= Seq::empty());
            Ok(())
        } else {
            self.apply_batch(batch.as_slice())
        };
        FlushReport { batch, result }
    }

    /// Takes up to `most` operations from the head of the queue.
    fn take_from_queue(&mut self, most: usize) -> (batch: Vec<IndexOperation>)
        requires
            old(self).wf(),
        ensures
            final(self).wf(),
            ({
                let n = if old(self)@.processor.queue.len() <= most {
                    old(self)@.processor.queue.len() as int
                } else {
                    most as int
                };
                &&& batch.len() == n
                &&& operation_views(batch@) == old(self)@.processor.queue.take(n)
                &&& final(self)@ == (DaemonView {
                    processor: ProcessorView {
                        queue: old(self)@.processor.queue.skip(n),
                        ..old(self)@.processor
                    },
                    ..old(self)@
                })
            }),
    {
        let ghost start = self@;
        let ghost queue = start.processor.queue;
        let mut batch: Vec<IndexOperation> = Vec::new();
        assert(queue.skip(0) =~= queue);
        assert(operation_views(batch@) =~= queue.take(0));
        let mut done = false;
        while batch.len() < most && !done
            invariant
                self.wf(),
                batch.len() <= most,
                batch.len() <= queue.len(),
                queue == start.processor.queue,
                operation_views(batch@) == queue.take(batch.len() as int),
                self@ == (DaemonView {
                    processor: ProcessorView {
                        queue: queue.skip(batch.len() as int),
                        ..start.processor
                    },
                    ..start
                }),
                done ==> batch.len() == queue.len(),
            decreases most - batch.len(), if done { 0int } else { 1int },
        {
            let ghost taken = operation_views(batch@);
            let ghost n = batch.len() as int;
            match self.event_processor.dequeue_operation() {
                Some(op) => {
                    assert(queue.skip(n)[0] == queue[n]);
                    batch.push(op);
                    assert(operation_views(batch@) =~= taken.push(op@));
                    assert(queue.take(n).push(queue[n]) =~= queue.take(n + 1));
                    assert(queue.skip(n).drop_first() =~= queue.skip(n + 1));
                },
                None => {
                    done = true;
                },
            }
        }
        batch
    }
}

/// The store as the batches leave it: each applied in order, up to the
/// first that the store refuses, which changes nothing.
pub open spec fn applied_until_refused(s: StoreView, batches: Seq<Seq<OperationView>>) -> StoreView
    decreases batches.len(),
{
    if batches.len() == 0 {
        s
    } else {
        match s.apply_all(batches[0]) {
            Ok(next) => applied_until_refused(next, batches.drop_first()),
            Err(e) => s,
        }
    }
}

/// The store after all the batches were applied in order, or the error of
/// the first that the store refuses.
pub open spec fn applied_batches(s: StoreView, batches: Seq<Seq<OperationView>>) -> Result<
    StoreView,
    StoreError,
>
    decreases batches.len(),
{
    if batches.len() == 0 {
        Ok(s)
    } else {
        match s.apply_all(batches[0]) {
            Ok(next) => applied_batches(next, batches.drop_first()),
            Err(e) => Err(e),
        }
    }
}

} // verus!
