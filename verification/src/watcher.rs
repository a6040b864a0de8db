//! Filesystem events: what the notification source reports, which reports
//! pass the exclude patterns, and the events they become.
use vstd::prelude::*;
use vstd::string::*;
use crate::exclude::{components_excluded, excludes_some};
use crate::paths::{components, path_components, views};

verus! {

/// A change in the filesystem that the index has to follow.
#[derive(Debug, Clone)]
pub enum FilesystemEvent {
    Created(String),
    Modified(String),
    Deleted(String),
    Moved { from: String, to: String },
}

/// A `FilesystemEvent` as a mathematical value.
pub enum EventView {
    Created(Seq<char>),
    Modified(Seq<char>),
    Deleted(Seq<char>),
    Moved { from: Seq<char>, to: Seq<char> },
}

impl View for FilesystemEvent {
    type V = EventView;

    open spec fn view(&self) -> EventView {
        match self {
            FilesystemEvent::Created(p) => EventView::Created(p@),
            FilesystemEvent::Modified(p) => EventView::Modified(p@),
            FilesystemEvent::Deleted(p) => EventView::Deleted(p@),
            FilesystemEvent::Moved { from, to } => EventView::Moved { from: from@, to: to@ },
        }
    }
}

impl EventView {
    /// The path under which an event waits for its debounce: the path it is
    /// about, and for a move the destination.
    pub open spec fn principal_path(self) -> Seq<char> {
        match self {
            EventView::Created(p) => p,
            EventView::Modified(p) => p,
            EventView::Deleted(p) => p,
            EventView::Moved { from, to } => to,
        }
    }
}

impl FilesystemEvent {
    /// The path under which the event waits for its debounce.
    pub fn principal_path(&self) -> (path: &String)
        ensures
            path@ == self@.principal_path(),
    {
        match self {
            FilesystemEvent::Created(p) => p,
            FilesystemEvent::Modified(p) => p,
            FilesystemEvent::Deleted(p) => p,
            FilesystemEvent::Moved { from, to } => to,
        }
    }

    /// A deep copy.
    pub fn duplicate(&self) -> (copy: FilesystemEvent)
        ensures
            copy@ == self@,
    {
        match self {
            FilesystemEvent::Created(p) => FilesystemEvent::Created(p.clone()),
            FilesystemEvent::Modified(p) => FilesystemEvent::Modified(p.clone()),
            FilesystemEvent::Deleted(p) => FilesystemEvent::Deleted(p.clone()),
            FilesystemEvent::Moved { from, to } => FilesystemEvent::Moved {
                from: from.clone(),
                to: to.clone(),
            },
        }
    }
}

/// What kind of change a raw notification reports.
#[derive(Debug, Clone, Copy, PartialEq, Eq, Structural)]
pub enum RawEventKind {
    /// Something was created.
    Create,
    /// Data or metadata changed, or a rename of which one side is known.
    Modify,
    /// A rename of which both sides are known: the first path is the old
    /// name, the second the new one.
    Rename,
    /// Something was removed.
    Remove,
    /// Something was read or opened.
    Access,
    /// Anything else.
    Other,
}

/// A notification as the source delivers it.
#[derive(Debug, Clone)]
pub struct RawEvent {
    pub kind: RawEventKind,
    /// The paths that the notification is about.
    pub paths: Vec<String>,
}

/// Some component of the path is excluded by some pattern.
pub open spec fn path_excluded(path: Seq<char>, patterns: Seq<Seq<char>>) -> bool {
    excludes_some(patterns, components(path))
}

/// Some path of the list is excluded.
pub open spec fn any_excluded(paths: Seq<Seq<char>>, patterns: Seq<Seq<char>>) -> bool {
    exists|i: int| 0 <= i < paths.len() && path_excluded(#[trigger] paths[i], patterns)
}

/// The event that a notification of the given kind about the given paths
/// stands for, before any exclusion: a creation, modification or removal of
/// the first path, or a move from the first path to the second. Reads and
/// other kinds stand for nothing, and so does a notification without a path.
pub open spec fn event_of(kind: RawEventKind, paths: Seq<Seq<char>>) -> Option<EventView> {
    if paths.len() == 0 {
        None
    } else {
        match kind {
            RawEventKind::Create => Some(EventView::Created(paths[0])),
            RawEventKind::Modify => Some(EventView::Modified(paths[0])),
            RawEventKind::Rename => if paths.len() >= 2 {
                Some(EventView::Moved { from: paths[0], to: paths[1] })
            } else {
                Some(EventView::Modified(paths[0]))
            },
            RawEventKind::Remove => Some(EventView::Deleted(paths[0])),
            RawEventKind::Access => None,
            RawEventKind::Other => None,
        }
    }
}

/// The event that a notification becomes: none where one of its paths is
/// excluded, else the event that it stands for.
pub open spec fn converted(
    kind: RawEventKind,
    paths: Seq<Seq<char>>,
    patterns: Seq<Seq<char>>,
) -> Option<EventView> {
    if any_excluded(paths, patterns) {
        None
    } else {
        event_of(kind, paths)
    }
}

/// Whether some component of `path` is excluded by some of the patterns: a
/// pattern matches it as a glob, or begins with `.*` while the component
/// begins with a dot.
pub fn should_exclude(path: &str, exclude_patterns: &Vec<String>) -> (r: bool)
    ensures
        r == path_excluded(path@, views(exclude_patterns@)),
{
    let parts = path_components(path);
    components_excluded(&parts, exclude_patterns)
}

/// Turns a raw notification into the event that the index follows, or into
/// none where the notification is about an excluded path or of a kind that
/// changes nothing.
pub fn convert_event(event: &RawEvent, exclude_patterns: &Vec<String>) -> (r: Option<
    FilesystemEvent,
>)
    ensures
        match r {
            Some(e) => converted(event.kind, views(event.paths@), views(exclude_patterns@))
                == Some(e@),
            None => converted(event.kind, views(event.paths@), views(exclude_patterns@)) is None,
        },
{
    let ghost paths = views(event.paths@);
    let ghost patterns = views(exclude_patterns@);
    let mut i: usize = 0;
    while i < event.paths.len()
        invariant
            i <= event.paths.len(),
            paths == views(event.paths@),
            patterns == views(exclude_patterns@),
            forall|k: int| 0 <= k < i ==> !path_excluded(#[trigger] paths[k], patterns),
        decreases event.paths.len() - i,
    {
        assert(paths[i as int] == event.paths@[i as int]@);
        if should_exclude(event.paths[i].as_str(), exclude_patterns) {
            return None;
        }
        i += 1;
    }
    if event.paths.len() == 0 {
        return None;
    }
    assert(paths[0] == event.paths@[0]@);
    match event.kind {
        RawEventKind::Create => Some(FilesystemEvent::Created(event.paths[0].clone())),
        RawEventKind::Modify => Some(FilesystemEvent::Modified(event.paths[0].clone())),
        RawEventKind::Rename => {
            if event.paths.len() >= 2 {
                assert(paths[1] == event.paths@[1]@);
                Some(
                    FilesystemEvent::Moved {
                        from: event.paths[0].clone(),
                        to: event.paths[1].clone(),
                    },
                )
            } else {
                Some(FilesystemEvent::Modified(event.paths[0].clone()))
            }
        },
        RawEventKind::Remove => Some(FilesystemEvent::Deleted(event.paths[0].clone())),
        RawEventKind::Access => None,
        RawEventKind::Other => None,
    }
}

/// Why the watcher failed.
#[derive(Debug)]
pub enum WatcherError {
    /// The notification source could not be set up.
    InitializationError(String),
    /// A root could not be registered.
    WatchError(String),
}

impl WatcherError {
    /// The error as one line of text.
    pub open spec fn text(self) -> Seq<char> {
        match self {
            WatcherError::InitializationError(msg) => "Watcher initialization error: "@ + msg@,
            WatcherError::WatchError(msg) => "Watch error: "@ + msg@,
        }
    }

    /// The error as one line of text.
    pub fn message(&self) -> (line: String)
        ensures
            line@ == self.text(),
    {
        match self {
            WatcherError::InitializationError(msg) => "Watcher initialization error: ".to_owned().concat(
                msg.as_str(),
            ),
            WatcherError::WatchError(msg) => "Watch error: ".to_owned().concat(msg.as_str()),
        }
    }
}

/// Why an operation could not be queued.
#[derive(Debug, Clone, Copy, PartialEq, Eq, Structural)]
pub enum QueueError {
    /// The queue holds as many operations as it may.
    QueueFull,
}

impl QueueError {
    /// The error as one line of text.
    pub fn message(&self) -> (line: String)
        ensures
            line@ == "Operation queue is full"@,
    {
        "Operation queue is full".to_owned()
    }
}

} // verus!
