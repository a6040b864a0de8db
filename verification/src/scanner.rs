//! The scanner: which of the entries that a directory walk yields are
//! indexed, what record each becomes, and the progress counters.
//!
//! The walk itself is the caller's: it hands over what it found under a
//! root, in the order of the walk.
use vstd::prelude::*;
use vstd::string::*;
use crate::config::Config;
use crate::exclude::{matches_any, name_excluded};
use crate::models::{entry_views, FileEntry, FileEntryView, FileType, Timestamp};
use crate::paths::{
    components, extension, extension_of, file_name, file_name_of, join, joined, path_components,
    views,
};
use crate::text::{chars_equal, chars_of, contains_chars, contains_seq};

verus! {

/// Counters of a scan.
#[derive(Debug, Clone)]
pub struct ScanProgress {
    pub files_scanned: usize,
    pub directories_scanned: usize,
    pub errors_encountered: usize,
    /// The entry visited last.
    pub current_path: Option<String>,
}

/// A `ScanProgress` as a mathematical value.
pub struct ProgressView {
    pub files_scanned: usize,
    pub directories_scanned: usize,
    pub errors_encountered: usize,
    pub current_path: Option<Seq<char>>,
}

impl View for ScanProgress {
    type V = ProgressView;

    open spec fn view(&self) -> ProgressView {
        ProgressView {
            files_scanned: self.files_scanned,
            directories_scanned: self.directories_scanned,
            errors_encountered: self.errors_encountered,
            current_path: match self.current_path {
                Some(p) => Some(p@),
                None => None,
            },
        }
    }
}

impl ProgressView {
    /// The progress of a scan that has not begun.
    pub open spec fn initial() -> ProgressView {
        ProgressView {
            files_scanned: 0,
            directories_scanned: 0,
            errors_encountered: 0,
            current_path: None,
        }
    }
}

impl ScanProgress {
    pub fn new() -> (p: ScanProgress)
        ensures
            p@ == ProgressView::initial(),
    {
        ScanProgress {
            files_scanned: 0,
            directories_scanned: 0,
            errors_encountered: 0,
            current_path: None,
        }
    }
}

/// What the filesystem says of one entry.
#[derive(Debug, Clone, Copy, PartialEq, Eq, Structural)]
pub struct FileMetadata {
    /// Size in bytes.
    pub len: u64,
    /// Time of the last modification, where the platform gives one.
    pub modified: Option<Timestamp>,
    pub is_dir: bool,
    pub is_symlink: bool,
    pub is_file: bool,
}

/// One entry that a directory walk yielded.
#[derive(Debug, Clone)]
pub struct WalkedEntry {
    pub path: String,
    /// The walk saw a directory.
    pub is_dir: bool,
    /// The walk saw a regular file.
    pub is_file: bool,
    /// The entry's metadata; `None` where it could not be read.
    pub metadata: Option<FileMetadata>,
    /// The first bytes of the content of a regular file, as far as they
    /// could be read.
    pub head: Vec<u8>,
}

/// A `WalkedEntry` as a mathematical value.
pub struct WalkedView {
    pub path: Seq<char>,
    pub is_dir: bool,
    pub is_file: bool,
    pub metadata: Option<FileMetadata>,
    pub head: Seq<u8>,
}

impl View for WalkedEntry {
    type V = WalkedView;

    open spec fn view(&self) -> WalkedView {
        WalkedView {
            path: self.path@,
            is_dir: self.is_dir,
            is_file: self.is_file,
            metadata: self.metadata,
            head: self.head@,
        }
    }
}

/// What a directory walk yields at one step.
#[derive(Debug, Clone)]
pub enum WalkItem {
    Entry(WalkedEntry),
    /// An entry that could not be accessed.
    Inaccessible,
}

/// A `WalkItem` as a mathematical value.
pub enum WalkItemView {
    Entry(WalkedView),
    Inaccessible,
}

impl View for WalkItem {
    type V = WalkItemView;

    open spec fn view(&self) -> WalkItemView {
        match self {
            WalkItem::Entry(e) => WalkItemView::Entry(e@),
            WalkItem::Inaccessible => WalkItemView::Inaccessible,
        }
    }
}

/// The views of what a walk yielded.
pub open spec fn item_views(items: Seq<WalkItem>) -> Seq<WalkItemView> {
    Seq::new(items.len(), |i: int| items[i]@)
}

/// What was found under one root.
#[derive(Debug, Clone)]
pub struct RootWalk {
    pub root: String,
    pub items: Vec<WalkItem>,
}

/// A `RootWalk` as a mathematical value.
pub struct RootWalkView {
    pub root: Seq<char>,
    pub items: Seq<WalkItemView>,
}

impl View for RootWalk {
    type V = RootWalkView;

    open spec fn view(&self) -> RootWalkView {
        RootWalkView { root: self.root@, items: item_views(self.items@) }
    }
}

/// The views of a list of walks.
pub open spec fn walk_views(walks: Seq<RootWalk>) -> Seq<RootWalkView> {
    Seq::new(walks.len(), |i: int| walks[i]@)
}

/// The file type that metadata stands for: a directory, else a symlink,
/// else a regular file, else something other.
pub open spec fn classify(meta: FileMetadata) -> FileType {
    if meta.is_dir {
        FileType::Directory
    } else if meta.is_symlink {
        FileType::Symlink
    } else if meta.is_file {
        FileType::Regular
    } else {
        FileType::Other
    }
}

/// The record `entry` describes the file at `path` with the metadata
/// `meta`: it has no identity yet, is named after the base name of the
/// path, and carries the size, the kind and, where the metadata has one,
/// the modification time.
pub open spec fn describes(entry: FileEntryView, path: Seq<char>, meta: FileMetadata) -> bool {
    &&& entry.id is None
    &&& entry.path == path
    &&& file_name_of(path) == Some(entry.filename)
    &&& entry.size == meta.len
    &&& entry.file_type == classify(meta)
    &&& meta.modified matches Some(m) ==> entry.modified_time == m
}

/// A record can be made of the path and the metadata: the path has a file
/// name and the metadata could be read.
pub open spec fn extractable(path: Seq<char>, meta: Option<FileMetadata>) -> bool {
    (file_name_of(path) is Some) && (meta is Some)
}

/// The first four bytes of an ELF executable.
pub open spec fn has_elf_magic(head: Seq<u8>) -> bool {
    head.len() >= 4 && head[0] == 0x7f && head[1] == 0x45 && head[2] == 0x4c && head[3] == 0x46
}

/// A regular file under an application root is indexed where its extension
/// is `desktop` or `AppImage`, where its content begins with the ELF magic,
/// or where its base name contains `AppImage`.
pub open spec fn is_application(path: Seq<char>, head: Seq<u8>) -> bool {
    match file_name_of(path) {
        Some(name) => {
            ||| extension_of(name) == Some("desktop"@)
            ||| extension_of(name) == Some("AppImage"@)
            ||| has_elf_magic(head)
            ||| contains_seq(name, "AppImage"@)
        },
        None => has_elf_magic(head),
    }
}

/// The components of `path` below `root`; all of them where `path` is not
/// below `root`.
pub open spec fn components_below(path: Seq<char>, root: Seq<char>) -> Seq<Seq<char>> {
    let p = components(path);
    let r = components(root);
    if r.len() <= p.len() && p.take(r.len() as int) == r {
        p.skip(r.len() as int)
    } else {
        p
    }
}

/// The entry at `path` lies in a pruned subtree of the walk from `root`:
/// some component of the path below the root matches an exclude pattern.
/// The root itself is never pruned.
pub open spec fn pruned(path: Seq<char>, root: Seq<char>, patterns: Seq<Seq<char>>) -> bool {
    exists|j: int|
        0 <= j < components_below(path, root).len() && matches_any(
            patterns,
            #[trigger] components_below(path, root)[j],
        )
}

/// Whether the walk descends into and yields the entry at `path`, judged
/// by the entry alone: the root is kept, and so is an entry without a file
/// name; any other is kept unless its base name matches an exclude pattern.
pub open spec fn kept(path: Seq<char>, root: Seq<char>, patterns: Seq<Seq<char>>) -> bool {
    ||| components(path) == components(root)
    ||| file_name_of(path) is None
    ||| !matches_any(patterns, file_name_of(path)->0)
}

/// What the scan does with an entry.
pub enum Verdict {
    /// The entry lies in a pruned subtree: it is neither counted nor
    /// indexed.
    Pruned,
    /// The entry is counted but not indexed.
    Counted,
    /// The entry is counted and indexed.
    Indexed,
}

/// What the scan does with the entry `e`. Under an application root no
/// entry is pruned, and a regular file is indexed only where it is an
/// application; under another root the exclude patterns prune. An entry
/// of which no record can be made is counted only.
pub open spec fn verdict_of(
    e: WalkedView,
    root: Seq<char>,
    patterns: Seq<Seq<char>>,
    application: bool,
) -> Verdict {
    if application {
        if (!e.is_file || is_application(e.path, e.head)) && extractable(e.path, e.metadata) {
            Verdict::Indexed
        } else {
            Verdict::Counted
        }
    } else if pruned(e.path, root, patterns) {
        Verdict::Pruned
    } else if extractable(e.path, e.metadata) {
        Verdict::Indexed
    } else {
        Verdict::Counted
    }
}

/// A counter raised by one.
pub open spec fn bumped(n: usize) -> usize {
    (n + 1) as usize
}

/// The progress after one more step of the walk.
pub open spec fn progress_step(
    p: ProgressView,
    item: WalkItemView,
    root: Seq<char>,
    patterns: Seq<Seq<char>>,
    application: bool,
) -> ProgressView {
    match item {
        WalkItemView::Inaccessible => ProgressView {
            errors_encountered: bumped(p.errors_encountered),
            ..p
        },
        WalkItemView::Entry(e) => {
            if verdict_of(e, root, patterns, application) is Pruned {
                p
            } else if e.is_dir {
                ProgressView {
                    directories_scanned: bumped(p.directories_scanned),
                    current_path: Some(e.path),
                    ..p
                }
            } else {
                ProgressView {
                    files_scanned: bumped(p.files_scanned),
                    current_path: Some(e.path),
                    ..p
                }
            }
        },
    }
}

/// The progress after the walk yielded `items`.
pub open spec fn progress_after(
    p: ProgressView,
    items: Seq<WalkItemView>,
    root: Seq<char>,
    patterns: Seq<Seq<char>>,
    application: bool,
) -> ProgressView
    decreases items.len(),
{
    if items.len() == 0 {
        p
    } else {
        progress_step(
            progress_after(p, items.drop_last(), root, patterns, application),
            items.last(),
            root,
            patterns,
            application,
        )
    }
}

/// The entries among `items` that are indexed, in the order of the walk.
pub open spec fn indexed_entries(
    items: Seq<WalkItemView>,
    root: Seq<char>,
    patterns: Seq<Seq<char>>,
    application: bool,
) -> Seq<WalkedView>
    decreases items.len(),
{
    if items.len() == 0 {
        Seq::empty()
    } else {
        let before = indexed_entries(items.drop_last(), root, patterns, application);
        match items.last() {
            WalkItemView::Entry(e) => if verdict_of(e, root, patterns, application) is Indexed {
                before.push(e)
            } else {
                before
            },
            WalkItemView::Inaccessible => before,
        }
    }
}

/// Number of items that the walks yielded together.
pub open spec fn total_items(walks: Seq<RootWalkView>) -> nat
    decreases walks.len(),
{
    if walks.len() == 0 {
        0
    } else {
        total_items(walks.drop_last()) + walks.last().items.len()
    }
}

/// The progress after the walks were scanned one after the other.
pub open spec fn progress_through(
    p: ProgressView,
    walks: Seq<RootWalkView>,
    patterns: Seq<Seq<char>>,
    application: bool,
) -> ProgressView
    decreases walks.len(),
{
    if walks.len() == 0 {
        p
    } else {
        progress_after(
            progress_through(p, walks.drop_last(), patterns, application),
            walks.last().items,
            walks.last().root,
            patterns,
            application,
        )
    }
}

/// The indexed entries of the walks, in the order of the walks.
pub open spec fn indexed_in(
    walks: Seq<RootWalkView>,
    patterns: Seq<Seq<char>>,
    application: bool,
) -> Seq<WalkedView>
    decreases walks.len(),
{
    if walks.len() == 0 {
        Seq::empty()
    } else {
        indexed_in(walks.drop_last(), patterns, application) + indexed_entries(
            walks.last().items,
            walks.last().root,
            patterns,
            application,
        )
    }
}

/// The record describes the walked entry, whose metadata could be read.
pub open spec fn describes_entry(record: FileEntryView, source: WalkedView) -> bool {
    match source.metadata {
        Some(meta) => describes(record, source.path, meta),
        None => false,
    }
}

/// Each record describes the entry at the same position.
pub open spec fn records_of(records: Seq<FileEntryView>, sources: Seq<WalkedView>) -> bool {
    &&& records.len() == sources.len()
    &&& forall|k: int|
        0 <= k < records.len() ==> describes_entry(#[trigger] records[k], sources[k])
}

/// The roots that are always scanned for applications, given the home
/// directory where there is one.
pub open spec fn application_roots(home: Option<Seq<char>>) -> Seq<Seq<char>> {
    match home {
        Some(h) => seq![
            "/usr/share/applications"@,
            "/usr/local/share/applications"@,
            joined(h, ".local/share/applications"@),
            "/var/lib/snapd/desktop/applications"@,
            joined(h, "snap"@),
            "/var/lib/flatpak/exports/share/applications"@,
            joined(h, ".local/share/flatpak/exports/share/applications"@),
            joined(h, "Applications"@),
            joined(h, ".local/bin"@),
            joined(h, "AppImages"@),
            "/opt"@,
        ],
        None => seq![
            "/usr/share/applications"@,
            "/usr/local/share/applications"@,
            "/var/lib/snapd/desktop/applications"@,
            "/var/lib/flatpak/exports/share/applications"@,
            "/opt"@,
        ],
    }
}

/// The roots that are always scanned for applications.
pub fn get_application_directories(home: Option<&str>) -> (dirs: Vec<String>)
    ensures
        views(dirs@) == application_roots(crate::paths::opt_view(home)),
{
    let mut dirs: Vec<String> = Vec::new();
    dirs.push("/usr/share/applications".to_owned());
    dirs.push("/usr/local/share/applications".to_owned());
    match home {
        Some(h) => {
            dirs.push(join(h, ".local/share/applications"));
            dirs.push("/var/lib/snapd/desktop/applications".to_owned());
            dirs.push(join(h, "snap"));
            dirs.push("/var/lib/flatpak/exports/share/applications".to_owned());
            dirs.push(join(h, ".local/share/flatpak/exports/share/applications"));
            dirs.push(join(h, "Applications"));
            dirs.push(join(h, ".local/bin"));
            dirs.push(join(h, "AppImages"));
            dirs.push("/opt".to_owned());
            assert(views(dirs@) =~= application_roots(Some(h@)));
        },
        None => {
            dirs.push("/var/lib/snapd/desktop/applications".to_owned());
            dirs.push("/var/lib/flatpak/exports/share/applications".to_owned());
            dirs.push("/opt".to_owned());
            assert(views(dirs@) =~= application_roots(None));
        },
    }
    dirs
}

/// The file type that metadata stands for.
pub fn file_type_of(meta: &FileMetadata) -> (t: FileType)
    ensures
        t == classify(*meta),
{
    if meta.is_dir {
        FileType::Directory
    } else if meta.is_symlink {
        FileType::Symlink
    } else if meta.is_file {
        FileType::Regular
    } else {
        FileType::Other
    }
}

/// The record of the file at `path` with the given metadata; none where
/// the metadata could not be read or the path has no file name. A missing
/// modification time is replaced by the time of the call.
pub fn create_file_entry(path: &str, metadata: Option<&FileMetadata>) -> (r: Option<FileEntry>)
    ensures
        match r {
            Some(entry) => metadata matches Some(meta) && describes(entry@, path@, *meta),
            None => metadata is None || file_name_of(path@) is None,
        },
{
    let meta = match metadata {
        Some(m) => m,
        None => {
            return None;
        },
    };
    let filename = match file_name(path) {
        Some(n) => n,
        None => {
            return None;
        },
    };
    let modified_time = match meta.modified {
        Some(m) => m,
        None => Timestamp::now(),
    };
    Some(FileEntry::new(filename, path.to_owned(), meta.len, modified_time, file_type_of(meta)))
}

/// The record of an entry that a walk yielded.
pub fn extract_file_entry(entry: &WalkedEntry) -> (r: Option<FileEntry>)
    ensures
        match r {
            Some(record) => describes_entry(record@, entry@),
            None => !extractable(entry@.path, entry@.metadata),
        },
{
    match &entry.metadata {
        Some(meta) => create_file_entry(entry.path.as_str(), Some(meta)),
        None => None,
    }
}

/// Whether a regular file under an application root is indexed.
pub fn is_application_file(path: &str, head: &Vec<u8>) -> (r: bool)
    ensures
        r == is_application(path@, head@),
{
    let elf = head.len() >= 4 && head[0] == 0x7f && head[1] == 0x45 && head[2] == 0x4c && head[3]
        == 0x46;
    if elf {
        return true;
    }
    match file_name(path) {
        None => false,
        Some(name) => {
            match extension(name.as_str()) {
                Some(ext) => {
                    let e = chars_of(ext.as_str());
                    if chars_equal(&e, &chars_of("desktop")) || chars_equal(
                        &e,
                        &chars_of("AppImage"),
                    ) {
                        return true;
                    }
                },
                None => {},
            }
            contains_chars(&chars_of(name.as_str()), &chars_of("AppImage"))
        },
    }
}

/// Whether two lists of strings hold the same strings.
fn same_parts(a: &Vec<String>, b: &Vec<String>) -> (r: bool)
    ensures
        r == (views(a@) == views(b@)),
{
    if a.len() != b.len() {
        assert(views(a@).len() != views(b@).len());
        return false;
    }
    let mut i: usize = 0;
    while i < a.len()
        invariant
            i <= a.len(),
            a.len() == b.len(),
            forall|k: int| 0 <= k < i ==> views(a@)[k] == views(b@)[k],
        decreases a.len() - i,
    {
        if a[i] != b[i] {
            assert(views(a@)[i as int] != views(b@)[i as int]);
            return false;
        }
        i += 1;
    }
    assert(views(a@) =~= views(b@));
    true
}

/// Whether the entry at `path` lies in a pruned subtree of the walk from
/// `root`.
pub fn is_pruned(path: &str, root: &str, patterns: &Vec<String>) -> (r: bool)
    ensures
        r == pruned(path@, root@, views(patterns@)),
{
    let p = path_components(path);
    let r = path_components(root);
    let ghost below = components_below(path@, root@);
    let mut start: usize = 0;
    if r.len() <= p.len() {
        let mut same = true;
        let mut k: usize = 0;
        while k < r.len()
            invariant
                k <= r.len(),
                r.len() <= p.len(),
                same <==> forall|j: int| 0 <= j < k ==> views(p@)[j] == views(r@)[j],
            decreases r.len() - k,
        {
            if p[k] != r[k] {
                same = false;
                assert(views(p@)[k as int] != views(r@)[k as int]);
            }
            k += 1;
        }
        if same {
            assert(views(p@).take(r.len() as int) =~= views(r@));
            start = r.len();
        } else {
            assert(views(p@).take(r.len() as int) != views(r@)) by {
                let j = choose|j: int| 0 <= j < r.len() && views(p@)[j] != views(r@)[j];
                assert(views(p@).take(r.len() as int)[j] == views(p@)[j]);
            }
        }
    }
    assert(below =~= views(p@).skip(start as int));
    let mut i: usize = start;
    while i < p.len()
        invariant
            start <= i <= p.len(),
            below == components_below(path@, root@),
            below == views(p@).skip(start as int),
            forall|j: int| 0 <= j < i - start ==> !matches_any(views(patterns@), #[trigger] below[j]),
        decreases p.len() - i,
    {
        assert(below[i - start] == p@[i as int]@);
        if name_excluded(p[i].as_str(), patterns) {
            assert(matches_any(views(patterns@), components_below(path@, root@)[i - start]));
            return true;
        }
        i += 1;
    }
    false
}

/// A record of one more entry extends the records of the entries before.
proof fn lemma_records_push(
    records: Seq<FileEntryView>,
    sources: Seq<WalkedView>,
    record: FileEntryView,
    source: WalkedView,
)
    requires
        records_of(records, sources),
        describes_entry(record, source),
    ensures
        records_of(records.push(record), sources.push(source)),
{
    let grown = records.push(record);
    let wider = sources.push(source);
    assert forall|k: int| 0 <= k < grown.len() implies describes_entry(
        #[trigger] grown[k],
        wider[k],
    ) by {
        if k < records.len() {
            assert(grown[k] == records[k]);
            assert(wider[k] == sources[k]);
        }
    }
}

/// The records of two runs of entries, one after the other, are the
/// records of the entries of both.
proof fn lemma_records_concat(
    a: Seq<FileEntryView>,
    sa: Seq<WalkedView>,
    b: Seq<FileEntryView>,
    sb: Seq<WalkedView>,
)
    requires
        records_of(a, sa),
        records_of(b, sb),
    ensures
        records_of(a + b, sa + sb),
{
    let ab = a + b;
    let sab = sa + sb;
    assert forall|k: int| 0 <= k < ab.len() implies describes_entry(#[trigger] ab[k], sab[k]) by {
        if k < a.len() {
            assert(ab[k] == a[k] && sab[k] == sa[k]);
        } else {
            assert(ab[k] == b[k - a.len()] && sab[k] == sb[k - a.len()]);
        }
    }
}

/// The counters grow by at most one for each item of a walk.
proof fn lemma_progress_bounded(
    p: ProgressView,
    items: Seq<WalkItemView>,
    root: Seq<char>,
    patterns: Seq<Seq<char>>,
    application: bool,
)
    requires
        p.files_scanned + items.len() <= usize::MAX,
        p.directories_scanned + items.len() <= usize::MAX,
        p.errors_encountered + items.len() <= usize::MAX,
    ensures
        progress_after(p, items, root, patterns, application).files_scanned <= p.files_scanned
            + items.len(),
        progress_after(p, items, root, patterns, application).directories_scanned
            <= p.directories_scanned + items.len(),
        progress_after(p, items, root, patterns, application).errors_encountered
            <= p.errors_encountered + items.len(),
    decreases items.len(),
{
    if items.len() > 0 {
        lemma_progress_bounded(p, items.drop_last(), root, patterns, application);
    }
}

/// The scanner.
pub struct Scanner {
    config: Config,
    progress: ScanProgress,
}

impl Scanner {
    /// The exclude patterns that the scanner works with.
    pub closed spec fn patterns(&self) -> Seq<Seq<char>> {
        self.config@.exclude_patterns
    }

    /// The progress so far.
    pub closed spec fn progress(&self) -> ProgressView {
        self.progress@
    }

    /// Each counter can still grow by `n`.
    pub open spec fn room_for(&self, n: nat) -> bool {
        &&& self.progress().files_scanned + n <= usize::MAX
        &&& self.progress().directories_scanned + n <= usize::MAX
        &&& self.progress().errors_encountered + n <= usize::MAX
    }

    /// A scanner that has not scanned anything yet.
    pub fn new(config: Config) -> (s: Scanner)
        ensures
            s.patterns() == config@.exclude_patterns,
            s.progress() == ProgressView::initial(),
    {
        Scanner { config, progress: ScanProgress::new() }
    }

    /// A copy of the progress so far.
    pub fn get_progress(&self) -> (p: ScanProgress)
        ensures
            p@ == self.progress(),
    {
        ScanProgress {
            files_scanned: self.progress.files_scanned,
            directories_scanned: self.progress.directories_scanned,
            errors_encountered: self.progress.errors_encountered,
            current_path: match &self.progress.current_path {
                Some(p) => Some(p.clone()),
                None => None,
            },
        }
    }

    /// Whether a walk from `root` descends into and yields the entry at
    /// `path`.
    pub fn should_include_entry(&self, path: &str, root: &str) -> (r: bool)
        ensures
            r == kept(path@, root@, self.patterns()),
    {
        let p = path_components(path);
        let r = path_components(root);
        if same_parts(&p, &r) {
            return true;
        }
        match file_name(path) {
            None => true,
            Some(name) => !name_excluded(name.as_str(), &self.config.indexing.exclude_patterns),
        }
    }

    /// What the scan does with an entry.
    fn verdict(&self, entry: &WalkedEntry, root: &str, application: bool) -> (v: Verdict)
        ensures
            v == verdict_of(entry@, root@, self.patterns(), application),
    {
        let can_extract = entry.metadata.is_some() && file_name(entry.path.as_str()).is_some();
        if application {
            if (!entry.is_file || is_application_file(entry.path.as_str(), &entry.head))
                && can_extract {
                Verdict::Indexed
            } else {
                Verdict::Counted
            }
        } else if is_pruned(entry.path.as_str(), root, &self.config.indexing.exclude_patterns) {
            Verdict::Pruned
        } else if can_extract {
            Verdict::Indexed
        } else {
            Verdict::Counted
        }
    }

    /// Goes through what a walk yielded and returns the records of the
    /// indexed entries.
    fn scan_items(&mut self, root: &str, items: &Vec<WalkItem>, application: bool) -> (found: Vec<
        FileEntry,
    >)
        requires
            old(self).room_for(items.len() as nat),
        ensures
            final(self).patterns() == old(self).patterns(),
            final(self).progress() == progress_after(
                old(self).progress(),
                item_views(items@),
                root@,
                old(self).patterns(),
                application,
            ),
            records_of(
                entry_views(found@),
                indexed_entries(item_views(items@), root@, old(self).patterns(), application),
            ),
    {
        let ghost all = item_views(items@);
        let ghost start = self.progress();
        let ghost patterns = self.patterns();
        let mut found: Vec<FileEntry> = Vec::new();
        let mut i: usize = 0;
        assert(all.take(0) =~= Seq::empty());
        while i < items.len()
            invariant
                i <= items.len(),
                all == item_views(items@),
                patterns == self.patterns(),
                self.progress() == progress_after(
                    start,
                    all.take(i as int),
                    root@,
                    patterns,
                    application,
                ),
                self.progress().files_scanned <= start.files_scanned + i,
                self.progress().directories_scanned <= start.directories_scanned + i,
                self.progress().errors_encountered <= start.errors_encountered + i,
                start.files_scanned + items.len() <= usize::MAX,
                start.directories_scanned + items.len() <= usize::MAX,
                start.errors_encountered + items.len() <= usize::MAX,
                records_of(
                    entry_views(found@),
                    indexed_entries(all.take(i as int), root@, patterns, application),
                ),
            decreases items.len() - i,
        {
            let ghost next = all.take(i + 1);
            let ghost sources = indexed_entries(all.take(i as int), root@, patterns, application);
            let ghost done = entry_views(found@);
            assert(next.drop_last() =~= all.take(i as int));
            assert(next.last() == items@[i as int]@);
            match &items[i] {
                WalkItem::Inaccessible => {
                    self.progress.errors_encountered = self.progress.errors_encountered + 1;
                    assert(indexed_entries(next, root@, patterns, application) == sources);
                },
                WalkItem::Entry(entry) => {
                    let verdict = self.verdict(entry, root, application);
                    let counted = match verdict {
                        Verdict::Pruned => false,
                        _ => true,
                    };
                    if counted {
                        self.progress.current_path = Some(entry.path.clone());
                        if entry.is_dir {
                            self.progress.directories_scanned = self.progress.directories_scanned
                                + 1;
                        } else {
                            self.progress.files_scanned = self.progress.files_scanned + 1;
                        }
                    }
                    let indexed = match verdict {
                        Verdict::Indexed => true,
                        _ => false,
                    };
                    if indexed {
                        match extract_file_entry(entry) {
                            Some(record) => {
                                found.push(record);
                                proof {
                                    let grown = entry_views(found@);
                                    let wider = sources.push(entry@);
                                    assert(grown =~= done.push(record@));
                                    assert(indexed_entries(next, root@, patterns, application)
                                        == wider);
                                    lemma_records_push(done, sources, record@, entry@);
                                }
                            },
                            None => {
                                assert(false);
                            },
                        }
                    } else {
                        assert(indexed_entries(next, root@, patterns, application) == sources);
                        }
                },
            }
            i += 1;
        }
        assert(all.take(items.len() as int) =~= all);
        found
    }

    /// Scans what a walk from the application root `root` yielded: every
    /// entry is counted, directories and other non-files are indexed, and
    /// regular files where they are applications.
    pub fn scan_application_directory(&mut self, root: &str, items: &Vec<WalkItem>) -> (found: Vec<
        FileEntry,
    >)
        requires
            old(self).room_for(items.len() as nat),
        ensures
            final(self).patterns() == old(self).patterns(),
            final(self).progress() == progress_after(
                old(self).progress(),
                item_views(items@),
                root@,
                old(self).patterns(),
                true,
            ),
            records_of(
                entry_views(found@),
                indexed_entries(item_views(items@), root@, old(self).patterns(), true),
            ),
    {
        self.scan_items(root, items, true)
    }

    /// Scans what a walk from the root `root` yielded: entries in pruned
    /// subtrees are passed over, every other entry is counted and, where a
    /// record can be made of it, indexed.
    pub fn scan_directory(&mut self, root: &str, items: &Vec<WalkItem>) -> (found: Vec<FileEntry>)
        requires
            old(self).room_for(items.len() as nat),
        ensures
            final(self).patterns() == old(self).patterns(),
            final(self).progress() == progress_after(
                old(self).progress(),
                item_views(items@),
                root@,
                old(self).patterns(),
                false,
            ),
            records_of(
                entry_views(found@),
                indexed_entries(item_views(items@), root@, old(self).patterns(), false),
            ),
    {
        self.scan_items(root, items, false)
    }

    /// Scans the walks one after the other.
    fn scan_walks(&mut self, walks: &Vec<RootWalk>, application: bool) -> (found: Vec<FileEntry>)
        requires
            old(self).room_for(total_items(walk_views(walks@))),
        ensures
            final(self).patterns() == old(self).patterns(),
            final(self).progress() == progress_through(
                old(self).progress(),
                walk_views(walks@),
                old(self).patterns(),
                application,
            ),
            final(self).progress().files_scanned <= old(self).progress().files_scanned
                + total_items(walk_views(walks@)),
            final(self).progress().directories_scanned <= old(self).progress().directories_scanned
                + total_items(walk_views(walks@)),
            final(self).progress().errors_encountered <= old(self).progress().errors_encountered
                + total_items(walk_views(walks@)),
            records_of(
                entry_views(found@),
                indexed_in(walk_views(walks@), old(self).patterns(), application),
            ),
    {
        let ghost all = walk_views(walks@);
        let ghost start = self.progress();
        let ghost patterns = self.patterns();
        let mut found: Vec<FileEntry> = Vec::new();
        let mut i: usize = 0;
        assert(all.take(0) =~= Seq::empty());
        proof {
            lemma_total_items_monotone(all, 0);
        }
        while i < walks.len()
            invariant
                i <= walks.len(),
                all == walk_views(walks@),
                patterns == self.patterns(),
                self.progress() == progress_through(start, all.take(i as int), patterns, application),
                self.progress().files_scanned <= start.files_scanned + total_items(
                    all.take(i as int),
                ),
                self.progress().directories_scanned <= start.directories_scanned + total_items(
                    all.take(i as int),
                ),
                self.progress().errors_encountered <= start.errors_encountered + total_items(
                    all.take(i as int),
                ),
                start.files_scanned + total_items(all) <= usize::MAX,
                start.directories_scanned + total_items(all) <= usize::MAX,
                start.errors_encountered + total_items(all) <= usize::MAX,
                records_of(
                    entry_views(found@),
                    indexed_in(all.take(i as int), patterns, application),
                ),
            decreases walks.len() - i,
        {
            let ghost next = all.take(i + 1);
            let ghost done = entry_views(found@);
            let ghost before = self.progress();
            assert(next.drop_last() =~= all.take(i as int));
            assert(next.last() == walks@[i as int]@);
            proof {
                lemma_total_items_monotone(all, i + 1);
                lemma_progress_bounded(
                    before,
                    next.last().items,
                    next.last().root,
                    patterns,
                    application,
                );
            }
            let walk = &walks[i];
            let mut part = self.scan_items(walk.root.as_str(), &walk.items, application);
            let ghost added = entry_views(part@);
            found.append(&mut part);
            proof {
                assert(entry_views(found@) =~= done + added);
                lemma_records_concat(
                    done,
                    indexed_in(all.take(i as int), patterns, application),
                    added,
                    indexed_entries(next.last().items, next.last().root, patterns, application),
                );
            }
            i += 1;
        }
        assert(all.take(walks.len() as int) =~= all);
        found
    }

    /// Scans everything: first what was found under the application roots,
    /// then what was found under the configured roots. The caller walks
    /// each root that exists and hands over what the walk yielded.
    pub fn scan(&mut self, application: &Vec<RootWalk>, included: &Vec<RootWalk>) -> (found: Vec<
        FileEntry,
    >)
        requires
            old(self).room_for(
                total_items(walk_views(application@)) + total_items(walk_views(included@)),
            ),
        ensures
            final(self).patterns() == old(self).patterns(),
            final(self).progress() == progress_through(
                progress_through(
                    old(self).progress(),
                    walk_views(application@),
                    old(self).patterns(),
                    true,
                ),
                walk_views(included@),
                old(self).patterns(),
                false,
            ),
            records_of(
                entry_views(found@),
                indexed_in(walk_views(application@), old(self).patterns(), true) + indexed_in(
                    walk_views(included@),
                    old(self).patterns(),
                    false,
                ),
            ),
    {
        let ghost patterns = self.patterns();
        let mut found = self.scan_walks(application, true);
        let ghost first = entry_views(found@);
        let mut rest = self.scan_walks(included, false);
        let ghost second = entry_views(rest@);
        found.append(&mut rest);
        proof {
            assert(entry_views(found@) =~= first + second);
            lemma_records_concat(
                first,
                indexed_in(walk_views(application@), patterns, true),
                second,
                indexed_in(walk_views(included@), patterns, false),
            );
        }
        found
    }
}

/// The first `n` walks yield no more items than all of them.
proof fn lemma_total_items_monotone(walks: Seq<RootWalkView>, n: int)
    requires
        0 <= n <= walks.len(),
    ensures
        total_items(walks.take(n)) <= total_items(walks),
        n > 0 ==> total_items(walks.take(n)) == total_items(walks.take(n - 1)) + walks[n
            - 1].items.len(),
    decreases walks.len() - n,
{
    if n > 0 {
        assert(walks.take(n).drop_last() =~= walks.take(n - 1));
    }
    if n < walks.len() {
        lemma_total_items_monotone(walks, n + 1);
    } else {
        assert(walks.take(n) =~= walks);
    }
}

} // verus!
