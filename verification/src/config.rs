//! The daemon's configuration: its fields, their defaults and the rules
//! that a configuration must meet before the daemon starts.
use vstd::prelude::*;
use vstd::string::*;
use core::time::Duration;
use crate::paths::{expand_tilde, expanded, opt_view, views};
use crate::watcher::RawEventKind;

verus! {

/// What to index.
#[derive(Debug, Clone)]
pub struct IndexingConfig {
    /// Roots to index; `~` stands for the home directory.
    pub include_paths: Vec<String>,
    /// Glob patterns; an entry whose base name matches one is left out.
    pub exclude_patterns: Vec<String>,
}

/// Limits on the daemon's use of the machine and the size of its batches.
#[derive(Debug, Clone)]
pub struct PerformanceConfig {
    pub max_cpu_percent: u8,
    pub max_memory_mb: u64,
    /// Most operations applied to the store in one batch.
    pub batch_size: usize,
    /// Time between two flushes of the operation queue, in milliseconds.
    pub flush_interval_ms: u64,
}

/// Settings of the query interface.
#[derive(Debug, Clone)]
pub struct UiConfig {
    pub keyboard_shortcut: String,
    pub max_results: usize,
}

/// The whole configuration.
#[derive(Debug, Clone)]
pub struct Config {
    pub indexing: IndexingConfig,
    pub performance: PerformanceConfig,
    pub ui: UiConfig,
}

/// A `Config` as a mathematical value.
pub struct ConfigView {
    pub include_paths: Seq<Seq<char>>,
    pub exclude_patterns: Seq<Seq<char>>,
    pub max_cpu_percent: u8,
    pub max_memory_mb: u64,
    pub batch_size: usize,
    pub flush_interval_ms: u64,
    pub keyboard_shortcut: Seq<char>,
    pub max_results: usize,
}

impl View for Config {
    type V = ConfigView;

    open spec fn view(&self) -> ConfigView {
        ConfigView {
            include_paths: views(self.indexing.include_paths@),
            exclude_patterns: views(self.indexing.exclude_patterns@),
            max_cpu_percent: self.performance.max_cpu_percent,
            max_memory_mb: self.performance.max_memory_mb,
            batch_size: self.performance.batch_size,
            flush_interval_ms: self.performance.flush_interval_ms,
            keyboard_shortcut: self.ui.keyboard_shortcut@,
            max_results: self.ui.max_results,
        }
    }
}

impl ConfigView {
    /// The configuration used where none is written.
    pub open spec fn defaults() -> ConfigView {
        ConfigView {
            include_paths: seq!["~"@],
            exclude_patterns: seq![".*"@, "node_modules"@, ".git"@, "target"@],
            max_cpu_percent: 10,
            max_memory_mb: 100,
            batch_size: 100,
            flush_interval_ms: 1000,
            keyboard_shortcut: "Super+Space"@,
            max_results: 50,
        }
    }

    /// The first rule that the configuration breaks, as the message that
    /// reports it; `None` for a configuration that meets every rule.
    pub open spec fn first_violation(self) -> Option<Seq<char>> {
        if self.include_paths.len() == 0 {
            Some("include_paths cannot be empty"@)
        } else if self.max_cpu_percent == 0 || self.max_cpu_percent > 100 {
            Some("max_cpu_percent must be between 1 and 100"@)
        } else if self.max_memory_mb == 0 {
            Some("max_memory_mb must be greater than 0"@)
        } else if self.batch_size == 0 {
            Some("batch_size must be greater than 0"@)
        } else if self.flush_interval_ms == 0 {
            Some("flush_interval_ms must be greater than 0"@)
        } else if self.max_results == 0 {
            Some("max_results must be greater than 0"@)
        } else if self.keyboard_shortcut.len() == 0 {
            Some("keyboard_shortcut cannot be empty"@)
        } else {
            None
        }
    }

    /// The configuration meets every rule: some include path, a CPU share
    /// from 1 to 100, and positive memory limit, batch size, flush interval
    /// and result count, and a keyboard shortcut.
    pub open spec fn valid(self) -> bool {
        &&& self.include_paths.len() > 0
        &&& 1 <= self.max_cpu_percent <= 100
        &&& self.max_memory_mb > 0
        &&& self.batch_size > 0
        &&& self.flush_interval_ms > 0
        &&& self.max_results > 0
        &&& self.keyboard_shortcut.len() > 0
    }
}

pub fn default_include_paths() -> (paths: Vec<String>)
    ensures
        views(paths@) == ConfigView::defaults().include_paths,
{
    let mut paths: Vec<String> = Vec::new();
    paths.push("~".to_owned());
    assert(views(paths@) =~= seq!["~"@]);
    paths
}

pub fn default_exclude_patterns() -> (patterns: Vec<String>)
    ensures
        views(patterns@) == ConfigView::defaults().exclude_patterns,
{
    let mut patterns: Vec<String> = Vec::new();
    patterns.push(".*".to_owned());
    patterns.push("node_modules".to_owned());
    patterns.push(".git".to_owned());
    patterns.push("target".to_owned());
    assert(views(patterns@) =~= seq![".*"@, "node_modules"@, ".git"@, "target"@]);
    patterns
}

pub fn default_max_cpu_percent() -> (v: u8)
    ensures
        v == ConfigView::defaults().max_cpu_percent,
{
    10
}

pub fn default_max_memory_mb() -> (v: u64)
    ensures
        v == ConfigView::defaults().max_memory_mb,
{
    100
}

pub fn default_batch_size() -> (v: usize)
    ensures
        v == ConfigView::defaults().batch_size,
{
    100
}

pub fn default_flush_interval_ms() -> (v: u64)
    ensures
        v == ConfigView::defaults().flush_interval_ms,
{
    1000
}

pub fn default_keyboard_shortcut() -> (v: String)
    ensures
        v@ == ConfigView::defaults().keyboard_shortcut,
{
    "Super+Space".to_owned()
}

pub fn default_max_results() -> (v: usize)
    ensures
        v == ConfigView::defaults().max_results,
{
    50
}

impl Default for IndexingConfig {
    fn default() -> (c: IndexingConfig)
        ensures
            views(c.include_paths@) == ConfigView::defaults().include_paths,
            views(c.exclude_patterns@) == ConfigView::defaults().exclude_patterns,
    {
        IndexingConfig {
            include_paths: default_include_paths(),
            exclude_patterns: default_exclude_patterns(),
        }
    }
}

impl Default for PerformanceConfig {
    fn default() -> (c: PerformanceConfig)
        ensures
            c.max_cpu_percent == 10,
            c.max_memory_mb == 100,
            c.batch_size == 100,
            c.flush_interval_ms == 1000,
    {
        PerformanceConfig {
            max_cpu_percent: default_max_cpu_percent(),
            max_memory_mb: default_max_memory_mb(),
            batch_size: default_batch_size(),
            flush_interval_ms: default_flush_interval_ms(),
        }
    }
}

impl Default for UiConfig {
    fn default() -> (c: UiConfig)
        ensures
            c.keyboard_shortcut@ == "Super+Space"@,
            c.max_results == 50,
    {
        UiConfig { keyboard_shortcut: default_keyboard_shortcut(), max_results: default_max_results() }
    }
}

impl Default for Config {
    fn default() -> (c: Config)
        ensures
            c@ == ConfigView::defaults(),
    {
        Config {
            indexing: IndexingConfig::default(),
            performance: PerformanceConfig::default(),
            ui: UiConfig::default(),
        }
    }
}

/// Why a configuration could not be loaded, saved or accepted.
#[derive(Debug)]
pub enum ConfigError {
    IoError(String),
    ParseError(String),
    SerializeError(String),
    ValidationError(String),
}

impl ConfigError {
    /// The error as one line of text.
    pub open spec fn text(self) -> Seq<char> {
        match self {
            ConfigError::IoError(msg) => "IO error: "@ + msg@,
            ConfigError::ParseError(msg) => "Parse error: "@ + msg@,
            ConfigError::SerializeError(msg) => "Serialize error: "@ + msg@,
            ConfigError::ValidationError(msg) => "Validation error: "@ + msg@,
        }
    }

    /// The error as one line of text.
    pub fn message(&self) -> (line: String)
        ensures
            line@ == self.text(),
    {
        match self {
            ConfigError::IoError(msg) => "IO error: ".to_owned().concat(msg.as_str()),
            ConfigError::ParseError(msg) => "Parse error: ".to_owned().concat(msg.as_str()),
            ConfigError::SerializeError(msg) => "Serialize error: ".to_owned().concat(
                msg.as_str(),
            ),
            ConfigError::ValidationError(msg) => "Validation error: ".to_owned().concat(
                msg.as_str(),
            ),
        }
    }
}

/// The length of time that `ms` milliseconds are, as `Duration::from_millis`
/// gives it.
pub uninterp spec fn duration_of_millis(ms: u64) -> Duration;

/// Calls `Duration::from_millis`. The result is the duration of that many
/// milliseconds, which the contract names and says nothing more about.
#[verifier::external_body]
fn duration_from_millis(ms: u64) -> (d: Duration)
    ensures
        d == duration_of_millis(ms),
{
    Duration::from_millis(ms)
}

fn validation_error(message: &str) -> (r: Result<(), ConfigError>)
    ensures
        r matches Err(ConfigError::ValidationError(msg)) && msg@ == message@,
{
    Err(ConfigError::ValidationError(message.to_owned()))
}

impl Config {
    /// Checks the configuration against the rules and reports the first
    /// that it breaks.
    pub fn validate(&self) -> (r: Result<(), ConfigError>)
        ensures
            match r {
                Ok(()) => self@.valid() && self@.first_violation() is None,
                Err(e) => {
                    &&& !self@.valid()
                    &&& e matches ConfigError::ValidationError(msg)
                    &&& self@.first_violation() == Some(msg@)
                },
            },
    {
        if self.indexing.include_paths.len() == 0 {
            return validation_error("include_paths cannot be empty");
        }
        if self.performance.max_cpu_percent == 0 || self.performance.max_cpu_percent > 100 {
            return validation_error("max_cpu_percent must be between 1 and 100");
        }
        if self.performance.max_memory_mb == 0 {
            return validation_error("max_memory_mb must be greater than 0");
        }
        if self.performance.batch_size == 0 {
            return validation_error("batch_size must be greater than 0");
        }
        if self.performance.flush_interval_ms == 0 {
            return validation_error("flush_interval_ms must be greater than 0");
        }
        if self.ui.max_results == 0 {
            return validation_error("max_results must be greater than 0");
        }
        if self.ui.keyboard_shortcut.as_str().is_empty() {
            return validation_error("keyboard_shortcut cannot be empty");
        }
        Ok(())
    }

    /// Time between two flushes of the operation queue.
    pub fn flush_interval(&self) -> (d: Duration)
        ensures
            d == duration_of_millis(self@.flush_interval_ms),
    {
        duration_from_millis(self.performance.flush_interval_ms)
    }

    /// The include paths with `~` expanded against the home directory
    /// `home`, in the configured order.
    pub fn expand_paths(&self, home: Option<&str>) -> (paths: Vec<String>)
        ensures
            paths.len() == self@.include_paths.len(),
            forall|i: int|
                0 <= i < paths.len() ==> (#[trigger] paths@[i])@ == expanded(
                    self@.include_paths[i],
                    opt_view(home),
                ),
    {
        let mut paths: Vec<String> = Vec::new();
        let mut i: usize = 0;
        while i < self.indexing.include_paths.len()
            invariant
                i <= self.indexing.include_paths.len(),
                paths.len() == i,
                forall|k: int|
                    0 <= k < i ==> (#[trigger] paths@[k])@ == expanded(
                        self@.include_paths[k],
                        opt_view(home),
                    ),
            decreases self.indexing.include_paths.len() - i,
        {
            paths.push(expand_tilde(self.indexing.include_paths[i].as_str(), home));
            i += 1;
        }
        paths
    }
}

/// A notification of the given kind about the given paths calls for the
/// configuration to be read again: something was created or changed, and
/// one of the paths is the configuration file.
pub open spec fn calls_for_reload(
    kind: RawEventKind,
    paths: Seq<Seq<char>>,
    config_path: Seq<char>,
) -> bool {
    &&& kind == RawEventKind::Create || kind == RawEventKind::Modify || kind
        == RawEventKind::Rename
    &&& paths.contains(config_path)
}

/// Whether a notification calls for the configuration at `config_path` to
/// be read again.
pub fn is_reload_trigger(kind: RawEventKind, paths: &Vec<String>, config_path: &str) -> (r: bool)
    ensures
        r == calls_for_reload(kind, views(paths@), config_path@),
{
    match kind {
        RawEventKind::Create => {},
        RawEventKind::Modify => {},
        RawEventKind::Rename => {},
        _ => {
            return false;
        },
    }
    let wanted = config_path.to_owned();
    let mut i: usize = 0;
    while i < paths.len()
        invariant
            i <= paths.len(),
            wanted@ == config_path@,
            kind == RawEventKind::Create || kind == RawEventKind::Modify || kind
                == RawEventKind::Rename,
            forall|k: int| 0 <= k < i ==> views(paths@)[k] != config_path@,
        decreases paths.len() - i,
    {
        if paths[i] == wanted {
            assert(views(paths@)[i as int] == config_path@);
            return true;
        }
        i += 1;
    }
    false
}

/// Lets a notification through at most once per debounce interval.
#[derive(Debug, Clone, Copy, PartialEq, Eq, Structural)]
pub struct DebouncedSender {
    /// Shortest time between two notifications that pass, in milliseconds.
    pub debounce_ms: u64,
    /// When the last notification passed.
    pub last_send: Option<u64>,
}

impl DebouncedSender {
    /// Whether a notification at `now_ms` passes: the first one does, and
    /// any that comes at least the debounce interval after the last that
    /// passed.
    pub open spec fn passes(self, now_ms: u64) -> bool {
        match self.last_send {
            Some(last) => {
                let elapsed = if now_ms >= last {
                    now_ms - last
                } else {
                    0
                };
                elapsed >= self.debounce_ms
            },
            None => true,
        }
    }

    pub fn new(debounce_ms: u64) -> (sender: DebouncedSender)
        ensures
            sender == (DebouncedSender { debounce_ms, last_send: None }),
    {
        DebouncedSender { debounce_ms, last_send: None }
    }

    /// Decides whether the notification raised at `now_ms` is passed on, and
    /// remembers when it was.
    pub fn send(&mut self, now_ms: u64) -> (forward: bool)
        ensures
            forward == old(self).passes(now_ms),
            final(self).debounce_ms == old(self).debounce_ms,
            final(self).last_send == if forward {
                Some(now_ms)
            } else {
                old(self).last_send
            },
    {
        let elapsed_enough = match self.last_send {
            Some(last) => {
                let elapsed = if now_ms >= last {
                    now_ms - last
                } else {
                    0
                };
                elapsed >= self.debounce_ms
            },
            None => true,
        };
        if elapsed_enough {
            self.last_send = Some(now_ms);
        }
        elapsed_enough
    }
}

} // verus!
