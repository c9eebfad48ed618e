//! Settings that the library's callers read, and which log lines they keep.
use vstd::prelude::*;

verus! {

/// How much the log keeps.
#[derive(Debug, Clone, Copy, PartialEq, Eq, Structural)]
pub enum LogLevel {
    Debug,
    Info,
    Warn,
    Error,
    Off,
}

/// The general settings.
#[derive(Debug, Clone)]
pub struct GeneralConfig {
    pub default_terminal: String,
    pub log_level: LogLevel,
    pub max_results: usize,
    pub history_limit: usize,
}

/// What the screen shows.
#[derive(Debug, Clone)]
pub struct UiConfig {
    pub show_icons: bool,
    pub show_categories: bool,
    pub animate_transitions: bool,
}

/// Where the launcher keeps its files.
#[derive(Debug, Clone)]
pub struct PathsConfig {
    pub config_dir: String,
    pub log_file: String,
    pub usage_stats_file: String,
    pub cache_dir: String,
}

/// The most results the orchestrator returns unless configured otherwise.
pub const DEFAULT_MAX_RESULTS: usize = 50;

/// The terminal that opens directories and terminal applications.
pub const DEFAULT_TERMINAL: &'static str = "kitty";

/// The severity rank of a level; `Off` is above every message.
pub open spec fn rank(l: LogLevel) -> int {
    match l {
        LogLevel::Debug => 0,
        LogLevel::Info => 1,
        LogLevel::Warn => 2,
        LogLevel::Error => 3,
        LogLevel::Off => 4,
    }
}

/// Whether a log set to `configured` keeps a message of `level`: the
/// message is at least as severe as the setting, and neither is `Off`.
pub fn should_log(configured: LogLevel, level: LogLevel) -> (r: bool)
    ensures
        r == (configured != LogLevel::Off && level != LogLevel::Off && rank(level) >= rank(
            configured,
        )),
{
    match (configured, level) {
        (LogLevel::Off, _) => false,
        (_, LogLevel::Off) => false,
        (LogLevel::Debug, _) => true,
        (LogLevel::Info, LogLevel::Debug) => false,
        (LogLevel::Info, _) => true,
        (LogLevel::Warn, LogLevel::Warn) => true,
        (LogLevel::Warn, LogLevel::Error) => true,
        (LogLevel::Warn, _) => false,
        (LogLevel::Error, LogLevel::Error) => true,
        (LogLevel::Error, _) => false,
    }
}

/// The tag a log line carries for its level.
pub fn level_tag(level: LogLevel) -> (r: &'static str)
    ensures
        r@ == match level {
            LogLevel::Debug => "DEBUG"@,
            LogLevel::Info => "INFO"@,
            LogLevel::Warn => "WARN"@,
            LogLevel::Error => "ERROR"@,
            LogLevel::Off => "OFF"@,
        },
{
    match level {
        LogLevel::Debug => "DEBUG",
        LogLevel::Info => "INFO",
        LogLevel::Warn => "WARN",
        LogLevel::Error => "ERROR",
        LogLevel::Off => "OFF",
    }
}

impl GeneralConfig {
    /// The settings of a fresh installation.
    pub fn defaults() -> (r: Self)
        ensures
            r.default_terminal@ == DEFAULT_TERMINAL@,
            r.log_level == LogLevel::Info,
            r.max_results == DEFAULT_MAX_RESULTS,
            r.history_limit == 16,
    {
        GeneralConfig {
            default_terminal: String::from_str(DEFAULT_TERMINAL),
            log_level: LogLevel::Info,
            max_results: DEFAULT_MAX_RESULTS,
            history_limit: 16,
        }
    }
}

impl UiConfig {
    /// The settings of a fresh installation.
    pub fn defaults() -> (r: Self)
        ensures
            !r.show_icons && r.show_categories && !r.animate_transitions,
    {
        UiConfig { show_icons: false, show_categories: true, animate_transitions: false }
    }
}

} // verus!
