//! The configuration records and their defaults.

use vstd::prelude::*;

use crate::vars::Vars;

verus! {

/// A loaded project configuration.
pub struct ProjectConfig {
    pub project: ProjectInfo,
    pub args: Vec<ProjectArgs>,
    pub path: Vec<String>,
    pub log: ProjectLog,
    pub attach: Vars,
    pub config_alias: Vec<ProjectConfigAlias>,
}

/// A derived-variable rule: the first expression that resolves fills
/// `key`, overwriting when `over` is set.
pub struct ProjectConfigAlias {
    pub key: String,
    pub expr: Vec<String>,
    pub over: bool,
}

/// Console and file sink settings.
pub struct ProjectLog {
    pub console: ConsoleLog,
    pub file: FileLog,
}

/// The console sink's level.
pub struct ConsoleLog {
    pub level: LoggerLevel,
}

/// The file sinks: plain and error paths, levels and append mode.
pub struct FileLog {
    pub level: LoggerLevel,
    pub path: String,
    pub error_path: String,
    pub append: bool,
}

/// A log level, ordered from `TRACE` up to `NONE`.
#[allow(non_camel_case_types)]
#[derive(PartialEq, Eq, Structural, Clone, Copy, Debug)]
pub enum LoggerLevel {
    TRACE,
    DEBUG,
    INFO,
    WARN,
    ERROR,
    NONE,
}

/// The numeric rank of a log level.
pub trait LogLevelId {
    /// The rank as a specification value.
    spec fn id_spec(&self) -> u8;

    /// The rank: higher means more severe, `NONE` highest.
    fn id(&self) -> (r: u8)
        ensures
            r == self.id_spec(),
    ;
}

impl LogLevelId for LoggerLevel {
    open spec fn id_spec(&self) -> u8 {
        match self {
            LoggerLevel::TRACE => 0,
            LoggerLevel::DEBUG => 1,
            LoggerLevel::INFO => 2,
            LoggerLevel::WARN => 3,
            LoggerLevel::ERROR => 4,
            LoggerLevel::NONE => 5,
        }
    }

    fn id(&self) -> (r: u8) {
        match self {
            LoggerLevel::TRACE => 0,
            LoggerLevel::DEBUG => 1,
            LoggerLevel::INFO => 2,
            LoggerLevel::WARN => 3,
            LoggerLevel::ERROR => 4,
            LoggerLevel::NONE => 5,
        }
    }
}

/// The textual label of a level.
pub open spec fn spec_level_label(l: LoggerLevel) -> Seq<char> {
    match l {
        LoggerLevel::TRACE => "TRACE"@,
        LoggerLevel::DEBUG => "DEBUG"@,
        LoggerLevel::INFO => "INFO"@,
        LoggerLevel::WARN => "WARN"@,
        LoggerLevel::ERROR => "ERROR"@,
        LoggerLevel::NONE => "NONE"@,
    }
}

impl LoggerLevel {
    /// The level's name, as configuration files spell it.
    pub fn label(&self) -> (r: String)
        ensures
            r@ == spec_level_label(*self),
    {
        match self {
            LoggerLevel::TRACE => String::from_str("TRACE"),
            LoggerLevel::DEBUG => String::from_str("DEBUG"),
            LoggerLevel::INFO => String::from_str("INFO"),
            LoggerLevel::WARN => String::from_str("WARN"),
            LoggerLevel::ERROR => String::from_str("ERROR"),
            LoggerLevel::NONE => String::from_str("NONE"),
        }
    }

    /// Parse a level name; an unknown name is a domain error.
    pub fn from_name(s: &str) -> (r: Result<LoggerLevel, crate::SoftError>)
        ensures
            match r {
                Ok(l) => spec_level_label(l) == s@,
                Err(_) => forall|l: LoggerLevel| spec_level_label(l) != s@,
            },
    {
        let owned = s.to_owned();
        if owned.eq(&String::from_str("TRACE")) {
            Ok(LoggerLevel::TRACE)
        } else if owned.eq(&String::from_str("DEBUG")) {
            Ok(LoggerLevel::DEBUG)
        } else if owned.eq(&String::from_str("INFO")) {
            Ok(LoggerLevel::INFO)
        } else if owned.eq(&String::from_str("WARN")) {
            Ok(LoggerLevel::WARN)
        } else if owned.eq(&String::from_str("ERROR")) {
            Ok(LoggerLevel::ERROR)
        } else if owned.eq(&String::from_str("NONE")) {
            Ok(LoggerLevel::NONE)
        } else {
            proof {
                assert forall|l: LoggerLevel| spec_level_label(l) != s@ by {
                    match l {
                        LoggerLevel::TRACE => assert(spec_level_label(l) == "TRACE"@),
                        LoggerLevel::DEBUG => assert(spec_level_label(l) == "DEBUG"@),
                        LoggerLevel::INFO => assert(spec_level_label(l) == "INFO"@),
                        LoggerLevel::WARN => assert(spec_level_label(l) == "WARN"@),
                        LoggerLevel::ERROR => assert(spec_level_label(l) == "ERROR"@),
                        LoggerLevel::NONE => assert(spec_level_label(l) == "NONE"@),
                    }
                }
            }
            Err(crate::SoftError::AppError(String::from_str("unknown logger level")))
        }
    }
}

/// An argument specification: the first expression that expands and
/// passes the validation regex supplies the value.
pub struct ProjectArgs {
    pub key: String,
    pub expr: Vec<String>,
    pub mode: SourceKeyMode,
    pub must: bool,
    pub valid_regex: String,
    pub valid_message: String,
}

/// The signals the worker sends: `reload`, `exit` and `kill`, default
/// SIGHUP, SIGTERM and SIGKILL.
#[derive(PartialEq, Eq, Structural, Clone, Copy, Debug)]
pub struct SoftSignals {
    pub reload: i32,
    pub exit: i32,
    pub kill: i32,
}

/// How an accepted argument lands on the command line.
#[allow(non_camel_case_types)]
#[derive(PartialEq, Eq, Structural, Clone, Copy, Debug)]
pub enum SourceKeyArgMode {
    /// `key` alone.
    BOOL,
    /// `key=value` as one word.
    MERGE,
    /// `key` then `value` as two words.
    DEFAULT,
}

/// Where an accepted argument goes: the command line or the child's
/// environment.
#[allow(non_camel_case_types)]
#[derive(PartialEq, Eq, Structural, Clone, Copy, Debug)]
pub enum SourceKeyMode {
    ARG(SourceKeyArgMode),
    ENV,
}

/// The project: its binary, hooks, probes, signals and restart policy.
pub struct ProjectInfo {
    pub name: String,
    pub binary: String,
    pub before_script: String,
    pub after_script: String,
    pub check_health: HealthCheck,
    pub check_started: StartedCheck,
    pub signals: SoftSignals,
    pub restart_policy: RestartPolicy,
    pub script_worker: String,
}

/// The liveness probe: enabled when `interval` is positive and the
/// script is non-empty.
pub struct HealthCheck {
    pub script: String,
    pub delay: usize,
    pub interval: usize,
    pub failures: u16,
}

/// The restart policy applied when the child exits.
#[allow(non_camel_case_types)]
#[derive(PartialEq, Eq, Structural, Clone, Copy, Debug)]
pub enum RestartPolicy {
    /// Never spawn again.
    NONE,
    /// Spawn again on any exit.
    ALWAYS,
    /// Spawn again only on a non-zero exit.
    FAIL,
}

/// The startup probe: after `success` consecutive passes the started
/// callback runs once.
pub struct StartedCheck {
    pub script: String,
    pub interval: usize,
    pub success: usize,
    pub started_script: String,
}

// ---------------------------------------------------------------------
// Defaults.
// ---------------------------------------------------------------------

pub fn default_alias() -> (r: Vec<ProjectConfigAlias>)
    ensures
        r@.len() == 0,
{
    Vec::new()
}

pub fn def_log() -> (r: ProjectLog)
    ensures
        r.console.level == LoggerLevel::NONE,
        r.file.level == LoggerLevel::NONE,
        r.file.path@ == "/tmp/test.log"@,
        r.file.error_path@ == "/tmp/test.log"@,
        r.file.append == true,
{
    ProjectLog { console: def_console(), file: def_file() }
}

pub fn default_args_vec() -> (r: Vec<ProjectArgs>)
    ensures
        r@.len() == 0,
{
    Vec::new()
}

pub fn default_vec() -> (r: Vec<String>)
    ensures
        r@.len() == 0,
{
    Vec::new()
}

pub fn default_map() -> (r: Vars)
    ensures
        r.wf(),
        r.entries().len() == 0,
{
    Vars::new()
}

pub fn def_console() -> (r: ConsoleLog)
    ensures
        r.level == LoggerLevel::NONE,
{
    ConsoleLog { level: console_log_level() }
}

pub fn def_file() -> (r: FileLog)
    ensures
        r.level == LoggerLevel::NONE,
        r.path@ == "/tmp/test.log"@,
        r.error_path@ == "/tmp/test.log"@,
        r.append == true,
{
    FileLog {
        level: file_log_level(),
        path: file_log_path(),
        error_path: file_log_path(),
        append: bool_enable(),
    }
}

pub fn console_log_level() -> (r: LoggerLevel)
    ensures
        r == LoggerLevel::NONE,
{
    LoggerLevel::NONE
}

pub fn bool_enable() -> (r: bool)
    ensures
        r == true,
{
    true
}

pub fn file_log_path() -> (r: String)
    ensures
        r@ == "/tmp/test.log"@,
{
    String::from_str("/tmp/test.log")
}

pub fn file_log_level() -> (r: LoggerLevel)
    ensures
        r == LoggerLevel::NONE,
{
    LoggerLevel::NONE
}

pub fn def_over() -> (r: bool)
    ensures
        r == true,
{
    true
}

pub fn error_message() -> (r: String)
    ensures
        r@ == "value '{{message.value}}' of argument '{{message.key}}' failed validation."@,
{
    String::from_str("value '{{message.value}}' of argument '{{message.key}}' failed validation.")
}

pub fn def_mode() -> (r: SourceKeyMode)
    ensures
        r == SourceKeyMode::ARG(SourceKeyArgMode::DEFAULT),
{
    SourceKeyMode::ARG(SourceKeyArgMode::DEFAULT)
}

pub fn def_false() -> (r: bool)
    ensures
        r == true,
{
    true
}

/// SIGHUP.
pub fn i32_data_1() -> (r: i32)
    ensures
        r == 1,
{
    1
}

/// SIGTERM.
pub fn i32_data_15() -> (r: i32)
    ensures
        r == 15,
{
    15
}

/// SIGKILL.
pub fn i32_data_9() -> (r: i32)
    ensures
        r == 9,
{
    9
}

pub fn def_signals() -> (r: SoftSignals)
    ensures
        r == (SoftSignals { reload: 1i32, exit: 15i32, kill: 9i32 }),
{
    SoftSignals { reload: i32_data_1(), exit: i32_data_15(), kill: i32_data_9() }
}

pub fn def_check_health() -> (r: HealthCheck)
    ensures
        r.script@.len() == 0,
        r.delay == 0,
        r.interval == 0,
        r.failures == 0,
{
    HealthCheck { script: def_script(), delay: usize_zero(), interval: usize_zero(), failures: u16_zero() }
}

pub fn def_check_started() -> (r: StartedCheck)
    ensures
        r.script@.len() == 0,
        r.interval == 0,
        r.success == 0,
        r.started_script@.len() == 0,
{
    StartedCheck {
        script: def_script(),
        interval: usize_zero(),
        success: usize_zero(),
        started_script: def_script(),
    }
}

pub fn def_restart_policy() -> (r: RestartPolicy)
    ensures
        r == RestartPolicy::ALWAYS,
{
    RestartPolicy::ALWAYS
}

pub fn bash_str() -> (r: String)
    ensures
        r@ == "bash"@,
{
    String::from_str("bash")
}

pub fn empty_str() -> (r: String)
    ensures
        r@ == Seq::<char>::empty(),
{
    proof {
        reveal_strlit("");
    }
    String::from_str("")
}

pub fn def_script() -> (r: String)
    ensures
        r@ == Seq::<char>::empty(),
{
    empty_str()
}

pub fn u16_zero() -> (r: u16)
    ensures
        r == 0,
{
    0
}

pub fn usize_zero() -> (r: usize)
    ensures
        r == 0,
{
    0
}

} // verus!
