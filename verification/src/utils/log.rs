//! The console log sink.
//!
//! A `Logger` carries the console level; each message is filtered by
//! level, stamped with the local time and written to standard output,
//! or to standard error when the console level itself sits above
//! `WARN`.  File sinks are the embedding program's business: it owns
//! the file handles and mirrors what it needs.

use vstd::prelude::*;

use std::io::Write;

use crate::config::prop::{LogLevelId, LoggerLevel, spec_level_label};
use crate::utils::string::{spec_trim, str_to_chars, trim_chars, chars_to_string};

verus! {

/// The console sink.
#[derive(Clone, Copy, Debug)]
pub struct Logger {
    pub console_level: LoggerLevel,
}

/// A message at `level` reaches a sink configured at `sink`.
pub open spec fn spec_should_emit(sink: LoggerLevel, level: LoggerLevel) -> bool {
    sink.id_spec() <= level.id_spec()
}

/// Whether a message at `level` reaches a sink configured at `sink`.
pub fn should_emit(sink: LoggerLevel, level: LoggerLevel) -> (r: bool)
    ensures
        r == spec_should_emit(sink, level),
{
    sink.id() <= level.id()
}

/// A rendered log line: the timestamp, the level's label and the
/// trimmed message, separated by dashes.
pub open spec fn spec_render_line(time: Seq<char>, level: LoggerLevel, msg: Seq<char>)
    -> Seq<char> {
    time + " - "@ + spec_level_label(level) + " - "@ + spec_trim(msg)
}

/// Render one log line.
pub fn render_line(time: &str, level: LoggerLevel, msg: &str) -> (r: String)
    ensures
        r@ == spec_render_line(time@, level, msg@),
{
    let chars = str_to_chars(msg);
    let trimmed = trim_chars(&chars);
    let trimmed_str = chars_to_string(&trimmed);
    let sep = String::from_str(" - ");
    let line = time.to_owned().concat(sep.as_str()).concat(level.label().as_str()).concat(
        sep.as_str(),
    ).concat(trimmed_str.as_str());
    line
}

/// Relies on `chrono::Local::now` and chrono's `format`: the current
/// local time rendered for a log line.  The result depends on the
/// clock, so nothing is promised of it.
#[verifier::external_body]
fn now_line_time() -> String {
    chrono::Local::now().format("%Y/%m/%d %H:%M:%S%.3f").to_string()
}

/// Relies on `std::io::stdout`: writes one line to standard output.
#[verifier::external_body]
fn emit_stdout(line: &str) {
    let _ = writeln!(std::io::stdout(), "{}", line);
}

/// Relies on `std::io::stderr`: writes one line to standard error.
#[verifier::external_body]
fn emit_stderr(line: &str) {
    let _ = writeln!(std::io::stderr(), "{}", line);
}

/// Filter, render and write one message to the console.
fn output(logger: &Logger, level: LoggerLevel, msg: &str) {
    if should_emit(logger.console_level, level) {
        let time = now_line_time();
        let line = render_line(time.as_str(), level, msg);
        if logger.console_level.id() > 3 {
            emit_stderr(line.as_str());
        } else {
            emit_stdout(line.as_str());
        }
    }
}

pub fn debug_str(logger: &Logger, data: &str) {
    output(logger, LoggerLevel::DEBUG, data);
}

pub fn debug(logger: &Logger, data: String) {
    output(logger, LoggerLevel::DEBUG, data.as_str());
}

pub fn trace_str(logger: &Logger, data: &str) {
    output(logger, LoggerLevel::TRACE, data);
}

pub fn trace(logger: &Logger, data: String) {
    output(logger, LoggerLevel::TRACE, data.as_str());
}

pub fn info_str(logger: &Logger, data: &str) {
    output(logger, LoggerLevel::INFO, data);
}

pub fn info(logger: &Logger, data: String) {
    output(logger, LoggerLevel::INFO, data.as_str());
}

pub fn warn(logger: &Logger, data: String) {
    output(logger, LoggerLevel::WARN, data.as_str());
}

pub fn error_str(logger: &Logger, data: &str) {
    output(logger, LoggerLevel::ERROR, data);
}

pub fn error(logger: &Logger, data: String) {
    output(logger, LoggerLevel::ERROR, data.as_str());
}

} // verus!
