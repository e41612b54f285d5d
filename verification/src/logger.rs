//! A small console logger: severity-prefixed lines on standard output,
//! with a verbosity switch that decides both the maximum level handed to a
//! logging backend and whether the verbose variants print at all.

use std::io::Write;

use vstd::prelude::*;

verus! {

/// The maximum level a logging backend should let through.
#[derive(Debug, Clone, Copy, PartialEq, Eq, Structural)]
pub enum LevelFilter {
    Info,
    Debug,
}

/// Message severities, each with its line prefix.
#[derive(Debug, Clone, Copy, PartialEq, Eq, Structural)]
enum Severity {
    Debug,
    Information,
    Warning,
    Error,
}

/// Console logger configuration.
#[derive(Debug, Clone, Copy)]
pub struct Logger {
    /// Whether debug output and the verbose variants are enabled.
    pub verbose: bool,
    /// Whether a backend should color its output.
    pub colored: bool,
}

impl Default for Logger {
    /// A quiet, uncolored logger.
    fn default() -> (r: Self)
        ensures
            !r.verbose,
            !r.colored,
    {
        Logger { verbose: false, colored: false }
    }
}

/// Relies on std::io::stdout: writes one line to standard output.
#[verifier::external_body]
fn emit_line(line: &str) {
    let mut out = std::io::stdout();
    let _ = writeln!(out, "{}", line);
}

impl Logger {
    /// Builder: set verbosity.
    pub fn verbose(self, verbose: bool) -> (r: Self)
        ensures
            r.verbose == verbose,
            r.colored == self.colored,
    {
        Logger { verbose, ..self }
    }

    /// Builder: set coloring.
    pub fn colored(self, colored: bool) -> (r: Self)
        ensures
            r.colored == colored,
            r.verbose == self.verbose,
    {
        Logger { colored, ..self }
    }

    /// The level filter a backend should use: debug when verbose,
    /// info otherwise.
    pub fn get_max_log_level(&self) -> (r: LevelFilter)
        ensures
            r == if self.verbose {
                LevelFilter::Debug
            } else {
                LevelFilter::Info
            },
    {
        if self.verbose {
            LevelFilter::Debug
        } else {
            LevelFilter::Info
        }
    }

    /// Print one prefixed line.
    fn log(&self, input: &str, severity: Severity) {
        let prefix: &str = match severity {
            Severity::Debug => "[DBG]  ",
            Severity::Information => "[INFO] ",
            Severity::Warning => "[WARN] ",
            Severity::Error => "[ERR]  ",
        };
        let mut line = String::new();
        line.append(prefix);
        line.append(input);
        emit_line(line.as_str());
    }

    pub fn log_debug(&self, input: &str) {
        self.log(input, Severity::Debug);
    }

    pub fn log_info(&self, input: &str) {
        self.log(input, Severity::Information);
    }

    pub fn log_warn(&self, input: &str) {
        self.log(input, Severity::Warning);
    }

    pub fn log_error(&self, input: &str) {
        self.log(input, Severity::Error);
    }

    pub fn log_verbose_debug(&self, input: &str) {
        if self.verbose {
            self.log(input, Severity::Debug);
        }
    }

    pub fn log_verbose_info(&self, input: &str) {
        if self.verbose {
            self.log(input, Severity::Information);
        }
    }

    pub fn log_verbose_warn(&self, input: &str) {
        if self.verbose {
            self.log(input, Severity::Warning);
        }
    }

    pub fn log_verbose_error(&self, input: &str) {
        if self.verbose {
            self.log(input, Severity::Error);
        }
    }
}

} // verus!
