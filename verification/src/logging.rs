//! Logging configuration.
//!
//! This module only builds the configuration value: minimum level, output
//! format, target filter and the field toggles. Installing a subscriber that
//! acts on it is I/O at the program's edge and lives outside this library.

use vstd::prelude::*;

verus! {

/// Minimum severity of the records to keep, most verbose first.
#[derive(Debug, Clone, Copy, PartialEq, Eq, Structural)]
pub enum LogLevel {
    /// Everything, including per-resolution traces.
    Trace,
    /// Diagnostic detail.
    Debug,
    /// Ordinary progress.
    Info,
    /// Suspicious conditions.
    Warn,
    /// Failures only.
    Error,
}

/// Logging output format.
#[derive(Debug, Clone, Copy, PartialEq, Eq, Structural)]
pub enum LogFormat {
    /// Structured output for log aggregation.
    Json,
    /// Colourful output for development.
    Pretty,
    /// Single-line output.
    Compact,
}

impl Default for LogFormat {
    /// The default format is the structured one.
    fn default() -> (r: LogFormat)
        ensures
            r == LogFormat::Json,
    {
        LogFormat::Json
    }
}

/// Builder for a logging configuration.
#[derive(Debug, Clone, Copy)]
pub struct LoggingBuilder {
    /// Minimum level of the records to keep.
    pub level: LogLevel,
    /// Output format.
    pub format: LogFormat,
    /// Only records of this target are kept, when set.
    pub target: Option<&'static str>,
    /// Include file names in the output.
    pub with_file: bool,
    /// Include line numbers in the output.
    pub with_line_number: bool,
    /// Include thread ids in the output.
    pub with_thread_ids: bool,
    /// Include thread names in the output.
    pub with_thread_names: bool,
}

impl Default for LoggingBuilder {
    /// Debug level, structured format, no filter, all extras off.
    fn default() -> (r: LoggingBuilder)
        ensures
            r.level == LogLevel::Debug,
            r.format == LogFormat::Json,
            r.target is None,
            !r.with_file,
            !r.with_line_number,
            !r.with_thread_ids,
            !r.with_thread_names,
    {
        LoggingBuilder {
            level: LogLevel::Debug,
            format: LogFormat::Json,
            target: None,
            with_file: false,
            with_line_number: false,
            with_thread_ids: false,
            with_thread_names: false,
        }
    }
}

impl LoggingBuilder {
    /// A builder with the default settings.
    pub fn new() -> (r: LoggingBuilder)
        ensures
            r.level == LogLevel::Debug,
            r.format == LogFormat::Json,
            r.target is None,
            !r.with_file,
            !r.with_line_number,
            !r.with_thread_ids,
            !r.with_thread_names,
    {
        LoggingBuilder {
            level: LogLevel::Debug,
            format: LogFormat::Json,
            target: None,
            with_file: false,
            with_line_number: false,
            with_thread_ids: false,
            with_thread_names: false,
        }
    }

    /// Set the minimum log level.
    pub fn with_level(self, level: LogLevel) -> (r: LoggingBuilder)
        ensures
            r == (LoggingBuilder { level, ..self }),
    {
        LoggingBuilder { level, ..self }
    }

    /// Keep everything: level `Trace`.
    pub fn trace(self) -> (r: LoggingBuilder)
        ensures
            r == (LoggingBuilder { level: LogLevel::Trace, ..self }),
    {
        LoggingBuilder { level: LogLevel::Trace, ..self }
    }

    /// Level `Debug`.
    pub fn debug(self) -> (r: LoggingBuilder)
        ensures
            r == (LoggingBuilder { level: LogLevel::Debug, ..self }),
    {
        LoggingBuilder { level: LogLevel::Debug, ..self }
    }

    /// Level `Info`.
    pub fn info(self) -> (r: LoggingBuilder)
        ensures
            r == (LoggingBuilder { level: LogLevel::Info, ..self }),
    {
        LoggingBuilder { level: LogLevel::Info, ..self }
    }

    /// Level `Warn`.
    pub fn warn(self) -> (r: LoggingBuilder)
        ensures
            r == (LoggingBuilder { level: LogLevel::Warn, ..self }),
    {
        LoggingBuilder { level: LogLevel::Warn, ..self }
    }

    /// Failures only: level `Error`.
    pub fn error(self) -> (r: LoggingBuilder)
        ensures
            r == (LoggingBuilder { level: LogLevel::Error, ..self }),
    {
        LoggingBuilder { level: LogLevel::Error, ..self }
    }

    /// Keep only records of the given target.
    pub fn with_target_filter(self, target: &'static str) -> (r: LoggingBuilder)
        ensures
            r == (LoggingBuilder { target: Some(target), ..self }),
    {
        LoggingBuilder { target: Some(target), ..self }
    }

    /// Keep only this library's own records.
    pub fn di_only(self) -> (r: LoggingBuilder)
        ensures
            r.level == self.level,
            r.format == self.format,
            r.target matches Some(t) && t@ == "dependency_injector"@,
            r.with_file == self.with_file,
            r.with_line_number == self.with_line_number,
            r.with_thread_ids == self.with_thread_ids,
            r.with_thread_names == self.with_thread_names,
    {
        self.with_target_filter("dependency_injector")
    }

    /// Include file names in the output.
    pub fn with_file(self) -> (r: LoggingBuilder)
        ensures
            r == (LoggingBuilder { with_file: true, ..self }),
    {
        LoggingBuilder { with_file: true, ..self }
    }

    /// Include line numbers in the output.
    pub fn with_line_number(self) -> (r: LoggingBuilder)
        ensures
            r == (LoggingBuilder { with_line_number: true, ..self }),
    {
        LoggingBuilder { with_line_number: true, ..self }
    }

    /// Include thread ids in the output.
    pub fn with_thread_ids(self) -> (r: LoggingBuilder)
        ensures
            r == (LoggingBuilder { with_thread_ids: true, ..self }),
    {
        LoggingBuilder { with_thread_ids: true, ..self }
    }

    /// Include thread names in the output.
    pub fn with_thread_names(self) -> (r: LoggingBuilder)
        ensures
            r == (LoggingBuilder { with_thread_names: true, ..self }),
    {
        LoggingBuilder { with_thread_names: true, ..self }
    }

    /// Structured output.
    pub fn json(self) -> (r: LoggingBuilder)
        ensures
            r == (LoggingBuilder { format: LogFormat::Json, ..self }),
    {
        LoggingBuilder { format: LogFormat::Json, ..self }
    }

    /// Colourful output.
    pub fn pretty(self) -> (r: LoggingBuilder)
        ensures
            r == (LoggingBuilder { format: LogFormat::Pretty, ..self }),
    {
        LoggingBuilder { format: LogFormat::Pretty, ..self }
    }

    /// Single-line output.
    pub fn compact(self) -> (r: LoggingBuilder)
        ensures
            r == (LoggingBuilder { format: LogFormat::Compact, ..self }),
    {
        LoggingBuilder { format: LogFormat::Compact, ..self }
    }
}

/// A builder with the default settings.
pub fn builder() -> (r: LoggingBuilder)
    ensures
        r.level == LogLevel::Debug,
        r.format == LogFormat::Json,
        r.target is None,
        !r.with_file,
        !r.with_line_number,
        !r.with_thread_ids,
        !r.with_thread_names,
{
    LoggingBuilder::new()
}

} // verus!
