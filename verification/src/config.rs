//! Turning finished settings into a run configuration.

use vstd::prelude::*;
use vstd::utf8::{encode_utf8, encode_utf8_decode_utf8};

verus! {

/// The setting that names the mode.
pub const MODE_KEY: &'static str = "mode";

/// The setting that names the input path.
pub const INPUT_KEY: &'static str = "input";

/// The setting that names the log level.
pub const LOG_LEVEL_KEY: &'static str = "log_level";

/// The mode where none is set.
pub const DEFAULT_MODE: &'static str = "graphical";

/// The input setting where none is set: empty, which leaves the path to the
/// command line.
pub const DEFAULT_INPUT: &'static str = "";

/// The log level where none is set.
pub const DEFAULT_LOG_LEVEL: &'static str = "info";

/// The transform applied to the input.
#[derive(Debug, Clone, Copy, PartialEq, Eq, Structural)]
pub enum Mode {
    /// Address column, padded hex field and ASCII gutter, one line per group.
    Graphical,
    /// Hex digits only, as one unbroken stream.
    Hex,
    /// Hex text in, raw bytes out.
    Reverse,
}

/// How much the program reports about its own work.
#[derive(Debug, Clone, Copy, PartialEq, Eq, Structural)]
pub enum LogLevel {
    Error,
    Warn,
    Info,
    Debug,
    Trace,
}

/// Why a set of settings was turned down.
#[derive(Debug, Clone, Copy, PartialEq, Eq, Structural)]
pub enum ConfigError {
    /// The mode is none of `graphical`, `hex`, `reverse`.
    InvalidMode,
    /// The log level is none of `info`, `debug`, `trace`, `warn`, `error`.
    InvalidLogLevel,
}

/// The mode that a setting names, if it names one.
pub open spec fn mode_named(name: Seq<char>) -> Option<Mode> {
    if name == "graphical"@ {
        Some(Mode::Graphical)
    } else if name == "hex"@ {
        Some(Mode::Hex)
    } else if name == "reverse"@ {
        Some(Mode::Reverse)
    } else {
        None
    }
}

/// The log level that a setting names, if it names one.
pub open spec fn level_named(name: Seq<char>) -> Option<LogLevel> {
    if name == "info"@ {
        Some(LogLevel::Info)
    } else if name == "debug"@ {
        Some(LogLevel::Debug)
    } else if name == "trace"@ {
        Some(LogLevel::Trace)
    } else if name == "warn"@ {
        Some(LogLevel::Warn)
    } else if name == "error"@ {
        Some(LogLevel::Error)
    } else {
        None
    }
}

/// Whether two string slices hold the same characters in the same order.
fn same_text(left: &str, right: &str) -> (same: bool)
    ensures
        same == (left@ == right@),
{
    let left_bytes = left.as_bytes();
    let right_bytes = right.as_bytes();
    proof {
        // Two texts with the same encoding are the same text.
        encode_utf8_decode_utf8(left@);
        encode_utf8_decode_utf8(right@);
    }
    if left_bytes.len() != right_bytes.len() {
        return false;
    }
    let mut i: usize = 0;
    while i < left_bytes.len()
        invariant
            0 <= i <= left_bytes.len(),
            left_bytes@ == encode_utf8(left@),
            right_bytes@ == encode_utf8(right@),
            left_bytes@.len() == right_bytes@.len(),
            forall|k: int| 0 <= k < i ==> left_bytes@[k] == right_bytes@[k],
        decreases left_bytes.len() - i,
    {
        if left_bytes[i] != right_bytes[i] {
            return false;
        }
        i += 1;
    }
    proof {
        assert(left_bytes@ =~= right_bytes@);
    }
    true
}

impl Mode {
    /// Reads a mode from its name. The name is matched exactly: no trimming,
    /// no folding of case.
    pub fn from_name(name: &str) -> (mode: Option<Mode>)
        ensures
            mode == mode_named(name@),
    {
        if same_text(name, "graphical") {
            Some(Mode::Graphical)
        } else if same_text(name, "hex") {
            Some(Mode::Hex)
        } else if same_text(name, "reverse") {
            Some(Mode::Reverse)
        } else {
            None
        }
    }
}

impl LogLevel {
    /// Reads a log level from its name. The name is matched exactly.
    pub fn from_name(name: &str) -> (level: Option<LogLevel>)
        ensures
            level == level_named(name@),
    {
        if same_text(name, "info") {
            Some(LogLevel::Info)
        } else if same_text(name, "debug") {
            Some(LogLevel::Debug)
        } else if same_text(name, "trace") {
            Some(LogLevel::Trace)
        } else if same_text(name, "warn") {
            Some(LogLevel::Warn)
        } else if same_text(name, "error") {
            Some(LogLevel::Error)
        } else {
            None
        }
    }
}

/// A finished run configuration.
#[derive(Debug)]
pub struct Config {
    /// The transform to apply.
    pub mode: Mode,
    /// The input path given by a setting; `None` leaves the choice to the
    /// command line.
    pub input: Option<String>,
    /// The verbosity of the log.
    pub log_level: LogLevel,
}

/// What a [`Config`] holds, as mathematical values.
pub struct ConfigView {
    pub mode: Mode,
    pub input: Option<Seq<char>>,
    pub log_level: LogLevel,
}

impl View for Config {
    type V = ConfigView;

    open spec fn view(&self) -> ConfigView {
        ConfigView {
            mode: self.mode,
            input: match self.input {
                Some(path) => Some(path@),
                None => None,
            },
            log_level: self.log_level,
        }
    }
}

/// The configuration that three settings stand for, or the reason they are
/// turned down. The mode is judged before the log level, so a bad mode hides
/// a bad log level. An empty input setting means that none was given.
pub open spec fn settings_outcome(
    mode: Seq<char>,
    input: Seq<char>,
    log_level: Seq<char>,
) -> Result<ConfigView, ConfigError> {
    match (mode_named(mode), level_named(log_level)) {
        (None, _) => Err(ConfigError::InvalidMode),
        (Some(_), None) => Err(ConfigError::InvalidLogLevel),
        (Some(m), Some(l)) => Ok(
            ConfigView {
                mode: m,
                input: if input.len() == 0 {
                    None
                } else {
                    Some(input)
                },
                log_level: l,
            },
        ),
    }
}

impl Config {
    /// Builds the configuration from the merged settings `mode`, `input` and
    /// `log_level`.
    pub fn new(mode: &str, input: &str, log_level: &str) -> (result: Result<Config, ConfigError>)
        ensures
            match result {
                Ok(config) => settings_outcome(mode@, input@, log_level@) == Ok::<
                    ConfigView,
                    ConfigError,
                >(config@),
                Err(error) => settings_outcome(mode@, input@, log_level@) == Err::<
                    ConfigView,
                    ConfigError,
                >(error),
            },
    {
        let mode = match Mode::from_name(mode) {
            Some(mode) => mode,
            None => {
                return Err(ConfigError::InvalidMode);
            },
        };
        let log_level = match LogLevel::from_name(log_level) {
            Some(level) => level,
            None => {
                return Err(ConfigError::InvalidLogLevel);
            },
        };
        let input = if input.is_empty() {
            None
        } else {
            Some(input.to_owned())
        };
        Ok(Config { mode, input, log_level })
    }
}

/// The settings that hold where nothing is set are accepted: graphical
/// mode, no input, log level `info`.
pub proof fn lemma_defaults_accepted()
    ensures
        settings_outcome(DEFAULT_MODE@, DEFAULT_INPUT@, DEFAULT_LOG_LEVEL@) == Ok::<
            ConfigView,
            ConfigError,
        >(ConfigView { mode: Mode::Graphical, input: None, log_level: LogLevel::Info }),
{
    reveal_strlit("graphical");
    reveal_strlit("");
    reveal_strlit("info");
}

impl ConfigError {
    /// The message shown to the user for this error.
    pub fn message(&self) -> (text: &'static str)
        ensures
            text@ == match *self {
                ConfigError::InvalidMode => "Invalid mode, must be graphical | hex | reverse"@,
                ConfigError::InvalidLogLevel =>
                    "Invalid log level, must be info | debug | trace | warn | error"@,
            },
    {
        match self {
            ConfigError::InvalidMode => "Invalid mode, must be graphical | hex | reverse",
            ConfigError::InvalidLogLevel =>
                "Invalid log level, must be info | debug | trace | warn | error",
        }
    }
}

} // verus!
