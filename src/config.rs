//! Run configuration: the log level, read from the `RUST_LOG` setting.
use vstd::prelude::*;
use std::str::FromStr;
use tracing::level_filters::LevelFilter;

verus! {

/// How much is logged, from nothing to everything.
#[derive(Clone, Copy, Debug, PartialEq, Eq)]
pub enum LogLevel {
    Off,
    Error,
    Warn,
    Info,
    Debug,
    Trace,
}

#[derive(Clone, Copy, Debug, PartialEq, Eq)]
pub struct Config {
    pub rust_log: LogLevel,
}

#[derive(Clone, Debug)]
pub enum ConfigError {
    /// The log level setting named no level; it holds the setting.
    InvalidLogLevel(String),
}

/// The setting without one leading `+`.
pub open spec fn unsigned_digits(s: Seq<char>) -> Seq<char> {
    if s.len() > 0 && s[0] == '+' {
        s.drop_first()
    } else {
        s
    }
}

/// Whether the setting reads as an unsigned number: an optional `+` and at
/// least one decimal digit.
pub open spec fn is_unsigned_number(s: Seq<char>) -> bool {
    let d = unsigned_digits(s);
    d.len() > 0 && forall|i: int| 0 <= i < d.len() ==> '0' <= #[trigger] d[i] <= '9'
}

/// The digits without their leading zeros.
pub open spec fn strip_zeros(d: Seq<char>) -> Seq<char>
    decreases d.len(),
{
    if d.len() > 0 && d[0] == '0' {
        strip_zeros(d.drop_first())
    } else {
        d
    }
}

/// Whether `s` spells the word whose lower- and upper-case letters are
/// `lower` and `upper`, each letter in either case.
pub open spec fn spells(s: Seq<char>, lower: Seq<char>, upper: Seq<char>) -> bool {
    s.len() == lower.len() && forall|i: int|
        0 <= i < s.len() ==> #[trigger] s[i] == lower[i] || s[i] == upper[i]
}

/// The level a setting names, as tracing reads a `LevelFilter`: a number
/// from 0 (off) to 5 (trace), the empty setting for errors only, or a level
/// name in any ASCII case.
pub open spec fn level_of_setting(s: Seq<char>) -> Option<LogLevel> {
    if is_unsigned_number(s) {
        let v = strip_zeros(unsigned_digits(s));
        if v.len() == 0 {
            Some(LogLevel::Off)
        } else if v == seq!['1'] {
            Some(LogLevel::Error)
        } else if v == seq!['2'] {
            Some(LogLevel::Warn)
        } else if v == seq!['3'] {
            Some(LogLevel::Info)
        } else if v == seq!['4'] {
            Some(LogLevel::Debug)
        } else if v == seq!['5'] {
            Some(LogLevel::Trace)
        } else {
            None
        }
    } else if s.len() == 0 {
        Some(LogLevel::Error)
    } else if spells(s, seq!['e', 'r', 'r', 'o', 'r'], seq!['E', 'R', 'R', 'O', 'R']) {
        Some(LogLevel::Error)
    } else if spells(s, seq!['w', 'a', 'r', 'n'], seq!['W', 'A', 'R', 'N']) {
        Some(LogLevel::Warn)
    } else if spells(s, seq!['i', 'n', 'f', 'o'], seq!['I', 'N', 'F', 'O']) {
        Some(LogLevel::Info)
    } else if spells(s, seq!['d', 'e', 'b', 'u', 'g'], seq!['D', 'E', 'B', 'U', 'G']) {
        Some(LogLevel::Debug)
    } else if spells(s, seq!['t', 'r', 'a', 'c', 'e'], seq!['T', 'R', 'A', 'C', 'E']) {
        Some(LogLevel::Trace)
    } else if spells(s, seq!['o', 'f', 'f'], seq!['O', 'F', 'F']) {
        Some(LogLevel::Off)
    } else {
        None
    }
}

/// Relies on `LevelFilter::from_str` of tracing-core: it first reads the
/// setting as a `usize` and takes 0 to 5, then takes the empty setting and
/// the six level names under `eq_ignore_ascii_case`. The body tells the six
/// levels apart.
#[verifier::external_body]
fn parse_level_filter(s: &str) -> (r: Option<LogLevel>)
    ensures
        r == level_of_setting(s@),
{
    match LevelFilter::from_str(s) {
        Ok(LevelFilter::OFF) => Some(LogLevel::Off),
        Ok(LevelFilter::ERROR) => Some(LogLevel::Error),
        Ok(LevelFilter::WARN) => Some(LogLevel::Warn),
        Ok(LevelFilter::INFO) => Some(LogLevel::Info),
        Ok(LevelFilter::DEBUG) => Some(LogLevel::Debug),
        Ok(LevelFilter::TRACE) => Some(LogLevel::Trace),
        Ok(_) | Err(_) => None,
    }
}

/// The log level setting used when none is given.
pub fn default_log_level_str() -> (r: String)
    ensures
        r@ == seq!['I', 'n', 'f', 'o'],
{
    let r = <String as vstd::string::StringExecFns>::from_str("Info");
    proof {
        reveal_strlit("Info");
    }
    r
}

impl Config {
    /// The configuration for a log level setting; `None` when the setting is
    /// absent, which stands for the default level.
    pub fn from_rust_log(value: Option<String>) -> (r: Result<Config, ConfigError>)
        ensures
            value is None ==> r == Ok::<Config, ConfigError>(Config { rust_log: LogLevel::Info }),
            value matches Some(v) ==> match level_of_setting(v@) {
                Some(l) => r == Ok::<Config, ConfigError>(Config { rust_log: l }),
                None => r matches Err(ConfigError::InvalidLogLevel(s)) && s@ == v@,
            },
    {
        let setting = match value {
            Some(v) => v,
            None => default_log_level_str(),
        };
        proof {
            let d = seq!['I', 'n', 'f', 'o'];
            assert(!is_unsigned_number(d)) by {
                assert(unsigned_digits(d) == d);
                assert(!('0' <= d[0] <= '9'));
            }
            assert(!spells(d, seq!['e', 'r', 'r', 'o', 'r'], seq!['E', 'R', 'R', 'O', 'R']));
            assert(!spells(d, seq!['w', 'a', 'r', 'n'], seq!['W', 'A', 'R', 'N'])) by {
                assert(d[0] != 'w' && d[0] != 'W');
            }
            assert(spells(d, seq!['i', 'n', 'f', 'o'], seq!['I', 'N', 'F', 'O']));
            assert(level_of_setting(d) == Some(LogLevel::Info));
        }
        match parse_level_filter(setting.as_str()) {
            Some(l) => Ok(Config { rust_log: l }),
            None => Err(ConfigError::InvalidLogLevel(setting)),
        }
    }
}

} // verus!
