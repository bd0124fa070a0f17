use vstd::prelude::*;
use vstd::string::*;

use crate::text::{chars_of, eq_ignore_ascii_case, eq_ignore_ascii_case_chars, is_blank, is_blank_str};

verus! {

/// The most verbose level of log messages that is emitted.
#[derive(Debug, Clone, Copy, PartialEq, Eq)]
pub enum LogLevel {
    Trace,
    Debug,
    Info,
    Warn,
    Error,
}

/// The logging section of the configuration.
#[derive(Debug, Clone)]
pub struct LoggingConfig {
    /// Maximum log level emitted.
    pub level: LogLevel,
}

/// The level used where the configuration names none: `trace`.
pub fn default_log_level() -> (level: LogLevel)
    ensures
        level == LogLevel::Trace,
{
    LogLevel::Trace
}

/// The directory of solution sources used where the configuration names none.
pub fn default_solutions_path() -> (path: String)
    ensures
        path@ == "./solutions"@,
{
    String::from_str("./solutions")
}

impl Default for LoggingConfig {
    fn default() -> (c: Self)
        ensures
            c.level == LogLevel::Trace,
    {
        LoggingConfig { level: default_log_level() }
    }
}

/// No name can match two of the level names.
proof fn lemma_level_names_distinct(s: Seq<char>)
    ensures
        eq_ignore_ascii_case(s, "trace"@) ==> !eq_ignore_ascii_case(s, "debug"@) && !eq_ignore_ascii_case(s, "info"@)
            && !eq_ignore_ascii_case(s, "warn"@) && !eq_ignore_ascii_case(s, "error"@),
        eq_ignore_ascii_case(s, "debug"@) ==> !eq_ignore_ascii_case(s, "info"@) && !eq_ignore_ascii_case(s, "warn"@)
            && !eq_ignore_ascii_case(s, "error"@),
        eq_ignore_ascii_case(s, "info"@) ==> !eq_ignore_ascii_case(s, "warn"@) && !eq_ignore_ascii_case(s, "error"@),
        eq_ignore_ascii_case(s, "warn"@) ==> !eq_ignore_ascii_case(s, "error"@),
{
    reveal_strlit("trace");
    reveal_strlit("debug");
    reveal_strlit("info");
    reveal_strlit("warn");
    reveal_strlit("error");
    if s.len() > 0 {
        assert(crate::text::ascii_lower('t') == 116);
        assert(crate::text::ascii_lower('d') == 100);
        assert(crate::text::ascii_lower('i') == 105);
        assert(crate::text::ascii_lower('w') == 119);
        assert(crate::text::ascii_lower('e') == 101);
        assert("trace"@[0] == 't');
        assert("debug"@[0] == 'd');
        assert("info"@[0] == 'i');
        assert("warn"@[0] == 'w');
        assert("error"@[0] == 'e');
    }
}

/// The level that `level` names, its case aside, or the error message for a name that is
/// not one of `trace`, `debug`, `info`, `warn`, `error`.
pub fn parse_log_level(level: &str) -> (r: Result<LogLevel, String>)
    ensures
        eq_ignore_ascii_case(level@, "trace"@) ==> r == Ok::<LogLevel, String>(LogLevel::Trace),
        eq_ignore_ascii_case(level@, "debug"@) ==> r == Ok::<LogLevel, String>(LogLevel::Debug),
        eq_ignore_ascii_case(level@, "info"@) ==> r == Ok::<LogLevel, String>(LogLevel::Info),
        eq_ignore_ascii_case(level@, "warn"@) ==> r == Ok::<LogLevel, String>(LogLevel::Warn),
        eq_ignore_ascii_case(level@, "error"@) ==> r == Ok::<LogLevel, String>(LogLevel::Error),
        !eq_ignore_ascii_case(level@, "trace"@) && !eq_ignore_ascii_case(level@, "debug"@)
            && !eq_ignore_ascii_case(level@, "info"@) && !eq_ignore_ascii_case(level@, "warn"@)
            && !eq_ignore_ascii_case(level@, "error"@) ==> r is Err && r->Err_0@
            == "unsupported logging.level '"@ + level@ + "'"@,
{
    let v = chars_of(level);
    proof {
        lemma_level_names_distinct(level@);
    }
    if eq_ignore_ascii_case_chars(&v, &chars_of("trace")) {
        return Ok(LogLevel::Trace);
    }
    if eq_ignore_ascii_case_chars(&v, &chars_of("debug")) {
        return Ok(LogLevel::Debug);
    }
    if eq_ignore_ascii_case_chars(&v, &chars_of("info")) {
        return Ok(LogLevel::Info);
    }
    if eq_ignore_ascii_case_chars(&v, &chars_of("warn")) {
        return Ok(LogLevel::Warn);
    }
    if eq_ignore_ascii_case_chars(&v, &chars_of("error")) {
        return Ok(LogLevel::Error);
    }
    let mut message = String::from_str("unsupported logging.level '");
    message.append(level);
    message.append("'");
    Err(message)
}

/// The application configuration, as far as its checks and the load test read it: the
/// probability of submitting the wrong solution, a floating-point number, stays with the
/// program around the library.
#[derive(Debug, Clone)]
pub struct Config {
    pub logging: LoggingConfig,
    /// Base URL of the system under test.
    pub base_url: String,
    /// Path of the team credentials CSV file (`id,username,password`).
    pub team_csv: String,
    /// Contest identifier checked before the test.
    pub contest_id: String,
    /// Root directory of the per-problem solution sources.
    pub solutions_path: String,
}

impl Default for Config {
    fn default() -> (c: Self)
        ensures
            c.logging.level == LogLevel::Trace,
            c.base_url@.len() == 0,
            c.team_csv@.len() == 0,
            c.contest_id@.len() == 0,
            c.solutions_path@ == "./solutions"@,
    {
        Config {
            logging: LoggingConfig::default(),
            base_url: String::new(),
            team_csv: String::new(),
            contest_id: String::new(),
            solutions_path: default_solutions_path(),
        }
    }
}

/// A required configuration field that is blank.
#[derive(Debug, Clone, Copy, PartialEq, Eq)]
pub enum ConfigError {
    MissingBaseUrl,
    MissingTeamCsv,
    MissingContestId,
    MissingSolutionsPath,
}

/// The check that every required field is present: the first blank one, in the order
/// base URL, team CSV, contest id, solutions path, is reported.
pub fn validate_required_config_fields(config: &Config) -> (r: Result<(), ConfigError>)
    ensures
        r == if is_blank(config.base_url@) {
            Err(ConfigError::MissingBaseUrl)
        } else if is_blank(config.team_csv@) {
            Err(ConfigError::MissingTeamCsv)
        } else if is_blank(config.contest_id@) {
            Err(ConfigError::MissingContestId)
        } else if is_blank(config.solutions_path@) {
            Err(ConfigError::MissingSolutionsPath)
        } else {
            Ok::<(), ConfigError>(())
        },
{
    if is_blank_str(config.base_url.as_str()) {
        return Err(ConfigError::MissingBaseUrl);
    }
    if is_blank_str(config.team_csv.as_str()) {
        return Err(ConfigError::MissingTeamCsv);
    }
    if is_blank_str(config.contest_id.as_str()) {
        return Err(ConfigError::MissingContestId);
    }
    if is_blank_str(config.solutions_path.as_str()) {
        return Err(ConfigError::MissingSolutionsPath);
    }
    Ok(())
}

} // verus!
