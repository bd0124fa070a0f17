use onyx::config::{
    default_log_level, default_solutions_path, parse_log_level, validate_required_config_fields,
    Config, ConfigError, LogLevel, LoggingConfig,
};
use onyx::models::{load_team_credentials, TeamCsvError, TeamCsvRow};

fn row(u: &str, p: &str) -> Option<TeamCsvRow> {
    Some(TeamCsvRow { username: u.to_string(), password: p.to_string() })
}

#[test]
fn log_levels_parse_without_regard_to_case() {
    assert_eq!(parse_log_level("trace"), Ok(LogLevel::Trace));
    assert_eq!(parse_log_level("DEBUG"), Ok(LogLevel::Debug));
    assert_eq!(parse_log_level("Info"), Ok(LogLevel::Info));
    assert_eq!(parse_log_level("wArN"), Ok(LogLevel::Warn));
    assert_eq!(parse_log_level("ERROR"), Ok(LogLevel::Error));
}

#[test]
fn unknown_log_level_is_reported_with_its_name() {
    assert_eq!(parse_log_level("verbose"), Err("unsupported logging.level 'verbose'".to_string()));
    assert_eq!(parse_log_level(" info"), Err("unsupported logging.level ' info'".to_string()));
    assert_eq!(parse_log_level(""), Err("unsupported logging.level ''".to_string()));
}

#[test]
fn defaults() {
    assert_eq!(default_log_level(), LogLevel::Trace);
    assert_eq!(default_solutions_path(), "./solutions");
    assert_eq!(LoggingConfig::default().level, LogLevel::Trace);
    let c = Config::default();
    assert_eq!(c.logging.level, LogLevel::Trace);
    assert_eq!(c.base_url, "");
    assert_eq!(c.team_csv, "");
    assert_eq!(c.contest_id, "");
    assert_eq!(c.solutions_path, "./solutions");
}

fn full_config() -> Config {
    Config {
        logging: LoggingConfig { level: LogLevel::Info },
        base_url: "http://judge".to_string(),
        team_csv: "team.csv".to_string(),
        contest_id: "demo".to_string(),
        solutions_path: "./solutions".to_string(),
    }
}

#[test]
fn required_fields_are_checked_in_order() {
    assert_eq!(validate_required_config_fields(&full_config()), Ok(()));
    let mut c = full_config();
    c.base_url = "  ".to_string();
    c.contest_id = String::new();
    assert_eq!(validate_required_config_fields(&c), Err(ConfigError::MissingBaseUrl));
    let mut c = full_config();
    c.team_csv = "\t".to_string();
    assert_eq!(validate_required_config_fields(&c), Err(ConfigError::MissingTeamCsv));
    let mut c = full_config();
    c.contest_id = String::new();
    assert_eq!(validate_required_config_fields(&c), Err(ConfigError::MissingContestId));
    let mut c = full_config();
    c.solutions_path = " ".to_string();
    assert_eq!(validate_required_config_fields(&c), Err(ConfigError::MissingSolutionsPath));
    assert_eq!(validate_required_config_fields(&Config::default()), Err(ConfigError::MissingBaseUrl));
}

#[test]
fn team_rows_become_trimmed_credentials() {
    let creds = load_team_credentials(&vec![row(" team001 ", "0d000721 "), row("team002", "pw")]).unwrap();
    assert_eq!(creds.len(), 2);
    assert_eq!(creds[0].username, "team001");
    assert_eq!(creds[0].password, "0d000721");
    assert_eq!(creds[1].username, "team002");
    assert_eq!(creds[1].password, "pw");
}

#[test]
fn team_row_errors_name_the_file_row() {
    assert_eq!(
        load_team_credentials(&vec![row("a", "b"), row("  ", "x")]).unwrap_err(),
        TeamCsvError::EmptyUsername { row: 3 }
    );
    assert_eq!(
        load_team_credentials(&vec![row("a", " ")]).unwrap_err(),
        TeamCsvError::EmptyPassword { row: 2 }
    );
    assert_eq!(
        load_team_credentials(&vec![row("a", "b"), None, row("", "")]).unwrap_err(),
        TeamCsvError::UnreadableRow { row: 3 }
    );
    assert_eq!(
        load_team_credentials(&vec![row("", ""), None]).unwrap_err(),
        TeamCsvError::EmptyUsername { row: 2 }
    );
    assert_eq!(load_team_credentials(&vec![]).unwrap_err(), TeamCsvError::NoUsableRows);
}
