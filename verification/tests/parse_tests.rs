use commitgen::config::ConfigError;
use commitgen::config::PROBABILITY_SCALE;
use commitgen::config::ScheduleConfig;
use commitgen::date::Date;
use commitgen::parse::parse_date;
use commitgen::parse::parse_probability;

#[test]
fn parse_date_accepts_valid_literal() {
    assert_eq!(parse_date(b"2023-01-02"), Ok(Date { year: 2023, month: 1, day: 2 }));
    assert_eq!(parse_date(b"2024-02-29"), Ok(Date { year: 2024, month: 2, day: 29 }));
    assert_eq!(parse_date(b"0001-01-01"), Ok(Date { year: 1, month: 1, day: 1 }));
    assert_eq!(parse_date(b"9999-12-31"), Ok(Date { year: 9999, month: 12, day: 31 }));
}

#[test]
fn parse_date_rejects_bad_shape() {
    assert_eq!(parse_date(b"2023-1-02"), Err(ConfigError::InvalidDate));
    assert_eq!(parse_date(b"20230102"), Err(ConfigError::InvalidDate));
    assert_eq!(parse_date(b"2023/01/02"), Err(ConfigError::InvalidDate));
    assert_eq!(parse_date(b"abcd-ef-gh"), Err(ConfigError::InvalidDate));
    assert_eq!(parse_date(b""), Err(ConfigError::InvalidDate));
    assert_eq!(parse_date(b"2023-01-023"), Err(ConfigError::InvalidDate));
}

#[test]
fn parse_date_rejects_bad_calendar_day() {
    assert_eq!(parse_date(b"2023-02-29"), Err(ConfigError::InvalidDate));
    assert_eq!(parse_date(b"2023-13-01"), Err(ConfigError::InvalidDate));
    assert_eq!(parse_date(b"2023-00-10"), Err(ConfigError::InvalidDate));
    assert_eq!(parse_date(b"2023-04-31"), Err(ConfigError::InvalidDate));
    assert_eq!(parse_date(b"2023-06-00"), Err(ConfigError::InvalidDate));
    assert_eq!(parse_date(b"0000-01-01"), Err(ConfigError::InvalidDate));
}

#[test]
fn parse_probability_exact_values() {
    assert_eq!(parse_probability(b"0"), Ok(0));
    assert_eq!(parse_probability(b"1"), Ok(1000000));
    assert_eq!(parse_probability(b"1.0"), Ok(1000000));
    assert_eq!(parse_probability(b"1."), Ok(1000000));
    assert_eq!(parse_probability(b"0.5"), Ok(500000));
    assert_eq!(parse_probability(b".25"), Ok(250000));
    assert_eq!(parse_probability(b"0.333333"), Ok(333333));
    assert_eq!(parse_probability(b"0.000001"), Ok(1));
    assert_eq!(parse_probability(b"00.75"), Ok(750000));
}

#[test]
fn parse_probability_truncates_past_millionths() {
    assert_eq!(parse_probability(b"0.1234567"), Ok(123456));
    assert_eq!(parse_probability(b"0.0000009"), Ok(0));
}

#[test]
fn parse_probability_rejects_out_of_range() {
    // anything above 1.0 is refused before any commit is planned
    assert_eq!(parse_probability(b"1.5"), Err(ConfigError::InvalidProbability));
    assert_eq!(parse_probability(b"2"), Err(ConfigError::InvalidProbability));
    assert_eq!(parse_probability(b"1.000001"), Err(ConfigError::InvalidProbability));
    assert_eq!(parse_probability(b"10"), Err(ConfigError::InvalidProbability));
}

#[test]
fn parse_probability_rejects_malformed() {
    assert_eq!(parse_probability(b""), Err(ConfigError::InvalidProbability));
    assert_eq!(parse_probability(b"."), Err(ConfigError::InvalidProbability));
    assert_eq!(parse_probability(b"0..5"), Err(ConfigError::InvalidProbability));
    assert_eq!(parse_probability(b"-0.5"), Err(ConfigError::InvalidProbability));
    assert_eq!(parse_probability(b"+0.5"), Err(ConfigError::InvalidProbability));
    assert_eq!(parse_probability(b"1e-3"), Err(ConfigError::InvalidProbability));
    assert_eq!(parse_probability(b"0.5 "), Err(ConfigError::InvalidProbability));
}

#[test]
fn config_rejects_zero_max_commits() {
    assert_eq!(ScheduleConfig::new(false, 0, 500000), Err(ConfigError::InvalidMaxCommits));
}

#[test]
fn config_rejects_probability_above_scale() {
    assert_eq!(ScheduleConfig::new(true, 3, 1500000), Err(ConfigError::InvalidProbability));
}

#[test]
fn config_accepts_valid_settings() {
    let cfg = ScheduleConfig::new(true, 4, 250000).unwrap();
    assert!(cfg.workdays_only);
    assert_eq!(cfg.max_commits_per_day, 4);
    assert_eq!(cfg.inclusion_probability, 250000);
}

#[test]
fn config_default_settings() {
    let cfg = ScheduleConfig::default();
    assert!(!cfg.workdays_only);
    assert_eq!(cfg.max_commits_per_day, 3);
    assert_eq!(cfg.inclusion_probability, PROBABILITY_SCALE);
}

#[test]
fn error_descriptions() {
    assert_eq!(
        ConfigError::InvalidProbability.describe(),
        "probability must be between 0.0 and 1.0"
    );
    assert_eq!(
        ConfigError::InvalidMaxCommits.describe(),
        "maximum commits per day must be at least 1"
    );
    assert_eq!(ConfigError::InvalidDate.describe(), "dates must be valid YYYY-MM-DD calendar dates");
}
