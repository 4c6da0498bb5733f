use std::str::FromStr;

use better_backtrace::{
    BacktraceConfig, BacktraceStyle, ConfigError, Filter, FilterClause, Pattern,
};

#[test]
fn parse_filter_str() {
    let filter = Filter::from_str("+foo,-bar,+bar::baz").unwrap();
    assert_eq!(
        filter,
        Filter(vec![
            FilterClause::Include(Pattern("foo".into())),
            FilterClause::Exclude(Pattern("bar".into())),
            FilterClause::Include(Pattern("bar::baz".into()))
        ])
    )
}

#[test]
fn parse_config_1() {
    let config = BacktraceConfig::from_str("0,+foo").unwrap();
    assert_eq!(
        config,
        BacktraceConfig {
            style: BacktraceStyle::Off,
            filter: Filter(vec![FilterClause::Include(Pattern("foo".into()))])
        }
    )
}

#[test]
fn parse_config_2() {
    let config = BacktraceConfig::from_str("+foo").unwrap();
    assert_eq!(
        config,
        BacktraceConfig {
            style: BacktraceStyle::Short,
            filter: Filter(vec![FilterClause::Include(Pattern("foo".into()))])
        }
    )
}

#[test]
fn filter_frames() {
    let filter = Filter::from_str("+foo,-bar,+bar::baz").unwrap();

    assert!(filter.should_display_frame(false, "foo"));
    assert!(filter.should_display_frame(false, "bar::baz"));
    assert!(!filter.should_display_frame(false, "baz::bar"));
}

#[test]
fn empty_config_is_default() {
    let config = BacktraceConfig::from_str("").unwrap();
    assert_eq!(
        config,
        BacktraceConfig {
            style: BacktraceStyle::Short,
            filter: Filter(vec![FilterClause::Exclude(Pattern("backtrace::".into()))])
        }
    );
    assert_eq!(config, BacktraceConfig::default());
}

#[test]
fn config_styles() {
    assert_eq!(BacktraceStyle::from_str("0"), Ok(BacktraceStyle::Off));
    assert_eq!(BacktraceStyle::from_str("1"), Ok(BacktraceStyle::Short));
    assert_eq!(BacktraceStyle::from_str("full"), Ok(BacktraceStyle::Full));
    assert_eq!(BacktraceStyle::from_str("2"), Err(ConfigError::UnknownStyle));
    let config = BacktraceConfig::from_str("full,-a,+a::b").unwrap();
    assert_eq!(config.style, BacktraceStyle::Full);
    assert_eq!(
        config.filter,
        Filter(vec![
            FilterClause::Exclude(Pattern("a".into())),
            FilterClause::Include(Pattern("a::b".into()))
        ])
    );
}

#[test]
fn config_errors() {
    assert_eq!(BacktraceConfig::from_str("2,+foo"), Err(ConfigError::UnknownStyle));
    assert_eq!(BacktraceConfig::from_str("0,foo"), Err(ConfigError::BadClause));
    assert_eq!(BacktraceConfig::from_str("+foo,,-bar"), Err(ConfigError::BadClause));
    assert_eq!(BacktraceConfig::from_str("full"), Err(ConfigError::BadClause));
    assert_eq!(BacktraceConfig::from_str("+foo,"), Err(ConfigError::BadClause));
    assert_eq!(Filter::from_str(""), Err(ConfigError::BadClause));
    assert_eq!(Filter::from_str("*foo"), Err(ConfigError::BadClause));
}

#[test]
fn bare_sigil_matches_everything() {
    let filter = Filter::from_str("-").unwrap();
    assert_eq!(filter, Filter(vec![FilterClause::Exclude(Pattern("".into()))]));
    assert!(!filter.should_display_frame(true, "anything"));
    assert!(!filter.should_display_frame(true, ""));
}

#[test]
fn last_match_wins() {
    let include_then_exclude = Filter(vec![
        FilterClause::Include(Pattern("foo".into())),
        FilterClause::Exclude(Pattern("foo".into())),
    ]);
    assert!(!include_then_exclude.should_display_frame(false, "foobar"));
    assert!(!include_then_exclude.should_display_frame(true, "foobar"));
    let exclude_then_include = Filter(vec![
        FilterClause::Exclude(Pattern("foo".into())),
        FilterClause::Include(Pattern("foo".into())),
    ]);
    assert!(exclude_then_include.should_display_frame(false, "foobar"));
    assert!(exclude_then_include.should_display_frame(true, "foobar"));
}

#[test]
fn unmatched_name_keeps_default() {
    let filter = Filter::from_str("+foo,-bar").unwrap();
    assert!(filter.should_display_frame(true, "baz"));
    assert!(!filter.should_display_frame(false, "baz"));
    assert!(Filter(vec![]).should_display_frame(true, "x"));
}

#[test]
fn decision_is_repeatable() {
    let filter = Filter::from_str("+foo,-foo::bar").unwrap();
    for name in ["foo", "foo::bar", "baz", ""] {
        for default in [false, true] {
            assert_eq!(
                filter.should_display_frame(default, name),
                filter.should_display_frame(default, name)
            );
        }
    }
}

#[test]
fn pattern_is_a_prefix() {
    assert!(Pattern("bar".into()).matches("bar::baz"));
    assert!(!Pattern("bar::baz".into()).matches("bar"));
    assert!(Pattern("".into()).matches(""));
    assert!(!Pattern("baz".into()).matches("bar::baz"));
}

#[test]
fn clause_verdicts() {
    let shown = FilterClause::Include(Pattern("a".into()));
    let hidden = FilterClause::Exclude(Pattern("a".into()));
    assert_eq!(shown.should_display_frame("ab"), Some(true));
    assert_eq!(hidden.should_display_frame("ab"), Some(false));
    assert_eq!(shown.should_display_frame("b"), None);
}
