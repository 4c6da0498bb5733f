//! The rendering configuration and its text form.
use vstd::prelude::*;
use vstd::string::*;
use crate::filter::{ConfigError, Filter, FilterClause, Pattern, filter_from_text, filter_text_ok};
use crate::text::{find_char, next_index, text_eq};

verus! {

broadcast use vstd::string::group_string_axioms;

/// How much of a trace is shown before filters apply.
#[derive(Clone, Copy, Debug, PartialEq, Eq)]
pub enum BacktraceStyle {
    /// No frame is shown unless a filter includes it.
    Off,
    /// Frames between the runtime's begin and end markers are hidden.
    Short,
    /// Every frame is shown unless a filter excludes it.
    Full,
}

/// The style that the text `t` names, if any.
pub open spec fn style_from_text(t: Seq<char>) -> Option<BacktraceStyle> {
    if t == "0"@ {
        Some(BacktraceStyle::Off)
    } else if t == "1"@ {
        Some(BacktraceStyle::Short)
    } else if t == "full"@ {
        Some(BacktraceStyle::Full)
    } else {
        None
    }
}

impl BacktraceStyle {
    /// Reads a style: `0` for none, `1` for short, `full` for full.
    pub fn parse(s: &str) -> (r: Result<BacktraceStyle, ConfigError>)
        ensures
            match style_from_text(s@) {
                Some(st) => r == Ok::<BacktraceStyle, ConfigError>(st),
                None => r == Err::<BacktraceStyle, ConfigError>(ConfigError::UnknownStyle),
            },
    {
        if text_eq(s, "0") {
            Ok(BacktraceStyle::Off)
        } else if text_eq(s, "1") {
            Ok(BacktraceStyle::Short)
        } else if text_eq(s, "full") {
            Ok(BacktraceStyle::Full)
        } else {
            Err(ConfigError::UnknownStyle)
        }
    }
}

impl std::str::FromStr for BacktraceStyle {
    type Err = ConfigError;

    fn from_str(s: &str) -> (r: Result<BacktraceStyle, ConfigError>)
        ensures
            match style_from_text(s@) {
                Some(st) => r == Ok::<BacktraceStyle, ConfigError>(st),
                None => r == Err::<BacktraceStyle, ConfigError>(ConfigError::UnknownStyle),
            },
    {
        BacktraceStyle::parse(s)
    }
}

/// A style and a filter.
#[derive(Debug, PartialEq)]
pub struct BacktraceConfig {
    pub style: BacktraceStyle,
    pub filter: Filter,
}

/// The pattern of the default filter: the frames of the stack-walking
/// library itself.
pub open spec fn library_frames() -> Seq<char> {
    "backtrace::"@
}

/// `c` is the default configuration: short style, and a filter that
/// excludes the stack-walking library's own frames.
pub open spec fn is_default_config(c: BacktraceConfig) -> bool {
    &&& c.style == BacktraceStyle::Short
    &&& c.filter.0@.len() == 1
    &&& c.filter.0@[0] matches FilterClause::Exclude(p) && p.0@ == library_frames()
}

/// The configuration text names a style before its first comma: it is not
/// empty, starts with neither `+` nor `-`, and holds a comma.
pub open spec fn has_style_part(s: Seq<char>) -> bool {
    s.len() > 0 && s[0] != '+' && s[0] != '-' && next_index(s, ',', 0) < s.len()
}

/// `r` is what the configuration text `s` describes (see [`BacktraceConfig::parse`]).
pub open spec fn config_from_text(s: Seq<char>, r: Result<BacktraceConfig, ConfigError>) -> bool {
    if s.len() == 0 {
        r matches Ok(c) && is_default_config(c)
    } else if has_style_part(s) {
        let k = next_index(s, ',', 0);
        let head = s.subrange(0, k);
        let tail = s.subrange(k + 1, s.len() as int);
        match style_from_text(head) {
            None => r == Err::<BacktraceConfig, ConfigError>(ConfigError::UnknownStyle),
            Some(st) => if filter_text_ok(tail) {
                r matches Ok(c) && c.style == st && filter_from_text(c.filter, tail)
            } else {
                r == Err::<BacktraceConfig, ConfigError>(ConfigError::BadClause)
            },
        }
    } else if filter_text_ok(s) {
        r matches Ok(c) && c.style == BacktraceStyle::Short && filter_from_text(c.filter, s)
    } else {
        r == Err::<BacktraceConfig, ConfigError>(ConfigError::BadClause)
    }
}

impl BacktraceConfig {
    /// The configuration used when none is given.
    pub fn default_config() -> (r: BacktraceConfig)
        ensures
            is_default_config(r),
    {
        let pattern = Pattern("backtrace::".to_owned());
        BacktraceConfig {
            style: BacktraceStyle::Short,
            filter: Filter(vec![FilterClause::Exclude(pattern)]),
        }
    }

    /// Reads a configuration: empty text gives the default; `style,filter`
    /// where the text starts with neither `+` nor `-` and holds a comma;
    /// otherwise a filter alone, with the short style.
    pub fn parse(s: &str) -> (r: Result<BacktraceConfig, ConfigError>)
        ensures
            config_from_text(s@, r),
    {
        let len = s.unicode_len();
        if len == 0 {
            return Ok(BacktraceConfig::default_config());
        }
        let first = s.get_char(0);
        if first != '+' && first != '-' {
            let k = find_char(s, ',', 0);
            if k < len {
                let style = match BacktraceStyle::parse(s.substring_char(0, k)) {
                    Ok(st) => st,
                    Err(e) => return Err(e),
                };
                let filter = match Filter::parse(s.substring_char(k + 1, len)) {
                    Ok(f) => f,
                    Err(e) => return Err(e),
                };
                return Ok(BacktraceConfig { style, filter });
            }
        }
        match Filter::parse(s) {
            Ok(filter) => Ok(BacktraceConfig { style: BacktraceStyle::Short, filter }),
            Err(e) => Err(e),
        }
    }
}

impl Default for BacktraceConfig {
    fn default() -> (r: BacktraceConfig)
        ensures
            is_default_config(r),
    {
        BacktraceConfig::default_config()
    }
}

impl std::str::FromStr for BacktraceConfig {
    type Err = ConfigError;

    fn from_str(s: &str) -> (r: Result<BacktraceConfig, ConfigError>)
        ensures
            config_from_text(s@, r),
    {
        BacktraceConfig::parse(s)
    }
}

} // verus!
