use better_backtrace::{
    format_backtrace, render_backtrace, Backtrace, BacktraceConfig, BacktraceStyle,
    collect_backtrace, Filter, FilterClause, FrameInfo, Pattern, SymbolInfo,
};

fn frame(name: &str) -> FrameInfo {
    FrameInfo { name: name.to_string(), file_position: None }
}

fn config(style: BacktraceStyle, filter: Vec<FilterClause>) -> BacktraceConfig {
    BacktraceConfig { style, filter: Filter(filter) }
}

#[test]
fn short_style_hides_marked_range() {
    let trace = Backtrace::from_frames(vec![
        frame("a"),
        frame("std::sys::__rust_begin_short_backtrace"),
        frame("b"),
        frame("std::rt::__rust_end_short_backtrace"),
        frame("c"),
        frame("d"),
    ]);
    assert!(trace.contains_short_end);
    let text = render_backtrace(&config(BacktraceStyle::Short, vec![]), &trace);
    assert_eq!(text, " 0 [ 4]: fn c\n 1 [ 5]: fn d\n");
}

#[test]
fn short_style_without_end_marker_shows_until_begin() {
    let trace = Backtrace::from_frames(vec![
        frame("a"),
        frame("x::__rust_begin_short_backtrace"),
        frame("b"),
    ]);
    assert!(!trace.contains_short_end);
    let text = render_backtrace(&config(BacktraceStyle::Short, vec![]), &trace);
    assert_eq!(text, " 0 [ 0]: fn a\n");
}

#[test]
fn filter_overrides_style() {
    let trace = Backtrace::from_frames(vec![frame("keep::me"), frame("drop::me"), frame("other")]);
    let text = render_backtrace(
        &config(BacktraceStyle::Off, vec![FilterClause::Include(Pattern("keep".into()))]),
        &trace,
    );
    assert_eq!(text, " 0 [ 0]: fn keep::me\n");
    let text = render_backtrace(
        &config(BacktraceStyle::Full, vec![FilterClause::Exclude(Pattern("drop".into()))]),
        &trace,
    );
    assert_eq!(text, " 0 [ 0]: fn keep::me\n 1 [ 2]: fn other\n");
}

#[test]
fn begin_marker_hides_even_included_frames() {
    let trace = Backtrace::from_frames(vec![
        frame("x::__rust_begin_short_backtrace"),
        frame("user::f"),
        frame("y::__rust_end_short_backtrace"),
        frame("user::g"),
    ]);
    let text = render_backtrace(
        &config(BacktraceStyle::Short, vec![FilterClause::Include(Pattern("user".into()))]),
        &trace,
    );
    assert_eq!(text, " 0 [ 1]: fn user::f\n 1 [ 3]: fn user::g\n");
}

#[test]
fn file_position_line() {
    let trace = Backtrace::from_frames(vec![FrameInfo {
        name: "m::async_fn$0".to_string(),
        file_position: Some(("src/main.rs".to_string(), 42)),
    }]);
    let text = render_backtrace(&config(BacktraceStyle::Full, vec![]), &trace);
    assert_eq!(text, " 0 [ 0]: async fn m\n\tat src/main.rs:42\n");
}

#[test]
fn wide_indices() {
    let frames: Vec<FrameInfo> = (0..12).map(|i| frame(&format!("f{}", i))).collect();
    let trace = Backtrace::from_frames(frames);
    let text = render_backtrace(
        &config(BacktraceStyle::Full, vec![FilterClause::Exclude(Pattern("f1".into()))]),
        &trace,
    );
    assert_eq!(
        text,
        " 0 [ 0]: fn f0\n 1 [ 2]: fn f2\n 2 [ 3]: fn f3\n 3 [ 4]: fn f4\n 4 [ 5]: fn f5\n 5 [ 6]: fn f6\n 6 [ 7]: fn f7\n 7 [ 8]: fn f8\n 8 [ 9]: fn f9\n"
    );
    let text = render_backtrace(&config(BacktraceStyle::Full, vec![]), &trace);
    assert!(text.ends_with("10 [10]: fn f10\n11 [11]: fn f11\n"));
}

#[test]
fn frame_from_symbols() {
    let none = FrameInfo::from_symbols(&vec![]);
    assert_eq!(none, FrameInfo { name: "<unknown>".to_string(), file_position: None });
    let symbols = vec![
        SymbolInfo { name: Some("inner".to_string()), file: Some("a.rs".to_string()), line: Some(3) },
        SymbolInfo { name: Some("outer".to_string()), file: Some("b.rs".to_string()), line: None },
    ];
    assert_eq!(
        FrameInfo::from_symbols(&symbols),
        FrameInfo { name: "outer".to_string(), file_position: Some(("a.rs".to_string(), 3)) }
    );
    let nameless = vec![SymbolInfo { name: None, file: None, line: None }];
    assert_eq!(
        FrameInfo::from_symbols(&nameless),
        FrameInfo { name: "<unknown>".to_string(), file_position: None }
    );
}

#[test]
fn captured_trace_is_consistent() {
    let trace = collect_backtrace();
    assert!(!trace.frames.is_empty());
    let any_end = trace.frames.iter().any(|f| f.name.contains("__rust_end_short_backtrace"));
    assert_eq!(trace.contains_short_end, any_end);
    let text = format_backtrace(&config(BacktraceStyle::Full, vec![]));
    assert!(text.starts_with(" 0 [ 0]: "));
}

#[test]
fn trace_from_symbol_lists() {
    let lists = vec![
        vec![SymbolInfo {
            name: Some("x::__rust_end_short_backtrace".to_string()),
            file: Some("x.rs".to_string()),
            line: Some(7),
        }],
        vec![],
    ];
    let trace = Backtrace::from_symbol_lists(&lists);
    assert!(trace.contains_short_end);
    assert_eq!(
        trace.frames,
        vec![
            FrameInfo {
                name: "x::__rust_end_short_backtrace".to_string(),
                file_position: Some(("x.rs".to_string(), 7)),
            },
            FrameInfo { name: "<unknown>".to_string(), file_position: None },
        ]
    );
    let empty = Backtrace::from_symbol_lists(&vec![]);
    assert!(empty.frames.is_empty());
    assert!(!empty.contains_short_end);
}
