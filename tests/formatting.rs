use better_backtrace::{format_frame_name, is_async, split_brackets, Context};

#[test]
fn format_frame_simple() {
    assert_eq!(
        format_frame_name("core::panicking::panic"),
        "fn core::panicking::panic"
    )
}

#[test]
fn format_frame_async() {
    assert_eq!(
        format_frame_name("async_backtrace::bar::async_fn$0"),
        "async fn async_backtrace::bar"
    )
}

#[test]
fn format_frame_nested() {
    assert_eq!(
        format_frame_name(
            "core::future::from_generator::impl$1::poll<async_backtrace::foo::async_fn_env$0>"
        ),
        "fn core::future::from_generator::impl$1::poll<async fn async_backtrace::foo>"
    )
}

#[test]
fn format_frame_nested2() {
    assert_eq!(format_frame_name("async_backtrace::block_on<tuple$<>,core::future::from_generator::GenFuture<async_backtrace::foo::async_fn_env$0> >"),
    "fn async_backtrace::block_on<tuple$<>,core::future::from_generator::GenFuture<async fn async_backtrace::foo> >")
}

#[test]
fn split_brackets_flat() {
    assert_eq!(split_brackets("A<B>C"), Some(("A", "B", "C")));
    assert_eq!(split_brackets("<B>C"), Some(("", "B", "C")));
    assert_eq!(split_brackets("A<>C"), Some(("A", "", "C")));
    assert_eq!(split_brackets("A<B>"), Some(("A", "B", "")));
}

#[test]
fn split_brackets_nested() {
    assert_eq!(split_brackets("A<B<C>D>E"), Some(("A", "B<C>D", "E")));
}

#[test]
fn split_brackets_none() {
    assert_eq!(split_brackets("abc"), None);
}

#[test]
fn split_brackets_two_pairs() {
    assert_eq!(
        split_brackets("tuple$<>,core::future::from_generator::GenFuture<async_backtrace::foo::async_fn_env$0> "),
        Some(("tuple$", "", ",core::future::from_generator::GenFuture<async_backtrace::foo::async_fn_env$0> ")));
}

#[test]
fn split_brackets_unbalanced() {
    assert_eq!(split_brackets("A<B"), None);
    assert_eq!(split_brackets("A<B>>C"), None);
    assert_eq!(split_brackets("A>B"), None);
}

#[test]
fn plain_names_get_fn_prefix() {
    assert_eq!(format_frame_name(""), "fn ");
    assert_eq!(format_frame_name("a::b::c"), "fn a::b::c");
    assert_eq!(format_frame_name("impl$1::poll"), "fn impl$1::poll");
    assert_eq!(format_frame_name("x::async_fn$y"), "fn x::async_fn$y");
}

#[test]
fn unbalanced_name_is_printed_literally() {
    assert_eq!(format_frame_name("a<b"), "fn a<b");
}

#[test]
fn empty_generic_list() {
    assert_eq!(format_frame_name("Foo<>"), "fn Foo<>");
}

#[test]
fn async_marker_with_other_suffixes() {
    assert_eq!(format_frame_name("m::async_fn$12"), "async fn m");
    assert_eq!(format_frame_name("m::async_fn$-3"), "fn m::async_fn$-3");
    assert_eq!(format_frame_name("m::async_fn$+3"), "fn m::async_fn$+3");
    assert_eq!(format_frame_name("m::async_fn$99999999999"), "async fn m");
    assert_eq!(format_frame_name("m::async_fn$2147483648"), "async fn m");
    assert_eq!(format_frame_name("m::async_fn$"), "fn m::async_fn$");
}

#[test]
fn state_marker_only_in_type_position() {
    assert_eq!(format_frame_name("m::async_fn_env$0"), "fn m::async_fn_env$0");
    assert_eq!(format_frame_name("f<m::async_fn$0>"), "fn f<m::async_fn$0>");
}

#[test]
fn sibling_arguments_each_checked() {
    assert_eq!(
        format_frame_name("f<g<a::async_fn_env$0>,h<b::async_fn_env$2>>"),
        "fn f<g<async fn a>,h<async fn b>>"
    );
}

#[test]
fn is_async_detects_markers() {
    assert_eq!(is_async("a::async_fn$0", Context::Function), Some("a"));
    assert_eq!(is_async("a::async_fn$0", Context::Type), None);
    assert_eq!(is_async("a::async_fn_env$0", Context::Type), Some("a"));
    assert_eq!(is_async("a::async_fn_env$0", Context::Function), None);
    assert_eq!(is_async("a::b", Context::Function), None);
    assert_eq!(is_async("a::async_fn$+1", Context::Function), None);
    assert_eq!(is_async("a::async_fn$1x", Context::Function), None);
    assert_eq!(is_async("a::async_fn_env$2147483648", Context::Type), Some("a"));
    assert_eq!(is_async("x<T>::async_fn$0", Context::Function), Some(""));
    assert_eq!(is_async("a::async_fn$0<T>", Context::Function), Some("a"));
}
