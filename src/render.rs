//! Rendering a captured stack as text, one line per shown frame.
use vstd::prelude::*;
use vstd::string::*;
use crate::config::{BacktraceConfig, BacktraceStyle};
use crate::filter::filter_decision;
use crate::name::{Context, format_helper, render};
use crate::text::{contains_seq, contains_text};
use crate::trace::{
    Backtrace, FrameInfo, collect_backtrace, short_begin_marker, short_begin_text,
    short_end_marker, short_end_text, trace_wf,
};

verus! {

broadcast use vstd::string::group_string_axioms;

/// The decimal digits of `n`, most significant first, without leading zeros.
pub open spec fn decimal(n: nat) -> Seq<char>
    decreases n,
{
    if n < 10 {
        seq!["0123456789"@[n as int]]
    } else {
        decimal(n / 10) + seq!["0123456789"@[(n % 10) as int]]
    }
}

/// `n` in decimal, right-aligned in a field of two characters.
pub open spec fn padded(n: nat) -> Seq<char> {
    if n < 10 {
        " "@ + decimal(n)
    } else {
        decimal(n)
    }
}

/// The lines of one shown frame: `{shown:2} [{depth:2}]: {name}`, then
/// `\tat {file}:{line}` when the frame has a position.
pub open spec fn frame_lines(shown: nat, depth: nat, frame: FrameInfo) -> Seq<char> {
    let head = padded(shown) + " ["@ + padded(depth) + "]: "@ + render(frame.name@, Context::Function)
        + "\n"@;
    match frame.file_position {
        Some((file, line)) => head + "\tat "@ + file@ + ":"@ + decimal(line as nat) + "\n"@,
        None => head,
    }
}

/// Whether frames are shown, before filters, at the start of a trace.
pub open spec fn initial_show(style: BacktraceStyle, contains_short_end: bool) -> bool {
    match style {
        BacktraceStyle::Off => false,
        BacktraceStyle::Short => !contains_short_end,
        BacktraceStyle::Full => true,
    }
}

/// The show state once a frame named `name` is reached: a begin marker
/// hides, in the short style.
pub open spec fn show_at(style: BacktraceStyle, name: Seq<char>, show: bool) -> bool {
    if style == BacktraceStyle::Short && contains_seq(name, short_begin_marker()) {
        false
    } else {
        show
    }
}

/// The show state once a frame named `name` is passed: an end marker shows
/// again, in the short style.
pub open spec fn show_after(style: BacktraceStyle, name: Seq<char>, show: bool) -> bool {
    if style == BacktraceStyle::Short && contains_seq(name, short_end_marker()) {
        true
    } else {
        show
    }
}

/// The show state before frame `k` is reached.
pub open spec fn show_before(c: BacktraceConfig, frames: Seq<FrameInfo>, contains_short_end: bool, k: int) -> bool
    decreases k,
{
    if k <= 0 || k > frames.len() {
        initial_show(c.style, contains_short_end)
    } else {
        let name = frames[k - 1].name@;
        show_after(c.style, name, show_at(c.style, name, show_before(c, frames, contains_short_end, k - 1)))
    }
}

/// Whether frame `k` is shown: the filter decides, starting from the show
/// state at that frame.
pub open spec fn frame_shown(c: BacktraceConfig, frames: Seq<FrameInfo>, contains_short_end: bool, k: int) -> bool {
    let name = frames[k].name@;
    filter_decision(c.filter.0@, show_at(c.style, name, show_before(c, frames, contains_short_end, k)), name)
}

/// How many of the first `k` frames are shown.
pub open spec fn shown_count(c: BacktraceConfig, frames: Seq<FrameInfo>, contains_short_end: bool, k: int) -> nat
    decreases k,
{
    if k <= 0 || k > frames.len() {
        0
    } else {
        shown_count(c, frames, contains_short_end, k - 1) + if frame_shown(c, frames, contains_short_end, k - 1) {
            1nat
        } else {
            0nat
        }
    }
}

/// The text of the first `k` frames.
pub open spec fn rendered(c: BacktraceConfig, frames: Seq<FrameInfo>, contains_short_end: bool, k: int) -> Seq<char>
    decreases k,
{
    if k <= 0 || k > frames.len() {
        Seq::empty()
    } else {
        rendered(c, frames, contains_short_end, k - 1) + if frame_shown(c, frames, contains_short_end, k - 1) {
            frame_lines(shown_count(c, frames, contains_short_end, k - 1), (k - 1) as nat, frames[k - 1])
        } else {
            Seq::empty()
        }
    }
}

/// The text of a whole trace.
pub open spec fn trace_text(c: BacktraceConfig, t: Backtrace) -> Seq<char> {
    rendered(c, t.frames@, t.contains_short_end, t.frames@.len() as int)
}

fn digit_text(d: usize) -> (r: &'static str)
    requires
        d < 10,
    ensures
        r@ == seq!["0123456789"@[d as int]],
{
    proof {
        reveal_strlit("0123456789");
    }
    let r = "0123456789".substring_char(d, d + 1);
    assert(r@ =~= seq!["0123456789"@[d as int]]);
    r
}

/// Appends `n` in decimal to `out`.
pub fn push_decimal(out: &mut String, n: usize)
    ensures
        final(out)@ == old(out)@ + decimal(n as nat),
    decreases n,
{
    if n < 10 {
        out.append(digit_text(n));
    } else {
        push_decimal(out, n / 10);
        out.append(digit_text(n % 10));
        assert(final(out)@ =~= old(out)@ + decimal(n as nat));
    }
}

/// Appends `n` right-aligned in two characters to `out`.
pub fn push_padded(out: &mut String, n: usize)
    ensures
        final(out)@ == old(out)@ + padded(n as nat),
{
    if n < 10 {
        out.append(" ");
        push_decimal(out, n);
        assert(final(out)@ =~= old(out)@ + padded(n as nat));
    } else {
        push_decimal(out, n);
    }
}

/// Appends the lines of one shown frame to `out`.
fn push_frame_lines(out: &mut String, shown: usize, depth: usize, frame: &FrameInfo)
    ensures
        final(out)@ == old(out)@ + frame_lines(shown as nat, depth as nat, *frame),
{
    push_padded(out, shown);
    out.append(" [");
    push_padded(out, depth);
    out.append("]: ");
    format_helper(out, frame.name.as_str(), Context::Function);
    out.append("\n");
    match &frame.file_position {
        Some((file, line)) => {
            out.append("\tat ");
            out.append(file.as_str());
            out.append(":");
            push_decimal(out, *line);
            out.append("\n");
        },
        None => {},
    }
    assert(final(out)@ =~= old(out)@ + frame_lines(shown as nat, depth as nat, *frame));
}

/// Renders a captured trace under `config`: the short style hides frames
/// from a begin marker up to the next end marker, then the filter decides,
/// and each shown frame gets its lines.
pub fn render_backtrace(config: &BacktraceConfig, trace: &Backtrace) -> (r: String)
    ensures
        r@ == trace_text(*config, *trace),
{
    let ghost frames = trace.frames@;
    let ghost ce = trace.contains_short_end;
    let begin = short_begin_text();
    let end = short_end_text();
    let short = matches!(config.style, BacktraceStyle::Short);
    let mut show_frames = match config.style {
        BacktraceStyle::Off => false,
        BacktraceStyle::Short => !trace.contains_short_end,
        BacktraceStyle::Full => true,
    };
    let mut out = String::new();
    let mut index: usize = 0;
    let mut real_index: usize = 0;
    while real_index < trace.frames.len()
        invariant
            frames == trace.frames@,
            ce == trace.contains_short_end,
            begin@ == short_begin_marker(),
            end@ == short_end_marker(),
            short == (config.style == BacktraceStyle::Short),
            real_index <= frames.len(),
            index <= real_index,
            show_frames == show_before(*config, frames, ce, real_index as int),
            index == shown_count(*config, frames, ce, real_index as int),
            out@ == rendered(*config, frames, ce, real_index as int),
        decreases frames.len() - real_index,
    {
        let frame = &trace.frames[real_index];
        let name = frame.name.as_str();
        if short && contains_text(name, begin) {
            show_frames = false;
        }
        let shown = config.filter.should_display_frame(show_frames, name);
        if shown {
            push_frame_lines(&mut out, index, real_index, frame);
            index = index + 1;
        }
        if short && contains_text(name, end) {
            show_frames = true;
        }
        real_index = real_index + 1;
    }
    out
}

/// Captures the current stack and renders it under `config`.
pub fn format_backtrace(config: &BacktraceConfig) -> (r: String)
    ensures
        exists|t: Backtrace| trace_wf(t) && r@ == trace_text(*config, t),
{
    let trace = collect_backtrace();
    render_backtrace(config, &trace)
}

proof fn lemma_hidden_run(c: BacktraceConfig, frames: Seq<FrameInfo>, ce: bool, i: int, k: int)
    requires
        c.style == BacktraceStyle::Short,
        0 <= i < k <= frames.len(),
        contains_seq(frames[i].name@, short_begin_marker()),
        forall|m: int| i <= m < k ==> !contains_seq(#[trigger] frames[m].name@, short_end_marker()),
    ensures
        !show_before(c, frames, ce, k),
    decreases k - i,
{
    if k > i + 1 {
        lemma_hidden_run(c, frames, ce, i, k - 1);
    }
}

proof fn lemma_shown_run(c: BacktraceConfig, frames: Seq<FrameInfo>, ce: bool, j: int, k: int)
    requires
        c.style == BacktraceStyle::Short,
        0 <= j < k <= frames.len(),
        contains_seq(frames[j].name@, short_end_marker()),
        forall|m: int| j < m < k ==> !contains_seq(#[trigger] frames[m].name@, short_begin_marker()),
    ensures
        show_before(c, frames, ce, k),
    decreases k - j,
{
    if k > j + 1 {
        lemma_shown_run(c, frames, ce, j, k - 1);
    }
}

/// In the short style with an empty filter, a frame with the begin marker,
/// the next frame with the end marker, and every frame between them are
/// hidden; after the end marker, frames are shown up to the next begin
/// marker.
pub proof fn lemma_short_truncation(c: BacktraceConfig, frames: Seq<FrameInfo>, ce: bool, i: int, j: int)
    requires
        c.style == BacktraceStyle::Short,
        c.filter.0@.len() == 0,
        0 <= i <= j < frames.len(),
        contains_seq(frames[i].name@, short_begin_marker()),
        contains_seq(frames[j].name@, short_end_marker()),
        forall|m: int| i <= m < j ==> !contains_seq(#[trigger] frames[m].name@, short_end_marker()),
    ensures
        forall|k: int| i <= k <= j ==> !frame_shown(c, frames, ce, k),
        forall|k: int|
            j < k < frames.len() && (forall|m: int| j < m <= k ==> !contains_seq(#[trigger] frames[m].name@, short_begin_marker()))
                ==> frame_shown(c, frames, ce, k),
{
    assert forall|k: int| i <= k <= j implies !frame_shown(c, frames, ce, k) by {
        if k > i {
            lemma_hidden_run(c, frames, ce, i, k);
        }
    }
    assert forall|k: int|
        j < k < frames.len() && (forall|m: int| j < m <= k ==> !contains_seq(#[trigger] frames[m].name@, short_begin_marker()))
            implies frame_shown(c, frames, ce, k) by {
        lemma_shown_run(c, frames, ce, j, k);
        assert(!contains_seq(frames[k].name@, short_begin_marker()));
    }
}

} // verus!
