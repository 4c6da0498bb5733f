//! Captured stacks: the frames of the current call stack, walked and
//! resolved through the `backtrace` crate.
use vstd::prelude::*;
use vstd::string::*;
use crate::text::{contains_seq, contains_text};

verus! {

broadcast use vstd::string::group_string_axioms;

/// `backtrace::Frame`, one frame of a walked stack, carried through opaque.
#[verifier::external_type_specification]
#[verifier::external_body]
pub struct ExFrame(backtrace::Frame);

/// What resolution reports of one symbol at a frame's address.
#[derive(Debug, PartialEq)]
pub struct SymbolInfo {
    pub name: Option<String>,
    pub file: Option<String>,
    pub line: Option<u32>,
}

/// One frame of a captured stack.
#[derive(Debug, PartialEq)]
pub struct FrameInfo {
    pub name: String,
    /// (file name, line number)
    pub file_position: Option<(String, usize)>,
}

/// A captured stack, innermost frame first.
#[derive(Debug, PartialEq)]
pub struct Backtrace {
    pub frames: Vec<FrameInfo>,
    pub contains_short_end: bool,
}

/// The text in the name of the frame where the runtime hands over to user
/// code; frames below it are runtime machinery.
pub open spec fn short_begin_marker() -> Seq<char> {
    "__rust_begin_short_backtrace"@
}

/// The text in the name of the frame where user code hands back to the
/// runtime.
pub open spec fn short_end_marker() -> Seq<char> {
    "__rust_end_short_backtrace"@
}

pub(crate) fn short_begin_text() -> (r: &'static str)
    ensures
        r@ == short_begin_marker(),
{
    "__rust_begin_short_backtrace"
}

pub(crate) fn short_end_text() -> (r: &'static str)
    ensures
        r@ == short_end_marker(),
{
    "__rust_end_short_backtrace"
}

/// Some frame of `frames` has the end marker in its name.
pub open spec fn any_short_end(frames: Seq<FrameInfo>) -> bool {
    exists|i: int| 0 <= i < frames.len() && contains_seq(#[trigger] frames[i].name@, short_end_marker())
}

/// `t` records truthfully whether any of its frames has the end marker.
pub open spec fn trace_wf(t: Backtrace) -> bool {
    t.contains_short_end == any_short_end(t.frames@)
}

/// The name of a frame: that of its last symbol, or `<unknown>` when that
/// symbol has none or there is no symbol.
pub open spec fn name_of_symbols(symbols: Seq<SymbolInfo>) -> Seq<char> {
    if symbols.len() > 0 && symbols.last().name is Some {
        symbols.last().name->0@
    } else {
        "<unknown>"@
    }
}

/// The position of a frame: the file and line of the last symbol that has
/// both.
pub open spec fn position_of_symbols(symbols: Seq<SymbolInfo>) -> Option<(Seq<char>, nat)>
    decreases symbols.len(),
{
    if symbols.len() == 0 {
        None
    } else if symbols.last().file is Some && symbols.last().line is Some {
        Some((symbols.last().file->0@, symbols.last().line->0 as nat))
    } else {
        position_of_symbols(symbols.drop_last())
    }
}

/// `f` is the frame that the resolved `symbols` describe.
pub open spec fn frame_from_symbols(f: FrameInfo, symbols: Seq<SymbolInfo>) -> bool {
    &&& f.name@ == name_of_symbols(symbols)
    &&& match f.file_position {
        Some((file, line)) => position_of_symbols(symbols) == Some((file@, line as nat)),
        None => position_of_symbols(symbols) is None,
    }
}

/// Relies on `backtrace::trace`: it calls back once for each frame of the
/// current stack, innermost first, until the callback returns `false`; here
/// it always returns `true`, so every frame is kept.
#[verifier::external_body]
fn stack_frames() -> Vec<backtrace::Frame> {
    let mut frames = Vec::new();
    backtrace::trace(|frame| {
        frames.push(frame.clone());
        true
    });
    frames
}

/// Relies on `backtrace::resolve_frame`: it calls back with each symbol found
/// at the frame's address, never when resolution fails and more than once for
/// inlined functions. Each symbol's name, file and line are copied out.
#[verifier::external_body]
fn frame_symbols(frame: &backtrace::Frame) -> Vec<SymbolInfo> {
    let mut symbols = Vec::new();
    backtrace::resolve_frame(frame, |sym| {
        symbols.push(SymbolInfo {
            name: sym.name().map(|n| n.to_string()),
            file: sym.filename().map(|p| p.display().to_string()),
            line: sym.lineno(),
        })
    });
    symbols
}

impl FrameInfo {
    /// The frame that the resolved symbols describe.
    pub fn from_symbols(symbols: &Vec<SymbolInfo>) -> (r: FrameInfo)
        ensures
            frame_from_symbols(r, symbols@),
    {
        let n = symbols.len();
        let name = if n > 0 {
            match &symbols[n - 1].name {
                Some(s) => s.clone(),
                None => "<unknown>".to_owned(),
            }
        } else {
            "<unknown>".to_owned()
        };
        let mut file_position: Option<(String, usize)> = None;
        let mut i: usize = n;
        assert(symbols@.subrange(0, n as int) =~= symbols@);
        while i > 0 && file_position.is_none()
            invariant
                n == symbols@.len(),
                i <= n,
                file_position is None ==> position_of_symbols(symbols@.subrange(0, i as int))
                    == position_of_symbols(symbols@),
                file_position matches Some((file, line)) ==> position_of_symbols(symbols@)
                    == Some((file@, line as nat)),
            decreases i,
        {
            let ghost prefix = symbols@.subrange(0, i as int);
            assert(prefix.drop_last() =~= symbols@.subrange(0, i - 1));
            match (&symbols[i - 1].file, symbols[i - 1].line) {
                (Some(file), Some(line)) => {
                    file_position = Some((file.clone(), line as usize));
                },
                _ => {},
            }
            i = i - 1;
        }
        FrameInfo { name, file_position }
    }

    /// Resolves one frame of the current stack.
    pub fn from_frame(frame: &backtrace::Frame) -> (r: FrameInfo)
        ensures
            exists|symbols: Seq<SymbolInfo>| frame_from_symbols(r, symbols),
    {
        let symbols = frame_symbols(frame);
        FrameInfo::from_symbols(&symbols)
    }
}

impl Backtrace {
    /// A trace of the given frames, noting whether any has the end marker.
    pub fn from_frames(frames: Vec<FrameInfo>) -> (r: Backtrace)
        ensures
            r.frames@ == frames@,
            trace_wf(r),
    {
        let end = short_end_text();
        let mut contains_short_end = false;
        let mut i: usize = 0;
        while i < frames.len()
            invariant
                i <= frames@.len(),
                end@ == short_end_marker(),
                contains_short_end == exists|j: int| 0 <= j < i && contains_seq(#[trigger] frames@[j].name@, short_end_marker()),
            decreases frames@.len() - i,
        {
            if contains_text(frames[i].name.as_str(), end) {
                contains_short_end = true;
            }
            i = i + 1;
        }
        Backtrace { frames, contains_short_end }
    }
}

/// `t` holds one frame per resolved symbol list, in order, each the frame
/// that its list describes.
pub open spec fn trace_from_symbols(t: Backtrace, lists: Seq<Seq<SymbolInfo>>) -> bool {
    &&& t.frames@.len() == lists.len()
    &&& forall|k: int| 0 <= k < lists.len() ==> frame_from_symbols(#[trigger] t.frames@[k], lists[k])
}

impl Backtrace {
    /// A trace with one frame for each resolved symbol list, in order.
    pub fn from_symbol_lists(lists: &Vec<Vec<SymbolInfo>>) -> (r: Backtrace)
        ensures
            trace_from_symbols(r, lists@.map_values(|l: Vec<SymbolInfo>| l@)),
            trace_wf(r),
    {
        let ghost views = lists@.map_values(|l: Vec<SymbolInfo>| l@);
        let mut frames: Vec<FrameInfo> = Vec::new();
        let mut i: usize = 0;
        while i < lists.len()
            invariant
                i <= lists@.len(),
                views == lists@.map_values(|l: Vec<SymbolInfo>| l@),
                frames@.len() == i,
                forall|k: int| 0 <= k < i ==> frame_from_symbols(#[trigger] frames@[k], views[k]),
            decreases lists@.len() - i,
        {
            frames.push(FrameInfo::from_symbols(&lists[i]));
            i = i + 1;
        }
        Backtrace::from_frames(frames)
    }
}

/// Captures the current call stack: one frame for each frame that the walk
/// reports, innermost first, each resolved from its symbols.
pub fn collect_backtrace() -> (r: Backtrace)
    ensures
        trace_wf(r),
        exists|lists: Seq<Seq<SymbolInfo>>| trace_from_symbols(r, lists),
{
    let stack = stack_frames();
    let mut lists: Vec<Vec<SymbolInfo>> = Vec::new();
    let mut i: usize = 0;
    while i < stack.len()
        invariant
            i <= stack@.len(),
        decreases stack@.len() - i,
    {
        lists.push(frame_symbols(&stack[i]));
        i = i + 1;
    }
    Backtrace::from_symbol_lists(&lists)
}

} // verus!
