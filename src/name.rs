//! Turning compiler-emitted symbol names into readable declarations.
//!
//! Names of suspendable functions and of the state types generated for them
//! carry a marker (`::async_fn$N` for the function, `::async_fn_env$N` for its
//! state type); generic argument lists nest inside `<` and `>`.
use vstd::prelude::*;
use vstd::string::*;
use crate::text::{
    ends_with_seq, ends_with_text, find_char, lemma_next_index_bounds, lemma_prev_index_bounds,
    next_index, prev_index, rfind_char,
};

verus! {

broadcast use vstd::string::group_string_axioms;

/// Whether a name is being rendered as the frame's function or as a type
/// inside a generic argument list.
#[derive(Clone, Copy, Debug, PartialEq, Eq)]
pub enum Context {
    Function,
    Type,
}

/// Change of bracket nesting caused by one character.
pub open spec fn depth_step(c: char) -> int {
    if c == '<' {
        1
    } else if c == '>' {
        -1
    } else {
        0
    }
}

/// Bracket nesting depth before index `i`: the `<` seen minus the `>` seen.
pub open spec fn depth(s: Seq<char>, i: int) -> int
    decreases i,
{
    if i <= 0 || i > s.len() {
        0
    } else {
        depth(s, i - 1) + depth_step(s[i - 1])
    }
}

/// The first index `j >= i` holding a `>` that brings the depth from 1 back
/// to 0, or `s.len()` when there is none.
pub open spec fn close_index(s: Seq<char>, i: int) -> int
    decreases s.len() - i,
{
    if i < 0 || i >= s.len() {
        s.len() as int
    } else if s[i] == '>' && depth(s, i) == 1 {
        i
    } else {
        close_index(s, i + 1)
    }
}

/// The outermost generic argument list of `s`: the text before the first `<`,
/// the text inside it up to its matching `>`, and the text after. `None` when
/// there is no such pair, or when the brackets of `s` do not balance overall.
pub open spec fn split_spec(s: Seq<char>) -> Option<(Seq<char>, Seq<char>, Seq<char>)> {
    let o = next_index(s, '<', 0);
    let c = close_index(s, o + 1);
    if o < c && c < s.len() && depth(s, s.len() as int) == 0 {
        Some((s.subrange(0, o), s.subrange(o + 1, c), s.subrange(c + 1, s.len() as int)))
    } else {
        None
    }
}

pub proof fn lemma_close_index_bounds(s: Seq<char>, i: int)
    requires
        0 <= i <= s.len(),
    ensures
        i <= close_index(s, i) <= s.len(),
    decreases s.len() - i,
{
    if i < s.len() && !(s[i] == '>' && depth(s, i) == 1) {
        lemma_close_index_bounds(s, i + 1);
    }
}

/// Each of the three parts of a split is shorter than the whole.
pub proof fn lemma_split_shorter(s: Seq<char>)
    ensures
        split_spec(s) matches Some((a, b, c)) ==> a.len() < s.len() && b.len() < s.len()
            && c.len() < s.len() && a.len() + b.len() + c.len() + 2 == s.len(),
{
    lemma_next_index_bounds(s, '<', 0);
}

/// Splits a name like `A<B>C` into `("A", "B", "C")`; `B` and `C` may hold
/// further brackets.
pub fn split_brackets(s: &str) -> (r: Option<(&str, &str, &str)>)
    ensures
        match r {
            Some((a, b, c)) => split_spec(s@) == Some((a@, b@, c@)),
            None => split_spec(s@) is None,
        },
{
    let len = s.unicode_len();
    let o = find_char(s, '<', 0);
    if o == len {
        return None;
    }
    let ghost start = o + 1;
    let mut opens: usize = 0;
    let mut closes: usize = 0;
    let mut close: usize = len;
    let mut i: usize = 0;
    while i < len
        invariant
            len == s@.len(),
            o < len,
            start == o + 1,
            i <= len,
            opens + closes <= i,
            close <= len,
            opens - closes == depth(s@, i as int),
            close == len ==> close_index(s@, start) == close_index(s@, if i > o { i as int } else { start }),
            close < len ==> close == close_index(s@, start),
        decreases len - i,
    {
        let ch = s.get_char(i);
        if ch == '>' && close == len && i > o && opens == closes + 1 {
            close = i;
        }
        if ch == '<' {
            opens = opens + 1;
        } else if ch == '>' {
            closes = closes + 1;
        }
        i = i + 1;
    }
    proof {
        lemma_close_index_bounds(s@, start);
    }
    if close == len || opens != closes {
        return None;
    }
    assert(o < close);
    Some((s.substring_char(0, o), s.substring_char(o + 1, close), s.substring_char(close + 1, len)))
}

/// Whether `c` is an ASCII decimal digit.
pub open spec fn is_digit(c: char) -> bool {
    '0' <= c && c <= '9'
}

/// `t` is a non-empty run of ASCII decimal digits, with nothing else.
pub open spec fn is_digits_text(t: Seq<char>) -> bool {
    t.len() > 0 && forall|i: int| 0 <= i < t.len() ==> is_digit(#[trigger] t[i])
}

/// Whether `t` is a non-empty run of decimal digits.
pub fn all_digits(t: &str) -> (r: bool)
    ensures
        r == is_digits_text(t@),
{
    let len = t.unicode_len();
    if len == 0 {
        return false;
    }
    let mut i: usize = 0;
    while i < len
        invariant
            len == t@.len(),
            i <= len,
            forall|j: int| 0 <= j < i ==> is_digit(#[trigger] t@[j]),
        decreases len - i,
    {
        let c = t.get_char(i);
        if !('0' <= c && c <= '9') {
            assert(!is_digit(t@[i as int]));
            return false;
        }
        i = i + 1;
    }
    true
}

/// The marker that ends the base name of a suspendable function (in function
/// position) or of the state type generated for it (in type position), before
/// its `$N` suffix.
pub open spec fn async_marker(context: Context) -> Seq<char> {
    match context {
        Context::Function => "::async_fn"@,
        Context::Type => "::async_fn_env"@,
    }
}

fn marker_text(context: Context) -> (r: &'static str)
    ensures
        r@ == async_marker(context),
{
    match context {
        Context::Function => "::async_fn",
        Context::Type => "::async_fn_env",
    }
}

/// The part of `s` that is tested for the marker: with a generic argument
/// list, the text after it, or the text before it when nothing follows.
pub open spec fn marker_candidate(s: Seq<char>) -> Seq<char> {
    match split_spec(s) {
        Some((a, _, c)) => if c.len() == 0 { a } else { c },
        None => s,
    }
}

/// The name of a suspendable function or state type with its marker taken
/// off, or `None` when `s` does not carry the marker of `context`.
pub open spec fn async_base(s: Seq<char>, context: Context) -> Option<Seq<char>> {
    let f = marker_candidate(s);
    let k = prev_index(f, '$', f.len() as int);
    let begin = f.subrange(0, k);
    let m = async_marker(context);
    if k >= 0 && is_digits_text(f.subrange(k + 1, f.len() as int)) && ends_with_seq(begin, m) {
        Some(begin.subrange(0, begin.len() - m.len()))
    } else {
        None
    }
}

/// A base name is never longer than the name it came from.
pub proof fn lemma_async_base_shorter(s: Seq<char>, context: Context)
    ensures
        async_base(s, context) matches Some(b) ==> b.len() < s.len(),
{
    lemma_split_shorter(s);
    let f = marker_candidate(s);
    lemma_prev_index_bounds(f, '$', f.len() as int);
}

/// Returns `None` if the name does not carry the marker of a suspendable
/// function (for `context`), otherwise the name with the marker trimmed off.
pub fn is_async(frame: &str, context: Context) -> (r: Option<&str>)
    ensures
        match r {
            Some(b) => async_base(frame@, context) == Some(b@),
            None => async_base(frame@, context) is None,
        },
{
    let f = match split_brackets(frame) {
        Some((a, _, c)) => if c.is_empty() { a } else { c },
        None => frame,
    };
    assert(f@ == marker_candidate(frame@));
    let len = f.unicode_len();
    let k = match rfind_char(f, '$') {
        Some(k) => k,
        None => return None,
    };
    proof {
        lemma_prev_index_bounds(f@, '$', len as int);
    }
    let begin = f.substring_char(0, k);
    let suffix = f.substring_char(k + 1, len);
    if !all_digits(suffix) {
        return None;
    }
    let m = marker_text(context);
    if !ends_with_text(begin, m) {
        return None;
    }
    Some(begin.substring_char(0, begin.unicode_len() - m.unicode_len()))
}

/// What precedes a rendered name: `async fn ` for a suspendable function or
/// state type, `fn ` for any other function, nothing for any other type.
pub open spec fn name_prefix(suspend: bool, context: Context) -> Seq<char> {
    if suspend {
        "async fn "@
    } else if context == Context::Function {
        "fn "@
    } else {
        Seq::empty()
    }
}

/// The readable form of the name `s` in `context`.
pub open spec fn render(s: Seq<char>, context: Context) -> Seq<char>
    decreases s.len(), 0nat,
{
    let base = match async_base(s, context) {
        Some(b) => b,
        None => s,
    };
    let prefix = name_prefix(async_base(s, context) is Some, context);
    proof {
        lemma_async_base_shorter(s, context);
        lemma_split_shorter(base);
    }
    match split_spec(base) {
        Some((a, b, c)) => match context {
            Context::Function => prefix + a + "<"@ + render(b, Context::Type) + ">"@ + c,
            Context::Type => render_list(a) + "<"@ + render(b, Context::Type) + ">"@
                + render_list(c),
        },
        None => prefix + base,
    }
}

/// The readable form of a comma-separated list of types: each element is
/// rendered in type position, and the commas are kept.
pub open spec fn render_list(s: Seq<char>) -> Seq<char>
    decreases s.len(), 1nat,
{
    let k = next_index(s, ',', 0);
    proof {
        lemma_next_index_bounds(s, ',', 0);
    }
    if k < s.len() {
        render(s.subrange(0, k), Context::Type) + ","@ + render_list(s.subrange(k + 1, s.len() as int))
    } else {
        render(s, Context::Type)
    }
}

/// A helper that is called recursively to format frame names: appends the
/// readable form of `frame` to `out`.
pub fn format_helper(out: &mut String, frame: &str, context: Context)
    ensures
        final(out)@ == old(out)@ + render(frame@, context),
    decreases frame@.len(), 0nat,
{
    let suspend = is_async(frame, context);
    let base = match suspend {
        Some(b) => b,
        None => frame,
    };
    let prefix = match (suspend.is_some(), context) {
        (true, _) => "async fn ",
        (false, Context::Function) => "fn ",
        (false, Context::Type) => "",
    };
    proof {
        lemma_async_base_shorter(frame@, context);
        lemma_split_shorter(base@);
        reveal_strlit("");
    }
    assert(prefix@ == name_prefix(suspend.is_some(), context));
    match split_brackets(base) {
        Some((a, b, c)) => match context {
            Context::Function => {
                out.append(prefix);
                out.append(a);
                out.append("<");
                format_helper(out, b, Context::Type);
                out.append(">");
                out.append(c);
            },
            Context::Type => {
                format_list(out, a);
                out.append("<");
                format_helper(out, b, Context::Type);
                out.append(">");
                format_list(out, c);
            },
        },
        None => {
            out.append(prefix);
            out.append(base);
        },
    }
}

/// Appends the readable form of the comma-separated list `s` to `out`.
pub fn format_list(out: &mut String, s: &str)
    ensures
        final(out)@ == old(out)@ + render_list(s@),
    decreases s@.len(), 1nat,
{
    let len = s.unicode_len();
    let k = find_char(s, ',', 0);
    if k < len {
        format_helper(out, s.substring_char(0, k), Context::Type);
        out.append(",");
        format_list(out, s.substring_char(k + 1, len));
    } else {
        format_helper(out, s, Context::Type);
    }
}

/// Decodes compiler-generated name cruft into something more useful.
pub fn format_frame_name(name: &str) -> (r: String)
    ensures
        r@ == render(name@, Context::Function),
{
    let mut out = String::new();
    format_helper(&mut out, name, Context::Function);
    out
}

/// `s` holds no angle bracket.
pub open spec fn bracket_free(s: Seq<char>) -> bool {
    forall|i: int| 0 <= i < s.len() ==> #[trigger] s[i] != '<' && s[i] != '>'
}

proof fn lemma_flat_no_split(s: Seq<char>)
    requires
        bracket_free(s),
    ensures
        split_spec(s) is None,
        next_index(s, '<', 0) == s.len(),
{
    lemma_next_index_bounds(s, '<', 0);
}

/// `s` followed by the async marker of `context`, a `$` and `digits`.
pub open spec fn marked(s: Seq<char>, context: Context, digits: Seq<char>) -> Seq<char> {
    s + async_marker(context) + seq!['$'] + digits
}

proof fn lemma_marked_base(base: Seq<char>, context: Context, digits: Seq<char>)
    requires
        bracket_free(base),
        is_digits_text(digits),
    ensures
        bracket_free(marked(base, context, digits)),
        async_base(marked(base, context, digits), context) == Some(base),
{
    reveal_strlit("::async_fn");
    reveal_strlit("::async_fn_env");
    let m = async_marker(context);
    let s = marked(base, context, digits);
    let n = s.len() as int;
    let p = (base.len() + m.len()) as int;
    assert(bracket_free(s)) by {
        assert forall|i: int| 0 <= i < s.len() implies #[trigger] s[i] != '<' && s[i] != '>' by {
            if i > p {
                assert(s[i] == digits[i - p - 1]);
                assert(is_digit(digits[i - p - 1]));
            } else if i >= base.len() && i < p {
                assert(s[i] == m[i - base.len()]);
            }
        }
    }
    lemma_flat_no_split(s);
    assert(marker_candidate(s) == s);
    assert(s[p] == '$');
    lemma_prev_index_bounds(s, '$', n);
    let k = prev_index(s, '$', n);
    if k < p {
        assert(s[p] != '$');
    }
    if k > p {
        assert(s[k] == digits[k - p - 1]);
        assert(is_digit(digits[k - p - 1]));
    }
    assert(k == p);
    assert(s.subrange(p + 1, n) =~= digits);
    let begin = s.subrange(0, p);
    assert(begin =~= base + m);
    assert(begin.subrange(begin.len() - m.len(), begin.len() as int) =~= m);
    assert(begin.subrange(0, begin.len() - m.len()) =~= base);
}

/// A name without angle brackets that ends in the async marker of `context`,
/// a `$` and a run of digits is printed as `async fn ` and the name without
/// the marker, in function position and in type position alike.
pub proof fn lemma_marked_name(base: Seq<char>, context: Context, digits: Seq<char>)
    requires
        bracket_free(base),
        is_digits_text(digits),
    ensures
        is_async_name(marked(base, context, digits), context),
        render(marked(base, context, digits), context) == "async fn "@ + base,
{
    lemma_marked_base(base, context, digits);
    lemma_flat_no_split(base);
}

/// `s` carries the async marker of `context`.
pub open spec fn is_async_name(s: Seq<char>, context: Context) -> bool {
    async_base(s, context) is Some
}

/// A name without angle brackets and without an async marker is printed as
/// it is, after `fn `.
pub proof fn lemma_plain_name(name: Seq<char>)
    requires
        bracket_free(name),
        async_base(name, Context::Function) is None,
    ensures
        render(name, Context::Function) == "fn "@ + name,
{
    lemma_flat_no_split(name);
}

/// A function name that ends in `::async_fn$0` loses the marker and is
/// printed after `async fn `.
pub proof fn lemma_async_function_name(base: Seq<char>)
    requires
        bracket_free(base),
    ensures
        render(base + "::async_fn$0"@, Context::Function) == "async fn "@ + base,
{
    reveal_strlit("::async_fn$0");
    reveal_strlit("::async_fn");
    reveal_strlit("$0");
    reveal_strlit("0");
    assert(base + "::async_fn$0"@ =~= marked(base, Context::Function, "0"@));
    lemma_marked_base(base, Context::Function, "0"@);
    lemma_flat_no_split(base);
}

proof fn lemma_depth_flat(s: Seq<char>, lo: int, hi: int)
    requires
        0 <= lo <= hi <= s.len(),
        forall|i: int| lo <= i < hi ==> #[trigger] s[i] != '<' && s[i] != '>',
    ensures
        depth(s, hi) == depth(s, lo),
    decreases hi - lo,
{
    if lo < hi {
        lemma_depth_flat(s, lo, hi - 1);
    }
}

proof fn lemma_close_skip(s: Seq<char>, lo: int, hi: int)
    requires
        0 <= lo <= hi <= s.len(),
        forall|i: int| lo <= i < hi ==> #[trigger] s[i] != '>',
    ensures
        close_index(s, lo) == close_index(s, hi),
    decreases hi - lo,
{
    if lo < hi {
        lemma_close_skip(s, lo + 1, hi);
    }
}

/// A state type of a suspendable function, given as the generic argument of
/// a plain function, is printed as `async fn` inside the brackets, while the
/// outer name keeps `fn `.
pub proof fn lemma_async_state_argument(outer: Seq<char>, inner: Seq<char>)
    requires
        bracket_free(outer),
        bracket_free(inner),
        async_base(outer, Context::Function) is None,
    ensures
        render(outer + "<"@ + inner + "::async_fn_env$0>"@, Context::Function) == "fn "@ + outer
            + "<async fn "@ + inner + ">"@,
{
    reveal_strlit("<");
    reveal_strlit(">");
    reveal_strlit("::async_fn_env$0>");
    reveal_strlit("::async_fn_env");
    reveal_strlit("$0");
    reveal_strlit("<async fn ");
    reveal_strlit("async fn ");
    reveal_strlit("0");
    let b = marked(inner, Context::Type, "0"@);
    let s = outer + "<"@ + b + ">"@;
    assert(outer + "<"@ + inner + "::async_fn_env$0>"@ =~= s);
    lemma_marked_base(inner, Context::Type, "0"@);
    let o = outer.len() as int;
    let n = s.len() as int;
    assert(s[o] == '<');
    assert(s[n - 1] == '>');
    assert forall|i: int| 0 <= i < o implies #[trigger] s[i] != '<' && s[i] != '>' by {
        assert(s[i] == outer[i]);
    }
    assert forall|i: int| o + 1 <= i < n - 1 implies #[trigger] s[i] != '<' && s[i] != '>' by {
        assert(s[i] == b[i - o - 1]);
    }
    lemma_next_index_bounds(s, '<', 0);
    assert(next_index(s, '<', 0) == o);
    lemma_depth_flat(s, 0, o);
    lemma_depth_flat(s, o + 1, n - 1);
    assert(depth(s, o + 1) == 1);
    assert(depth(s, n) == 0);
    lemma_close_skip(s, o + 1, n - 1);
    assert(close_index(s, n - 1) == n - 1);
    assert(s.subrange(0, o) =~= outer);
    assert(s.subrange(o + 1, n - 1) =~= b);
    assert(s.subrange(n, n) =~= Seq::<char>::empty());
    assert(split_spec(s) == Some((outer, b, Seq::<char>::empty())));
    lemma_flat_no_split(outer);
    assert(marker_candidate(s) == marker_candidate(outer));
    assert(async_base(s, Context::Function) is None);
    lemma_flat_no_split(inner);
    assert(render(b, Context::Type) == "async fn "@ + inner);
    assert(render(s, Context::Function) =~= "fn "@ + outer + "<async fn "@ + inner + ">"@);
}

} // verus!
