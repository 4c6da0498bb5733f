//! Include/exclude rules that decide which frames a rendered trace shows.
use vstd::prelude::*;
use vstd::string::*;
use crate::text::{
    find_char, lemma_next_index_bounds, next_index, starts_with_seq, starts_with_text,
};

verus! {

broadcast use vstd::string::group_string_axioms;

/// Why a configuration text was refused.
#[derive(Clone, Copy, Debug, PartialEq, Eq)]
pub enum ConfigError {
    /// A filter clause is empty or starts with neither `+` nor `-`.
    BadClause,
    /// The style before the first comma is not `0`, `1` or `full`.
    UnknownStyle,
}

/// A prefix that frame names are matched against.
#[derive(Debug, PartialEq)]
pub struct Pattern(pub String);

impl Pattern {
    /// Whether the frame name begins with this pattern.
    pub fn matches(&self, frame: &str) -> (r: bool)
        ensures
            r == starts_with_seq(frame@, self.0@),
    {
        starts_with_text(frame, self.0.as_str())
    }
}

/// One rule of a filter.
#[derive(Debug, PartialEq)]
pub enum FilterClause {
    Include(Pattern),
    Exclude(Pattern),
}

/// What a clause says of a frame name: `Some(true)` to show it, `Some(false)`
/// to hide it, `None` when its pattern does not match.
pub open spec fn clause_verdict(clause: FilterClause, name: Seq<char>) -> Option<bool> {
    match clause {
        FilterClause::Include(p) => if starts_with_seq(name, p.0@) { Some(true) } else { None },
        FilterClause::Exclude(p) => if starts_with_seq(name, p.0@) { Some(false) } else { None },
    }
}

impl FilterClause {
    /// Returns whether this frame should be displayed in the backtrace, or
    /// `None` if the frame name does not match this clause's pattern.
    pub fn should_display_frame(&self, frame_name: &str) -> (r: Option<bool>)
        ensures
            r == clause_verdict(*self, frame_name@),
    {
        match self {
            FilterClause::Include(pattern) => if pattern.matches(frame_name) {
                Some(true)
            } else {
                None
            },
            FilterClause::Exclude(pattern) => if pattern.matches(frame_name) {
                Some(false)
            } else {
                None
            },
        }
    }
}

/// An ordered list of clauses; a later clause overrides an earlier one.
#[derive(Debug, PartialEq)]
pub struct Filter(pub Vec<FilterClause>);

/// The verdict of the last clause of `clauses` whose pattern matches `name`,
/// or `default` when none does.
pub open spec fn filter_decision(clauses: Seq<FilterClause>, default: bool, name: Seq<char>) -> bool
    decreases clauses.len(),
{
    if clauses.len() == 0 {
        default
    } else {
        match clause_verdict(clauses.last(), name) {
            Some(v) => v,
            None => filter_decision(clauses.drop_last(), default, name),
        }
    }
}

/// The comma-separated pieces of `s` from index `i` on.
pub open spec fn pieces_from(s: Seq<char>, i: int) -> Seq<Seq<char>>
    decreases s.len() - i,
{
    let k = next_index(s, ',', i);
    if 0 <= i <= k && k < s.len() {
        seq![s.subrange(i, k)] + pieces_from(s, k + 1)
    } else {
        seq![s.subrange(i, s.len() as int)]
    }
}

/// The comma-separated pieces of `s` (one piece when `s` holds no comma).
pub open spec fn pieces(s: Seq<char>) -> Seq<Seq<char>> {
    pieces_from(s, 0)
}

/// `piece` is a well-formed clause: a `+` or `-` and then a pattern.
pub open spec fn clause_text_ok(piece: Seq<char>) -> bool {
    piece.len() > 0 && (piece[0] == '+' || piece[0] == '-')
}

/// `clause` is what the well-formed clause text `piece` describes.
pub open spec fn clause_from_text(clause: FilterClause, piece: Seq<char>) -> bool {
    match clause {
        FilterClause::Include(p) => piece.len() > 0 && piece[0] == '+' && p.0@ == piece.drop_first(),
        FilterClause::Exclude(p) => piece.len() > 0 && piece[0] == '-' && p.0@ == piece.drop_first(),
    }
}

/// Every comma-separated piece of `s` is a well-formed clause.
pub open spec fn filter_text_ok(s: Seq<char>) -> bool {
    forall|i: int| 0 <= i < pieces(s).len() ==> clause_text_ok(#[trigger] pieces(s)[i])
}

/// `f` holds, in order, the clauses that the pieces of `s` describe.
pub open spec fn filter_from_text(f: Filter, s: Seq<char>) -> bool {
    &&& f.0@.len() == pieces(s).len()
    &&& forall|i: int| 0 <= i < pieces(s).len() ==> clause_from_text(#[trigger] f.0@[i], pieces(s)[i])
}

impl Filter {
    /// Folds over the clauses in order, starting from `default`: the last
    /// clause whose pattern matches decides.
    pub fn should_display_frame(&self, default: bool, frame_name: &str) -> (r: bool)
        ensures
            r == filter_decision(self.0@, default, frame_name@),
    {
        let mut display = default;
        let mut i: usize = 0;
        while i < self.0.len()
            invariant
                i <= self.0@.len(),
                display == filter_decision(self.0@.subrange(0, i as int), default, frame_name@),
            decreases self.0@.len() - i,
        {
            let ghost prev = self.0@.subrange(0, i as int);
            assert(self.0@.subrange(0, i + 1).drop_last() =~= prev);
            match self.0[i].should_display_frame(frame_name) {
                Some(d) => display = d,
                None => {},
            }
            i = i + 1;
        }
        assert(self.0@.subrange(0, self.0@.len() as int) =~= self.0@);
        display
    }

    /// Reads a filter from text: comma-separated clauses, each `+` (include)
    /// or `-` (exclude) followed by a pattern.
    pub fn parse(s: &str) -> (r: Result<Filter, ConfigError>)
        ensures
            match r {
                Ok(f) => filter_text_ok(s@) && filter_from_text(f, s@),
                Err(e) => !filter_text_ok(s@) && e == ConfigError::BadClause,
            },
    {
        let len = s.unicode_len();
        let mut clauses: Vec<FilterClause> = Vec::new();
        let mut start: usize = 0;
        let ghost seen: Seq<Seq<char>> = Seq::empty();
        loop
            invariant
                len == s@.len(),
                start <= len,
                seen + pieces_from(s@, start as int) == pieces(s@),
                clauses@.len() == seen.len(),
                forall|j: int| 0 <= j < seen.len() ==> clause_text_ok(#[trigger] seen[j]),
                forall|j: int| 0 <= j < seen.len() ==> clause_from_text(#[trigger] clauses@[j], seen[j]),
            decreases len - start,
        {
            let k = find_char(s, ',', start);
            let piece = s.substring_char(start, k);
            let ghost rest = pieces_from(s@, start as int);
            assert(rest[0] =~= piece@);
            let plen = piece.unicode_len();
            if plen == 0 {
                assert(!clause_text_ok(pieces(s@)[seen.len() as int]));
                return Err(ConfigError::BadClause);
            }
            let first = piece.get_char(0);
            let pattern = Pattern(piece.substring_char(1, plen).to_owned());
            assert(pattern.0@ =~= piece@.drop_first());
            if first == '+' {
                clauses.push(FilterClause::Include(pattern));
            } else if first == '-' {
                clauses.push(FilterClause::Exclude(pattern));
            } else {
                assert(!clause_text_ok(pieces(s@)[seen.len() as int]));
                return Err(ConfigError::BadClause);
            }
            proof {
                seen = seen.push(piece@);
                lemma_next_index_bounds(s@, ',', start as int);
            }
            if k == len {
                assert(pieces_from(s@, start as int) =~= seq![piece@]);
                assert(seen =~= pieces(s@));
                return Ok(Filter(clauses));
            }
            assert(pieces_from(s@, start as int) =~= seq![piece@] + pieces_from(s@, k + 1));
            start = k + 1;
        }
    }
}

impl std::str::FromStr for Filter {
    type Err = ConfigError;

    fn from_str(s: &str) -> (r: Result<Filter, ConfigError>)
        ensures
            match r {
                Ok(f) => filter_text_ok(s@) && filter_from_text(f, s@),
                Err(e) => !filter_text_ok(s@) && e == ConfigError::BadClause,
            },
    {
        Filter::parse(s)
    }
}

/// A filter's decision depends on nothing but its clauses, the starting
/// value and the frame name: asked again with the same ones, it answers the
/// same.
pub proof fn lemma_decision_repeatable(f: Filter, g: Filter, default: bool, name: Seq<char>, again: Seq<char>)
    requires
        f.0@ == g.0@,
        name == again,
    ensures
        filter_decision(f.0@, default, name) == filter_decision(g.0@, default, again),
{
}

/// The last clause whose pattern matches a name decides for it, whatever
/// came before and whatever the starting value.
pub proof fn lemma_last_match_wins(clauses: Seq<FilterClause>, default: bool, name: Seq<char>, k: int)
    requires
        0 <= k < clauses.len(),
        clause_verdict(clauses[k], name) is Some,
        forall|j: int| k < j < clauses.len() ==> clause_verdict(#[trigger] clauses[j], name) is None,
    ensures
        filter_decision(clauses, default, name) == clause_verdict(clauses[k], name)->0,
    decreases clauses.len(),
{
    if k < clauses.len() - 1 {
        let rest = clauses.drop_last();
        assert forall|j: int| k < j < rest.len() implies clause_verdict(#[trigger] rest[j], name) is None by {
            assert(rest[j] == clauses[j]);
        }
        lemma_last_match_wins(rest, default, name, k);
    }
}

} // verus!
