//! Regular expressions, through the `regex` crate.
//!
//! What a regular expression matches is not stated here: each query is a
//! named function of the pattern's source text and the haystack, and the
//! editor's logic is verified for every value those names may take.
use vstd::prelude::*;
use crate::state::{EdError, ErrKind};

verus! {

#[verifier::external_type_specification]
#[verifier::external_body]
pub struct ExRegex(regex::Regex);

#[verifier::external_type_specification]
#[verifier::external_body]
pub struct ExRegexError(regex::Error);

/// Whether `regex::Regex::new` accepts the source text.
pub uninterp spec fn regex_compiles(source: Seq<char>) -> bool;

/// What `regex::Regex::is_match` answers for the pattern and the haystack.
pub uninterp spec fn regex_is_match(source: Seq<char>, haystack: Seq<char>) -> bool;

/// What `regex::Regex::captures_iter` yields: for each successive match, the
/// text of every capture group (group 0 being the whole match).
pub uninterp spec fn regex_captures(source: Seq<char>, haystack: Seq<char>) -> Seq<
    Seq<Option<Seq<char>>>,
>;

/// What `regex::Regex::split` yields: the text between successive matches.
pub uninterp spec fn regex_split(source: Seq<char>, haystack: Seq<char>) -> Seq<Seq<char>>;

/// A compiled regular expression together with the source it was compiled from.
pub struct Pattern {
    re: regex::Regex,
    source: String,
}

impl View for Pattern {
    type V = Seq<char>;

    closed spec fn view(&self) -> Seq<char> {
        self.source@
    }
}

/// The text of the whole match (group 0).
pub open spec fn whole_match(groups: Seq<Option<Seq<char>>>) -> Seq<char> {
    if groups.len() > 0 && groups[0] is Some {
        groups[0]->0
    } else {
        Seq::empty()
    }
}

/// The haystack rebuilt from the pieces between matches and the matches,
/// from piece `i` on: `pieces[i] + match[i] + pieces[i + 1] + ...`.
pub open spec fn rejoin(
    pieces: Seq<Seq<char>>,
    caps: Seq<Seq<Option<Seq<char>>>>,
    i: int,
) -> Seq<char>
    decreases caps.len() - i,
{
    if i >= caps.len() {
        if 0 <= i < pieces.len() {
            pieces[i]
        } else {
            Seq::empty()
        }
    } else {
        pieces[i] + whole_match(caps[i]) + rejoin(pieces, caps, i + 1)
    }
}

pub open spec fn opt_view(o: Option<String>) -> Option<Seq<char>> {
    match o {
        Some(s) => Some(s@),
        None => None,
    }
}

pub open spec fn groups_view(g: Vec<Option<String>>) -> Seq<Option<Seq<char>>> {
    g@.map_values(|o: Option<String>| opt_view(o))
}

pub open spec fn captures_view(v: Vec<Vec<Option<String>>>) -> Seq<Seq<Option<Seq<char>>>> {
    v@.map_values(|g: Vec<Option<String>>| groups_view(g))
}

/// Calls `regex::Regex::new`: `Ok` exactly when the source compiles, and
/// the pattern remembers the source it was made from.
#[verifier::external_body]
pub(crate) fn compile(source: &str) -> (r: Result<Pattern, regex::Error>)
    ensures
        r is Ok <==> regex_compiles(source@),
        r matches Ok(p) ==> p@ == source@,
{
    match regex::Regex::new(source) {
        Ok(re) => Ok(Pattern { re, source: source.to_string() }),
        Err(e) => Err(e),
    }
}

impl Pattern {
    /// Compiles a regular expression; where the regex crate refuses it, its
    /// error comes back as the editor's `RegexError`.
    pub fn new(source: &str) -> (r: Result<Pattern, EdError>)
        ensures
            r is Ok <==> regex_compiles(source@),
            r matches Ok(p) ==> p@ == source@,
            r matches Err(e) ==> e@ == ErrKind::RegexError,
    {
        match compile(source) {
            Ok(p) => Ok(p),
            Err(e) => Err(EdError::from(e)),
        }
    }
}

/// Calls `regex::Regex::is_match`; the answer is named, not stated.
#[verifier::external_body]
pub(crate) fn is_match(p: &Pattern, haystack: &str) -> (r: bool)
    ensures
        r == regex_is_match(p@, haystack@),
{
    p.re.is_match(haystack)
}

/// Calls `regex::Regex::captures_iter` and copies each match's groups out
/// (`None` for a group that took no part in the match). The regex crate
/// documents that every yielded match has its group 0 set.
#[verifier::external_body]
pub(crate) fn captures(p: &Pattern, haystack: &str) -> (r: Vec<Vec<Option<String>>>)
    ensures
        captures_view(r) == regex_captures(p@, haystack@),
        forall|i: int|
            0 <= i < r@.len() ==> #[trigger] r@[i]@.len() > 0 && r@[i]@[0] is Some,
{
    p.re.captures_iter(haystack).map(
        |c| c.iter().map(|g| g.map(|m| m.as_str().to_string())).collect(),
    ).collect()
}

/// Calls `regex::Regex::split`. Its source (through `regex_automata`'s
/// `Split`) cuts the haystack at the very matches `captures_iter` yields,
/// both being driven by the same searcher; so there is one piece more than
/// matches, and pieces and matches in turn give the haystack back.
#[verifier::external_body]
pub(crate) fn split(p: &Pattern, haystack: &str) -> (r: Vec<String>)
    ensures
        r@.map_values(|s: String| s@) == regex_split(p@, haystack@),
        r@.len() == regex_captures(p@, haystack@).len() + 1,
        rejoin(r@.map_values(|s: String| s@), regex_captures(p@, haystack@), 0) == haystack@,
{
    p.re.split(haystack).map(|s| s.to_string()).collect()
}

} // verus!
