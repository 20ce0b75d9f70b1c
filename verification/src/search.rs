//! Searching text for regular expressions (through the `regex` crate) and
//! for fixed strings (through the `aho_corasick` crate). Positions are byte
//! offsets into the UTF-8 encoding of the text, as both crates give them.
use vstd::prelude::*;

use vstd::utf8::encode_utf8;

verus! {

#[verifier::external_type_specification]
#[verifier::external_body]
pub struct ExRegex(regex::Regex);

#[verifier::external_type_specification]
#[verifier::external_body]
pub struct ExAhoCorasick(aho_corasick::AhoCorasick);

/// Whether `regex::Regex::new` accepts the pattern.
pub uninterp spec fn regex_valid(pattern: Seq<char>) -> bool;

/// The successive non-overlapping matches that `regex::Regex::find_iter`
/// reports for the pattern in the text: start, end and matched text.
pub uninterp spec fn regex_matches(pattern: Seq<char>, haystack: Seq<char>) -> Seq<(usize, usize, Seq<char>)>;

/// The capture groups of the first match that `regex::Regex::captures`
/// reports for the pattern in the text, group 0 first, each with its text
/// where it took part in the match.
pub uninterp spec fn regex_captures(pattern: Seq<char>, haystack: Seq<char>) -> Option<Seq<Option<Seq<char>>>>;

/// Whether `aho_corasick::AhoCorasick::new` builds a searcher for the one
/// pattern.
pub uninterp spec fn searcher_builds(pattern: Seq<char>) -> bool;

/// A compiled regular expression, with the pattern it was compiled from.
#[derive(Debug)]
pub struct Pattern {
    source: String,
    re: regex::Regex,
}

impl Pattern {
    /// The pattern the expression was compiled from.
    pub closed spec fn source(&self) -> Seq<char> {
        self.source@
    }
}

/// Compiles a regular expression (`regex::Regex::new`).
///
/// Claimed of the crate: the result is there exactly when the pattern is
/// valid, a fact named by `regex_valid`; the compiled expression keeps the
/// pattern it came from.
#[verifier::external_body]
pub(crate) fn compile(pattern: &str) -> (r: Option<Pattern>)
    ensures
        r is Some <==> regex_valid(pattern@),
        r matches Some(p) ==> p.source() == pattern@,
{
    match regex::Regex::new(pattern) {
        Ok(re) => Some(Pattern { source: pattern.to_string(), re }),
        Err(_) => None,
    }
}

/// The matches of `p` in `haystack` (`regex::Regex::find_iter`): start,
/// end and text of each.
///
/// Claimed of the crate: the list is the one named by `regex_matches` for
/// the pattern and the text; each match has its start at or before its end,
/// its end within the text's bytes, and its text encoding to the bytes
/// between.
#[verifier::external_body]
pub(crate) fn find_matches(p: &Pattern, haystack: &str) -> (r: Vec<(usize, usize, String)>)
    ensures
        r@.map_values(|m: (usize, usize, String)| (m.0, m.1, m.2@)) == regex_matches(p.source(), haystack@),
        forall|k: int|
            0 <= k < r@.len() ==> {
                let m = #[trigger] regex_matches(p.source(), haystack@)[k];
                &&& m.0 <= m.1 <= encode_utf8(haystack@).len()
                &&& encode_utf8(m.2) == encode_utf8(haystack@).subrange(m.0 as int, m.1 as int)
            },
{
    p.re.find_iter(haystack).map(|m| (m.start(), m.end(), m.as_str().to_string())).collect()
}

/// The capture groups of the first match of `p` in `haystack`
/// (`regex::Regex::captures`).
///
/// Claimed of the crate: the groups are the ones named by `regex_captures`
/// for the pattern and the text.
#[verifier::external_body]
pub(crate) fn captures(p: &Pattern, haystack: &str) -> (r: Option<Vec<Option<String>>>)
    ensures
        match r {
            Some(g) => regex_captures(p.source(), haystack@) == Some(
                g@.map_values(|o: Option<String>| match o {
                    Some(s) => Some(s@),
                    None => None,
                }),
            ),
            None => regex_captures(p.source(), haystack@) is None,
        },
{
    p.re.captures(haystack).map(|c| c.iter().map(|g| g.map(|m| m.as_str().to_string())).collect())
}

/// The first place at or after `from` where `p` stands in `s`, or `-1`.
pub open spec fn find_bytes(s: Seq<u8>, p: Seq<u8>, from: int) -> int
    decreases s.len() + 1 - from,
{
    if from < 0 || from + p.len() > s.len() {
        -1
    } else if s.subrange(from, from + p.len()) == p {
        from
    } else {
        find_bytes(s, p, from + 1)
    }
}

pub proof fn lemma_find_bytes(s: Seq<u8>, p: Seq<u8>, from: int)
    requires
        0 <= from,
    ensures
        find_bytes(s, p, from) == -1 || (from <= find_bytes(s, p, from) && find_bytes(s, p, from) + p.len() <= s.len()),
    decreases s.len() + 1 - from,
{
    if from + p.len() <= s.len() && s.subrange(from, from + p.len()) != p {
        lemma_find_bytes(s, p, from + 1);
    }
}

/// The places of a non-empty `p` in `s` from `from` on, leftmost first, each
/// search going on after the end of the last place found.
pub open spec fn occurrences(s: Seq<u8>, p: Seq<u8>, from: int) -> Seq<(usize, usize)>
    decreases s.len() + 1 - from,
{
    let i = find_bytes(s, p, from);
    if p.len() == 0 || from < 0 || i < 0 {
        Seq::empty()
    } else {
        proof {
            lemma_find_bytes(s, p, from);
        }
        seq![(i as usize, (i + p.len()) as usize)] + occurrences(s, p, i + p.len())
    }
}

/// A searcher for one fixed string, with the string it searches for.
pub struct Searcher {
    pattern: String,
    ac: aho_corasick::AhoCorasick,
}

impl Searcher {
    pub closed spec fn pattern(&self) -> Seq<char> {
        self.pattern@
    }
}

/// Builds a searcher for one string (`aho_corasick::AhoCorasick::new`).
///
/// Claimed of the crate: it builds exactly when `searcher_builds` says so,
/// and the searcher keeps the string it looks for.
#[verifier::external_body]
pub(crate) fn build_searcher(pattern: &str) -> (r: Option<Searcher>)
    ensures
        r is Some <==> searcher_builds(pattern@),
        r matches Some(s) ==> s.pattern() == pattern@,
{
    match aho_corasick::AhoCorasick::new(vec![pattern]) {
        Ok(ac) => Some(Searcher { pattern: pattern.to_string(), ac }),
        Err(_) => None,
    }
}

/// The places of the searcher's string in `haystack`
/// (`aho_corasick::AhoCorasick::find_iter`), as byte ranges.
///
/// Claimed of the crate: with the default (standard) match kind and one
/// pattern, the non-overlapping matches of a non-empty string are its
/// leftmost places, each search resuming at the end of the last match; the
/// matches of the empty string are all empty.
#[verifier::external_body]
pub(crate) fn searcher_ranges(s: &Searcher, haystack: &str) -> (r: Vec<(usize, usize)>)
    ensures
        s.pattern().len() > 0 ==> r@ == occurrences(encode_utf8(haystack@), encode_utf8(s.pattern()), 0),
        s.pattern().len() == 0 ==> forall|k: int| 0 <= k < r@.len() ==> (#[trigger] r@[k]).0 == r@[k].1,
{
    s.ac.find_iter(haystack).map(|m| (m.start(), m.end())).collect()
}

} // verus!
