//! The calls this library makes into std and into outside crates, each with
//! the contract it relies on.

use vstd::prelude::*;

use crate::text::seqs_of;

verus! {

#[verifier::external_type_specification]
#[verifier::external_body]
pub struct ExRegex(regex::Regex);

#[verifier::external_type_specification]
#[verifier::external_body]
pub struct ExRegexError(regex::Error);

#[verifier::external_type_specification]
#[verifier::external_body]
pub struct ExAhoCorasick(aho_corasick::AhoCorasick);

#[verifier::external_type_specification]
#[verifier::external_body]
pub struct ExBuildError(aho_corasick::BuildError);

/// Whether `regex::Regex::new` accepts `pattern`.
pub uninterp spec fn regex_compiles(pattern: Seq<char>) -> bool;

/// The successive non-overlapping leftmost-first matches of `pattern` in
/// `text`, as `regex::Regex::captures_iter` reports them; each match is given
/// by the texts of its groups 1, 2, ... (empty for a group that took no part).
pub uninterp spec fn regex_matches(pattern: Seq<char>, text: Seq<char>) -> Seq<Seq<Seq<char>>>;

/// `str::to_lowercase` of `s`.
pub uninterp spec fn lower_of(s: Seq<char>) -> Seq<char>;

/// `str::to_uppercase` of `s`.
pub uninterp spec fn upper_of(s: Seq<char>) -> Seq<char>;

/// The indices into `PROCEDURE_TERMS` of the matches that an Aho-Corasick
/// automaton built from `PROCEDURE_TERMS` with the default (standard,
/// non-overlapping) settings reports in `hay`, in order.
pub uninterp spec fn vocabulary_hits(hay: Seq<char>) -> Seq<usize>;

/// Whether `aho_corasick::AhoCorasick::new` builds an automaton from `terms`.
pub uninterp spec fn vocabulary_builds(terms: Seq<Seq<char>>) -> bool;

/// The procedure vocabulary, as character sequences.
pub open spec fn procedure_vocabulary() -> Seq<Seq<char>> {
    crate::entities::PROCEDURE_TERMS@.map_values(|t: &str| t@)
}

pub open spec fn match_groups(m: Seq<Vec<Vec<char>>>) -> Seq<Seq<Seq<char>>> {
    m.map_values(|g: Vec<Vec<char>>| seqs_of(g@))
}

/// Relies on `str::chars`: the characters of `s`, in order.
#[verifier::external_body]
pub(crate) fn chars_of(s: &str) -> (r: Vec<char>)
    ensures
        r@ == s@,
{
    s.chars().collect()
}

/// Relies on `String: FromIterator<&char>`: a string of exactly these characters.
#[verifier::external_body]
pub(crate) fn string_of(v: &[char]) -> (r: String)
    ensures
        r@ == v@,
{
    v.iter().collect()
}

/// Relies on `str::to_lowercase`: the result depends on the characters alone.
#[verifier::external_body]
pub(crate) fn lowercase(s: &[char]) -> (r: Vec<char>)
    ensures
        r@ == lower_of(s@),
{
    let t: String = s.iter().collect();
    t.to_lowercase().chars().collect()
}

/// Relies on `str::to_uppercase`: the result depends on the characters alone.
#[verifier::external_body]
pub(crate) fn uppercase(s: &[char]) -> (r: Vec<char>)
    ensures
        r@ == upper_of(s@),
{
    let t: String = s.iter().collect();
    t.to_uppercase().chars().collect()
}

/// A compiled regular expression, with the pattern it was compiled from;
/// only `compile` makes one.
pub(crate) struct CompiledPattern {
    source: &'static str,
    re: regex::Regex,
}

impl CompiledPattern {
    /// The pattern this was compiled from.
    pub(crate) closed spec fn pattern(&self) -> Seq<char> {
        self.source@
    }
}

/// Relies on `regex::Regex::new`, which fails exactly on a pattern it does
/// not accept.
#[verifier::external_body]
pub(crate) fn compile(pattern: &'static str) -> (r: Result<CompiledPattern, regex::Error>)
    ensures
        r is Ok <==> regex_compiles(pattern@),
        r matches Ok(c) ==> c.pattern() == pattern@,
{
    regex::Regex::new(pattern).map(|re| CompiledPattern { source: pattern, re })
}

/// Relies on `regex::Regex::captures_iter`: the successive matches, each
/// handed back as the texts of its groups after the whole-match group 0.
#[verifier::external_body]
pub(crate) fn all_matches(p: &CompiledPattern, text: &[char]) -> (r: Vec<Vec<Vec<char>>>)
    ensures
        match_groups(r@) == regex_matches(p.pattern(), text@),
{
    let hay: String = text.iter().collect();
    p.re.captures_iter(&hay).map(
        |c| c.iter().skip(1).map(|g| g.map_or(Vec::new(), |g| g.as_str().chars().collect())).collect(),
    ).collect()
}

/// Scans for the fixed procedure vocabulary; only `build_procedure_matcher`
/// makes one.
pub(crate) struct ProcedureMatcher {
    automaton: aho_corasick::AhoCorasick,
}

/// Relies on `aho_corasick::AhoCorasick::new` with `PROCEDURE_TERMS`, whose
/// success depends on the terms alone.
#[verifier::external_body]
pub(crate) fn build_procedure_matcher() -> (r: Result<ProcedureMatcher, aho_corasick::BuildError>)
    ensures
        r is Ok <==> vocabulary_builds(procedure_vocabulary()),
{
    aho_corasick::AhoCorasick::new(crate::entities::PROCEDURE_TERMS).map(
        |automaton| ProcedureMatcher { automaton },
    )
}

/// Relies on `AhoCorasick::find_iter` and `Match::pattern`: the index of each
/// reported match among the patterns the automaton was built from.
#[verifier::external_body]
pub(crate) fn procedure_hits(m: &ProcedureMatcher, hay: &[char]) -> (r: Vec<usize>)
    ensures
        r@ == vocabulary_hits(hay@),
        forall|i: int| 0 <= i < r@.len() ==> r@[i] < crate::entities::PROCEDURE_TERMS.len(),
{
    let t: String = hay.iter().collect();
    m.automaton.find_iter(&t).map(|h| h.pattern().as_usize()).collect()
}

} // verus!
