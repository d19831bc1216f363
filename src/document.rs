//! Segmentation of a document: its title, its sections and its metadata.

use vstd::prelude::*;

use crate::engines::{
    all_matches, chars_of, compile, match_groups, CompiledPattern, regex_compiles, regex_matches, string_of, upper_of,
    uppercase,
};
use crate::text::{
    append_chars, contains_chars, copy_range, has_infix, join_lines, lemma_join_empty,
    lemma_join_push, lemma_pieces_join, lemma_pieces_line_free, lemma_trim_line_free, line_free,
    pieces, same_chars, seqs_of, split_pieces, starts_with, starts_with_chars, trim, trim_chars,
};

verus! {

// Section headers, highest precedence first. Level 1: a Roman numeral, or
// words in capitals before a colon; level 2: a capital letter or a number;
// level 3: a small letter, or a dotted number such as 1.2.

pub const ROMAN_HEADER: &'static str = r"^(?:\s*)(I{1,3}|IV|V|VI{1,3}|IX|X)(?:\.\s+)(.+)$";

pub const CAPS_HEADER: &'static str = r"^(?:\s*)([A-Z][A-Z\s]+)(?:\s*):";

pub const LETTER_HEADER: &'static str = r"^(?:\s*)([A-Z])(?:\.\s+)(.+)$";

pub const NUMBER_HEADER: &'static str = r"^(?:\s*)(\d+)(?:\.\s+)(.+)$";

pub const SMALL_LETTER_HEADER: &'static str = r"^(?:\s*)([a-z])(?:\.\s+)(.+)$";

pub const DOTTED_HEADER: &'static str = r"^(?:\s*)(\d+\.\d+)(?:\s+)(.+)$";

// Metadata fields, matched anywhere in the text without regard to case; the
// first group of the first match is the value.

pub const PLAN_ID: &'static str = r"(?i)Plan\s+ID\s*:\s*([A-Z0-9-]+)";

pub const PLAN_EFFECTIVE_DATE: &'static str = r"(?i)Effective\s+Date\s*:\s*(\d{1,2}/\d{1,2}/\d{2,4})";

pub const PLAN_COVERAGE_TYPE: &'static str = r"(?i)Coverage\s+Type\s*:\s*([A-Za-z\s]+)";

pub const PLAN_PREMIUM: &'static str = r"(?i)Premium\s*:\s*\$?(\d+(?:\.\d{2})?)";

pub const POLICY_NUMBER: &'static str = r"(?i)Policy\s+Number\s*:\s*([A-Z0-9-]+)";

pub const POLICY_HOLDER: &'static str = r"(?i)Policyholder\s*:\s*([A-Za-z\s]+)";

pub const POLICY_ISSUE_DATE: &'static str = r"(?i)Issue\s+Date\s*:\s*(\d{1,2}/\d{1,2}/\d{2,4})";

pub const POLICY_EXPIRATION_DATE: &'static str = r"(?i)Expiration\s+Date\s*:\s*(\d{1,2}/\d{1,2}/\d{2,4})";

pub const CLAIM_NUMBER: &'static str = r"(?i)Claim\s+Number\s*:\s*([A-Z0-9-]+)";

pub const CLAIM_SERVICE_DATE: &'static str = r"(?i)Date\s+of\s+Service\s*:\s*(\d{1,2}/\d{1,2}/\d{2,4})";

pub const CLAIM_PROVIDER: &'static str = r"(?i)Provider\s*:\s*([A-Za-z\s]+)";

pub const CLAIM_AMOUNT: &'static str = r"(?i)Amount\s*:\s*\$?(\d+(?:\.\d{2})?)";

pub const CLAIM_STATUS: &'static str = r"(?i)Status\s*:\s*([A-Za-z\s]+)";

pub const ANY_ID: &'static str = r"(?i)ID\s*:\s*([A-Z0-9-]+)";

pub const ANY_DATE: &'static str = r"(?i)Date\s*:\s*(\d{1,2}/\d{1,2}/\d{2,4})";

pub const ANY_NAME: &'static str = r"(?i)Name\s*:\s*([A-Za-z\s]+)";

/// How many header patterns there are.
pub const HEADER_PATTERNS: usize = 6;

/// A built-in pattern or vocabulary that its engine refuses.
#[derive(Debug, Clone, PartialEq, Eq)]
pub enum ConfigError {
    Pattern(String),
    Vocabulary,
}

/// The kinds of document that have their own rules.
#[derive(PartialEq, Eq, Structural, Clone, Copy, Debug)]
pub enum DocKind {
    Plan,
    Policy,
    Claim,
    Other,
}

pub open spec fn kind_of(doc_type: Seq<char>) -> DocKind {
    if doc_type == "plan"@ {
        DocKind::Plan
    } else if doc_type == "policy"@ {
        DocKind::Policy
    } else if doc_type == "claim"@ {
        DocKind::Claim
    } else {
        DocKind::Other
    }
}

pub fn doc_kind(doc_type: &str) -> (k: DocKind)
    ensures
        k == kind_of(doc_type@),
{
    let t = chars_of(doc_type);
    if same_chars(&t, &chars_of("plan")) {
        DocKind::Plan
    } else if same_chars(&t, &chars_of("policy")) {
        DocKind::Policy
    } else if same_chars(&t, &chars_of("claim")) {
        DocKind::Claim
    } else {
        DocKind::Other
    }
}

/// Document section
#[derive(Debug, Clone, PartialEq, Eq)]
pub struct Section {
    /// Section title
    pub title: Option<String>,
    /// Section content: its lines, joined by newlines
    pub content: String,
    /// Section level (1 = top level, 2 = subsection, 3 = below that)
    pub level: usize,
}

pub struct SectionView {
    pub title: Option<Seq<char>>,
    pub content: Seq<char>,
    pub level: nat,
}

pub open spec fn opt_view(o: Option<String>) -> Option<Seq<char>> {
    match o {
        Some(s) => Some(s@),
        None => None,
    }
}

impl View for Section {
    type V = SectionView;

    open spec fn view(&self) -> SectionView {
        SectionView { title: opt_view(self.title), content: self.content@, level: self.level as nat }
    }
}

/// A section has a title or some content, and a level from 1 to 3.
pub open spec fn section_wf(s: SectionView) -> bool {
    &&& 1 <= s.level <= 3
    &&& (s.title is Some || s.content.len() > 0)
}

pub open spec fn section_views(v: Seq<Section>) -> Seq<SectionView> {
    v.map_values(|s: Section| s@)
}

pub open spec fn pair_views(v: Seq<(String, String)>) -> Seq<(Seq<char>, Seq<char>)> {
    v.map_values(|p: (String, String)| (p.0@, p.1@))
}

/// Processed document data
#[derive(Debug, Clone, PartialEq, Eq)]
pub struct ProcessedDocument {
    /// Document type (plan, policy, claim, or any other tag)
    pub doc_type: String,
    /// Document title or name
    pub title: Option<String>,
    /// Document sections, in document order
    pub sections: Vec<Section>,
    /// Extracted fields as (name, value), at most one per name
    pub metadata: Vec<(String, String)>,
}

pub struct DocumentView {
    pub doc_type: Seq<char>,
    pub title: Option<Seq<char>>,
    pub sections: Seq<SectionView>,
    pub metadata: Seq<(Seq<char>, Seq<char>)>,
}

impl View for ProcessedDocument {
    type V = DocumentView;

    open spec fn view(&self) -> DocumentView {
        DocumentView {
            doc_type: self.doc_type@,
            title: opt_view(self.title),
            sections: section_views(self.sections@),
            metadata: pair_views(self.metadata@),
        }
    }
}

// ---------------------------------------------------------------- title

/// The value after `label` on the first of the lines `ls` that starts with
/// it, once trimmed.
pub open spec fn first_labelled(ls: Seq<Seq<char>>, label: Seq<char>) -> Option<Seq<char>>
    decreases ls.len(),
{
    if ls.len() == 0 {
        None
    } else {
        let l = ls[0];
        if starts_with(l, label) {
            Some(trim(l.subrange(label.len() as int, l.len() as int)))
        } else {
            first_labelled(ls.drop_first(), label)
        }
    }
}

/// A short line, not all in capitals, without a colon.
pub open spec fn looks_like_title(l: Seq<char>) -> bool {
    0 < l.len() < 100 && upper_of(l) != l && !has_infix(l, seq![':'])
}

pub open spec fn first_plain(ls: Seq<Seq<char>>) -> Option<Seq<char>>
    decreases ls.len(),
{
    if ls.len() == 0 {
        None
    } else if looks_like_title(ls[0]) {
        Some(ls[0])
    } else {
        first_plain(ls.drop_first())
    }
}

/// The lines of `ls` that are not blank, trimmed, in order.
pub open spec fn nonblank_lines(ls: Seq<Seq<char>>) -> Seq<Seq<char>>
    decreases ls.len(),
{
    if ls.len() == 0 {
        Seq::empty()
    } else {
        let prev = nonblank_lines(ls.drop_last());
        let l = trim(ls.last());
        if l.len() > 0 {
            prev.push(l)
        } else {
            prev
        }
    }
}

/// The first ten non-blank lines of `text`, trimmed.
pub open spec fn leading_lines(text: Seq<char>) -> Seq<Seq<char>> {
    let p = nonblank_lines(pieces(text, false));
    if p.len() <= 10 {
        p
    } else {
        p.take(10)
    }
}

/// Among the first ten non-blank lines: a `Title:` line, else a `Name:`
/// line, else a line that looks like a title.
pub open spec fn title_of(text: Seq<char>) -> Option<Seq<char>> {
    let ls = leading_lines(text);
    match first_labelled(ls, "Title:"@) {
        Some(t) => Some(t),
        None => match first_labelled(ls, "Name:"@) {
            Some(t) => Some(t),
            None => first_plain(ls),
        },
    }
}

fn find_labelled(ls: &Vec<Vec<char>>, n: usize, label: &[char]) -> (r: Option<Vec<char>>)
    requires
        n <= ls@.len(),
    ensures
        match r {
            Some(v) => first_labelled(seqs_of(ls@).take(n as int), label@) == Some(v@),
            None => first_labelled(seqs_of(ls@).take(n as int), label@) is None,
        },
{
    let ghost all = seqs_of(ls@).take(n as int);
    let mut i: usize = 0;
    assert(all.skip(0) =~= all);
    while i < n
        invariant
            i <= n <= ls@.len(),
            all == seqs_of(ls@).take(n as int),
            first_labelled(all, label@) == first_labelled(all.skip(i as int), label@),
        decreases n - i,
    {
        assert(all.skip(i as int).drop_first() =~= all.skip(i + 1));
        assert(all.skip(i as int)[0] == ls@[i as int]@);
        let l = &ls[i];
        if starts_with_chars(l, label) {
            let rest = copy_range(l, label.len(), l.len());
            return Some(trim_chars(&rest));
        }
        i = i + 1;
    }
    None
}

fn find_plain(ls: &Vec<Vec<char>>, n: usize) -> (r: Option<Vec<char>>)
    requires
        n <= ls@.len(),
    ensures
        match r {
            Some(v) => first_plain(seqs_of(ls@).take(n as int)) == Some(v@),
            None => first_plain(seqs_of(ls@).take(n as int)) is None,
        },
{
    let ghost all = seqs_of(ls@).take(n as int);
    let colon = chars_of(":");
    proof {
        reveal_strlit(":");
        assert(":"@ =~= seq![':']);
    }
    let mut i: usize = 0;
    assert(all.skip(0) =~= all);
    while i < n
        invariant
            i <= n <= ls@.len(),
            all == seqs_of(ls@).take(n as int),
            colon@ == seq![':'],
            first_plain(all) == first_plain(all.skip(i as int)),
        decreases n - i,
    {
        assert(all.skip(i as int).drop_first() =~= all.skip(i + 1));
        assert(all.skip(i as int)[0] == ls@[i as int]@);
        let l = &ls[i];
        if l.len() > 0 && l.len() < 100 {
            let up = uppercase(l);
            if !same_chars(&up, l) && !contains_chars(l, &colon) {
                return Some(copy_range(l, 0, l.len()));
            }
        }
        i = i + 1;
    }
    None
}

/// The trimmed non-blank lines of `text`, in order.
fn nonblank_trimmed(text: &[char]) -> (r: Vec<Vec<char>>)
    ensures
        seqs_of(r@) == nonblank_lines(pieces(text@, false)),
{
    let lines = split_pieces(text, false);
    let ghost ls = seqs_of(lines@);
    let mut kept: Vec<Vec<char>> = Vec::new();
    let mut i: usize = 0;
    assert(seqs_of(kept@) =~= nonblank_lines(ls.take(0)));
    while i < lines.len()
        invariant
            i <= lines@.len(),
            ls == seqs_of(lines@),
            seqs_of(kept@) == nonblank_lines(ls.take(i as int)),
        decreases lines@.len() - i,
    {
        assert(ls.take(i + 1).drop_last() =~= ls.take(i as int));
        assert(ls.take(i + 1).last() == lines@[i as int]@);
        let l = trim_chars(&lines[i]);
        if l.len() > 0 {
            let ghost prev = seqs_of(kept@);
            let ghost lv = l@;
            kept.push(l);
            assert(seqs_of(kept@) =~= prev.push(lv));
        }
        i = i + 1;
    }
    assert(ls.take(i as int) =~= ls);
    kept
}

/// Title extraction from the first ten non-blank lines of `content`.
pub fn extract_title(content: &str) -> (r: Option<String>)
    ensures
        opt_view(r) == title_of(content@),
{
    let text = chars_of(content);
    let lines = nonblank_trimmed(&text);
    let n: usize = if lines.len() <= 10 { lines.len() } else { 10 };
    assert(seqs_of(lines@).take(n as int) =~= leading_lines(content@));
    match find_labelled(&lines, n, &chars_of("Title:")) {
        Some(t) => Some(string_of(&t)),
        None => match find_labelled(&lines, n, &chars_of("Name:")) {
            Some(t) => Some(string_of(&t)),
            None => match find_plain(&lines, n) {
                Some(t) => Some(string_of(&t)),
                None => None,
            },
        },
    }
}

// ---------------------------------------------------------------- sections

/// The header patterns, highest precedence first.
pub open spec fn header_source(k: int) -> Seq<char> {
    if k == 0 {
        ROMAN_HEADER@
    } else if k == 1 {
        CAPS_HEADER@
    } else if k == 2 {
        LETTER_HEADER@
    } else if k == 3 {
        NUMBER_HEADER@
    } else if k == 4 {
        SMALL_LETTER_HEADER@
    } else {
        DOTTED_HEADER@
    }
}

/// The section level that header pattern `k` gives.
pub open spec fn header_level(k: int) -> nat {
    if k < 2 {
        1
    } else if k < 4 {
        2
    } else {
        3
    }
}

/// A section title made from a header's groups: the label, and the text
/// after it where the pattern has a second group.
pub open spec fn header_title(g: Seq<Seq<char>>) -> Seq<char> {
    if g.len() >= 2 {
        g[0] + seq![' '] + g[1]
    } else if g.len() == 1 {
        g[0]
    } else {
        Seq::<char>::empty()
    }
}

/// Title and level from the first of header patterns `k..` that matches `line`.
pub open spec fn header_from(line: Seq<char>, k: int) -> Option<(Seq<char>, nat)>
    decreases HEADER_PATTERNS - k,
{
    if k >= HEADER_PATTERNS {
        None
    } else {
        let m = regex_matches(header_source(k), line);
        if m.len() > 0 {
            Some((header_title(m[0]), header_level(k)))
        } else {
            header_from(line, k + 1)
        }
    }
}

/// How `line` reads as a header, if it is one.
pub open spec fn header_of(line: Seq<char>) -> Option<(Seq<char>, nat)> {
    header_from(line, 0)
}

pub open spec fn bad_header_pattern(e: ConfigError) -> bool {
    match e {
        ConfigError::Pattern(p) => !regex_compiles(p@) && exists|k: int|
            0 <= k < HEADER_PATTERNS && p@ == #[trigger] header_source(k),
        ConfigError::Vocabulary => false,
    }
}

fn header_pattern(k: usize) -> (r: &'static str)
    requires
        k < HEADER_PATTERNS,
    ensures
        r@ == header_source(k as int),
{
    if k == 0 {
        ROMAN_HEADER
    } else if k == 1 {
        CAPS_HEADER
    } else if k == 2 {
        LETTER_HEADER
    } else if k == 3 {
        NUMBER_HEADER
    } else if k == 4 {
        SMALL_LETTER_HEADER
    } else {
        DOTTED_HEADER
    }
}

fn title_from_groups(g: &Vec<Vec<char>>) -> (r: Vec<char>)
    ensures
        r@ == header_title(seqs_of(g@)),
{
    if g.len() >= 2 {
        let mut t = copy_range(&g[0], 0, g[0].len());
        assert(g[0]@.subrange(0, g[0]@.len() as int) =~= g[0]@);
        t.push(' ');
        append_chars(&mut t, &g[1]);
        t
    } else if g.len() == 1 {
        let t = copy_range(&g[0], 0, g[0].len());
        assert(g[0]@.subrange(0, g[0]@.len() as int) =~= g[0]@);
        t
    } else {
        Vec::new()
    }
}

pub open spec fn header_view(o: Option<(Vec<char>, usize)>) -> Option<(Seq<char>, nat)> {
    match o {
        Some((t, l)) => Some((t@, l as nat)),
        None => None,
    }
}

/// The header patterns, compiled, in order.
pub(crate) open spec fn compiled_headers(h: Seq<CompiledPattern>) -> bool {
    &&& h.len() == HEADER_PATTERNS
    &&& forall|k: int| 0 <= k < HEADER_PATTERNS ==> (#[trigger] h[k]).pattern() == header_source(k)
}

fn compile_headers() -> (r: Result<Vec<CompiledPattern>, ConfigError>)
    ensures
        r matches Ok(h) ==> compiled_headers(h@),
        r matches Err(e) ==> bad_header_pattern(e),
{
    let mut h: Vec<CompiledPattern> = Vec::new();
    let mut k: usize = 0;
    while k < HEADER_PATTERNS
        invariant
            k <= HEADER_PATTERNS,
            h@.len() == k,
            forall|j: int| 0 <= j < k ==> (#[trigger] h@[j]).pattern() == header_source(j),
        decreases HEADER_PATTERNS - k,
    {
        let pattern = header_pattern(k);
        match compile(pattern) {
            Ok(c) => {
                h.push(c);
            },
            Err(_) => {
                return Err(ConfigError::Pattern(pattern.to_owned()));
            },
        }
        k = k + 1;
    }
    Ok(h)
}

/// Tries the header patterns on `line` in order; the first that matches
/// decides.
fn classify_line(line: &[char], headers: &Vec<CompiledPattern>) -> (r: Option<(Vec<char>, usize)>)
    requires
        compiled_headers(headers@),
    ensures
        header_view(r) == header_of(line@),
        r matches Some(h) ==> 1 <= h.1 <= 3,
{
    let mut k: usize = 0;
    while k < HEADER_PATTERNS
        invariant
            k <= HEADER_PATTERNS,
            compiled_headers(headers@),
            header_of(line@) == header_from(line@, k as int),
        decreases HEADER_PATTERNS - k,
    {
        let m = all_matches(&headers[k], line);
        if m.len() > 0 {
            assert(seqs_of(m@[0]@) == match_groups(m@)[0]);
            let level: usize = if k < 2 {
                1
            } else if k < 4 {
                2
            } else {
                3
            };
            return Some((title_from_groups(&m[0]), level));
        }
        k = k + 1;
    }
    None
}

/// The state of segmentation after some lines: the sections closed so far
/// and the one still open.
pub struct Segmentation {
    pub done: Seq<SectionView>,
    pub title: Option<Seq<char>>,
    pub body: Seq<Seq<char>>,
    pub level: nat,
}

pub open spec fn open_section(s: Segmentation) -> SectionView {
    SectionView { title: s.title, content: join_lines(s.body), level: s.level }
}

/// The closed sections, and the open one unless it has neither a title nor
/// a line.
pub open spec fn flushed(s: Segmentation) -> Seq<SectionView> {
    if s.body.len() > 0 || s.title is Some {
        s.done.push(open_section(s))
    } else {
        s.done
    }
}

pub open spec fn segment_step(s: Segmentation, raw: Seq<char>) -> Segmentation {
    let l = trim(raw);
    if l.len() == 0 {
        s
    } else {
        match header_of(l) {
            Some((t, lv)) => Segmentation {
                done: flushed(s),
                title: Some(t),
                body: Seq::<Seq<char>>::empty(),
                level: lv,
            },
            None => Segmentation { done: s.done, title: s.title, body: s.body.push(l), level: s.level },
        }
    }
}

pub open spec fn segment_lines(ls: Seq<Seq<char>>) -> Segmentation
    decreases ls.len(),
{
    if ls.len() == 0 {
        Segmentation {
            done: Seq::<SectionView>::empty(),
            title: None,
            body: Seq::<Seq<char>>::empty(),
            level: 1,
        }
    } else {
        segment_step(segment_lines(ls.drop_last()), ls.last())
    }
}

/// The sections of `text`, in document order.
pub open spec fn sections_of(text: Seq<char>) -> Seq<SectionView> {
    flushed(segment_lines(pieces(text, false)))
}

pub open spec fn opt_chars(o: Option<Vec<char>>) -> Option<Seq<char>> {
    match o {
        Some(v) => Some(v@),
        None => None,
    }
}

fn close_section(title: &Option<Vec<char>>, body: &Vec<char>, level: usize) -> (r: Section)
    ensures
        r@ == (SectionView { title: opt_chars(*title), content: body@, level: level as nat }),
{
    let t = match title {
        Some(t) => Some(string_of(t)),
        None => None,
    };
    Section { title: t, content: string_of(body), level }
}

/// Splits `text` into sections at the header lines.
pub fn extract_sections(text: &[char]) -> (r: Result<Vec<Section>, ConfigError>)
    ensures
        r matches Ok(v) ==> section_views(v@) == sections_of(text@),
        r matches Err(e) ==> bad_header_pattern(e),
{
    let headers = match compile_headers() {
        Ok(h) => h,
        Err(e) => {
            return Err(e);
        },
    };
    let lines = split_pieces(text, false);
    let ghost ls = seqs_of(lines@);
    let mut sections: Vec<Section> = Vec::new();
    let mut title: Option<Vec<char>> = None;
    let mut body: Vec<char> = Vec::new();
    let ghost mut body_lines: Seq<Seq<char>> = Seq::empty();
    let mut level: usize = 1;
    let mut i: usize = 0;
    assert(ls.take(0) =~= Seq::<Seq<char>>::empty());
    assert(section_views(sections@) =~= Seq::<SectionView>::empty());
    while i < lines.len()
        invariant
            i <= lines@.len(),
            ls == seqs_of(lines@),
            ls == pieces(text@, false),
            compiled_headers(headers@),
            body@ == join_lines(body_lines),
            forall|j: int| 0 <= j < body_lines.len() ==> #[trigger] body_lines[j].len() > 0,
            (Segmentation {
                done: section_views(sections@),
                title: opt_chars(title),
                body: body_lines,
                level: level as nat,
            }) == segment_lines(ls.take(i as int)),
        decreases lines@.len() - i,
    {
        assert(ls.take(i + 1).drop_last() =~= ls.take(i as int));
        assert(ls.take(i + 1).last() == lines@[i as int]@);
        let line = trim_chars(&lines[i]);
        if line.len() > 0 {
            match classify_line(&line, &headers) {
                Some((t, lv)) => {
                    proof {
                        lemma_join_empty(body_lines);
                    }
                    if body.len() > 0 || title.is_some() {
                        let s = close_section(&title, &body, level);
                        sections.push(s);
                        assert(section_views(sections@) =~= flushed(
                            segment_lines(ls.take(i as int)),
                        ));
                    }
                    title = Some(t);
                    body = Vec::new();
                    proof {
                        body_lines = Seq::empty();
                    }
                    level = lv;
                },
                None => {
                    proof {
                        lemma_join_empty(body_lines);
                        lemma_join_push(body_lines, line@);
                    }
                    if body.len() > 0 {
                        body.push('\n');
                    }
                    append_chars(&mut body, &line);
                    proof {
                        body_lines = body_lines.push(line@);
                    }
                },
            }
        }
        i = i + 1;
    }
    assert(ls.take(i as int) =~= ls);
    proof {
        lemma_join_empty(body_lines);
    }
    if body.len() > 0 || title.is_some() {
        let s = close_section(&title, &body, level);
        sections.push(s);
        assert(section_views(sections@) =~= sections_of(text@));
    }
    Ok(sections)
}

// ---------------------------------------------------------------- metadata

/// The (pattern, field name) pairs that fill the metadata of a kind of
/// document, applied in this order to the whole text.
pub open spec fn metadata_table(k: DocKind) -> Seq<(Seq<char>, Seq<char>)> {
    match k {
        DocKind::Plan => seq![
            (PLAN_ID@, "plan_id"@),
            (PLAN_EFFECTIVE_DATE@, "effective_date"@),
            (PLAN_COVERAGE_TYPE@, "coverage_type"@),
            (PLAN_PREMIUM@, "premium"@),
        ],
        DocKind::Policy => seq![
            (POLICY_NUMBER@, "policy_number"@),
            (POLICY_HOLDER@, "policyholder"@),
            (POLICY_ISSUE_DATE@, "issue_date"@),
            (POLICY_EXPIRATION_DATE@, "expiration_date"@),
        ],
        DocKind::Claim => seq![
            (CLAIM_NUMBER@, "claim_number"@),
            (CLAIM_SERVICE_DATE@, "service_date"@),
            (CLAIM_PROVIDER@, "provider"@),
            (CLAIM_AMOUNT@, "amount"@),
            (CLAIM_STATUS@, "status"@),
        ],
        DocKind::Other => seq![(ANY_ID@, "id"@), (ANY_DATE@, "date"@), (ANY_NAME@, "name"@)],
    }
}

pub open spec fn str_pairs(v: Seq<(&str, &str)>) -> Seq<(Seq<char>, Seq<char>)> {
    v.map_values(|p: (&str, &str)| (p.0@, p.1@))
}

fn metadata_patterns(k: DocKind) -> (r: Vec<(&'static str, &'static str)>)
    ensures
        str_pairs(r@) == metadata_table(k),
{
    let r = match k {
        DocKind::Plan => vec![
            (PLAN_ID, "plan_id"),
            (PLAN_EFFECTIVE_DATE, "effective_date"),
            (PLAN_COVERAGE_TYPE, "coverage_type"),
            (PLAN_PREMIUM, "premium"),
        ],
        DocKind::Policy => vec![
            (POLICY_NUMBER, "policy_number"),
            (POLICY_HOLDER, "policyholder"),
            (POLICY_ISSUE_DATE, "issue_date"),
            (POLICY_EXPIRATION_DATE, "expiration_date"),
        ],
        DocKind::Claim => vec![
            (CLAIM_NUMBER, "claim_number"),
            (CLAIM_SERVICE_DATE, "service_date"),
            (CLAIM_PROVIDER, "provider"),
            (CLAIM_AMOUNT, "amount"),
            (CLAIM_STATUS, "status"),
        ],
        DocKind::Other => vec![(ANY_ID, "id"), (ANY_DATE, "date"), (ANY_NAME, "name")],
    };
    assert(str_pairs(r@) =~= metadata_table(k));
    r
}

/// Each field whose pattern matches somewhere in `text`, with the first
/// match's group, trimmed, as its value.
pub open spec fn metadata_of(table: Seq<(Seq<char>, Seq<char>)>, text: Seq<char>) -> Seq<
    (Seq<char>, Seq<char>),
>
    decreases table.len(),
{
    if table.len() == 0 {
        Seq::empty()
    } else {
        let prev = metadata_of(table.drop_last(), text);
        let m = regex_matches(table.last().0, text);
        if m.len() > 0 && m[0].len() > 0 {
            prev.push((table.last().1, trim(m[0][0])))
        } else {
            prev
        }
    }
}

pub open spec fn bad_metadata_pattern(e: ConfigError, k: DocKind) -> bool {
    match e {
        ConfigError::Pattern(p) => !regex_compiles(p@) && exists|i: int|
            0 <= i < metadata_table(k).len() && p@ == #[trigger] metadata_table(k)[i].0,
        ConfigError::Vocabulary => false,
    }
}

fn extract_metadata(text: &[char], k: DocKind) -> (r: Result<Vec<(String, String)>, ConfigError>)
    ensures
        r matches Ok(m) ==> pair_views(m@) == metadata_of(metadata_table(k), text@),
        r matches Err(e) ==> bad_metadata_pattern(e, k),
{
    let table = metadata_patterns(k);
    let ghost t = str_pairs(table@);
    let mut metadata: Vec<(String, String)> = Vec::new();
    let mut i: usize = 0;
    assert(t.take(0) =~= Seq::<(Seq<char>, Seq<char>)>::empty());
    assert(pair_views(metadata@) =~= Seq::<(Seq<char>, Seq<char>)>::empty());
    while i < table.len()
        invariant
            i <= table@.len(),
            t == str_pairs(table@),
            t == metadata_table(k),
            pair_views(metadata@) == metadata_of(t.take(i as int), text@),
        decreases table@.len() - i,
    {
        assert(t.take(i + 1).drop_last() =~= t.take(i as int));
        assert(t.take(i + 1).last() == t[i as int]);
        let (pattern, key) = table[i];
        match compile(pattern) {
            Err(_) => {
                let e = ConfigError::Pattern(pattern.to_owned());
                assert(metadata_table(k)[i as int].0 == pattern@);
                return Err(e);
            },
            Ok(c) => {
                let m = all_matches(&c, text);
                if m.len() > 0 && m[0].len() > 0 {
                    assert(seqs_of(m@[0]@) == match_groups(m@)[0]);
                    let value = trim_chars(&m[0][0]);
                    metadata.push((key.to_owned(), string_of(&value)));
                    assert(pair_views(metadata@) =~= metadata_of(t.take(i + 1), text@));
                } else {
                    assert(pair_views(metadata@) =~= metadata_of(t.take(i + 1), text@));
                }
            },
        }
        i = i + 1;
    }
    assert(t.take(i as int) =~= t);
    Ok(metadata)
}

// ---------------------------------------------------------------- document

/// What `process` makes of `text` read as a document of type `doc_type`.
pub open spec fn document_of(text: Seq<char>, doc_type: Seq<char>) -> DocumentView {
    DocumentView {
        doc_type,
        title: title_of(text),
        sections: sections_of(text),
        metadata: metadata_of(metadata_table(kind_of(doc_type)), text),
    }
}

/// Process a document and return its title, sections and metadata.
pub fn process(content: &str, doc_type: &str) -> (r: Result<ProcessedDocument, ConfigError>)
    ensures
        r matches Ok(d) ==> d@ == document_of(content@, doc_type@),
        r matches Ok(d) ==> forall|j: int|
            0 <= j < d@.sections.len() ==> section_wf(#[trigger] d@.sections[j]),
        r matches Ok(d) ==> field_names_distinct(d@.metadata),
        r matches Err(e) ==> bad_header_pattern(e) || bad_metadata_pattern(
            e,
            kind_of(doc_type@),
        ),
{
    let text = chars_of(content);
    let title = extract_title(content);
    let sections = match extract_sections(&text) {
        Ok(s) => s,
        Err(e) => {
            return Err(e);
        },
    };
    let metadata = match extract_metadata(&text, doc_kind(doc_type)) {
        Ok(m) => m,
        Err(e) => {
            return Err(e);
        },
    };
    proof {
        sections_well_formed(content@);
        metadata_names_distinct(content@, kind_of(doc_type@));
    }
    Ok(ProcessedDocument { doc_type: doc_type.to_owned(), title, sections, metadata })
}


/// A line that a level-1 pattern matches is a level-1 header, whatever the
/// lower-level patterns make of it: the patterns are tried in order and the
/// first match decides.
pub proof fn header_precedence(line: Seq<char>, k: int)
    requires
        0 <= k < 2,
        regex_matches(header_source(k), line).len() > 0,
    ensures
        header_of(line) matches Some(h) && h.1 == 1,
{
    assert(header_from(line, 0) == if regex_matches(header_source(0), line).len() > 0 {
        Some((header_title(regex_matches(header_source(0), line)[0]), header_level(0)))
    } else {
        header_from(line, 1)
    });
    assert(header_from(line, 1) == if regex_matches(header_source(1), line).len() > 0 {
        Some((header_title(regex_matches(header_source(1), line)[0]), header_level(1)))
    } else {
        header_from(line, 2)
    });
}


/// The lines of `ls` that end up in some section's content: trimmed,
/// non-blank and not headers, in order.
pub open spec fn body_lines(ls: Seq<Seq<char>>) -> Seq<Seq<char>>
    decreases ls.len(),
{
    if ls.len() == 0 {
        Seq::empty()
    } else {
        let prev = body_lines(ls.drop_last());
        let l = trim(ls.last());
        if l.len() > 0 && header_of(l) is None {
            prev.push(l)
        } else {
            prev
        }
    }
}

/// The lines of a section's content.
pub open spec fn content_lines(c: Seq<char>) -> Seq<Seq<char>> {
    if c.len() == 0 {
        Seq::empty()
    } else {
        pieces(c, false)
    }
}

/// The content lines of all sections, one section after the other.
pub open spec fn all_content_lines(secs: Seq<SectionView>) -> Seq<Seq<char>>
    decreases secs.len(),
{
    if secs.len() == 0 {
        Seq::empty()
    } else {
        all_content_lines(secs.drop_last()) + content_lines(secs.last().content)
    }
}

pub open spec fn clean_body(body: Seq<Seq<char>>) -> bool {
    forall|j: int| 0 <= j < body.len() ==> #[trigger] body[j].len() > 0 && line_free(body[j])
}

proof fn lemma_flushed_lines(s: Segmentation)
    requires
        clean_body(s.body),
    ensures
        all_content_lines(flushed(s)) == all_content_lines(s.done) + s.body,
{
    if s.body.len() > 0 {
        assert forall|j: int| 0 <= j < s.body.len() implies #[trigger] s.body[j].len() > 0 by {
            assert(clean_body(s.body));
        }
        lemma_join_empty(s.body);
        lemma_pieces_join(s.body);
        assert(flushed(s).drop_last() =~= s.done);
    } else if s.title is Some {
        assert(flushed(s).drop_last() =~= s.done);
        assert(all_content_lines(s.done) + s.body =~= all_content_lines(s.done));
    } else {
        assert(all_content_lines(s.done) + s.body =~= all_content_lines(s.done));
    }
}

proof fn lemma_segment_lines(ls: Seq<Seq<char>>)
    requires
        forall|i: int| 0 <= i < ls.len() ==> line_free(#[trigger] ls[i]),
    ensures
        clean_body(segment_lines(ls).body),
        all_content_lines(segment_lines(ls).done) + segment_lines(ls).body == body_lines(ls),
    decreases ls.len(),
{
    if ls.len() == 0 {
        assert(all_content_lines(Seq::<SectionView>::empty()) + Seq::<Seq<char>>::empty()
            =~= Seq::<Seq<char>>::empty());
    } else {
        let front = ls.drop_last();
        assert forall|i: int| 0 <= i < front.len() implies line_free(#[trigger] front[i]) by {
            assert(front[i] == ls[i]);
        }
        lemma_segment_lines(front);
        let s = segment_lines(front);
        let l = trim(ls.last());
        assert(line_free(ls[ls.len() - 1]));
        lemma_trim_line_free(ls.last());
        if l.len() > 0 {
            match header_of(l) {
                Some(_) => {
                    lemma_flushed_lines(s);
                    assert(all_content_lines(flushed(s)) + Seq::<Seq<char>>::empty()
                        =~= all_content_lines(flushed(s)));
                },
                None => {
                    assert(all_content_lines(s.done) + s.body.push(l) =~= (all_content_lines(
                        s.done,
                    ) + s.body).push(l));
                },
            }
        }
    }
}

/// Every trimmed, non-blank line of `text` that is not a header stands, in
/// order, in the content of exactly one section: the sections' content lines,
/// one section after another, are those lines.
pub proof fn section_line_coverage(text: Seq<char>)
    ensures
        all_content_lines(sections_of(text)) == body_lines(pieces(text, false)),
{
    lemma_pieces_line_free(text, false);
    lemma_segment_lines(pieces(text, false));
    lemma_flushed_lines(segment_lines(pieces(text, false)));
}


/// The document type a file name suggests: the first of `plan`, `policy`,
/// `claim` it holds, else `generic`.
pub open spec fn doc_type_for_file(name: Seq<char>) -> Seq<char> {
    if has_infix(name, "plan"@) {
        "plan"@
    } else if has_infix(name, "policy"@) {
        "policy"@
    } else if has_infix(name, "claim"@) {
        "claim"@
    } else {
        "generic"@
    }
}

/// The document type to use when none is given, from the input's file name.
pub fn infer_doc_type(file_name: &str) -> (r: String)
    ensures
        r@ == doc_type_for_file(file_name@),
{
    let name = chars_of(file_name);
    if contains_chars(&name, &chars_of("plan")) {
        "plan".to_owned()
    } else if contains_chars(&name, &chars_of("policy")) {
        "policy".to_owned()
    } else if contains_chars(&name, &chars_of("claim")) {
        "claim".to_owned()
    } else {
        "generic".to_owned()
    }
}


proof fn lemma_header_level(line: Seq<char>, k: int)
    ensures
        header_from(line, k) matches Some(h) ==> 1 <= h.1 <= 3,
    decreases HEADER_PATTERNS - k,
{
    if k < HEADER_PATTERNS {
        lemma_header_level(line, k + 1);
    }
}

proof fn lemma_segment_wf(ls: Seq<Seq<char>>)
    ensures
        1 <= segment_lines(ls).level <= 3,
        forall|j: int| 0 <= j < segment_lines(ls).body.len() ==> #[trigger] segment_lines(ls).body[j].len() > 0,
        forall|j: int| 0 <= j < segment_lines(ls).done.len() ==> section_wf(#[trigger] segment_lines(ls).done[j]),
    decreases ls.len(),
{
    if ls.len() > 0 {
        let front = ls.drop_last();
        lemma_segment_wf(front);
        let s = segment_lines(front);
        lemma_header_level(trim(ls.last()), 0);
        lemma_flushed_wf(s);
    }
}

proof fn lemma_flushed_wf(s: Segmentation)
    requires
        1 <= s.level <= 3,
        forall|j: int| 0 <= j < s.body.len() ==> #[trigger] s.body[j].len() > 0,
        forall|j: int| 0 <= j < s.done.len() ==> section_wf(#[trigger] s.done[j]),
    ensures
        forall|j: int| 0 <= j < flushed(s).len() ==> section_wf(#[trigger] flushed(s)[j]),
{
    lemma_join_empty(s.body);
    if s.body.len() > 0 || s.title is Some {
        assert forall|j: int| 0 <= j < flushed(s).len() implies section_wf(#[trigger] flushed(s)[j]) by {
            if j < s.done.len() {
                assert(flushed(s)[j] == s.done[j]);
            }
        }
    }
}

/// Every section of a document has a title or some content, and a level
/// from 1 to 3.
pub proof fn sections_well_formed(text: Seq<char>)
    ensures
        forall|j: int| 0 <= j < sections_of(text).len() ==> section_wf(#[trigger] sections_of(text)[j]),
{
    lemma_segment_wf(pieces(text, false));
    lemma_flushed_wf(segment_lines(pieces(text, false)));
}


/// No two fields share a name.
pub open spec fn field_names_distinct(md: Seq<(Seq<char>, Seq<char>)>) -> bool {
    forall|a: int, b: int| 0 <= a < b < md.len() ==> #[trigger] md[a].0 != #[trigger] md[b].0
}

/// No two rows of a metadata table fill the same field.
pub open spec fn table_fields_distinct(t: Seq<(Seq<char>, Seq<char>)>) -> bool {
    forall|a: int, b: int| 0 <= a < b < t.len() ==> #[trigger] t[a].1 != #[trigger] t[b].1
}

proof fn lemma_table_distinct(k: DocKind)
    ensures
        table_fields_distinct(metadata_table(k)),
{
    reveal_strlit("plan_id");
    reveal_strlit("effective_date");
    reveal_strlit("coverage_type");
    reveal_strlit("premium");
    reveal_strlit("policy_number");
    reveal_strlit("policyholder");
    reveal_strlit("issue_date");
    reveal_strlit("expiration_date");
    reveal_strlit("claim_number");
    reveal_strlit("service_date");
    reveal_strlit("provider");
    reveal_strlit("amount");
    reveal_strlit("status");
    reveal_strlit("id");
    reveal_strlit("date");
    reveal_strlit("name");
    let t = metadata_table(k);
    assert(t.len() <= 5);
    assert forall|a: int, b: int| 0 <= a < b < t.len() implies #[trigger] t[a].1 != #[trigger] t[b].1 by {
        assert(a == 0 || a == 1 || a == 2 || a == 3);
        assert(b == 1 || b == 2 || b == 3 || b == 4);
        assert(t[a].1.len() != t[b].1.len() || t[a].1[0] != t[b].1[0] || t[a].1[1] != t[b].1[1]);
    }
}

proof fn lemma_metadata_fields(table: Seq<(Seq<char>, Seq<char>)>, text: Seq<char>)
    requires
        table_fields_distinct(table),
    ensures
        field_names_distinct(metadata_of(table, text)),
        forall|a: int| 0 <= a < metadata_of(table, text).len() ==> exists|j: int|
            0 <= j < table.len() && #[trigger] metadata_of(table, text)[a].0 == table[j].1,
    decreases table.len(),
{
    if table.len() > 0 {
        let front = table.drop_last();
        assert(table_fields_distinct(front)) by {
            assert forall|a: int, b: int| 0 <= a < b < front.len() implies #[trigger] front[a].1
                != #[trigger] front[b].1 by {
                assert(table[a].1 != table[b].1);
            }
        }
        lemma_metadata_fields(front, text);
        let prev = metadata_of(front, text);
        let md = metadata_of(table, text);
        assert forall|a: int| 0 <= a < md.len() implies exists|j: int|
            0 <= j < table.len() && #[trigger] md[a].0 == table[j].1 by {
            if a < prev.len() {
                let j = choose|j: int| 0 <= j < front.len() && #[trigger] prev[a].0 == front[j].1;
                assert(md[a].0 == table[j].1);
            } else {
                assert(md[a].0 == table[table.len() - 1].1);
            }
        }
        assert forall|a: int, b: int| 0 <= a < b < md.len() implies #[trigger] md[a].0
            != #[trigger] md[b].0 by {
            if b < prev.len() {
                assert(md[a] == prev[a] && md[b] == prev[b]);
            } else {
                let j = choose|j: int| 0 <= j < front.len() && #[trigger] prev[a].0 == front[j].1;
                assert(md[a] == prev[a]);
                assert(md[b].0 == table[table.len() - 1].1);
                assert(table[j].1 != table[table.len() - 1].1);
            }
        }
    }
}

/// Each metadata field name occurs at most once.
pub proof fn metadata_names_distinct(text: Seq<char>, k: DocKind)
    ensures
        field_names_distinct(metadata_of(metadata_table(k), text)),
{
    lemma_table_distinct(k);
    lemma_metadata_fields(metadata_table(k), text);
}

} // verus!
