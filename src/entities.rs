//! Entity extraction from a segmented document.

use vstd::prelude::*;

use crate::document::{
    doc_kind, kind_of, opt_view, pair_views, section_views, ConfigError, DocKind, DocumentView,
    ProcessedDocument, Section, SectionView,
};
use crate::engines::{
    all_matches, build_procedure_matcher, compile, CompiledPattern, chars_of, lower_of, lowercase, match_groups,
    procedure_hits, procedure_vocabulary, regex_compiles, vocabulary_builds, regex_matches, string_of, vocabulary_hits, ProcedureMatcher,
};
use crate::text::{
    append_chars, contains_chars, has_infix, pieces, seqs_of, split_pieces, trim, trim_chars,
};

verus! {

/// Medical procedures looked for in every section.
pub const PROCEDURE_TERMS: [&'static str; 46] = [
    "surgery",
    "consultation",
    "examination",
    "x-ray",
    "mri",
    "ct scan",
    "ultrasound",
    "blood test",
    "vaccination",
    "immunization",
    "therapy",
    "treatment",
    "screening",
    "checkup",
    "physical",
    "dental cleaning",
    "filling",
    "root canal",
    "crown",
    "prescription",
    "medication",
    "injection",
    "infusion",
    "dialysis",
    "transplant",
    "rehabilitation",
    "physical therapy",
    "occupational therapy",
    "speech therapy",
    "chemotherapy",
    "radiation",
    "anesthesia",
    "biopsy",
    "colonoscopy",
    "endoscopy",
    "mammogram",
    "pap smear",
    "prenatal care",
    "delivery",
    "maternity",
    "emergency",
    "ambulance",
    "hospitalization",
    "inpatient",
    "outpatient",
    "preventive care",
];


/// A bulleted list item: `- name: description` or `- name - description`.
pub const BULLET_ITEM: &'static str = r"(?m)^[\s•\-*]+([^:]+)(?::|\s-\s)(.+)$";

/// A numbered list item: `1. name: description` or `1. name - description`.
pub const NUMBERED_ITEM: &'static str = r"(?m)^[\s]*\d+\.\s+([^:]+)(?::|\s-\s)(.+)$";

/// Entity types for healthcare insurance documents
#[derive(PartialEq, Eq, Structural, Clone, Copy, Debug)]
pub enum EntityType {
    Plan,
    Policy,
    Benefit,
    Exclusion,
    Procedure,
    Claim,
    Provider,
    Coverage,
    Condition,
    Limitation,
    Document,
}

pub open spec fn type_label(t: EntityType) -> Seq<char> {
    match t {
        EntityType::Plan => "Plan"@,
        EntityType::Policy => "Policy"@,
        EntityType::Benefit => "Benefit"@,
        EntityType::Exclusion => "Exclusion"@,
        EntityType::Procedure => "Procedure"@,
        EntityType::Claim => "Claim"@,
        EntityType::Provider => "Provider"@,
        EntityType::Coverage => "Coverage"@,
        EntityType::Condition => "Condition"@,
        EntityType::Limitation => "Limitation"@,
        EntityType::Document => "Document"@,
    }
}

impl EntityType {
    /// The tag that entities of this type carry.
    pub fn label(&self) -> (r: String)
        ensures
            r@ == type_label(*self),
    {
        match self {
            EntityType::Plan => "Plan".to_owned(),
            EntityType::Policy => "Policy".to_owned(),
            EntityType::Benefit => "Benefit".to_owned(),
            EntityType::Exclusion => "Exclusion".to_owned(),
            EntityType::Procedure => "Procedure".to_owned(),
            EntityType::Claim => "Claim".to_owned(),
            EntityType::Provider => "Provider".to_owned(),
            EntityType::Coverage => "Coverage".to_owned(),
            EntityType::Condition => "Condition".to_owned(),
            EntityType::Limitation => "Limitation".to_owned(),
            EntityType::Document => "Document".to_owned(),
        }
    }
}

/// Entity extracted from a document
#[derive(Debug, Clone, PartialEq, Eq)]
pub struct Entity {
    /// Entity type tag
    pub entity_type: String,
    /// Entity name or identifier
    pub name: String,
    /// Entity description or details
    pub description: Option<String>,
    /// Related entities, by name
    pub related: Vec<String>,
    /// Additional attributes as (key, value)
    pub attributes: Vec<(String, String)>,
}

pub struct EntityView {
    pub entity_type: Seq<char>,
    pub name: Seq<char>,
    pub description: Option<Seq<char>>,
    pub related: Seq<Seq<char>>,
    pub attributes: Seq<(Seq<char>, Seq<char>)>,
}

pub open spec fn string_views(v: Seq<String>) -> Seq<Seq<char>> {
    v.map_values(|s: String| s@)
}

impl View for Entity {
    type V = EntityView;

    open spec fn view(&self) -> EntityView {
        EntityView {
            entity_type: self.entity_type@,
            name: self.name@,
            description: opt_view(self.description),
            related: string_views(self.related@),
            attributes: pair_views(self.attributes@),
        }
    }
}

pub open spec fn entity_views(v: Seq<Entity>) -> Seq<EntityView> {
    v.map_values(|e: Entity| e@)
}

/// An entity with no relations and no attributes.
pub open spec fn bare(t: EntityType, name: Seq<char>, description: Option<Seq<char>>) -> EntityView {
    EntityView {
        entity_type: type_label(t),
        name,
        description,
        related: Seq::empty(),
        attributes: Seq::empty(),
    }
}

fn bare_entity(t: EntityType, name: String, description: Option<String>) -> (r: Entity)
    ensures
        r@ == bare(t, name@, opt_view(description)),
{
    let r = Entity {
        entity_type: t.label(),
        name,
        description,
        related: Vec::new(),
        attributes: Vec::new(),
    };
    assert(string_views(r.related@) =~= Seq::<Seq<char>>::empty());
    assert(pair_views(r.attributes@) =~= Seq::<(Seq<char>, Seq<char>)>::empty());
    r
}

fn push_entity(out: &mut Vec<Entity>, e: Entity)
    ensures
        entity_views(final(out)@) == entity_views(old(out)@).push(e@),
{
    let ghost v = e@;
    out.push(e);
    assert(entity_views(out@) =~= entity_views(old(out)@).push(v));
}

fn copy_pairs(md: &Vec<(String, String)>) -> (r: Vec<(String, String)>)
    ensures
        pair_views(r@) == pair_views(md@),
{
    let mut r: Vec<(String, String)> = Vec::new();
    let mut i: usize = 0;
    while i < md.len()
        invariant
            i <= md@.len(),
            pair_views(r@) == pair_views(md@).take(i as int),
        decreases md@.len() - i,
    {
        let key = md[i].0.clone();
        let value = md[i].1.clone();
        assert(key@ == md@[i as int].0@ && value@ == md@[i as int].1@);
        let ghost prev = pair_views(r@);
        let ghost kv = (key@, value@);
        r.push((key, value));
        assert(pair_views(r@) =~= prev.push(kv));
        assert(pair_views(md@).take(i + 1) =~= pair_views(md@).take(i as int).push(kv));
        i = i + 1;
    }
    assert(pair_views(md@).take(i as int) =~= pair_views(md@));
    r
}

// ---------------------------------------------------------------- keyword gates

/// The keyword sets that decide whether a section is read for a kind of entity.
#[derive(PartialEq, Eq, Structural, Clone, Copy, Debug)]
pub enum Gate {
    Benefit,
    Exclusion,
    Coverage,
    Condition,
    Limitation,
}

pub open spec fn gate_words(g: Gate) -> Seq<Seq<char>> {
    match g {
        Gate::Benefit => seq![
            "benefit"@,
            "benefits"@,
            "covered"@,
            "coverage"@,
            "covers"@,
            "included"@,
            "includes"@,
        ],
        Gate::Exclusion => seq![
            "exclusion"@,
            "exclusions"@,
            "excluded"@,
            "not covered"@,
            "not include"@,
            "limitation"@,
            "limitations"@,
        ],
        Gate::Coverage => seq!["coverage"@, "covers"@, "covered"@, "benefit"@, "benefits"@],
        Gate::Condition => seq![
            "condition"@,
            "conditions"@,
            "requirement"@,
            "requirements"@,
            "prerequisite"@,
            "prerequisites"@,
        ],
        Gate::Limitation => seq![
            "limitation"@,
            "limitations"@,
            "limit"@,
            "limits"@,
            "restricted"@,
            "restriction"@,
            "restrictions"@,
        ],
    }
}

fn gate_keywords(g: Gate) -> (r: Vec<Vec<char>>)
    ensures
        seqs_of(r@) == gate_words(g),
{
    let r = match g {
        Gate::Benefit => vec![
            chars_of("benefit"),
            chars_of("benefits"),
            chars_of("covered"),
            chars_of("coverage"),
            chars_of("covers"),
            chars_of("included"),
            chars_of("includes"),
        ],
        Gate::Exclusion => vec![
            chars_of("exclusion"),
            chars_of("exclusions"),
            chars_of("excluded"),
            chars_of("not covered"),
            chars_of("not include"),
            chars_of("limitation"),
            chars_of("limitations"),
        ],
        Gate::Coverage => vec![
            chars_of("coverage"),
            chars_of("covers"),
            chars_of("covered"),
            chars_of("benefit"),
            chars_of("benefits"),
        ],
        Gate::Condition => vec![
            chars_of("condition"),
            chars_of("conditions"),
            chars_of("requirement"),
            chars_of("requirements"),
            chars_of("prerequisite"),
            chars_of("prerequisites"),
        ],
        Gate::Limitation => vec![
            chars_of("limitation"),
            chars_of("limitations"),
            chars_of("limit"),
            chars_of("limits"),
            chars_of("restricted"),
            chars_of("restriction"),
            chars_of("restrictions"),
        ],
    };
    assert(seqs_of(r@) =~= gate_words(g));
    r
}

/// `low` holds one of `words`.
pub open spec fn mentions_any(low: Seq<char>, words: Seq<Seq<char>>) -> bool {
    exists|i: int| 0 <= i < words.len() && has_infix(low, #[trigger] words[i])
}

/// `low` holds a keyword of gate `g`.
pub open spec fn mentions(low: Seq<char>, g: Gate) -> bool {
    mentions_any(low, gate_words(g))
}

fn mentions_word(low: &[char], words: &Vec<Vec<char>>) -> (r: bool)
    ensures
        r == mentions_any(low@, seqs_of(words@)),
{
    let mut i: usize = 0;
    while i < words.len()
        invariant
            i <= words@.len(),
            forall|j: int| 0 <= j < i ==> !has_infix(low@, #[trigger] seqs_of(words@)[j]),
        decreases words@.len() - i,
    {
        if contains_chars(low, &words[i]) {
            assert(has_infix(low@, seqs_of(words@)[i as int]));
            return true;
        }
        i = i + 1;
    }
    false
}

/// The text a section is read as: its title, a space and its content.
pub open spec fn section_text(s: SectionView) -> Seq<char> {
    match s.title {
        Some(t) => t + seq![' '] + s.content,
        None => s.content,
    }
}

fn section_chars(s: &Section) -> (r: Vec<char>)
    ensures
        r@ == section_text(s@),
{
    match &s.title {
        Some(t) => {
            let mut r = chars_of(t.as_str());
            r.push(' ');
            append_chars(&mut r, &chars_of(s.content.as_str()));
            r
        },
        None => chars_of(s.content.as_str()),
    }
}


// ---------------------------------------------------------------- list items

/// One entity per structured match: its first group as name, its second as
/// description, both trimmed.
pub open spec fn structured_items(ms: Seq<Seq<Seq<char>>>, t: EntityType) -> Seq<EntityView>
    decreases ms.len(),
{
    if ms.len() == 0 {
        Seq::empty()
    } else {
        let prev = structured_items(ms.drop_last(), t);
        let g = ms.last();
        if g.len() >= 2 {
            prev.push(bare(t, trim(g[0]), Some(trim(g[1]))))
        } else {
            prev
        }
    }
}

/// One name-only entity per non-empty trimmed piece that holds a keyword.
pub open spec fn sentence_items(ps: Seq<Seq<char>>, g: Gate, t: EntityType) -> Seq<EntityView>
    decreases ps.len(),
{
    if ps.len() == 0 {
        Seq::empty()
    } else {
        let prev = sentence_items(ps.drop_last(), g, t);
        let s = trim(ps.last());
        if s.len() > 0 && mentions(lower_of(s), g) {
            prev.push(bare(t, s, None))
        } else {
            prev
        }
    }
}

/// The entities of kind `t` read from one section text: nothing unless it
/// holds a keyword of `g`; then the bullet and numbered items, or, where
/// there are none, the sentences that hold a keyword.
pub open spec fn listed_items(text: Seq<char>, g: Gate, t: EntityType) -> Seq<EntityView> {
    if !mentions(lower_of(text), g) {
        Seq::empty()
    } else {
        let a = regex_matches(BULLET_ITEM@, text);
        let b = regex_matches(NUMBERED_ITEM@, text);
        structured_items(a, t) + structured_items(b, t) + if a.len() == 0 && b.len() == 0 {
            sentence_items(pieces(text, true), g, t)
        } else {
            Seq::empty()
        }
    }
}

pub open spec fn listed_over(secs: Seq<SectionView>, g: Gate, t: EntityType) -> Seq<EntityView>
    decreases secs.len(),
{
    if secs.len() == 0 {
        Seq::empty()
    } else {
        listed_over(secs.drop_last(), g, t) + listed_items(section_text(secs.last()), g, t)
    }
}

pub open spec fn bad_list_pattern(e: ConfigError) -> bool {
    match e {
        ConfigError::Pattern(p) => !regex_compiles(p@) && (p@ == BULLET_ITEM@ || p@
            == NUMBERED_ITEM@),
        ConfigError::Vocabulary => false,
    }
}

fn push_structured(out: &mut Vec<Entity>, ms: &Vec<Vec<Vec<char>>>, t: EntityType)
    ensures
        entity_views(final(out)@) == entity_views(old(out)@) + structured_items(
            match_groups(ms@),
            t,
        ),
{
    let ghost all = match_groups(ms@);
    let mut i: usize = 0;
    assert(entity_views(out@) =~= entity_views(old(out)@) + structured_items(all.take(0), t));
    while i < ms.len()
        invariant
            i <= ms@.len(),
            all == match_groups(ms@),
            entity_views(out@) == entity_views(old(out)@) + structured_items(all.take(i as int), t),
        decreases ms@.len() - i,
    {
        assert(all.take(i + 1).drop_last() =~= all.take(i as int));
        assert(all.take(i + 1).last() == seqs_of(ms@[i as int]@));
        let g = &ms[i];
        if g.len() >= 2 {
            let name = trim_chars(&g[0]);
            let description = trim_chars(&g[1]);
            let e = bare_entity(t, string_of(&name), Some(string_of(&description)));
            push_entity(out, e);
        }
        assert(entity_views(out@) =~= entity_views(old(out)@) + structured_items(
            all.take(i + 1),
            t,
        ));
        i = i + 1;
    }
    assert(all.take(i as int) =~= all);
}

fn push_sentences(out: &mut Vec<Entity>, text: &[char], g: Gate, words: &Vec<Vec<char>>, t: EntityType)
    requires
        seqs_of(words@) == gate_words(g),
    ensures
        entity_views(final(out)@) == entity_views(old(out)@) + sentence_items(
            pieces(text@, true),
            g,
            t,
        ),
{
    let ps = split_pieces(text, true);
    let ghost all = seqs_of(ps@);
    let mut i: usize = 0;
    assert(entity_views(out@) =~= entity_views(old(out)@) + sentence_items(all.take(0), g, t));
    while i < ps.len()
        invariant
            i <= ps@.len(),
            all == seqs_of(ps@),
            all == pieces(text@, true),
            seqs_of(words@) == gate_words(g),
            entity_views(out@) == entity_views(old(out)@) + sentence_items(all.take(i as int), g, t),
        decreases ps@.len() - i,
    {
        assert(all.take(i + 1).drop_last() =~= all.take(i as int));
        assert(all.take(i + 1).last() == ps@[i as int]@);
        let s = trim_chars(&ps[i]);
        if s.len() > 0 && mentions_word(&lowercase(&s), words) {
            let e = bare_entity(t, string_of(&s), None);
            push_entity(out, e);
        }
        assert(entity_views(out@) =~= entity_views(old(out)@) + sentence_items(
            all.take(i + 1),
            g,
            t,
        ));
        i = i + 1;
    }
    assert(all.take(i as int) =~= all);
}

fn push_listed(
    out: &mut Vec<Entity>,
    text: &[char],
    g: Gate,
    t: EntityType,
    bullet: &CompiledPattern,
    numbered: &CompiledPattern,
)
    requires
        bullet.pattern() == BULLET_ITEM@,
        numbered.pattern() == NUMBERED_ITEM@,
    ensures
        entity_views(final(out)@) == entity_views(old(out)@) + listed_items(text@, g, t),
{
    let words = gate_keywords(g);
    if !mentions_word(&lowercase(text), &words) {
        assert(entity_views(out@) =~= entity_views(old(out)@) + listed_items(text@, g, t));
        return ;
    }
    let bullets = all_matches(bullet, text);
    let numbers = all_matches(numbered, text);
    let ghost start = entity_views(out@);
    push_structured(out, &bullets, t);
    push_structured(out, &numbers, t);
    if bullets.len() == 0 && numbers.len() == 0 {
        push_sentences(out, text, g, &words, t);
    }
    assert(entity_views(out@) =~= start + listed_items(text@, g, t));
}

fn push_listed_over(doc: &ProcessedDocument, out: &mut Vec<Entity>, g: Gate, t: EntityType) -> (r: Result<(), ConfigError>)
    ensures
        r is Ok ==> entity_views(final(out)@) == entity_views(old(out)@) + listed_over(
            doc@.sections,
            g,
            t,
        ),
        r matches Err(e) ==> bad_list_pattern(e),
{
    let bullet = match compile(BULLET_ITEM) {
        Ok(c) => c,
        Err(_) => {
            return Err(ConfigError::Pattern(BULLET_ITEM.to_owned()));
        },
    };
    let numbered = match compile(NUMBERED_ITEM) {
        Ok(c) => c,
        Err(_) => {
            return Err(ConfigError::Pattern(NUMBERED_ITEM.to_owned()));
        },
    };
    let ghost secs = doc@.sections;
    let mut i: usize = 0;
    assert(entity_views(out@) =~= entity_views(old(out)@) + listed_over(secs.take(0), g, t));
    while i < doc.sections.len()
        invariant
            i <= doc.sections@.len(),
            secs == doc@.sections,
            bullet.pattern() == BULLET_ITEM@,
            numbered.pattern() == NUMBERED_ITEM@,
            entity_views(out@) == entity_views(old(out)@) + listed_over(secs.take(i as int), g, t),
        decreases doc.sections@.len() - i,
    {
        assert(secs.take(i + 1).drop_last() =~= secs.take(i as int));
        assert(secs.take(i + 1).last() == doc.sections@[i as int]@);
        let text = section_chars(&doc.sections[i]);
        push_listed(out, &text, g, t, &bullet, &numbered);
        assert(entity_views(out@) =~= entity_views(old(out)@) + listed_over(secs.take(i + 1), g, t));
        i = i + 1;
    }
    assert(secs.take(i as int) =~= secs);
    Ok(())
}

/// Benefit entities from every section that speaks of benefits.
pub fn extract_benefits(doc: &ProcessedDocument, entities: &mut Vec<Entity>) -> (r: Result<(), ConfigError>)
    ensures
        r is Ok ==> entity_views(final(entities)@) == entity_views(old(entities)@) + listed_over(
            doc@.sections,
            Gate::Benefit,
            EntityType::Benefit,
        ),
        r matches Err(e) ==> bad_list_pattern(e),
{
    push_listed_over(doc, entities, Gate::Benefit, EntityType::Benefit)
}

/// Exclusion entities from every section that speaks of exclusions.
pub fn extract_exclusions(doc: &ProcessedDocument, entities: &mut Vec<Entity>) -> (r: Result<(), ConfigError>)
    ensures
        r is Ok ==> entity_views(final(entities)@) == entity_views(old(entities)@) + listed_over(
            doc@.sections,
            Gate::Exclusion,
            EntityType::Exclusion,
        ),
        r matches Err(e) ==> bad_list_pattern(e),
{
    push_listed_over(doc, entities, Gate::Exclusion, EntityType::Exclusion)
}


// ---------------------------------------------------------------- procedures

pub open spec fn term_of(id: usize) -> Seq<char> {
    PROCEDURE_TERMS@[id as int]@
}

pub open spec fn procedure_items(ids: Seq<usize>) -> Seq<EntityView>
    decreases ids.len(),
{
    if ids.len() == 0 {
        Seq::empty()
    } else {
        procedure_items(ids.drop_last()).push(bare(EntityType::Procedure, term_of(ids.last()), None))
    }
}

/// One Procedure entity per vocabulary hit in each lower-cased section text.
pub open spec fn procedures_over(secs: Seq<SectionView>) -> Seq<EntityView>
    decreases secs.len(),
{
    if secs.len() == 0 {
        Seq::empty()
    } else {
        procedures_over(secs.drop_last()) + procedure_items(
            vocabulary_hits(lower_of(section_text(secs.last()))),
        )
    }
}

fn push_procedures(out: &mut Vec<Entity>, ids: &Vec<usize>)
    requires
        forall|i: int| 0 <= i < ids@.len() ==> ids@[i] < PROCEDURE_TERMS.len(),
    ensures
        entity_views(final(out)@) == entity_views(old(out)@) + procedure_items(ids@),
{
    let mut i: usize = 0;
    assert(entity_views(out@) =~= entity_views(old(out)@) + procedure_items(ids@.take(0)));
    while i < ids.len()
        invariant
            i <= ids@.len(),
            forall|i: int| 0 <= i < ids@.len() ==> ids@[i] < PROCEDURE_TERMS.len(),
            entity_views(out@) == entity_views(old(out)@) + procedure_items(ids@.take(i as int)),
        decreases ids@.len() - i,
    {
        assert(ids@.take(i + 1).drop_last() =~= ids@.take(i as int));
        let id = ids[i];
        let term: &str = PROCEDURE_TERMS[id];
        let e = bare_entity(EntityType::Procedure, term.to_owned(), None);
        push_entity(out, e);
        assert(entity_views(out@) =~= entity_views(old(out)@) + procedure_items(ids@.take(i + 1)));
        i = i + 1;
    }
    assert(ids@.take(i as int) =~= ids@);
}

/// Procedure entities: every hit of the procedure vocabulary in every section.
pub fn extract_procedures(doc: &ProcessedDocument, entities: &mut Vec<Entity>) -> (r: Result<(), ConfigError>)
    ensures
        r is Ok ==> entity_views(final(entities)@) == entity_views(old(entities)@) + procedures_over(
            doc@.sections,
        ),
        r matches Err(e) ==> e is Vocabulary && !vocabulary_builds(procedure_vocabulary()),
        r is Err ==> final(entities)@ == old(entities)@,
        vocabulary_builds(procedure_vocabulary()) ==> r is Ok,
{
    let matcher: ProcedureMatcher = match build_procedure_matcher() {
        Ok(m) => m,
        Err(_) => {
            return Err(ConfigError::Vocabulary);
        },
    };
    let ghost secs = doc@.sections;
    let mut i: usize = 0;
    assert(entity_views(entities@) =~= entity_views(old(entities)@) + procedures_over(secs.take(0)));
    while i < doc.sections.len()
        invariant
            i <= doc.sections@.len(),
            secs == doc@.sections,
            entity_views(entities@) == entity_views(old(entities)@) + procedures_over(secs.take(i as int)),
        decreases doc.sections@.len() - i,
    {
        assert(secs.take(i + 1).drop_last() =~= secs.take(i as int));
        assert(secs.take(i + 1).last() == doc.sections@[i as int]@);
        let text = section_chars(&doc.sections[i]);
        let ids = procedure_hits(&matcher, &lowercase(&text));
        push_procedures(entities, &ids);
        assert(entity_views(entities@) =~= entity_views(old(entities)@) + procedures_over(secs.take(i + 1)));
        i = i + 1;
    }
    assert(secs.take(i as int) =~= secs);
    Ok(())
}

// ---------------------------------------------------------------- whole-section entities

/// An entity named after section `s` (or `fallback`, untitled) that carries
/// its content, where the lower-cased section text `low` holds a keyword of `g`.
pub open spec fn section_entry(s: SectionView, low: Seq<char>, g: Gate, t: EntityType, fallback: Seq<char>) -> Seq<EntityView> {
    if mentions(low, g) {
        seq![
            bare(
                t,
                match s.title {
                    Some(x) => x,
                    None => fallback,
                },
                Some(s.content),
            ),
        ]
    } else {
        Seq::empty()
    }
}

pub open spec fn coverage_over(secs: Seq<SectionView>) -> Seq<EntityView>
    decreases secs.len(),
{
    if secs.len() == 0 {
        Seq::empty()
    } else {
        let s = secs.last();
        coverage_over(secs.drop_last()) + section_entry(
            s,
            lower_of(section_text(s)),
            Gate::Coverage,
            EntityType::Coverage,
            "Coverage"@,
        )
    }
}

pub open spec fn conditions_over(secs: Seq<SectionView>) -> Seq<EntityView>
    decreases secs.len(),
{
    if secs.len() == 0 {
        Seq::empty()
    } else {
        let s = secs.last();
        let low = lower_of(section_text(s));
        conditions_over(secs.drop_last()) + section_entry(
            s,
            low,
            Gate::Condition,
            EntityType::Condition,
            "Condition"@,
        ) + section_entry(s, low, Gate::Limitation, EntityType::Limitation, "Limitation"@)
    }
}

fn push_section_entry(out: &mut Vec<Entity>, s: &Section, low: &[char], g: Gate, t: EntityType, fallback: &str)
    ensures
        entity_views(final(out)@) == entity_views(old(out)@) + section_entry(s@, low@, g, t, fallback@),
{
    if mentions_word(low, &gate_keywords(g)) {
        let name = match &s.title {
            Some(x) => x.clone(),
            None => fallback.to_owned(),
        };
        let e = bare_entity(t, name, Some(s.content.clone()));
        push_entity(out, e);
    }
    assert(entity_views(out@) =~= entity_views(old(out)@) + section_entry(s@, low@, g, t, fallback@));
}

/// Coverage entities: one per section that speaks of coverage.
pub fn extract_coverage(doc: &ProcessedDocument, entities: &mut Vec<Entity>) -> (r: Result<(), ConfigError>)
    ensures
        r is Ok,
        entity_views(final(entities)@) == entity_views(old(entities)@) + coverage_over(doc@.sections),
{
    let ghost secs = doc@.sections;
    let mut i: usize = 0;
    assert(entity_views(entities@) =~= entity_views(old(entities)@) + coverage_over(secs.take(0)));
    while i < doc.sections.len()
        invariant
            i <= doc.sections@.len(),
            secs == doc@.sections,
            entity_views(entities@) == entity_views(old(entities)@) + coverage_over(secs.take(i as int)),
        decreases doc.sections@.len() - i,
    {
        assert(secs.take(i + 1).drop_last() =~= secs.take(i as int));
        assert(secs.take(i + 1).last() == doc.sections@[i as int]@);
        let s = &doc.sections[i];
        let low = lowercase(&section_chars(s));
        push_section_entry(entities, s, &low, Gate::Coverage, EntityType::Coverage, "Coverage");
        assert(entity_views(entities@) =~= entity_views(old(entities)@) + coverage_over(secs.take(i + 1)));
        i = i + 1;
    }
    assert(secs.take(i as int) =~= secs);
    Ok(())
}

/// Condition and Limitation entities: each section may give one of each.
pub fn extract_conditions_and_limitations(doc: &ProcessedDocument, entities: &mut Vec<Entity>) -> (r: Result<(), ConfigError>)
    ensures
        r is Ok,
        entity_views(final(entities)@) == entity_views(old(entities)@) + conditions_over(doc@.sections),
{
    let ghost secs = doc@.sections;
    let mut i: usize = 0;
    assert(entity_views(entities@) =~= entity_views(old(entities)@) + conditions_over(secs.take(0)));
    while i < doc.sections.len()
        invariant
            i <= doc.sections@.len(),
            secs == doc@.sections,
            entity_views(entities@) == entity_views(old(entities)@) + conditions_over(secs.take(i as int)),
        decreases doc.sections@.len() - i,
    {
        assert(secs.take(i + 1).drop_last() =~= secs.take(i as int));
        assert(secs.take(i + 1).last() == doc.sections@[i as int]@);
        let s = &doc.sections[i];
        let low = lowercase(&section_chars(s));
        push_section_entry(entities, s, &low, Gate::Condition, EntityType::Condition, "Condition");
        push_section_entry(entities, s, &low, Gate::Limitation, EntityType::Limitation, "Limitation");
        assert(entity_views(entities@) =~= entity_views(old(entities)@) + conditions_over(secs.take(i + 1)));
        i = i + 1;
    }
    assert(secs.take(i as int) =~= secs);
    Ok(())
}


// ---------------------------------------------------------------- primary entities

/// A section title that names an overview, a description or a summary.
pub open spec fn is_descriptive(title: Seq<char>) -> bool {
    let l = lower_of(title);
    has_infix(l, "overview"@) || has_infix(l, "description"@) || has_infix(l, "summary"@)
}

/// The content of the first section with a descriptive title.
pub open spec fn description_of(secs: Seq<SectionView>) -> Option<Seq<char>>
    decreases secs.len(),
{
    if secs.len() == 0 {
        None
    } else if secs[0].title is Some && is_descriptive(secs[0].title->0) {
        Some(secs[0].content)
    } else {
        description_of(secs.drop_first())
    }
}

/// The entity that stands for a whole plan or policy.
pub open spec fn headline(doc: DocumentView, t: EntityType, fallback: Seq<char>) -> EntityView {
    EntityView {
        entity_type: type_label(t),
        name: match doc.title {
            Some(x) => x,
            None => fallback,
        },
        description: description_of(doc.sections),
        related: Seq::empty(),
        attributes: doc.metadata,
    }
}

/// The value of the first field named `key`.
pub open spec fn lookup(md: Seq<(Seq<char>, Seq<char>)>, key: Seq<char>) -> Option<Seq<char>>
    decreases md.len(),
{
    if md.len() == 0 {
        None
    } else if md[0].0 == key {
        Some(md[0].1)
    } else {
        lookup(md.drop_first(), key)
    }
}

pub open spec fn claim_name(doc: DocumentView) -> Seq<char> {
    match lookup(doc.metadata, "claim_number"@) {
        Some(n) => n,
        None => "Unnamed Claim"@,
    }
}

/// The claim, and its provider where the metadata names one; each lists the
/// other as related.
pub open spec fn claim_entities(doc: DocumentView) -> Seq<EntityView> {
    let name = claim_name(doc);
    match lookup(doc.metadata, "provider"@) {
        Some(p) => seq![
            EntityView {
                entity_type: "Claim"@,
                name,
                description: None,
                related: seq![p],
                attributes: doc.metadata,
            },
            EntityView {
                entity_type: "Provider"@,
                name: p,
                description: None,
                related: seq![name],
                attributes: Seq::empty(),
            },
        ],
        None => seq![
            EntityView {
                entity_type: "Claim"@,
                name,
                description: None,
                related: Seq::empty(),
                attributes: doc.metadata,
            },
        ],
    }
}

pub open spec fn generic_entity(doc: DocumentView) -> EntityView {
    EntityView {
        entity_type: "Document"@,
        name: match doc.title {
            Some(x) => x,
            None => "Unnamed Document"@,
        },
        description: None,
        related: Seq::empty(),
        attributes: doc.metadata,
    }
}

/// The entities that depend on the kind of document.
pub open spec fn primary_entities(doc: DocumentView, k: DocKind) -> Seq<EntityView> {
    match k {
        DocKind::Plan => seq![headline(doc, EntityType::Plan, "Unnamed Plan"@)] + coverage_over(
            doc.sections,
        ),
        DocKind::Policy => seq![headline(doc, EntityType::Policy, "Unnamed Policy"@)]
            + conditions_over(doc.sections),
        DocKind::Claim => claim_entities(doc),
        DocKind::Other => seq![generic_entity(doc)],
    }
}

fn find_description(secs: &Vec<Section>) -> (r: Option<String>)
    ensures
        opt_view(r) == description_of(section_views(secs@)),
{
    let ghost all = section_views(secs@);
    let overview = chars_of("overview");
    let description = chars_of("description");
    let summary = chars_of("summary");
    let mut i: usize = 0;
    assert(all.skip(0) =~= all);
    while i < secs.len()
        invariant
            i <= secs@.len(),
            all == section_views(secs@),
            overview@ == "overview"@,
            description@ == "description"@,
            summary@ == "summary"@,
            description_of(all) == description_of(all.skip(i as int)),
        decreases secs@.len() - i,
    {
        assert(all.skip(i as int).drop_first() =~= all.skip(i + 1));
        assert(all.skip(i as int)[0] == secs@[i as int]@);
        if let Some(t) = &secs[i].title {
            let low = lowercase(&chars_of(t.as_str()));
            if contains_chars(&low, &overview) || contains_chars(&low, &description)
                || contains_chars(&low, &summary) {
                return Some(secs[i].content.clone());
            }
        }
        i = i + 1;
    }
    None
}

fn find_field(md: &Vec<(String, String)>, key: &str) -> (r: Option<String>)
    ensures
        opt_view(r) == lookup(pair_views(md@), key@),
{
    let ghost all = pair_views(md@);
    let k = key.to_owned();
    let mut i: usize = 0;
    assert(all.skip(0) =~= all);
    while i < md.len()
        invariant
            i <= md@.len(),
            all == pair_views(md@),
            k@ == key@,
            lookup(all, key@) == lookup(all.skip(i as int), key@),
        decreases md@.len() - i,
    {
        assert(all.skip(i as int).drop_first() =~= all.skip(i + 1));
        assert(all.skip(i as int)[0] == (md@[i as int].0@, md@[i as int].1@));
        if md[i].0 == k {
            return Some(md[i].1.clone());
        }
        i = i + 1;
    }
    None
}

fn headline_entity(doc: &ProcessedDocument, t: EntityType, fallback: &str) -> (r: Entity)
    ensures
        r@ == headline(doc@, t, fallback@),
{
    let name = match &doc.title {
        Some(x) => x.clone(),
        None => fallback.to_owned(),
    };
    let r = Entity {
        entity_type: t.label(),
        name,
        description: find_description(&doc.sections),
        related: Vec::new(),
        attributes: copy_pairs(&doc.metadata),
    };
    assert(string_views(r.related@) =~= Seq::<Seq<char>>::empty());
    r
}

/// The Plan entity, then the coverage entities.
pub fn extract_plan_entities(doc: &ProcessedDocument, entities: &mut Vec<Entity>) -> (r: Result<(), ConfigError>)
    ensures
        r is Ok,
        entity_views(final(entities)@) == entity_views(old(entities)@) + primary_entities(
            doc@,
            DocKind::Plan,
        ),
{
    let e = headline_entity(doc, EntityType::Plan, "Unnamed Plan");
    push_entity(entities, e);
    let r = extract_coverage(doc, entities);
    assert(entity_views(entities@) =~= entity_views(old(entities)@) + primary_entities(
        doc@,
        DocKind::Plan,
    ));
    r
}

/// The Policy entity, then the condition and limitation entities.
pub fn extract_policy_entities(doc: &ProcessedDocument, entities: &mut Vec<Entity>) -> (r: Result<(), ConfigError>)
    ensures
        r is Ok,
        entity_views(final(entities)@) == entity_views(old(entities)@) + primary_entities(
            doc@,
            DocKind::Policy,
        ),
{
    let e = headline_entity(doc, EntityType::Policy, "Unnamed Policy");
    push_entity(entities, e);
    let r = extract_conditions_and_limitations(doc, entities);
    assert(entity_views(entities@) =~= entity_views(old(entities)@) + primary_entities(
        doc@,
        DocKind::Policy,
    ));
    r
}

/// The Claim entity, and the Provider entity where the metadata names one.
pub fn extract_claim_entities(doc: &ProcessedDocument, entities: &mut Vec<Entity>) -> (r: Result<(), ConfigError>)
    ensures
        r is Ok,
        entity_views(final(entities)@) == entity_views(old(entities)@) + primary_entities(
            doc@,
            DocKind::Claim,
        ),
{
    let name = match find_field(&doc.metadata, "claim_number") {
        Some(n) => n,
        None => "Unnamed Claim".to_owned(),
    };
    assert(name@ == claim_name(doc@));
    let ghost pv = lookup(doc@.metadata, "provider"@);
    match find_field(&doc.metadata, "provider") {
        Some(p) => {
            let pe = Entity {
                entity_type: EntityType::Provider.label(),
                name: p.clone(),
                description: None,
                related: vec![name.clone()],
                attributes: Vec::new(),
            };
            assert(string_views(pe.related@) =~= seq![name@]);
            assert(pair_views(pe.attributes@) =~= Seq::<(Seq<char>, Seq<char>)>::empty());
            let claim = Entity {
                entity_type: EntityType::Claim.label(),
                name,
                description: None,
                related: vec![p],
                attributes: copy_pairs(&doc.metadata),
            };
            assert(string_views(claim.related@) =~= seq![pv->0]);
            let ghost cv = claim@;
            let ghost prv = pe@;
            push_entity(entities, claim);
            push_entity(entities, pe);
            assert(seq![cv, prv] =~= primary_entities(doc@, DocKind::Claim));
        },
        None => {
            let claim = Entity {
                entity_type: EntityType::Claim.label(),
                name,
                description: None,
                related: Vec::new(),
                attributes: copy_pairs(&doc.metadata),
            };
            assert(string_views(claim.related@) =~= Seq::<Seq<char>>::empty());
            let ghost cv = claim@;
            push_entity(entities, claim);
            assert(seq![cv] =~= primary_entities(doc@, DocKind::Claim));
        },
    }
    assert(entity_views(entities@) =~= entity_views(old(entities)@) + primary_entities(
        doc@,
        DocKind::Claim,
    ));
    Ok(())
}

/// The Document entity of a document of any other kind.
pub fn extract_generic_entities(doc: &ProcessedDocument, entities: &mut Vec<Entity>) -> (r: Result<(), ConfigError>)
    ensures
        r is Ok,
        entity_views(final(entities)@) == entity_views(old(entities)@) + primary_entities(
            doc@,
            DocKind::Other,
        ),
{
    let name = match &doc.title {
        Some(x) => x.clone(),
        None => "Unnamed Document".to_owned(),
    };
    let e = Entity {
        entity_type: EntityType::Document.label(),
        name,
        description: None,
        related: Vec::new(),
        attributes: copy_pairs(&doc.metadata),
    };
    assert(string_views(e.related@) =~= Seq::<Seq<char>>::empty());
    push_entity(entities, e);
    assert(entity_views(entities@) =~= entity_views(old(entities)@) + primary_entities(
        doc@,
        DocKind::Other,
    ));
    Ok(())
}


// ---------------------------------------------------------------- deduplication

/// Two entities with the same type and name.
pub open spec fn same_key(a: EntityView, b: EntityView) -> bool {
    a.entity_type == b.entity_type && a.name == b.name
}

/// Some entity of `s` has the type and name of `e`.
pub open spec fn has_key(s: Seq<EntityView>, e: EntityView) -> bool {
    exists|i: int| 0 <= i < s.len() && same_key(#[trigger] s[i], e)
}

/// `s` with each entity dropped whose type and name an earlier one has.
pub open spec fn dedup(s: Seq<EntityView>) -> Seq<EntityView>
    decreases s.len(),
{
    if s.len() == 0 {
        Seq::empty()
    } else {
        let d = dedup(s.drop_last());
        if has_key(s.drop_last(), s.last()) {
            d
        } else {
            d.push(s.last())
        }
    }
}

/// No two entities of `s` share a type and a name.
pub open spec fn keys_distinct(s: Seq<EntityView>) -> bool {
    forall|i: int, j: int| 0 <= i < j < s.len() ==> !same_key(#[trigger] s[i], #[trigger] s[j])
}

/// Deduplication keeps every key it meets, and no other.
pub proof fn lemma_dedup_keys(s: Seq<EntityView>, e: EntityView)
    ensures
        has_key(dedup(s), e) <==> has_key(s, e),
    decreases s.len(),
{
    if s.len() > 0 {
        let p = s.drop_last();
        let x = s.last();
        lemma_dedup_keys(p, e);
        let d = dedup(p);
        // has_key over s is has_key over p, or the last one.
        if has_key(s, e) {
            let i = choose|i: int| 0 <= i < s.len() && same_key(#[trigger] s[i], e);
            if i < p.len() {
                assert(same_key(p[i], e));
            }
        }
        if has_key(p, e) {
            let i = choose|i: int| 0 <= i < p.len() && same_key(#[trigger] p[i], e);
            assert(same_key(s[i], e));
        }
        if same_key(x, e) {
            assert(same_key(s[s.len() - 1], e));
        }
        assert(has_key(s, e) <==> (has_key(p, e) || same_key(x, e)));
        if has_key(p, x) {
            if same_key(x, e) {
                let j = choose|j: int| 0 <= j < p.len() && same_key(#[trigger] p[j], x);
                assert(same_key(p[j], e));
            }
        } else {
            let dd = d.push(x);
            if has_key(dd, e) {
                let i = choose|i: int| 0 <= i < dd.len() && same_key(#[trigger] dd[i], e);
                if i < d.len() {
                    assert(same_key(d[i], e));
                }
            }
            if has_key(d, e) {
                let i = choose|i: int| 0 <= i < d.len() && same_key(#[trigger] d[i], e);
                assert(same_key(dd[i], e));
            }
            if same_key(x, e) {
                assert(same_key(dd[d.len() as int], e));
            }
        }
    }
}

/// The result of deduplication has no two entities with one type and name.
pub proof fn lemma_dedup_distinct(s: Seq<EntityView>)
    ensures
        keys_distinct(dedup(s)),
    decreases s.len(),
{
    if s.len() > 0 {
        let p = s.drop_last();
        lemma_dedup_distinct(p);
        lemma_dedup_keys(p, s.last());
        let d = dedup(p);
        if !has_key(p, s.last()) {
            assert forall|i: int, j: int| 0 <= i < j < dedup(s).len() implies !same_key(
                #[trigger] dedup(s)[i],
                #[trigger] dedup(s)[j],
            ) by {
                if j == d.len() {
                    assert(!same_key(d[i], s.last()));
                } else {
                    assert(!same_key(d[i], d[j]));
                }
            }
        }
    }
}

/// Deduplication leaves a list without repeated keys as it is.
pub proof fn lemma_dedup_of_distinct(s: Seq<EntityView>)
    requires
        keys_distinct(s),
    ensures
        dedup(s) == s,
    decreases s.len(),
{
    if s.len() > 0 {
        let p = s.drop_last();
        assert(keys_distinct(p)) by {
            assert forall|i: int, j: int| 0 <= i < j < p.len() implies !same_key(
                #[trigger] p[i],
                #[trigger] p[j],
            ) by {
                assert(!same_key(s[i], s[j]));
            }
        }
        lemma_dedup_of_distinct(p);
        if has_key(p, s.last()) {
            let i = choose|i: int| 0 <= i < p.len() && same_key(#[trigger] p[i], s.last());
            assert(!same_key(s[i], s[s.len() - 1]));
        }
        assert(p.push(s.last()) =~= s);
    }
}

/// Deduplicating twice gives what deduplicating once gives.
pub proof fn dedup_idempotent(s: Seq<EntityView>)
    ensures
        dedup(dedup(s)) == dedup(s),
{
    lemma_dedup_distinct(s);
    lemma_dedup_of_distinct(dedup(s));
}

fn key_seen(entities: &Vec<Entity>, i: usize) -> (r: bool)
    requires
        i < entities@.len(),
    ensures
        r == has_key(entity_views(entities@).take(i as int), entities@[i as int]@),
{
    let ghost pre = entity_views(entities@).take(i as int);
    let mut k: usize = 0;
    while k < i
        invariant
            k <= i < entities@.len(),
            pre == entity_views(entities@).take(i as int),
            forall|j: int| 0 <= j < k ==> !same_key(#[trigger] pre[j], entities@[i as int]@),
        decreases i - k,
    {
        if entities[k].entity_type == entities[i].entity_type && entities[k].name == entities[i].name {
            assert(same_key(pre[k as int], entities@[i as int]@));
            return true;
        }
        k = k + 1;
    }
    false
}

/// Deduplicate entities by type and name, keeping the first of each.
pub fn deduplicate_entities(entities: &mut Vec<Entity>)
    ensures
        entity_views(final(entities)@) == dedup(entity_views(old(entities)@)),
{
    let ghost orig = entity_views(entities@);
    let ghost mut j: int = 0;
    let mut i: usize = 0;
    assert(orig.take(0) =~= Seq::<EntityView>::empty());
    assert(orig.skip(0) =~= orig);
    while i < entities.len()
        invariant
            0 <= j <= orig.len(),
            i <= entities@.len(),
            entity_views(entities@) == dedup(orig.take(j)) + orig.skip(j),
            i == dedup(orig.take(j)).len(),
        decreases entities@.len() - i,
    {
        let ghost cur = entity_views(entities@);
        assert(cur.take(i as int) =~= dedup(orig.take(j)));
        assert(j < orig.len());
        assert(cur[i as int] == orig[j]);
        assert(orig.take(j + 1).drop_last() =~= orig.take(j));
        assert(orig.take(j + 1).last() == orig[j]);
        proof {
            lemma_dedup_keys(orig.take(j), orig[j]);
        }
        if key_seen(entities, i) {
            entities.remove(i);
            assert(entity_views(entities@) =~= cur.remove(i as int));
            assert(entity_views(entities@) =~= dedup(orig.take(j + 1)) + orig.skip(j + 1));
        } else {
            i = i + 1;
            assert(entity_views(entities@) =~= dedup(orig.take(j + 1)) + orig.skip(j + 1));
        }
        proof {
            j = j + 1;
        }
    }
    assert(orig.take(j) =~= orig);
    assert(entity_views(entities@) =~= dedup(orig));
}

// ---------------------------------------------------------------- extraction

/// Every entity the rules give for `doc` read as `k`, before deduplication.
pub open spec fn raw_entities(doc: DocumentView, k: DocKind) -> Seq<EntityView> {
    primary_entities(doc, k) + listed_over(doc.sections, Gate::Benefit, EntityType::Benefit)
        + listed_over(doc.sections, Gate::Exclusion, EntityType::Exclusion) + procedures_over(
        doc.sections,
    )
}

/// What `extract` gives for `doc` read as a document of type `doc_type`.
pub open spec fn entities_of(doc: DocumentView, doc_type: Seq<char>) -> Seq<EntityView> {
    dedup(raw_entities(doc, kind_of(doc_type)))
}

/// Extract entities from a processed document.
pub fn extract(doc: &ProcessedDocument, doc_type: &str) -> (r: Result<Vec<Entity>, ConfigError>)
    ensures
        r matches Ok(v) ==> entity_views(v@) == entities_of(doc@, doc_type@),
        r matches Ok(v) ==> keys_distinct(entity_views(v@)),
        r matches Err(e) ==> (e is Vocabulary && !vocabulary_builds(procedure_vocabulary()))
            || bad_list_pattern(e),
        vocabulary_builds(procedure_vocabulary()) && regex_compiles(BULLET_ITEM@)
            && regex_compiles(NUMBERED_ITEM@) ==> r is Ok,
{
    let mut entities: Vec<Entity> = Vec::new();
    let k = doc_kind(doc_type);
    assert(entity_views(entities@) =~= Seq::<EntityView>::empty());
    let r = match k {
        DocKind::Plan => extract_plan_entities(doc, &mut entities),
        DocKind::Policy => extract_policy_entities(doc, &mut entities),
        DocKind::Claim => extract_claim_entities(doc, &mut entities),
        DocKind::Other => extract_generic_entities(doc, &mut entities),
    };
    if let Err(e) = r {
        return Err(e);
    }
    if let Err(e) = extract_benefits(doc, &mut entities) {
        return Err(e);
    }
    if let Err(e) = extract_exclusions(doc, &mut entities) {
        return Err(e);
    }
    if let Err(e) = extract_procedures(doc, &mut entities) {
        return Err(e);
    }
    assert(entity_views(entities@) =~= raw_entities(doc@, k));
    deduplicate_entities(&mut entities);
    proof {
        lemma_dedup_distinct(raw_entities(doc@, k));
    }
    Ok(entities)
}


/// No two entities that extraction gives share a type and a name.
pub proof fn extraction_keys_distinct(doc: DocumentView, doc_type: Seq<char>)
    ensures
        keys_distinct(entities_of(doc, doc_type)),
{
    lemma_dedup_distinct(raw_entities(doc, kind_of(doc_type)));
}

/// Deduplicating what extraction gives changes nothing, so extraction
/// followed by deduplication, run again on the same document, gives the same
/// list.
pub proof fn extraction_is_stable(doc: DocumentView, doc_type: Seq<char>)
    ensures
        dedup(entities_of(doc, doc_type)) == entities_of(doc, doc_type),
{
    dedup_idempotent(raw_entities(doc, kind_of(doc_type)));
}

} // verus!
