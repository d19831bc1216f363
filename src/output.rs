//! What the writers put out, computed from an entity list: the flat record
//! of an entity, and the edges of the graph form.

use vstd::prelude::*;

use crate::document::pair_views;
use crate::engines::{chars_of, string_of, upper_of, uppercase};
use crate::entities::{entity_views, string_views, Entity, EntityView};
use crate::text::{seqs_of, append_chars, contains_chars, has_infix, occurs_at};

verus! {

/// `parts` with `sep` between each two.
pub open spec fn join_by(parts: Seq<Seq<char>>, sep: char) -> Seq<char>
    decreases parts.len(),
{
    if parts.len() == 0 {
        Seq::empty()
    } else if parts.len() == 1 {
        parts[0]
    } else {
        join_by(parts.drop_last(), sep) + seq![sep] + parts.last()
    }
}

fn join_strings(parts: &Vec<Vec<char>>, sep: char) -> (r: Vec<char>)
    ensures
        r@ == join_by(seqs_of(parts@), sep),
{
    let ghost all = seqs_of(parts@);
    let mut r: Vec<char> = Vec::new();
    let mut i: usize = 0;
    while i < parts.len()
        invariant
            i <= parts@.len(),
            all == seqs_of(parts@),
            r@ == join_by(all.take(i as int), sep),
        decreases parts@.len() - i,
    {
        assert(all.take(i + 1).drop_last() =~= all.take(i as int));
        if i > 0 {
            r.push(sep);
        }
        append_chars(&mut r, &parts[i]);
        i = i + 1;
    }
    assert(all.take(i as int) =~= all);
    r
}

/// `key=value`.
pub open spec fn attribute_text(a: (Seq<char>, Seq<char>)) -> Seq<char> {
    a.0 + seq!['='] + a.1
}

/// The flat record of an entity: type, name, description (empty when
/// absent), related names joined by `;`, attributes as `key=value` joined by
/// `;`.
pub open spec fn record_of(e: EntityView) -> Seq<Seq<char>> {
    seq![
        e.entity_type,
        e.name,
        match e.description {
            Some(d) => d,
            None => Seq::empty(),
        },
        join_by(e.related, ';'),
        join_by(e.attributes.map_values(|a: (Seq<char>, Seq<char>)| attribute_text(a)), ';'),
    ]
}

/// The flat record of `e`, one field per column.
pub fn csv_record(e: &Entity) -> (r: Vec<String>)
    ensures
        string_views(r@) == record_of(e@),
{
    let description = match &e.description {
        Some(d) => d.clone(),
        None => String::new(),
    };
    let mut related: Vec<Vec<char>> = Vec::new();
    let mut i: usize = 0;
    while i < e.related.len()
        invariant
            i <= e.related@.len(),
            seqs_of(related@) == string_views(e.related@).take(i as int),
        decreases e.related@.len() - i,
    {
        let ghost prev = seqs_of(related@);
        let c = chars_of(e.related[i].as_str());
        let ghost cv = c@;
        related.push(c);
        assert(seqs_of(related@) =~= prev.push(cv));
        assert(string_views(e.related@).take(i + 1) =~= string_views(e.related@).take(i as int).push(cv));
        i = i + 1;
    }
    assert(string_views(e.related@).take(i as int) =~= string_views(e.related@));
    let ghost texts = pair_views(e.attributes@).map_values(
        |a: (Seq<char>, Seq<char>)| attribute_text(a),
    );
    let mut attributes: Vec<Vec<char>> = Vec::new();
    let mut k: usize = 0;
    while k < e.attributes.len()
        invariant
            k <= e.attributes@.len(),
            texts == pair_views(e.attributes@).map_values(
                |a: (Seq<char>, Seq<char>)| attribute_text(a),
            ),
            seqs_of(attributes@) == texts.take(k as int),
        decreases e.attributes@.len() - k,
    {
        let ghost prev = seqs_of(attributes@);
        let mut t = chars_of(e.attributes[k].0.as_str());
        t.push('=');
        append_chars(&mut t, &chars_of(e.attributes[k].1.as_str()));
        let ghost tv = t@;
        assert(tv == texts[k as int]);
        attributes.push(t);
        assert(seqs_of(attributes@) =~= prev.push(tv));
        assert(texts.take(k + 1) =~= texts.take(k as int).push(tv));
        k = k + 1;
    }
    assert(texts.take(k as int) =~= texts);
    let rel = string_of(&join_strings(&related, ';'));
    let attrs = string_of(&join_strings(&attributes, ';'));
    let ghost rec = record_of(e@);
    assert(description@ == rec[2]);
    assert(rel@ == rec[3]);
    assert(attrs@ == rec[4]);
    let r = vec![e.entity_type.clone(), e.name.clone(), description, rel, attrs];
    assert(string_views(r@) =~= record_of(e@));
    r
}


// ---------------------------------------------------------------- graph form

/// An edge of the graph form, between positions in the entity list.
#[derive(Debug, Clone, PartialEq, Eq)]
pub struct Edge {
    pub source: usize,
    pub target: usize,
    pub kind: String,
}

pub struct EdgeView {
    pub source: int,
    pub target: int,
    pub kind: Seq<char>,
}

impl View for Edge {
    type V = EdgeView;

    open spec fn view(&self) -> EdgeView {
        EdgeView { source: self.source as int, target: self.target as int, kind: self.kind@ }
    }
}

pub open spec fn edge_views(v: Seq<Edge>) -> Seq<EdgeView> {
    v.map_values(|e: Edge| e@)
}

/// The first position at or after `from` of an entity named `name`.
pub open spec fn first_named(es: Seq<EntityView>, name: Seq<char>, from: int) -> Option<int>
    decreases es.len() - from,
{
    if from < 0 || from >= es.len() {
        None
    } else if es[from].name == name {
        Some(from)
    } else {
        first_named(es, name, from + 1)
    }
}

/// `e` is named `v` or has an attribute of value `v`.
pub open spec fn holds_value(e: EntityView, v: Seq<char>) -> bool {
    e.name == v || exists|k: int| 0 <= k < e.attributes.len() && #[trigger] e.attributes[k].1 == v
}

/// The first position at or after `from` of an entity that holds `v`.
pub open spec fn first_holding(es: Seq<EntityView>, v: Seq<char>, from: int) -> Option<int>
    decreases es.len() - from,
{
    if from < 0 || from >= es.len() {
        None
    } else if holds_value(es[from], v) {
        Some(from)
    } else {
        first_holding(es, v, from + 1)
    }
}

pub open spec fn ends_with(s: Seq<char>, suffix: Seq<char>) -> bool {
    suffix.len() <= s.len() && s.subrange(s.len() - suffix.len(), s.len() as int) == suffix
}

/// An attribute key that refers to another entity.
pub open spec fn is_reference_key(k: Seq<char>) -> bool {
    ends_with(k, "_id"@) || has_infix(k, "reference"@)
}

/// The `RELATED_TO` edges from entity `i`: one per related name that some
/// entity has, to the first such entity.
pub open spec fn related_edges(es: Seq<EntityView>, i: int, rel: Seq<Seq<char>>) -> Seq<EdgeView>
    decreases rel.len(),
{
    if rel.len() == 0 {
        Seq::empty()
    } else {
        let prev = related_edges(es, i, rel.drop_last());
        match first_named(es, rel.last(), 0) {
            Some(j) => prev.push(EdgeView { source: i, target: j, kind: "RELATED_TO"@ }),
            None => prev,
        }
    }
}

/// The edges from entity `i` given by its reference attributes, each named
/// after its key in capitals.
pub open spec fn attribute_edges(es: Seq<EntityView>, i: int, attrs: Seq<(Seq<char>, Seq<char>)>) -> Seq<EdgeView>
    decreases attrs.len(),
{
    if attrs.len() == 0 {
        Seq::empty()
    } else {
        let prev = attribute_edges(es, i, attrs.drop_last());
        let a = attrs.last();
        if is_reference_key(a.0) {
            match first_holding(es, a.1, 0) {
                Some(j) => prev.push(EdgeView { source: i, target: j, kind: upper_of(a.0) }),
                None => prev,
            }
        } else {
            prev
        }
    }
}

pub open spec fn edges_upto(es: Seq<EntityView>, n: int) -> Seq<EdgeView>
    decreases n,
{
    if n <= 0 {
        Seq::empty()
    } else {
        edges_upto(es, n - 1) + related_edges(es, n - 1, es[n - 1].related) + attribute_edges(
            es,
            n - 1,
            es[n - 1].attributes,
        )
    }
}

/// All edges of the graph form of `es`, entity by entity.
pub open spec fn graph_edges_of(es: Seq<EntityView>) -> Seq<EdgeView> {
    edges_upto(es, es.len() as int)
}

pub open spec fn position(o: Option<usize>) -> Option<int> {
    match o {
        Some(j) => Some(j as int),
        None => None,
    }
}

fn find_named(es: &Vec<Entity>, name: &String) -> (r: Option<usize>)
    ensures
        position(r) == first_named(entity_views(es@), name@, 0),
{
    let ghost all = entity_views(es@);
    let mut j: usize = 0;
    while j < es.len()
        invariant
            j <= es@.len(),
            all == entity_views(es@),
            first_named(all, name@, 0) == first_named(all, name@, j as int),
        decreases es@.len() - j,
    {
        if es[j].name == *name {
            return Some(j);
        }
        j = j + 1;
    }
    None
}

fn holds(e: &Entity, v: &String) -> (r: bool)
    ensures
        r == holds_value(e@, v@),
{
    if e.name == *v {
        return true;
    }
    let mut k: usize = 0;
    while k < e.attributes.len()
        invariant
            k <= e.attributes@.len(),
            e.name@ != v@,
            forall|m: int| 0 <= m < k ==> #[trigger] e.attributes@[m].1@ != v@,
        decreases e.attributes@.len() - k,
    {
        if e.attributes[k].1 == *v {
            assert(e@.attributes[k as int].1 == v@);
            return true;
        }
        k = k + 1;
    }
    assert forall|m: int| 0 <= m < e@.attributes.len() implies #[trigger] e@.attributes[m].1 != v@ by {
        assert(e@.attributes[m].1 == e.attributes@[m].1@);
    }
    false
}

fn find_holding(es: &Vec<Entity>, v: &String) -> (r: Option<usize>)
    ensures
        position(r) == first_holding(entity_views(es@), v@, 0),
{
    let ghost all = entity_views(es@);
    let mut j: usize = 0;
    while j < es.len()
        invariant
            j <= es@.len(),
            all == entity_views(es@),
            first_holding(all, v@, 0) == first_holding(all, v@, j as int),
        decreases es@.len() - j,
    {
        if holds(&es[j], v) {
            return Some(j);
        }
        j = j + 1;
    }
    None
}

fn ends_with_chars(s: &[char], suffix: &[char]) -> (r: bool)
    ensures
        r == ends_with(s@, suffix@),
{
    if suffix.len() > s.len() {
        return false;
    }
    occurs_at(s, suffix, s.len() - suffix.len())
}

fn push_edge(out: &mut Vec<Edge>, e: Edge)
    ensures
        edge_views(final(out)@) == edge_views(old(out)@).push(e@),
{
    let ghost v = e@;
    out.push(e);
    assert(edge_views(out@) =~= edge_views(old(out)@).push(v));
}

/// The edges of the graph form: for each entity in order, first its
/// `RELATED_TO` edges, then those of its reference attributes.
pub fn graph_edges(entities: &Vec<Entity>) -> (r: Vec<Edge>)
    ensures
        edge_views(r@) == graph_edges_of(entity_views(entities@)),
{
    let ghost all = entity_views(entities@);
    let related_to = chars_of("RELATED_TO");
    let id_suffix = chars_of("_id");
    let reference = chars_of("reference");
    let mut out: Vec<Edge> = Vec::new();
    let mut i: usize = 0;
    assert(edge_views(out@) =~= Seq::<EdgeView>::empty());
    while i < entities.len()
        invariant
            i <= entities@.len(),
            all == entity_views(entities@),
            related_to@ == "RELATED_TO"@,
            id_suffix@ == "_id"@,
            reference@ == "reference"@,
            edge_views(out@) == edges_upto(all, i as int),
        decreases entities@.len() - i,
    {
        let e = &entities[i];
        let ghost start = edge_views(out@);
        let ghost rel = all[i as int].related;
        let mut r: usize = 0;
        assert(start + related_edges(all, i as int, rel.take(0)) =~= start);
        while r < e.related.len()
            invariant
                i < entities@.len(),
                *e == entities@[i as int],
                r <= e.related@.len(),
                rel == string_views(e.related@),
                all == entity_views(entities@),
                related_to@ == "RELATED_TO"@,
                edge_views(out@) == start + related_edges(all, i as int, rel.take(r as int)),
            decreases e.related@.len() - r,
        {
            assert(rel.take(r + 1).drop_last() =~= rel.take(r as int));
            assert(rel.take(r + 1).last() == e.related@[r as int]@);
            match find_named(entities, &e.related[r]) {
                Some(j) => {
                    push_edge(&mut out, Edge { source: i, target: j, kind: string_of(&related_to) });
                },
                None => {},
            }
            assert(edge_views(out@) =~= start + related_edges(all, i as int, rel.take(r + 1)));
            r = r + 1;
        }
        assert(rel.take(r as int) =~= rel);
        let ghost mid = edge_views(out@);
        let ghost attrs = all[i as int].attributes;
        let mut k: usize = 0;
        assert(mid + attribute_edges(all, i as int, attrs.take(0)) =~= mid);
        while k < e.attributes.len()
            invariant
                i < entities@.len(),
                *e == entities@[i as int],
                k <= e.attributes@.len(),
                attrs == pair_views(e.attributes@),
                all == entity_views(entities@),
                id_suffix@ == "_id"@,
                reference@ == "reference"@,
                edge_views(out@) == mid + attribute_edges(all, i as int, attrs.take(k as int)),
            decreases e.attributes@.len() - k,
        {
            assert(attrs.take(k + 1).drop_last() =~= attrs.take(k as int));
            assert(attrs.take(k + 1).last() == attrs[k as int]);
            let key = chars_of(e.attributes[k].0.as_str());
            if ends_with_chars(&key, &id_suffix) || contains_chars(&key, &reference) {
                match find_holding(entities, &e.attributes[k].1) {
                    Some(j) => {
                        push_edge(&mut out, Edge { source: i, target: j, kind: string_of(&uppercase(&key)) });
                    },
                    None => {},
                }
            }
            assert(edge_views(out@) =~= mid + attribute_edges(all, i as int, attrs.take(k + 1)));
            k = k + 1;
        }
        assert(attrs.take(k as int) =~= attrs);
        assert(edge_views(out@) =~= edges_upto(all, i + 1));
        i = i + 1;
    }
    out
}

proof fn lemma_no_such_name(es: Seq<EntityView>, name: Seq<char>, from: int)
    requires
        forall|j: int| 0 <= j < es.len() ==> #[trigger] es[j].name != name,
    ensures
        first_named(es, name, from) is None,
    decreases es.len() - from,
{
    if 0 <= from < es.len() {
        lemma_no_such_name(es, name, from + 1);
    }
}

proof fn lemma_related_edges_concat(es: Seq<EntityView>, i: int, a: Seq<Seq<char>>, b: Seq<Seq<char>>)
    ensures
        related_edges(es, i, a + b) == related_edges(es, i, a) + related_edges(es, i, b),
    decreases b.len(),
{
    if b.len() == 0 {
        assert(a + b =~= a);
        assert(related_edges(es, i, a) + related_edges(es, i, b) =~= related_edges(es, i, a));
    } else {
        lemma_related_edges_concat(es, i, a, b.drop_last());
        assert((a + b).drop_last() =~= a + b.drop_last());
        assert((a + b).last() == b.last());
        match first_named(es, b.last(), 0) {
            Some(j) => {
                let x = EdgeView { source: i, target: j, kind: "RELATED_TO"@ };
                assert((related_edges(es, i, a) + related_edges(es, i, b.drop_last())).push(x)
                    =~= related_edges(es, i, a) + related_edges(es, i, b));
            },
            None => {},
        }
    }
}

/// A related name that no entity has gives no edge: the edges from entity
/// `i` are those it would have without that name.
pub proof fn dangling_relation(es: Seq<EntityView>, i: int, before: Seq<Seq<char>>, name: Seq<char>, after: Seq<Seq<char>>)
    requires
        forall|j: int| 0 <= j < es.len() ==> #[trigger] es[j].name != name,
    ensures
        related_edges(es, i, before + seq![name] + after) == related_edges(es, i, before + after),
{
    lemma_no_such_name(es, name, 0);
    lemma_related_edges_concat(es, i, before + seq![name], after);
    lemma_related_edges_concat(es, i, before, after);
    assert((before + seq![name]).drop_last() =~= before);
}

} // verus!
