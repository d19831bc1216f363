use preprocessor::{
    csv_record, deduplicate_entities, extract, graph_edges, process, Edge, Entity, EntityType,
    ProcessedDocument, Section,
};

fn s(x: &str) -> String {
    x.to_string()
}

fn entity(t: &str, name: &str, description: Option<&str>) -> Entity {
    Entity {
        entity_type: s(t),
        name: s(name),
        description: description.map(s),
        related: vec![],
        attributes: vec![],
    }
}

fn section(title: Option<&str>, content: &str, level: usize) -> Section {
    Section { title: title.map(s), content: s(content), level }
}

fn run(text: &str, doc_type: &str) -> (ProcessedDocument, Vec<Entity>) {
    let doc = process(text, doc_type).unwrap();
    let entities = extract(&doc, doc_type).unwrap();
    (doc, entities)
}

fn of_type(es: &[Entity], t: &str) -> Vec<Entity> {
    es.iter().filter(|e| e.entity_type == t).cloned().collect()
}

#[test]
fn end_to_end_plan() {
    let text = "Title: Sample Plan\nPlan ID: ABC-123\nEffective Date: 01/01/2024\nOVERVIEW:\nThis plan covers surgery and consultation.\n";
    let (doc, entities) = run(text, "plan");
    assert_eq!(doc.title, Some(s("Sample Plan")));
    let md = vec![(s("plan_id"), s("ABC-123")), (s("effective_date"), s("01/01/2024"))];
    assert_eq!(doc.metadata, md);
    assert_eq!(
        doc.sections,
        vec![
            section(None, "Title: Sample Plan\nPlan ID: ABC-123\nEffective Date: 01/01/2024", 1),
            section(Some("OVERVIEW"), "This plan covers surgery and consultation.", 1),
        ]
    );
    let mut plan = entity("Plan", "Sample Plan", Some("This plan covers surgery and consultation."));
    plan.attributes = md;
    assert_eq!(
        entities,
        vec![
            plan,
            entity("Coverage", "OVERVIEW", Some("This plan covers surgery and consultation.")),
            entity("Benefit", "OVERVIEW This plan covers surgery and consultation", None),
            entity("Procedure", "surgery", None),
            entity("Procedure", "consultation", None),
        ]
    );
}

#[test]
fn title_label_beats_plain_line() {
    let doc = process("Foo Bar\nTitle: Real Title\n", "generic").unwrap();
    assert_eq!(doc.title, Some(s("Real Title")));
}

#[test]
fn name_label_and_plain_title() {
    let doc = process("Foo Bar\nName: The Name\n", "generic").unwrap();
    assert_eq!(doc.title, Some(s("The Name")));
    let doc = process("\n  Foo Bar  \nmore: text\n", "generic").unwrap();
    assert_eq!(doc.title, Some(s("Foo Bar")));
}

#[test]
fn title_skips_capitals_and_colons() {
    let doc = process("GENERAL TERMS\nKey: value\nReal title here\n", "generic").unwrap();
    assert_eq!(doc.title, Some(s("Real title here")));
    let doc = process("GENERAL TERMS\n", "generic").unwrap();
    assert_eq!(doc.title, None);
}

#[test]
fn title_only_in_first_ten_lines() {
    let text = "A:1\nB:2\nC:3\nD:4\nE:5\nF:6\nG:7\nH:8\nI:9\nJ:10\nTitle: Too Late\n";
    let doc = process(text, "generic").unwrap();
    assert_eq!(doc.title, None);
}

#[test]
fn blank_lines_do_not_count_toward_ten() {
    let text = "\n\n\n\n\n\n\n\n\n\n\n\nTitle: Late But Found\n";
    let doc = process(text, "generic").unwrap();
    assert_eq!(doc.title, Some(s("Late But Found")));
}

#[test]
fn level_one_pattern_wins() {
    // "I. Introduction" also fits the single capital letter pattern of level 2.
    let doc = process("I. Introduction\nSome text\n", "generic").unwrap();
    assert_eq!(doc.sections, vec![section(Some("I Introduction"), "Some text", 1)]);
}

#[test]
fn header_levels() {
    let text = "VII. Seven\nB. Details\n2. Scope\nc. item\n1.2 Terms\nOVERVIEW :\nend\n";
    let doc = process(text, "generic").unwrap();
    assert_eq!(
        doc.sections,
        vec![
            section(Some("VII Seven"), "", 1),
            section(Some("B Details"), "", 2),
            section(Some("2 Scope"), "", 2),
            section(Some("c item"), "", 3),
            section(Some("1.2 Terms"), "", 3),
            section(Some("OVERVIEW "), "end", 1),
        ]
    );
}

#[test]
fn body_lines_kept_in_order() {
    let text = "Intro line\nSECTION ONE:\nalpha\n\n  beta  \nB. Sub\ngamma\n";
    let doc = process(text, "generic").unwrap();
    assert_eq!(
        doc.sections,
        vec![
            section(None, "Intro line", 1),
            section(Some("SECTION ONE"), "alpha\nbeta", 1),
            section(Some("B Sub"), "gamma", 2),
        ]
    );
}

#[test]
fn empty_input() {
    let (doc, entities) = run("", "plan");
    assert_eq!(doc.title, None);
    assert!(doc.sections.is_empty());
    assert!(doc.metadata.is_empty());
    assert_eq!(entities, vec![entity("Plan", "Unnamed Plan", None)]);
    let (_, entities) = run("", "policy");
    assert_eq!(entities, vec![entity("Policy", "Unnamed Policy", None)]);
    let (_, entities) = run("", "claim");
    assert_eq!(entities, vec![entity("Claim", "Unnamed Claim", None)]);
    let (_, entities) = run("", "memo");
    assert_eq!(entities, vec![entity("Document", "Unnamed Document", None)]);
}

#[test]
fn claim_with_provider() {
    let text = "Claim Number: CLM-001\nAmount: $150.00\nProvider: Dr Smith\n";
    let (doc, entities) = run(text, "claim");
    let md = vec![
        (s("claim_number"), s("CLM-001")),
        (s("provider"), s("Dr Smith")),
        (s("amount"), s("150.00")),
    ];
    assert_eq!(doc.metadata, md);
    let mut claim = entity("Claim", "CLM-001", None);
    claim.related = vec![s("Dr Smith")];
    claim.attributes = md;
    let mut provider = entity("Provider", "Dr Smith", None);
    provider.related = vec![s("CLM-001")];
    assert_eq!(entities, vec![claim, provider]);
}

#[test]
fn policy_conditions_and_limitations() {
    let text = "Policy Number: POL-9\nCONDITIONS:\nThe member must meet the requirement of prior approval.\nLIMITS:\nVisits are limited to 10 per year.\n";
    let (doc, entities) = run(text, "policy");
    let md = vec![(s("policy_number"), s("POL-9"))];
    assert_eq!(doc.metadata, md);
    let title = "The member must meet the requirement of prior approval.";
    let mut policy = entity("Policy", title, None);
    policy.attributes = md;
    assert_eq!(
        entities,
        vec![
            policy,
            entity("Condition", "CONDITIONS", Some(title)),
            entity("Limitation", "LIMITS", Some("Visits are limited to 10 per year.")),
        ]
    );
}

#[test]
fn plan_description_from_summary_section() {
    let text = "My Plan\nPLAN SUMMARY:\nA short plan.\n";
    let (_, entities) = run(text, "plan");
    assert_eq!(entities[0].name, s("My Plan"));
    assert_eq!(entities[0].description, Some(s("A short plan.")));
}

#[test]
fn generic_metadata() {
    let text = "Member ID: X-9\nName: Jane Doe\nVisit Date: 3/4/2023\n";
    let (doc, _) = run(text, "letter");
    assert_eq!(
        doc.metadata,
        vec![(s("id"), s("X-9")), (s("date"), s("3/4/2023")), (s("name"), s("Jane Doe\nVisit Date"))]
    );
}

#[test]
fn structured_benefits() {
    let text = "BENEFITS:\nThe plan includes:\n- Dental: two cleanings per year\n- Vision - one exam per year\n";
    let (_, entities) = run(text, "generic");
    assert_eq!(
        of_type(&entities, "Benefit"),
        vec![
            entity("Benefit", "Dental", Some("two cleanings per year")),
            entity("Benefit", "Vision", Some("one exam per year")),
        ]
    );
}

#[test]
fn numbered_line_is_a_header() {
    let text = "Covered services\n1. Surgery: inpatient stays\n";
    let (doc, entities) = run(text, "generic");
    assert_eq!(doc.sections[1], section(Some("1 Surgery: inpatient stays"), "", 2));
    assert_eq!(of_type(&entities, "Benefit"), vec![entity("Benefit", "Covered services", None)]);
}

#[test]
fn exclusions_from_sentences() {
    let text = "EXCLUSIONS:\nCosmetic procedures are not covered.\nExperimental drugs are excluded.\n";
    let (_, entities) = run(text, "generic");
    assert_eq!(
        of_type(&entities, "Exclusion"),
        vec![
            entity("Exclusion", "EXCLUSIONS Cosmetic procedures are not covered", None),
            entity("Exclusion", "Experimental drugs are excluded", None),
        ]
    );
}

#[test]
fn keywords_match_in_any_case() {
    let (_, entities) = run("MRI SCAN INCLUDED\n", "generic");
    assert_eq!(
        entities,
        vec![
            entity("Document", "Unnamed Document", None),
            entity("Benefit", "MRI SCAN INCLUDED", None),
            entity("Procedure", "mri", None),
        ]
    );
}

#[test]
fn repeated_procedures_collapse() {
    let (_, entities) = run("Surgery, then surgery again, then an MRI.\n", "generic");
    assert_eq!(
        of_type(&entities, "Procedure"),
        vec![entity("Procedure", "surgery", None), entity("Procedure", "mri", None)]
    );
}

#[test]
fn dedup_keeps_first_of_each_key() {
    let mut es = vec![
        entity("Procedure", "mri", None),
        entity("Procedure", "surgery", None),
        entity("Procedure", "mri", Some("again")),
        entity("Benefit", "mri", None),
    ];
    deduplicate_entities(&mut es);
    assert_eq!(
        es,
        vec![
            entity("Procedure", "mri", None),
            entity("Procedure", "surgery", None),
            entity("Benefit", "mri", None),
        ]
    );
}

#[test]
fn no_duplicate_keys_in_output() {
    let text = "COVERAGE:\nSurgery is covered. Surgery is covered.\nCOVERAGE:\nmore coverage\n";
    let (_, entities) = run(text, "plan");
    for i in 0..entities.len() {
        for j in (i + 1)..entities.len() {
            assert!(
                entities[i].entity_type != entities[j].entity_type
                    || entities[i].name != entities[j].name
            );
        }
    }
}

#[test]
fn extraction_twice_is_identical() {
    let text = "Title: Sample Plan\nBENEFITS:\n- Dental: yes\n- Dental: again\nsurgery surgery\n";
    let (_, first) = run(text, "plan");
    let (_, second) = run(text, "plan");
    assert_eq!(first, second);
    let mut again = first.clone();
    deduplicate_entities(&mut again);
    assert_eq!(again, first);
}

#[test]
fn graph_edges_resolve_names() {
    let mut claim = entity("Claim", "CLM-7", None);
    claim.related = vec![s("DrLee"), s("Nobody")];
    claim.attributes = vec![(s("provider_id"), s("DrLee")), (s("note"), s("DrLee"))];
    let mut provider = entity("Provider", "DrLee", None);
    provider.related = vec![s("CLM-7")];
    let edges = graph_edges(&vec![claim, provider]);
    assert_eq!(
        edges,
        vec![
            Edge { source: 0, target: 1, kind: s("RELATED_TO") },
            Edge { source: 0, target: 0, kind: s("PROVIDER_ID") },
            Edge { source: 1, target: 0, kind: s("RELATED_TO") },
        ]
    );
}

#[test]
fn dangling_relation_gives_no_edge() {
    let mut lonely = entity("Claim", "CLM-7", None);
    lonely.related = vec![s("Nobody")];
    assert!(graph_edges(&vec![lonely.clone()]).is_empty());
    // An attribute value is held by the entity that carries it.
    lonely.attributes = vec![(s("plan_reference"), s("Missing"))];
    assert_eq!(
        graph_edges(&vec![lonely]),
        vec![Edge { source: 0, target: 0, kind: s("PLAN_REFERENCE") }]
    );
}

#[test]
fn flat_record() {
    let mut e = entity("Benefit", "Dental", None);
    e.related = vec![s("a"), s("b")];
    e.attributes = vec![(s("k"), s("v")), (s("x"), s("y"))];
    assert_eq!(csv_record(&e), vec![s("Benefit"), s("Dental"), s(""), s("a;b"), s("k=v;x=y")]);
    let e = entity("Plan", "P", Some("d"));
    assert_eq!(csv_record(&e), vec![s("Plan"), s("P"), s("d"), s(""), s("")]);
}

#[test]
fn entity_type_labels() {
    assert_eq!(EntityType::Plan.label(), s("Plan"));
    assert_eq!(EntityType::Limitation.label(), s("Limitation"));
    assert_eq!(EntityType::Document.label(), s("Document"));
}

#[test]
fn doc_type_from_file_name() {
    assert_eq!(preprocessor::infer_doc_type("gold_plan.txt"), s("plan"));
    assert_eq!(preprocessor::infer_doc_type("policy-2024.txt"), s("policy"));
    assert_eq!(preprocessor::infer_doc_type("claim_17.txt"), s("claim"));
    assert_eq!(preprocessor::infer_doc_type("notes.txt"), s("generic"));
}
