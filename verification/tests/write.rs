use atlas::context::{ContextSource, DetectedContext, ProjectContext};
use atlas::models::{id_issued_before, Atom, AtomType, Confidence, Index, IndexEntry};
use atlas::reference::AtomRef;
use atlas::write::{
    apply_vec_update, create_atom, create_result, detect_stringified_array, edge_references,
    resolve_links, update_atom, update_result, validate_array_fields, write_context,
    AtomUpdateRequest, AtomWriteRequest, LinkCheck,
};
use atlas::error::AtlasError;

fn make_request(
    tags: Option<Vec<String>>,
    sources: Option<Vec<String>>,
    links: Option<Vec<String>>,
    pitfalls: Option<Vec<String>>,
) -> AtomWriteRequest {
    AtomWriteRequest {
        title: "Test".into(),
        atom_type: AtomType::Note,
        confidence: Confidence::Medium,
        summary: "Test summary".into(),
        details: None,
        pitfalls,
        tags,
        sources,
        links,
    }
}

#[test]
fn test_detect_stringified_array_valid() {
    let result = detect_stringified_array(r#"["api", "rust"]"#);
    assert_eq!(result, Some(vec!["api".to_string(), "rust".to_string()]));
}

#[test]
fn test_detect_stringified_array_with_whitespace() {
    let result = detect_stringified_array(r#"  ["api", "rust"]  "#);
    assert_eq!(result, Some(vec!["api".to_string(), "rust".to_string()]));
}

#[test]
fn test_detect_stringified_array_not_array() {
    assert_eq!(detect_stringified_array("just a string"), None);
    assert_eq!(detect_stringified_array("api"), None);
    assert_eq!(detect_stringified_array(""), None);
}

#[test]
fn test_detect_stringified_array_invalid_json() {
    assert_eq!(detect_stringified_array("[not valid json"), None);
}

#[test]
fn test_validate_array_fields_valid() {
    let req = make_request(
        Some(vec!["api".into(), "rust".into()]),
        Some(vec!["src/lib.rs".into()]),
        None,
        None,
    );
    assert!(validate_array_fields(&req).is_ok());
}

#[test]
fn test_validate_array_fields_stringified_tags() {
    let req = make_request(Some(vec![r#"["api", "rust"]"#.into()]), None, None, None);
    let err = validate_array_fields(&req).unwrap_err();
    let msg = err.to_string();
    assert!(msg.contains("tags[0]"));
    assert!(msg.contains("stringified array"));
    assert!(msg.contains(r#"Correct format: tags: ["api", "rust"]"#));
}

#[test]
fn test_validate_array_fields_stringified_sources() {
    let req = make_request(
        None,
        Some(vec![r#"["src/lib.rs", "src/main.rs"]"#.into()]),
        None,
        None,
    );
    let err = validate_array_fields(&req).unwrap_err();
    let msg = err.to_string();
    assert!(msg.contains("sources[0]"));
    assert!(msg.contains("stringified array"));
}

#[test]
fn test_validate_array_fields_none_values() {
    let req = make_request(None, None, None, None);
    assert!(validate_array_fields(&req).is_ok());
}

#[test]
fn validate_array_fields_reports_every_field_in_order() {
    let req = make_request(
        Some(vec!["ok".into(), r#"["a"]"#.into()]),
        None,
        Some(vec![r#"["K-1"]"#.into()]),
        Some(vec![r#"["p"]"#.into()]),
    );
    let msg = validate_array_fields(&req).unwrap_err().to_string();
    let tags = msg.find("tags[1]").expect("tags reported");
    let links = msg.find("links[0]").expect("links reported");
    let pitfalls = msg.find("pitfalls[0]").expect("pitfalls reported");
    assert!(tags < links && links < pitfalls);
    assert!(msg.contains("Array fields must be JSON arrays, not stringified arrays:\n"));
}

#[test]
fn create_needs_explicit_context() {
    let req = make_request(None, None, None, None);
    let fallback = DetectedContext::new(
        ProjectContext::new("global".into(), "x".into()),
        ContextSource::Fallback,
    );
    assert!(write_context(&req, fallback).unwrap_err().to_string().contains("fallback"));
}

#[test]
fn create_hands_out_the_next_id_and_lists_the_atom() {
    let mut index = Index::new();
    let mut req = make_request(Some(vec!["t".into()]), None, None, None);
    req.details = Some("d".into());
    let first = create_atom(req, explicit_ctx(), &vec![], &mut index, "2026-01-02".to_string()).unwrap().0;
    assert_eq!(first.id, "K-000001");
    assert_eq!(first.updated_at, "2026-01-02");
    assert_eq!(first.tags, vec!["t".to_string()]);
    assert_eq!(first.details, Some("d".to_string()));
    let second = create_atom(make_request(None, None, None, None), explicit_ctx(), &vec![], &mut index, "2026-01-02".into()).unwrap().0;
    assert_eq!(second.id, "K-000002");
    assert_eq!(index.next_id, 3);
    assert_eq!(index.entries.len(), 2);
    assert_eq!(index.entries[1].id, "K-000002");
}

#[test]
fn resolve_links_checks_org_project_and_atom_in_order() {
    let ctx = ProjectContext::new("acme".into(), "atlas".into());
    let ok = |_: usize| LinkCheck { project_exists: true, read_error: None };
    let links = vec!["K-000001".to_string(), "acme/atlas/K-000001".to_string(), "backend/K-000002".to_string()];
    let checks = (0..3).map(ok).collect();
    let refs = resolve_links("acme", &links, &ctx, &checks).unwrap();
    let paths: Vec<String> = refs.iter().map(|r| r.to_full_path()).collect();
    assert_eq!(paths, vec!["acme/atlas/K-000001", "acme/backend/K-000002"]);

    let cross = vec!["other/p/K-1".to_string()];
    let err = resolve_links("acme", &cross, &ctx, &vec![ok(0)]).unwrap_err().to_string();
    assert!(err.contains("Cross-org links not allowed: 'other/p/K-1' references org 'other', expected 'acme'"));

    let missing = vec!["ghost/K-1".to_string()];
    let err = resolve_links(
        "acme",
        &missing,
        &ctx,
        &vec![LinkCheck { project_exists: false, read_error: None }],
    )
    .unwrap_err()
    .to_string();
    assert!(err.contains("Link target project 'ghost' does not exist in org 'acme'"));

    let unreadable = vec!["K-000404".to_string()];
    let err = resolve_links(
        "acme",
        &unreadable,
        &ctx,
        &vec![LinkCheck { project_exists: true, read_error: Some(AtlasError::NotFound("K-000404".into())) }],
    )
    .unwrap_err();
    assert!(matches!(err, AtlasError::NotFound(_)));
}

fn stored_atom() -> Atom {
    let mut atom = Atom::new(
        "K-000001".into(),
        "First".into(),
        AtomType::Note,
        Confidence::Medium,
        "First summary".into(),
    );
    atom.details = Some("old details".into());
    atom.tags = vec!["first".into()];
    atom.sources = vec!["src/first.rs".into()];
    atom.links = vec!["K-000002".into(), "backend/K-000003".into()];
    atom
}

fn empty_update() -> AtomUpdateRequest {
    AtomUpdateRequest {
        title: None,
        atom_type: None,
        confidence: None,
        summary: None,
        details: None,
        clear_details: false,
        pitfalls: None,
        clear_pitfalls: false,
        tags: None,
        clear_tags: false,
        sources: None,
        clear_sources: false,
    }
}

#[test]
fn update_patches_only_what_it_names_and_reports_edges() {
    let mut atom = stored_atom();
    let mut req = empty_update();
    req.summary = Some("Updated summary".into());
    req.clear_tags = true;
    let at = AtomRef::new("acme".into(), "atlas".into(), "K-000001".into());
    let mut index = indexed(2, &["K-000001"]);
    let reported = update_atom(&at, &mut atom, &mut index, req, "2026-02-02".into());
    assert!(!reported.created);
    assert_eq!(reported.id, "acme/atlas/K-000001");
    assert_eq!(reported.links, vec!["acme/atlas/K-000002", "acme/backend/K-000003"]);
    assert_eq!(index.entries.len(), 1);
    assert_eq!(index.entries[0].title, "First");
    assert!(index.entries[0].tags.is_empty());
    assert_eq!(atom.summary, "Updated summary");
    assert_eq!(atom.title, "First");
    assert_eq!(atom.details, Some("old details".to_string()));
    assert!(atom.tags.is_empty());
    assert_eq!(atom.sources, vec!["src/first.rs".to_string()]);
    assert_eq!(atom.updated_at, "2026-02-02");
    let result = update_result(&at, &atom);
    assert!(!result.created);
    assert_eq!(result.id, "acme/atlas/K-000001");
    assert_eq!(result.links, vec!["acme/atlas/K-000002", "acme/backend/K-000003"]);
    assert_eq!(
        edge_references(&at, &vec!["x/y/K-9".to_string()]),
        vec!["x/y/K-9".to_string()]
    );
}

#[test]
fn apply_vec_update_replaces_clears_or_keeps() {
    let mut v = vec!["a".to_string()];
    apply_vec_update(&mut v, Some(vec!["b".to_string()]), true);
    assert_eq!(v, vec!["b".to_string()]);
    apply_vec_update(&mut v, None, false);
    assert_eq!(v, vec!["b".to_string()]);
    apply_vec_update(&mut v, None, true);
    assert!(v.is_empty());
}

#[test]
fn create_result_reports_the_new_atom_and_its_peers() {
    let peers = vec![AtomRef::new("acme".into(), "backend".into(), "K-000001".into())];
    let result = create_result("acme", "atlas", "K-000002", &peers);
    assert!(result.created);
    assert_eq!(result.id, "acme/atlas/K-000002");
    assert_eq!(result.links, vec!["acme/backend/K-000001".to_string()]);
}

fn indexed(next_id: u64, ids: &[&str]) -> Index {
    Index {
        next_id,
        entries: ids
            .iter()
            .map(|id| IndexEntry {
                id: id.to_string(),
                title: "t".into(),
                atom_type: AtomType::Note,
                confidence: Confidence::High,
                tags: vec![],
            })
            .collect(),
    }
}

#[test]
fn an_index_is_well_formed_when_its_ids_precede_the_next_id() {
    assert!(Index::new().is_wf());
    assert!(indexed(3, &["K-000001", "K-000002"]).is_wf());
    assert!(!indexed(3, &["K-000001", "K-000003"]).is_wf());
    assert!(!indexed(3, &["K-0000000000000000000000009"]).is_wf());
    assert!(indexed(3, &["custom", "K-12a", "K-"]).is_wf());
    assert!(id_issued_before(&"K-000099".to_string(), 100));
    assert!(!id_issued_before(&"K-000100".to_string(), 100));
    assert!(!id_issued_before(&"K-0".to_string(), 0));
}

#[test]
fn create_with_same_title_creates_distinct_atoms() {
    let mut index = indexed(3, &["K-000001", "K-000002"]);
    let first = create_atom(make_request(None, None, None, None), explicit_ctx(), &vec![], &mut index, "2026-01-02".into()).unwrap().0;
    let second = create_atom(make_request(None, None, None, None), explicit_ctx(), &vec![], &mut index, "2026-01-02".into()).unwrap().0;
    assert_eq!(first.title, second.title);
    assert_ne!(first.id, second.id);
    assert_eq!(first.id, "K-000003");
    assert_eq!(index.entries.len(), 4);
    assert!(index.is_wf());
}

fn explicit_ctx() -> DetectedContext {
    DetectedContext::new(ProjectContext::new("acme".into(), "atlas".into()), ContextSource::EnvVars)
}

fn check(project_exists: bool, read_error: Option<AtlasError>) -> LinkCheck {
    LinkCheck { project_exists, read_error }
}

#[test]
fn create_rejects_fallback_context() {
    let fallback = DetectedContext::new(ProjectContext::new("global".into(), "x".into()), ContextSource::Fallback);
    let mut index = Index::new();
    let err = create_atom(make_request(None, None, None, None), fallback, &vec![], &mut index, "d".into())
        .unwrap_err()
        .to_string();
    assert!(err.contains("fallback"));
    assert_eq!(index.next_id, 1);
    assert!(index.entries.is_empty());
}

#[test]
fn create_writes_nothing_when_a_named_peer_does_not_exist() {
    let mut index = indexed(2, &["K-000001"]);
    let req = make_request(None, None, Some(vec!["K-000404".into()]), None);
    let missing = check(true, Some(AtlasError::NotFound("atom acme/atlas/K-000404".into())));
    let err = create_atom(req, explicit_ctx(), &vec![missing], &mut index, "d".into()).unwrap_err();
    assert_eq!(err.to_string(), "Not found: atom acme/atlas/K-000404");
    assert_eq!(index.next_id, 2);
    assert_eq!(index.entries.len(), 1);
}

#[test]
fn create_links_the_new_atom_to_every_named_peer() {
    let mut index = indexed(2, &["K-000001"]);
    let req = make_request(
        None,
        None,
        Some(vec!["acme/atlas/K-000001".into(), "backend/K-000001".into(), "K-000001".into()]),
        None,
    );
    let checks = vec![check(true, None), check(true, None), check(true, None)];
    let (atom, result) = create_atom(req, explicit_ctx(), &checks, &mut index, "d".into()).unwrap();
    assert_eq!(atom.id, "K-000002");
    assert!(atom.links.is_empty());
    assert!(result.created);
    assert_eq!(result.id, "acme/atlas/K-000002");
    assert_eq!(result.links, vec!["acme/atlas/K-000001", "acme/backend/K-000001"]);
    assert_eq!(index.entries.len(), 2);
}
