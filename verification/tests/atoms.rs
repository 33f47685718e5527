use atlas::atoms::{
    delete_atom, delete_target, find_inbound_links, get_atom, get_context, list_atoms, list_project_atoms, list_scope,
    enable_local_storage, listing_projects, local_storage_plan, merge_index, EnableLocalStorageRequest, project_info, DeleteAtomRequest, GetAtomRequest, ListAtomsRequest, ProjectAtoms,
    ProjectIndex,
};
use atlas::context::{ContextSource, DetectedContext, ProjectContext};
use atlas::models::{Atom, AtomType, Confidence, Index, IndexEntry};
use atlas::reference::AtomRef;

fn entry(id: &str, title: &str, t: AtomType, c: Confidence, tags: &[&str]) -> IndexEntry {
    IndexEntry {
        id: id.to_string(),
        title: title.to_string(),
        atom_type: t,
        confidence: c,
        tags: tags.iter().map(|s| s.to_string()).collect(),
    }
}

fn index(entries: Vec<IndexEntry>) -> Index {
    Index { next_id: entries.len() as u64 + 1, entries }
}

fn request() -> ListAtomsRequest {
    ListAtomsRequest { types: None, tags: None, confidence: None, limit: None, scope: None }
}

fn projects() -> Vec<ProjectIndex> {
    vec![
        ProjectIndex {
            project: "atlas".into(),
            index: Some(index(vec![
                entry("K-000001", "Local inventory", AtomType::Note, Confidence::High, &["Rust"]),
                entry("K-000002", "A recipe", AtomType::Recipe, Confidence::Low, &["api"]),
            ])),
        },
        ProjectIndex { project: "broken".into(), index: None },
        ProjectIndex {
            project: "other".into(),
            index: Some(index(vec![entry(
                "K-000001",
                "Sibling inventory",
                AtomType::Note,
                Confidence::High,
                &[],
            )])),
        },
    ]
}

#[test]
fn listing_covers_the_projects_in_order_and_skips_unreadable_indexes() {
    let all = list_project_atoms(&request(), "acme", &projects());
    let ids: Vec<&str> = all.iter().map(|r| r.id.as_str()).collect();
    assert_eq!(ids, vec!["acme/atlas/K-000001", "acme/atlas/K-000002", "acme/other/K-000001"]);
    assert_eq!(all[0].title, "Local inventory");
    assert_eq!(all[0].tags, vec!["Rust".to_string()]);
}

#[test]
fn listing_filters_by_type_confidence_and_tag_ignoring_case() {
    let mut req = request();
    req.types = Some(vec![AtomType::Note]);
    req.confidence = Some(Confidence::High);
    let ids: Vec<String> = list_project_atoms(&req, "acme", &projects()).into_iter().map(|r| r.id).collect();
    assert_eq!(ids, vec!["acme/atlas/K-000001", "acme/other/K-000001"]);

    let mut req = request();
    req.tags = Some(vec!["rust".into(), "none".into()]);
    let ids: Vec<String> = list_project_atoms(&req, "acme", &projects()).into_iter().map(|r| r.id).collect();
    assert_eq!(ids, vec!["acme/atlas/K-000001"]);
}

#[test]
fn listing_stops_at_the_limit() {
    let mut req = request();
    req.limit = Some(2);
    assert_eq!(list_project_atoms(&req, "acme", &projects()).len(), 2);
    req.limit = Some(0);
    assert!(list_project_atoms(&req, "acme", &projects()).is_empty());
}

#[test]
fn listing_scope_is_the_current_project_unless_named() {
    let ctx = ProjectContext::new("acme".into(), "atlas".into());
    assert_eq!(
        list_scope(&request(), &ctx).unwrap(),
        ("acme".to_string(), Some("atlas".to_string()))
    );
    let mut req = request();
    req.scope = Some("acme".into());
    assert_eq!(list_scope(&req, &ctx).unwrap(), ("acme".to_string(), None));
    req.scope = Some("acme/other".into());
    assert_eq!(
        list_scope(&req, &ctx).unwrap(),
        ("acme".to_string(), Some("other".to_string()))
    );
}

fn atom(id: &str, links: &[&str]) -> Atom {
    let mut a = Atom::new(id.into(), "t".into(), AtomType::Note, Confidence::High, "s".into());
    a.links = links.iter().map(|s| s.to_string()).collect();
    a
}

#[test]
fn inbound_links_are_found_in_every_project_and_sorted() {
    let target = AtomRef::new("acme".into(), "atlas".into(), "K-000003".into());
    let projects = vec![
        ProjectAtoms { project: "backend".into(), atoms: vec![atom("K-000001", &["atlas/K-000003"])] },
        ProjectAtoms {
            project: "atlas".into(),
            atoms: vec![
                atom("K-000002", &["K-000003"]),
                atom("K-000001", &["acme/atlas/K-000003", "K-000002"]),
                atom("K-000004", &["backend/K-000003"]),
            ],
        },
    ];
    assert_eq!(
        find_inbound_links(&target, &projects),
        vec!["acme/atlas/K-000001", "acme/atlas/K-000002", "acme/backend/K-000001"]
    );
}

#[test]
fn delete_removes_the_entry_and_reports_what_was_detached() {
    let mut ix = index(vec![
        entry("K-000001", "a", AtomType::Note, Confidence::High, &[]),
        entry("K-000002", "b", AtomType::Note, Confidence::High, &[]),
    ]);
    let detected = DetectedContext::new(ProjectContext::new("acme".into(), "atlas".into()), ContextSource::EnvVars);
    let target = delete_target(&DeleteAtomRequest { id: "K-000001".into() }, detected.clone()).unwrap();
    assert_eq!(target.to_full_path(), "acme/atlas/K-000001");
    let mut projects = vec![
        ProjectAtoms { project: "atlas".into(), atoms: vec![atom("K-000001", &[]), atom("K-000002", &["K-000001"])] },
    ];
    let result = delete_atom(&DeleteAtomRequest { id: "K-000001".into() }, detected.clone(), &mut ix, &mut projects)
        .unwrap();
    assert!(result.deleted);
    assert_eq!(result.detached, vec!["acme/atlas/K-000002".to_string()]);
    assert_eq!(ix.entries.len(), 1);
    assert_eq!(ix.entries[0].id, "K-000002");
    assert!(projects[0].atoms[1].links.is_empty());
    let again = delete_atom(&DeleteAtomRequest { id: "K-000001".into() }, detected, &mut ix, &mut projects).unwrap();
    assert!(!again.deleted);
    assert!(again.detached.is_empty());
    assert_eq!(ix.next_id, 3);
}

#[test]
fn delete_detaches_every_atom_that_referenced_it() {
    let detected = DetectedContext::new(ProjectContext::new("acme".into(), "atlas".into()), ContextSource::EnvVars);
    let mut ix = index(vec![
        entry("K-000001", "n", AtomType::Note, Confidence::High, &[]),
        entry("K-000002", "d", AtomType::Note, Confidence::High, &[]),
    ]);
    let mut projects = vec![
        ProjectAtoms { project: "backend".into(), atoms: vec![atom("K-000001", &["atlas/K-000002"])] },
        ProjectAtoms {
            project: "atlas".into(),
            atoms: vec![atom("K-000001", &["K-000002"]), atom("K-000002", &["K-000001", "backend/K-000001"])],
        },
    ];
    let result = delete_atom(&DeleteAtomRequest { id: "acme/atlas/K-000002".into() }, detected, &mut ix, &mut projects)
        .unwrap();
    assert!(result.deleted);
    assert_eq!(result.detached, vec!["acme/atlas/K-000001", "acme/backend/K-000001"]);
    assert!(projects[0].atoms[0].links.is_empty());
    assert!(projects[1].atoms[0].links.is_empty());
}

#[test]
fn delete_refuses_fallback_context() {
    let detected = DetectedContext::new(ProjectContext::new("global".into(), "x".into()), ContextSource::Fallback);
    let mut ix = index(vec![entry("K-000001", "a", AtomType::Note, Confidence::High, &[])]);
    let mut projects = Vec::new();
    assert!(delete_atom(&DeleteAtomRequest { id: "K-000001".into() }, detected, &mut ix, &mut projects).is_err());
    assert_eq!(ix.entries.len(), 1);
}

#[test]
fn merging_a_central_index_keeps_local_entries_and_the_larger_next_id() {
    let mut repo = index(vec![entry("K-000001", "local", AtomType::Note, Confidence::High, &[])]);
    let central = Index {
        next_id: 9,
        entries: vec![
            entry("K-000001", "central", AtomType::Gotcha, Confidence::Low, &[]),
            entry("K-000005", "moved", AtomType::Note, Confidence::High, &[]),
        ],
    };
    merge_index(&mut repo, &central);
    assert_eq!(repo.next_id, 9);
    let titles: Vec<&str> = repo.entries.iter().map(|e| e.title.as_str()).collect();
    assert_eq!(titles, vec!["local", "moved"]);
}

#[test]
fn project_listing_marks_the_active_project_and_context_info_hints_fallback() {
    let active = Some(ProjectContext::new("acme".into(), "atlas".into()));
    assert!(project_info("acme".into(), "atlas".into(), 3, &active).active);
    assert!(!project_info("acme".into(), "other".into(), 0, &active).active);
    assert!(!project_info("acme".into(), "atlas".into(), 0, &None).active);

    let fallback = DetectedContext::new(ProjectContext::new("global".into(), "dir".into()), ContextSource::Fallback);
    let info = get_context(fallback, "/tmp/dir".into());
    assert_eq!(info.project, "dir");
    assert!(info.hint.is_some());

    let detected = DetectedContext::new(ProjectContext::new("acme".into(), "atlas".into()), ContextSource::EnvVars);
    let target = get_atom(&GetAtomRequest { id: "backend/K-000007".into() }, &detected);
    assert_eq!(target.to_full_path(), "acme/backend/K-000007");
}

#[test]
fn local_storage_plan_covers_every_central_path_state() {
    // Nothing there yet: just link.
    let p = local_storage_plan(false, false);
    assert!(!p.remove_broken_link && !p.migrate && p.create_symlink);
    // A real central directory: migrate, then link.
    let p = local_storage_plan(false, true);
    assert!(!p.remove_broken_link && p.migrate && p.create_symlink);
    // A dangling link: remove it and link afresh.
    let p = local_storage_plan(true, false);
    assert!(p.remove_broken_link && !p.migrate && p.create_symlink);
    // Already linked: leave it.
    let p = local_storage_plan(true, true);
    assert!(!p.remove_broken_link && !p.migrate && !p.create_symlink);
}

fn enable_request(org: &str, project: &str, root: Option<&str>) -> EnableLocalStorageRequest {
    EnableLocalStorageRequest {
        org: org.to_string(),
        project: project.to_string(),
        root: root.map(|r| r.to_string()),
    }
}

#[test]
fn enable_local_checks_names_and_root_before_planning() {
    let err = enable_local_storage(&enable_request("bad name", "atlas", None), true, false, false).unwrap_err();
    assert!(err.to_string().contains("Invalid name 'bad name'"));
    let err = enable_local_storage(&enable_request("acme", "", None), true, false, false).unwrap_err();
    assert!(err.to_string().contains("Name cannot be empty"));
    let err = enable_local_storage(&enable_request("acme", "atlas", Some("/no/such/root")), false, false, false)
        .unwrap_err();
    assert_eq!(err.to_string(), "Validation error: Project root does not exist: /no/such/root");
    let plan = enable_local_storage(&enable_request("acme", "atlas", Some("/repo")), true, false, true).unwrap();
    assert!(plan.migrate && plan.create_symlink && !plan.remove_broken_link);
    let plan = enable_local_storage(&enable_request("acme", "atlas", None), false, true, true).unwrap();
    assert!(!plan.migrate && !plan.create_symlink);
}

#[test]
fn listing_reads_the_current_project_the_named_one_or_the_org_sorted() {
    let ctx = ProjectContext::new("acme".to_string(), "atlas".to_string());
    let mut req = request();
    let org_projects = vec!["other".to_string(), "atlas".to_string(), "backend".to_string()];
    let (org, ps) = listing_projects(&req, &ctx, org_projects.clone()).unwrap();
    assert_eq!(org, "acme");
    assert_eq!(ps, vec!["atlas"]);
    req.scope = Some("acme/backend".to_string());
    let (_, ps) = listing_projects(&req, &ctx, org_projects.clone()).unwrap();
    assert_eq!(ps, vec!["backend"]);
    req.scope = Some("acme".to_string());
    let (org, ps) = listing_projects(&req, &ctx, org_projects.clone()).unwrap();
    assert_eq!(org, "acme");
    assert_eq!(ps, vec!["atlas", "backend", "other"]);
    req.scope = Some("a/b/c".to_string());
    assert!(listing_projects(&req, &ctx, org_projects).is_err());
}

#[test]
fn atoms_lists_the_named_org_rather_than_the_current_project() {
    let ctx = ProjectContext::new("acme".into(), "atlas".into());
    let mut req = request();
    req.limit = Some(1000);
    let local = list_atoms(&req, &ctx, projects()).unwrap();
    assert_eq!(local.len(), 2);
    assert_eq!(local[0].id, "acme/atlas/K-000001");
    assert_eq!(local[0].title, "Local inventory");
    req.scope = Some("acme".into());
    let mut shuffled = projects();
    shuffled.reverse();
    let ids: Vec<String> = list_atoms(&req, &ctx, shuffled).unwrap().into_iter().map(|r| r.id).collect();
    assert_eq!(ids, vec!["acme/atlas/K-000001", "acme/atlas/K-000002", "acme/other/K-000001"]);
    req.scope = Some("acme/other".into());
    let ids: Vec<String> = list_atoms(&req, &ctx, projects()).unwrap().into_iter().map(|r| r.id).collect();
    assert_eq!(ids, vec!["acme/other/K-000001"]);
    req.scope = Some("a/b/c".into());
    assert!(list_atoms(&req, &ctx, projects()).is_err());
}
