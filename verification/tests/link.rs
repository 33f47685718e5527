use atlas::context::{ContextSource, DetectedContext, ProjectContext};
use atlas::link::{
    add_reference, format_link_for_storage, link, link_atoms, link_ends, lock_projects, remove_reference,
    unlink, unlink_atoms, LinkRequest,
};
use atlas::models::{Atom, AtomType, Confidence};
use atlas::reference::{format_atom_reference, parse_atom_reference, parse_scope, AtomRef};

fn atom_ref(project: &str, id: &str) -> AtomRef {
    AtomRef::new("acme".to_string(), project.to_string(), id.to_string())
}

fn atom_with_links(links: &[&str]) -> Atom {
    let mut atom = Atom::new(
        "K-000001".to_string(),
        "Title".to_string(),
        AtomType::Note,
        Confidence::High,
        "Summary".to_string(),
    );
    atom.links = links.iter().map(|l| l.to_string()).collect();
    atom
}

#[test]
fn test_format_link_for_storage_same_project() {
    let link = format_link_for_storage("project-a", "project-a", "K-000001");
    assert_eq!(link, "K-000001");
}

#[test]
fn test_format_link_for_storage_cross_project() {
    let link = format_link_for_storage("project-a", "project-b", "K-000001");
    assert_eq!(link, "project-b/K-000001");
}

#[test]
fn test_add_reference_uses_storage_format_of_the_owner() {
    let owner = ProjectContext::new("acme".to_string(), "atlas".to_string());
    let mut atom = atom_with_links(&[]);

    assert!(add_reference(
        &mut atom,
        &owner,
        &atom_ref("atlas", "K-000002")
    ));
    assert!(add_reference(
        &mut atom,
        &owner,
        &atom_ref("other", "K-000003")
    ));
    assert_eq!(atom.links, vec!["K-000002", "other/K-000003"]);
}

#[test]
fn test_add_reference_recognizes_an_equivalent_stored_form() {
    let owner = ProjectContext::new("acme".to_string(), "atlas".to_string());
    let mut atom = atom_with_links(&["acme/atlas/K-000002"]);

    assert!(!add_reference(
        &mut atom,
        &owner,
        &atom_ref("atlas", "K-000002")
    ));
    assert_eq!(atom.links, vec!["acme/atlas/K-000002"]);
}

#[test]
fn test_remove_reference_matches_any_stored_form() {
    let owner = ProjectContext::new("acme".to_string(), "atlas".to_string());
    let mut atom = atom_with_links(&["acme/atlas/K-000002", "K-000003"]);

    assert!(remove_reference(
        &mut atom,
        &owner,
        &atom_ref("atlas", "K-000002")
    ));
    assert_eq!(atom.links, vec!["K-000003"]);
    assert!(!remove_reference(
        &mut atom,
        &owner,
        &atom_ref("atlas", "K-000009")
    ));
}

fn explicit() -> DetectedContext {
    DetectedContext::new(
        ProjectContext::new("acme".into(), "atlas".into()),
        ContextSource::EnvVars,
    )
}

#[test]
fn link_writes_both_halves_and_is_idempotent() {
    let source = atom_ref("atlas", "K-000001");
    let target = atom_ref("backend", "K-000001");
    let mut a = atom_with_links(&[]);
    let mut b = atom_with_links(&[]);
    let first = link_atoms(&source, &target, &mut a, &mut b);
    assert!(first.response.created);
    assert!(first.save_source && first.save_target);
    assert_eq!(a.links, vec!["backend/K-000001"]);
    assert_eq!(b.links, vec!["atlas/K-000001"]);
    assert_eq!(first.response.source, "acme/atlas/K-000001");
    assert_eq!(first.response.target, "acme/backend/K-000001");

    let again = link_atoms(&source, &target, &mut a, &mut b);
    assert!(!again.response.created);
    assert_eq!(a.links, vec!["backend/K-000001"]);
    assert_eq!(b.links, vec!["atlas/K-000001"]);
}

#[test]
fn link_restores_a_missing_half() {
    let source = atom_ref("atlas", "K-000002");
    let target = atom_ref("atlas", "K-000001");
    let mut a = atom_with_links(&["K-000001"]);
    let mut b = atom_with_links(&[]);
    let outcome = link_atoms(&source, &target, &mut a, &mut b);
    assert!(outcome.response.created);
    assert!(!outcome.save_source);
    assert!(outcome.save_target);
    assert_eq!(b.links, vec!["K-000002"]);
}

#[test]
fn unlink_clears_both_halves_and_tolerates_a_missing_target() {
    let source = atom_ref("atlas", "K-000001");
    let target = atom_ref("backend", "K-000001");
    let mut a = atom_with_links(&["backend/K-000001", "K-000007"]);
    let mut b = Some(atom_with_links(&["acme/atlas/K-000001"]));
    let outcome = unlink_atoms(&source, &target, &mut a, &mut b);
    assert!(outcome.response.removed);
    assert_eq!(a.links, vec!["K-000007"]);
    assert!(b.unwrap().links.is_empty());

    let mut gone: Option<Atom> = None;
    let again = unlink_atoms(&source, &target, &mut a, &mut gone);
    assert!(!again.response.removed);
    assert!(!again.save_target);
}

#[test]
fn link_rejects_self_cross_org_and_fallback() {
    let err = link_ends(
        &LinkRequest { source: "K-000001".into(), target: "atlas/K-000001".into() },
        explicit(),
    )
    .unwrap_err()
    .to_string();
    assert!(err.contains("itself"));
    let err = link_ends(
        &LinkRequest { source: "K-000001".into(), target: "other/p/K-000001".into() },
        explicit(),
    )
    .unwrap_err()
    .to_string();
    assert!(err.contains("across different organizations"));
    let fallback = DetectedContext::new(
        ProjectContext::new("global".into(), "x".into()),
        ContextSource::Fallback,
    );
    assert!(link_ends(
        &LinkRequest { source: "K-000001".into(), target: "K-000002".into() },
        fallback
    )
    .is_err());
    let (s, t) = link_ends(
        &LinkRequest { source: "K-000001".into(), target: "backend/K-000003".into() },
        explicit(),
    )
    .unwrap();
    assert_eq!(s.to_full_path(), "acme/atlas/K-000001");
    assert_eq!(t.to_full_path(), "acme/backend/K-000003");
}

#[test]
fn locks_are_taken_once_per_project_in_order() {
    let a = atom_ref("zeta", "K-000001");
    let b = atom_ref("alpha", "K-000002");
    let order = lock_projects(&a, &b);
    assert_eq!(
        order,
        vec![
            ("acme".to_string(), "alpha".to_string()),
            ("acme".to_string(), "zeta".to_string())
        ]
    );
    assert_eq!(lock_projects(&a, &a).len(), 1);
}

#[test]
fn references_resolve_against_the_context() {
    let ctx = ProjectContext::new("acme".into(), "atlas".into());
    assert_eq!(parse_atom_reference("K-000001", &ctx).to_full_path(), "acme/atlas/K-000001");
    assert_eq!(parse_atom_reference("api/K-000010", &ctx).to_full_path(), "acme/api/K-000010");
    assert_eq!(parse_atom_reference("o/p/K-1", &ctx).to_full_path(), "o/p/K-1");
    assert_eq!(format_atom_reference("o", "p", "K-1"), "o/p/K-1");
    let full = format_atom_reference("acme", "backend", "K-000031");
    let back = parse_atom_reference(&full, &ctx);
    assert_eq!(back.org, "acme");
    assert_eq!(back.project, "backend");
    assert_eq!(back.id, "K-000031");
}

#[test]
fn scopes_name_an_org_or_a_project() {
    let ctx = ProjectContext::new("acme".into(), "atlas".into());
    assert_eq!(parse_scope(None, &ctx).unwrap(), ("acme".to_string(), None));
    assert_eq!(parse_scope(Some("other"), &ctx).unwrap(), ("other".to_string(), None));
    assert_eq!(
        parse_scope(Some("acme/backend"), &ctx).unwrap(),
        ("acme".to_string(), Some("backend".to_string()))
    );
    assert!(parse_scope(Some("a/b/c"), &ctx).is_err());
    assert!(parse_scope(Some("/b"), &ctx).is_err());
}

#[test]
fn link_rejects_an_atom_linked_to_itself() {
    let mut a = atom_with_links(&[]);
    let mut b = atom_with_links(&[]);
    let req = LinkRequest { source: "acme/atlas/K-000001".into(), target: "K-000001".into() };
    let err = link(&req, explicit(), &mut a, &mut b).unwrap_err().to_string();
    assert!(err.contains("itself"));
    assert!(a.links.is_empty() && b.links.is_empty());
    let req = LinkRequest { source: "K-000001".into(), target: "other/p/K-000001".into() };
    let err = link(&req, explicit(), &mut a, &mut b).unwrap_err().to_string();
    assert!(err.contains("Cannot link atoms across different organizations"));
    assert!(a.links.is_empty() && b.links.is_empty());
}

#[test]
fn link_request_writes_both_halves_and_unlink_clears_them() {
    let mut a = atom_with_links(&[]);
    let mut b = atom_with_links(&[]);
    b.id = "K-000001".into();
    let req = LinkRequest { source: "K-000001".into(), target: "backend/K-000001".into() };
    let outcome = link(&req, explicit(), &mut a, &mut b).unwrap();
    assert!(outcome.response.created);
    assert_eq!(outcome.response.source, "acme/atlas/K-000001");
    assert_eq!(outcome.response.target, "acme/backend/K-000001");
    assert_eq!(a.links, vec!["backend/K-000001"]);
    assert_eq!(b.links, vec!["atlas/K-000001"]);
    let mut target = Some(b);
    let outcome = unlink(&req, explicit(), &mut a, &mut target).unwrap();
    assert!(outcome.response.removed);
    assert!(a.links.is_empty());
    assert!(target.unwrap().links.is_empty());
}
