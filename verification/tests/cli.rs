use atlas::cli::{
    atom_update_request_from_args, atom_write_request_from_args, ids_read_stdin, parse_ids, resolve_atom_write_text_from_source,
    list_request_from_args, resolve_ids, update_reads_stdin, validate_update_clear_conflicts,
    write_reads_stdin,
    AtomUpdateArgs, AtomWriteArgs, ClearField, OutputFormat,
};
use atlas::models::{AtomType, Confidence};

#[test]
fn output_format_display_matches_cli_values() {
    assert_eq!(OutputFormat::Yaml.to_string(), "yaml");
    assert_eq!(OutputFormat::Json.to_string(), "json");
}

#[test]
fn parse_ids_splits_whitespace() {
    let ids = parse_ids("K-000001\nproj/K-000002 org/proj/K-000003").expect("ids should parse");
    assert_eq!(
        ids,
        vec![
            "K-000001".to_string(),
            "proj/K-000002".to_string(),
            "org/proj/K-000003".to_string()
        ]
    );
}

#[test]
fn atom_write_text_uses_piped_stdin_as_summary_when_summary_missing() {
    let (summary, details) =
        resolve_atom_write_text_from_source(None, None, Some("remember this".to_string()))
            .expect("stdin should become summary");
    assert_eq!(summary, "remember this");
    assert_eq!(details, None);
}

#[test]
fn atom_write_text_ignores_implicit_stdin_when_summary_set() {
    let (summary, details) = resolve_atom_write_text_from_source(
        Some("short".to_string()),
        None,
        Some("longer markdown".to_string()),
    )
    .expect("provided summary should be enough");
    assert_eq!(summary, "short");
    assert_eq!(details, None);
}

#[test]
fn atom_write_text_uses_explicit_stdin_as_details_when_requested() {
    let (summary, details) = resolve_atom_write_text_from_source(
        Some("short".to_string()),
        Some("-".to_string()),
        Some("longer markdown".to_string()),
    )
    .expect("explicit details stdin should be used");
    assert_eq!(summary, "short");
    assert_eq!(details, Some("longer markdown".to_string()));
}

#[test]
fn atom_write_text_rejects_two_stdin_consumers() {
    let err = resolve_atom_write_text_from_source(
        Some("-".to_string()),
        Some("-".to_string()),
        Some("text".to_string()),
    )
    .unwrap_err()
    .to_string();
    assert!(err.contains("Only one of --summary or --details"));
}

#[test]
fn parse_ids_rejects_blank_input() {
    let err = parse_ids(" \n\t ").unwrap_err().to_string();
    assert!(err.contains("No atom IDs found in stdin"));
}

#[test]
fn atom_write_text_rejects_blank_summary_and_drops_blank_details() {
    let err = resolve_atom_write_text_from_source(Some("   ".to_string()), None, None)
        .unwrap_err()
        .to_string();
    assert!(err.contains("--summary is required"));
    let (summary, details) =
        resolve_atom_write_text_from_source(Some("s".to_string()), Some(" \n".to_string()), None)
            .expect("blank details are dropped");
    assert_eq!(summary, "s");
    assert_eq!(details, None);
}

#[test]
fn atom_write_text_requires_stdin_for_dash() {
    let err = resolve_atom_write_text_from_source(Some("-".to_string()), None, None)
        .unwrap_err()
        .to_string();
    assert!(err.contains("Expected stdin for '-'"));
    let err = resolve_atom_write_text_from_source(None, None, None)
        .unwrap_err()
        .to_string();
    assert!(err.contains("--summary is required"));
}

#[test]
fn write_reads_stdin_only_when_asked_or_piped() {
    assert!(write_reads_stdin(&Some("-".to_string()), &None, true));
    assert!(write_reads_stdin(&Some("x".to_string()), &Some("-".to_string()), true));
    assert!(write_reads_stdin(&None, &None, false));
    assert!(!write_reads_stdin(&None, &None, true));
    assert!(!write_reads_stdin(&Some("x".to_string()), &None, false));
}

fn update_args() -> AtomUpdateArgs {
    AtomUpdateArgs {
        title: None,
        atom_type: None,
        confidence: None,
        summary: None,
        details: None,
        pitfall: vec![],
        tag: vec![],
        source: vec![],
        clear: vec![],
    }
}

#[test]
fn update_rejects_summary_from_stdin() {
    let mut args = update_args();
    args.summary = Some("-".to_string());
    let err = atom_update_request_from_args(args, None).unwrap_err().to_string();
    assert!(err.contains("--summary - is not supported"));
}

#[test]
fn update_rejects_set_and_clear_of_one_field() {
    let mut args = update_args();
    args.tag = vec!["t".to_string()];
    args.clear = vec![ClearField::Sources, ClearField::Tags];
    let err = validate_update_clear_conflicts(&args).unwrap_err().to_string();
    assert!(err.contains("Cannot set and clear tags in one update."));
    assert!(!update_reads_stdin(&args));
}

#[test]
fn update_rejects_an_empty_patch() {
    let err = atom_update_request_from_args(update_args(), None)
        .unwrap_err()
        .to_string();
    assert!(err.contains("Provide at least one field to update or clear."));
}

#[test]
fn update_builds_a_patch_with_clears_and_stdin_details() {
    let mut args = update_args();
    args.details = Some("-".to_string());
    args.clear = vec![ClearField::Tags, ClearField::Pitfalls];
    assert!(update_reads_stdin(&args));
    let req = atom_update_request_from_args(args, Some("piped".to_string())).expect("patch");
    assert_eq!(req.details, Some("piped".to_string()));
    assert!(req.clear_tags);
    assert!(req.clear_pitfalls);
    assert!(!req.clear_details);
    assert!(!req.clear_sources);
    assert_eq!(req.tags, None);
}

#[test]
fn get_ids_come_from_arguments_or_stdin() {
    let args = vec!["K-000001".to_string(), "p/K-000002".to_string()];
    assert!(!ids_read_stdin(&args, false));
    assert_eq!(resolve_ids(args.clone(), false, None).unwrap(), args);
    let dash = vec!["-".to_string()];
    assert!(ids_read_stdin(&dash, true));
    assert_eq!(
        resolve_ids(dash, true, Some("K-1  K-2".to_string())).unwrap(),
        vec!["K-1".to_string(), "K-2".to_string()]
    );
    let err = resolve_ids(vec![], true, None).unwrap_err().to_string();
    assert!(err.contains("At least one atom ID is required"));
    let err = resolve_ids(vec!["-".to_string(), "K-1".to_string()], true, None)
        .unwrap_err()
        .to_string();
    assert!(err.contains("'-' must be the only get argument"));
}

#[test]
fn list_request_treats_empty_filters_as_none() {
    let req = list_request_from_args(Vec::new(), Vec::new(), None, 1000, None);
    assert!(req.types.is_none());
    assert!(req.tags.is_none());
    assert_eq!(req.limit, Some(1000));
    assert!(req.scope.is_none());

    let req = list_request_from_args(
        vec![AtomType::Gotcha],
        vec!["rust".to_string()],
        Some(Confidence::High),
        5,
        Some("acme".to_string()),
    );
    assert_eq!(req.types, Some(vec![AtomType::Gotcha]));
    assert_eq!(req.tags, Some(vec!["rust".to_string()]));
    assert_eq!(req.confidence, Some(Confidence::High));
    assert_eq!(req.limit, Some(5));
    assert_eq!(req.scope, Some("acme".to_string()));
}

#[test]
fn create_request_carries_links_and_drops_empty_lists() {
    let args = AtomWriteArgs {
        title: "Recorded with its edges".to_string(),
        atom_type: AtomType::Decision,
        confidence: Confidence::High,
        summary: Some("Linked as it was written".to_string()),
        details: None,
        pitfall: Vec::new(),
        tag: vec!["api".to_string()],
        source: Vec::new(),
        link: vec!["K-000001".to_string(), "backend/K-000001".to_string()],
    };
    let req = atom_write_request_from_args(args, None).expect("request should build");
    assert_eq!(req.summary, "Linked as it was written");
    assert_eq!(
        req.links,
        Some(vec!["K-000001".to_string(), "backend/K-000001".to_string()])
    );
    assert_eq!(req.tags, Some(vec!["api".to_string()]));
    assert!(req.pitfalls.is_none());
    assert!(req.sources.is_none());
}
