use atlas::atoms::make_context_hint;
use atlas::client_context::ClientContext;
use atlas::context::{
    detect_context_from_path, detect_context_full, parse_git_url, parse_local_config,
    require_explicit_write_context, validate_name, ContextSource, DetectedContext, ProjectContext,
};

#[test]
fn test_default_is_claude_code() {
    assert_eq!(ClientContext::default(), ClientContext::ClaudeCode);
}

#[test]
fn test_from_str() {
    assert_eq!(
        "agent".parse::<ClientContext>().unwrap(),
        ClientContext::ClaudeCode
    );
    assert_eq!("ide".parse::<ClientContext>().unwrap(), ClientContext::Ide);
    assert_eq!(
        "codex".parse::<ClientContext>().unwrap(),
        ClientContext::Codex
    );
    assert_eq!("IDE".parse::<ClientContext>().unwrap(), ClientContext::Ide);
    assert!("unknown".parse::<ClientContext>().is_err());
}

#[test]
fn test_display() {
    assert_eq!(ClientContext::ClaudeCode.to_string(), "agent");
    assert_eq!(ClientContext::Ide.to_string(), "ide");
    assert_eq!(ClientContext::Codex.to_string(), "codex");
}

#[test]
fn test_instructions_not_empty() {
    assert!(!ClientContext::ClaudeCode.instructions().is_empty());
    assert!(!ClientContext::Ide.instructions().is_empty());
    assert!(!ClientContext::Codex.instructions().is_empty());
}

#[test]
fn unknown_client_names_the_accepted_ones() {
    let err = "vim".parse::<ClientContext>().unwrap_err();
    assert_eq!(
        err,
        "unknown client context 'vim', expected: agent, ide, codex"
    );
}

#[test]
fn test_parse_ssh_github() {
    let ctx = parse_git_url("git@github.com:spacelift-io/worker.git").unwrap();
    assert_eq!(ctx.org, "spacelift-io");
    assert_eq!(ctx.project, "worker");
}

#[test]
fn test_parse_ssh_gitlab() {
    let ctx = parse_git_url("git@gitlab.com:myorg/myproject.git").unwrap();
    assert_eq!(ctx.org, "myorg");
    assert_eq!(ctx.project, "myproject");
}

#[test]
fn test_parse_ssh_no_git_suffix() {
    let ctx = parse_git_url("git@github.com:org/repo").unwrap();
    assert_eq!(ctx.org, "org");
    assert_eq!(ctx.project, "repo");
}

#[test]
fn test_parse_https_github() {
    let ctx = parse_git_url("https://github.com/sephriot/atlas.git").unwrap();
    assert_eq!(ctx.org, "sephriot");
    assert_eq!(ctx.project, "atlas");
}

#[test]
fn test_parse_https_no_git_suffix() {
    let ctx = parse_git_url("https://github.com/sephriot/atlas").unwrap();
    assert_eq!(ctx.org, "sephriot");
    assert_eq!(ctx.project, "atlas");
}

#[test]
fn test_parse_http_url() {
    let ctx = parse_git_url("http://gitlab.example.com/team/project.git").unwrap();
    assert_eq!(ctx.org, "team");
    assert_eq!(ctx.project, "project");
}

#[test]
fn test_parse_invalid_url() {
    assert!(parse_git_url("not-a-url").is_none());
    assert!(parse_git_url("").is_none());
    assert!(parse_git_url("https://github.com/only-one-part").is_none());
}

#[test]
fn test_project_context_new() {
    let ctx = ProjectContext::new("my-org".to_string(), "my-project".to_string());
    assert_eq!(ctx.org, "my-org");
    assert_eq!(ctx.project, "my-project");
}

#[test]
fn test_validate_name_valid() {
    assert!(validate_name("myorg").is_ok());
    assert!(validate_name("my-org").is_ok());
    assert!(validate_name("my_org").is_ok());
    assert!(validate_name("MyOrg123").is_ok());
    assert!(validate_name("a").is_ok());
    assert!(validate_name("1test").is_ok());
}

#[test]
fn test_validate_name_invalid() {
    assert!(validate_name("").is_err());
    assert!(validate_name("-invalid").is_err());
    assert!(validate_name("_invalid").is_err());
    assert!(validate_name("has space").is_err());
    assert!(validate_name("has/slash").is_err());
    assert!(validate_name("has.dot").is_err());
    assert!(validate_name("../traversal").is_err());
}

#[test]
fn test_detected_context_is_fallback() {
    let fallback = DetectedContext::new(
        ProjectContext::new("global".into(), "test".into()),
        ContextSource::Fallback,
    );
    assert!(fallback.is_fallback());

    let git = DetectedContext::new(
        ProjectContext::new("org".into(), "proj".into()),
        ContextSource::GitRemote,
    );
    assert!(!git.is_fallback());

    let env = DetectedContext::new(
        ProjectContext::new("org".into(), "proj".into()),
        ContextSource::EnvVars,
    );
    assert!(!env.is_fallback());
}

#[test]
fn local_config_reads_quoted_org_and_project() {
    let ctx = parse_local_config("# atlas\norg: \"acme\"\r\nproject: 'atlas'\n").unwrap();
    assert_eq!(ctx.org, "acme");
    assert_eq!(ctx.project, "atlas");
}

#[test]
fn local_config_needs_both_keys_non_empty() {
    assert!(parse_local_config("org: acme\n").is_none());
    assert!(parse_local_config("org: acme\nproject: \"\"\n").is_none());
    let ctx = parse_local_config("  org: a\norg: b\nproject: p").unwrap();
    assert_eq!(ctx.org, "b");
}

#[test]
fn context_detection_follows_its_priority() {
    let local = Some(ProjectContext::new("l".into(), "lp".into()));
    let url = Some("git@github.com:g/gp.git".to_string());

    let env = detect_context_full(
        Some("e".into()),
        Some("ep".into()),
        local.clone(),
        url.clone(),
        Some("dir".into()),
    );
    assert_eq!(env.source, ContextSource::EnvVars);
    assert_eq!(env.context.project, "ep");

    let from_local = detect_context_full(Some("e".into()), None, local, url.clone(), None);
    assert_eq!(from_local.source, ContextSource::LocalStorage);
    assert_eq!(from_local.context.org, "l");

    let from_git = detect_context_full(None, None, None, url, None);
    assert_eq!(from_git.source, ContextSource::GitRemote);
    assert_eq!(from_git.context.org, "g");
    assert_eq!(from_git.context.project, "gp");

    let fallback = detect_context_full(None, None, None, Some("nope".into()), Some("work".into()));
    assert_eq!(fallback.source, ContextSource::Fallback);
    assert_eq!(fallback.context.org, "global");
    assert_eq!(fallback.context.project, "work");

    let unknown = detect_context_from_path(None, None, None);
    assert_eq!(unknown.org, "global");
    assert_eq!(unknown.project, "unknown");
}

#[test]
fn fallback_context_is_read_only_and_hinted() {
    let fallback = DetectedContext::new(
        ProjectContext::new("global".into(), "test".into()),
        ContextSource::Fallback,
    );
    let err = require_explicit_write_context(fallback).unwrap_err().to_string();
    assert!(err.contains("fallback"));
    let hint = make_context_hint(&ContextSource::Fallback).unwrap();
    assert_eq!(hint.source, "fallback");
    assert!(make_context_hint(&ContextSource::EnvVars).is_none());
}
