//! The project context: which organisation and project a command works in,
//! and where that knowledge came from.
use vstd::prelude::*;

use crate::error::AtlasError;
use crate::text::{
    is_blank, str_chars, string_from_chars, trim, trim_bounds, trim_char, trim_char_end,
    trim_char_start, unicode_white_space,
};

verus! {

/// Source of detected context.
#[derive(Debug, Clone, Copy, PartialEq, Eq, Structural)]
pub enum ContextSource {
    /// Explicit configuration via ATLAS_ORG/ATLAS_PROJECT env vars or CLI flags
    EnvVars,
    /// Detected .atlas/ in current working directory
    LocalStorage,
    /// Automatic detection from git remote URL
    GitRemote,
    /// Fallback: global/{dirname}
    Fallback,
}

/// Detected project context.
#[derive(Debug, Clone)]
pub struct ProjectContext {
    pub org: String,
    pub project: String,
}

impl View for ProjectContext {
    type V = (Seq<char>, Seq<char>);

    open spec fn view(&self) -> (Seq<char>, Seq<char>) {
        (self.org@, self.project@)
    }
}

impl ProjectContext {
    pub fn new(org: String, project: String) -> (r: Self)
        ensures
            r.org == org,
            r.project == project,
    {
        Self { org, project }
    }
}

/// Detected context with source tracking.
#[derive(Debug, Clone)]
pub struct DetectedContext {
    pub context: ProjectContext,
    pub source: ContextSource,
}

impl DetectedContext {
    pub fn new(context: ProjectContext, source: ContextSource) -> (r: Self)
        ensures
            r.context == context,
            r.source == source,
    {
        Self { context, source }
    }

    /// Returns true if context was detected via fallback.
    pub fn is_fallback(&self) -> (r: bool)
        ensures
            r == (self.source == ContextSource::Fallback),
    {
        match self.source {
            ContextSource::Fallback => true,
            _ => false,
        }
    }
}

/// The message given when a write is attempted under fallback context.
pub open spec fn fallback_write_message() -> Seq<char> {
    "Refusing to write with fallback context; pass --org and --project (or set ATLAS_ORG and ATLAS_PROJECT)"@
}

/// Writes need an explicit context: fallback context is read-only.
pub fn require_explicit_write_context(detected: DetectedContext) -> (r: Result<ProjectContext, AtlasError>)
    ensures
        detected.source == ContextSource::Fallback <==> r is Err,
        r matches Ok(ctx) ==> ctx == detected.context,
        r matches Err(e) ==> e is Context && e.message() == fallback_write_message(),
{
    if detected.is_fallback() {
        Err(AtlasError::Context(String::from_str(
            "Refusing to write with fallback context; pass --org and --project (or set ATLAS_ORG and ATLAS_PROJECT)",
        )))
    } else {
        Ok(detected.context)
    }
}


/// The pattern a valid org or project name matches.
pub const NAME_PATTERN: &'static str = "^[a-zA-Z0-9][a-zA-Z0-9_-]*$";

/// The pattern of an SSH git remote: `git@host:org/project(.git)`.
pub const SSH_REMOTE_PATTERN: &'static str = r"^git@[^:]+:([^/]+)/([^/]+?)(?:\.git)?$";

/// The pattern of an HTTP(S) git remote: `https://host/org/project(.git)`.
pub const HTTPS_REMOTE_PATTERN: &'static str = r"^https?://[^/]+/([^/]+)/([^/]+?)(?:\.git)?$";

/// What `Regex::new(pattern)` then `is_match(text)` gives: `None` when the
/// pattern does not compile.
pub uninterp spec fn regex_is_match(pattern: Seq<char>, text: Seq<char>) -> Option<bool>;

/// What `Regex::new(pattern)` then `captures(text)` gives, each group as its
/// text: `None` when the pattern does not compile, `Some(None)` when it does
/// not match.
pub uninterp spec fn regex_captures(pattern: Seq<char>, text: Seq<char>) -> Option<Option<Seq<Option<Seq<char>>>>>;

/// An ASCII letter or digit.
pub open spec fn ascii_alnum(c: char) -> bool {
    ('a' <= c <= 'z') || ('A' <= c <= 'Z') || ('0' <= c <= '9')
}

/// What [`NAME_PATTERN`] matches: an ASCII letter or digit, then ASCII
/// letters, digits, `_` and `-`.
pub open spec fn ascii_name(t: Seq<char>) -> bool {
    &&& t.len() > 0
    &&& ascii_alnum(t[0])
    &&& forall|i: int| 1 <= i < t.len() ==> ascii_alnum(#[trigger] t[i]) || t[i] == '_' || t[i] == '-'
}

/// `regex::Regex::new` and `Regex::is_match`. The regular-expression
/// semantics are named, not stated, except for [`NAME_PATTERN`], whose
/// anchors (`^` and `$` at the ends of the text) and ASCII classes make it
/// match exactly the texts [`ascii_name`] describes.
#[verifier::external_body]
fn regex_match(pattern: &str, text: &str) -> (r: Option<bool>)
    ensures
        r == regex_is_match(pattern@, text@),
        pattern@ == NAME_PATTERN@ ==> r == Some(ascii_name(text@)),
{
    match regex::Regex::new(pattern) {
        Ok(re) => Some(re.is_match(text)),
        Err(_) => None,
    }
}

/// The views of capture groups.
pub open spec fn group_views(groups: Seq<Option<String>>) -> Seq<Option<Seq<char>>> {
    groups.map_values(|g: Option<String>| match g {
        Some(s) => Some(s@),
        None => None,
    })
}

/// `regex::Regex::new` and `Regex::captures`, every group (the whole match
/// first) converted to an owned string. The semantics are named, not stated.
#[verifier::external_body]
fn regex_capture_groups(pattern: &str, text: &str) -> (r: Option<Option<Vec<Option<String>>>>)
    ensures
        match r {
            None => regex_captures(pattern@, text@).is_none(),
            Some(None) => regex_captures(pattern@, text@) == Some(None::<Seq<Option<Seq<char>>>>),
            Some(Some(g)) => regex_captures(pattern@, text@) == Some(Some(group_views(g@))),
        },
{
    let re = match regex::Regex::new(pattern) {
        Ok(re) => re,
        Err(_) => return None,
    };
    let Some(caps) = re.captures(text) else { return Some(None) };
    let mut groups = Vec::new();
    for m in caps.iter() {
        groups.push(match m {
            Some(m) => Some(m.as_str().to_string()),
            None => None,
        });
    }
    Some(Some(groups))
}

pub open spec fn empty_name_message() -> Seq<char> {
    "Name cannot be empty"@
}

pub open spec fn invalid_name_message(name: Seq<char>) -> Seq<char> {
    "Invalid name '"@ + name
        + "': must start with alphanumeric and contain only alphanumeric, hyphens, underscores"@
}

pub open spec fn name_pattern_message() -> Seq<char> {
    "The name pattern does not compile"@
}

/// The verdict on a name given what the name pattern says of it
/// (`matched`, `None` when the pattern does not compile).
pub open spec fn name_verdict(name: Seq<char>, matched: Option<bool>) -> Result<(), (bool, Seq<char>)> {
    if name.len() == 0 {
        Err((true, empty_name_message()))
    } else {
        match matched {
            Some(true) => Ok(()),
            Some(false) => Err((true, invalid_name_message(name))),
            None => Err((false, name_pattern_message())),
        }
    }
}

/// The verdict on a name: what [`validate_name`] reports of it.
pub open spec fn name_check(name: Seq<char>) -> Result<(), (bool, Seq<char>)> {
    name_verdict(name, Some(ascii_name(name)))
}

/// `r` is the error a name verdict's failure `(is_validation, message)` describes.
pub open spec fn reports_name_error<T>(r: Result<T, AtlasError>, failure: (bool, Seq<char>)) -> bool {
    r matches Err(e) && (if failure.0 { e is Validation } else { e is Config }) && e.message() == failure.1
}

/// Judge a name given what the name pattern says of it: empty names and
/// names the pattern does not match are invalid.
pub fn check_name(name: &str, matched: Option<bool>) -> (r: Result<(), AtlasError>)
    ensures
        match name_verdict(name@, matched) {
            Ok(()) => r is Ok,
            Err((true, m)) => r matches Err(e) && e is Validation && e.message() == m,
            Err((false, m)) => r matches Err(e) && e is Config && e.message() == m,
        },
{
    if name.unicode_len() == 0 {
        return Err(AtlasError::Validation(String::from_str("Name cannot be empty")));
    }
    match matched {
        Some(true) => Ok(()),
        Some(false) => {
            let mut m = String::from_str("Invalid name '");
            m.append(name);
            m.append("': must start with alphanumeric and contain only alphanumeric, hyphens, underscores");
            Err(AtlasError::Validation(m))
        },
        None => Err(AtlasError::Config(String::from_str("The name pattern does not compile"))),
    }
}

/// Validate org/project name.
///
/// Names must:
/// - Start with alphanumeric character
/// - Contain only alphanumeric, hyphens, and underscores
/// - Not be empty
pub fn validate_name(name: &str) -> (r: Result<(), AtlasError>)
    ensures
        name@.len() == 0 ==> (r matches Err(e) && e is Validation && e.message() == empty_name_message()),
        name@.len() > 0 && ascii_name(name@) ==> r is Ok,
        name@.len() > 0 && !ascii_name(name@) ==> (r matches Err(e) && e is Validation && e.message()
            == invalid_name_message(name@)),
        match name_check(name@) {
            Ok(()) => r is Ok,
            Err((true, m)) => r matches Err(e) && e is Validation && e.message() == m,
            Err((false, m)) => r matches Err(e) && e is Config && e.message() == m,
        },
{
    if name.unicode_len() == 0 {
        return check_name(name, None);
    }
    let matched = regex_match(NAME_PATTERN, name);
    check_name(name, matched)
}

/// The org and project of a remote, from capture groups 1 and 2.
pub open spec fn groups_context(g: Seq<Option<Seq<char>>>) -> Option<(Seq<char>, Seq<char>)> {
    if g.len() > 2 && g[1] is Some && g[2] is Some {
        Some((g[1].unwrap(), g[2].unwrap()))
    } else {
        None
    }
}

/// The context a git remote names, given what the SSH pattern and then the
/// HTTP(S) pattern capture of it.
pub open spec fn remote_context(
    ssh: Option<Option<Seq<Option<Seq<char>>>>>,
    https: Option<Option<Seq<Option<Seq<char>>>>>,
) -> Option<(Seq<char>, Seq<char>)> {
    match ssh {
        None => None,
        Some(Some(g)) => groups_context(g),
        Some(None) => match https {
            Some(Some(g)) => groups_context(g),
            _ => None,
        },
    }
}

fn context_from_groups(g: Vec<Option<String>>) -> (r: Option<ProjectContext>)
    ensures
        match groups_context(group_views(g@)) {
            Some(c) => r matches Some(ctx) && ctx@ == c,
            None => r is None,
        },
{
    if g.len() > 2 {
        let org = match &g[1] {
            Some(o) => o.clone(),
            None => return None,
        };
        let project = match &g[2] {
            Some(p) => p.clone(),
            None => return None,
        };
        Some(ProjectContext::new(org, project))
    } else {
        None
    }
}

/// The context a git remote names, given what the SSH pattern and the
/// HTTP(S) pattern capture of it (`https` is consulted only when the SSH
/// pattern compiles and does not match).
pub fn context_from_remote_captures(
    ssh: Option<Option<Vec<Option<String>>>>,
    https: Option<Option<Vec<Option<String>>>>,
) -> (r: Option<ProjectContext>)
    ensures
        match remote_context(
            match ssh {
                None => None,
                Some(None) => Some(None),
                Some(Some(g)) => Some(Some(group_views(g@))),
            },
            match https {
                None => None,
                Some(None) => Some(None),
                Some(Some(g)) => Some(Some(group_views(g@))),
            },
        ) {
            Some(c) => r matches Some(ctx) && ctx@ == c,
            None => r is None,
        },
{
    match ssh {
        None => None,
        Some(Some(g)) => context_from_groups(g),
        Some(None) => match https {
            Some(Some(g)) => context_from_groups(g),
            _ => None,
        },
    }
}

/// Parse a git URL to extract org and project.
///
/// Supports:
/// - git@github.com:spacelift-io/worker.git
/// - https://github.com/sephriot/atlas.git
/// - git@gitlab.com:org/project.git
/// - https://gitlab.com/org/project
pub fn parse_git_url(url: &str) -> (r: Option<ProjectContext>)
    ensures
        match remote_context(
            regex_captures(SSH_REMOTE_PATTERN@, url@),
            regex_captures(HTTPS_REMOTE_PATTERN@, url@),
        ) {
            Some(c) => r matches Some(ctx) && ctx@ == c,
            None => r is None,
        },
{
    let ssh = regex_capture_groups(SSH_REMOTE_PATTERN, url);
    match ssh {
        Some(None) => {
            let https = regex_capture_groups(HTTPS_REMOTE_PATTERN, url);
            context_from_remote_captures(Some(None), https)
        },
        _ => context_from_remote_captures(ssh, None),
    }
}

/// The lines of `s`: the pieces between `\n` characters (a `\r` before a
/// `\n` stays on its line; lines are trimmed before use).
pub open spec fn lines_from(s: Seq<char>, cur: Seq<char>) -> Seq<Seq<char>>
    decreases s.len(),
{
    if s.len() == 0 {
        seq![cur]
    } else if s[0] == '\n' {
        seq![cur] + lines_from(s.drop_first(), seq![])
    } else {
        lines_from(s.drop_first(), cur.push(s[0]))
    }
}

pub open spec fn org_key() -> Seq<char> {
    seq!['o', 'r', 'g', ':']
}

pub open spec fn project_key() -> Seq<char> {
    seq!['p', 'r', 'o', 'j', 'e', 'c', 't', ':']
}

/// A configuration value: trimmed, then stripped of double and then single quotes.
pub open spec fn config_value(v: Seq<char>) -> Seq<char> {
    trim_char(trim_char(trim(v), '"'), '\'')
}

/// The org and project that the configuration lines set (the last setting
/// of each wins).
pub open spec fn scan_config(lines: Seq<Seq<char>>) -> (Option<Seq<char>>, Option<Seq<char>>)
    decreases lines.len(),
{
    if lines.len() == 0 {
        (None, None)
    } else {
        let before = scan_config(lines.drop_last());
        let l = trim(lines.last());
        if org_key().is_prefix_of(l) {
            (Some(config_value(l.skip(4))), before.1)
        } else if project_key().is_prefix_of(l) {
            (before.0, Some(config_value(l.skip(8))))
        } else {
            before
        }
    }
}

/// The context a `.atlas/config.yaml` names: both `org:` and `project:`
/// set, neither empty.
pub open spec fn config_context(content: Seq<char>) -> Option<(Seq<char>, Seq<char>)> {
    let found = scan_config(lines_from(content, seq![]));
    match found {
        (Some(o), Some(p)) => if o.len() > 0 && p.len() > 0 {
            Some((o, p))
        } else {
            None
        },
        _ => None,
    }
}

proof fn lemma_trim_char_start_step(s: Seq<char>, c: char, i: int)
    requires
        0 <= i < s.len(),
        s[i] == c,
    ensures
        trim_char_start(s.skip(i), c) == trim_char_start(s.skip(i + 1), c),
{
    assert(s.skip(i).drop_first() =~= s.skip(i + 1));
}

proof fn lemma_trim_char_end_step(s: Seq<char>, c: char, j: int)
    requires
        0 < j <= s.len(),
        s[j - 1] == c,
    ensures
        trim_char_end(s.take(j), c) == trim_char_end(s.take(j - 1), c),
{
    assert(s.take(j).drop_last() =~= s.take(j - 1));
}

/// `v` with every leading and trailing `c` removed.
fn trim_char_chars(v: &Vec<char>, c: char) -> (r: Vec<char>)
    ensures
        r@ == trim_char(v@, c),
{
    let mut a: usize = 0;
    assert(v@.skip(0) =~= v@);
    while a < v.len() && v[a] == c
        invariant
            a <= v.len(),
            trim_char_start(v@, c) == trim_char_start(v@.skip(a as int), c),
        decreases v.len() - a,
    {
        proof {
            lemma_trim_char_start_step(v@, c, a as int);
        }
        a += 1;
    }
    let ghost t = v@.skip(a as int);
    let mut b: usize = v.len();
    assert(t.take(t.len() as int) =~= t);
    while b > a && v[b - 1] == c
        invariant
            a <= b <= v.len(),
            t == v@.skip(a as int),
            trim_char_end(t, c) == trim_char_end(t.take(b - a), c),
        decreases b,
    {
        proof {
            lemma_trim_char_end_step(t, c, (b - a) as int);
        }
        b -= 1;
    }
    assert(t.take(b - a) =~= v@.subrange(a as int, b as int));
    crate::text::slice_chars(v, a, b)
}

fn config_value_chars(v: &Vec<char>) -> (r: Vec<char>)
    ensures
        r@ == config_value(v@),
{
    let (a, b) = trim_bounds(v);
    let t = crate::text::slice_chars(v, a, b);
    let q = trim_char_chars(&t, '"');
    trim_char_chars(&q, '\'')
}

fn has_prefix(v: &Vec<char>, p: &Vec<char>) -> (r: bool)
    ensures
        r == p@.is_prefix_of(v@),
{
    if p.len() > v.len() {
        return false;
    }
    let mut i: usize = 0;
    while i < p.len()
        invariant
            i <= p.len() <= v.len(),
            forall|j: int| 0 <= j < i ==> p@[j] == v@[j],
        decreases p.len() - i,
    {
        if p[i] != v[i] {
            return false;
        }
        i += 1;
    }
    true
}

fn split_lines(v: &Vec<char>) -> (r: Vec<Vec<char>>)
    ensures
        r@.map_values(|l: Vec<char>| l@) == lines_from(v@, seq![]),
{
    let mut out: Vec<Vec<char>> = Vec::new();
    let mut cur: Vec<char> = Vec::new();
    let mut i: usize = 0;
    assert(v@.skip(0) =~= v@);
    while i < v.len()
        invariant
            i <= v.len(),
            out@.map_values(|l: Vec<char>| l@) + lines_from(v@.skip(i as int), cur@) == lines_from(v@, seq![]),
        decreases v.len() - i,
    {
        assert(v@.skip(i as int).drop_first() =~= v@.skip(i + 1));
        if v[i] == '\n' {
            let ghost before = out@.map_values(|l: Vec<char>| l@);
            let done = cur;
            cur = Vec::new();
            out.push(done);
            assert(out@.map_values(|l: Vec<char>| l@) =~= before.push(done@));
            assert(before + (seq![done@] + lines_from(v@.skip(i + 1), seq![])) =~= before.push(done@)
                + lines_from(v@.skip(i + 1), seq![]));
            assert(cur@ =~= Seq::<char>::empty());
        } else {
            cur.push(v[i]);
        }
        i += 1;
    }
    assert(v@.skip(i as int) =~= Seq::<char>::empty());
    let ghost before = out@.map_values(|l: Vec<char>| l@);
    out.push(cur);
    assert(out@.map_values(|l: Vec<char>| l@) =~= before + seq![cur@]);
    out
}

/// The context a `.atlas/config.yaml` names, if it sets both a non-empty
/// `org:` and a non-empty `project:` (simple `key: value` lines; quotes
/// around a value are dropped; the last setting of a key wins).
pub fn parse_local_config(content: &str) -> (r: Option<ProjectContext>)
    ensures
        match config_context(content@) {
            Some(c) => r matches Some(ctx) && ctx@ == c,
            None => r is None,
        },
{
    let v = str_chars(content);
    let lines = split_lines(&v);
    let ghost ls = lines@.map_values(|l: Vec<char>| l@);
    let mut org_key_v: Vec<char> = Vec::new();
    org_key_v.push('o');
    org_key_v.push('r');
    org_key_v.push('g');
    org_key_v.push(':');
    let mut project_key_v: Vec<char> = Vec::new();
    project_key_v.push('p');
    project_key_v.push('r');
    project_key_v.push('o');
    project_key_v.push('j');
    project_key_v.push('e');
    project_key_v.push('c');
    project_key_v.push('t');
    project_key_v.push(':');
    assert(org_key_v@ =~= org_key());
    assert(project_key_v@ =~= project_key());
    let mut org: Option<Vec<char>> = None;
    let mut project: Option<Vec<char>> = None;
    let mut i: usize = 0;
    while i < lines.len()
        invariant
            i <= lines.len(),
            ls == lines@.map_values(|l: Vec<char>| l@),
            org_key_v@ == org_key(),
            project_key_v@ == project_key(),
            scan_config(ls.take(i as int)) == (
                match org {
                    Some(o) => Some(o@),
                    None => None::<Seq<char>>,
                },
                match project {
                    Some(p) => Some(p@),
                    None => None::<Seq<char>>,
                },
            ),
        decreases lines.len() - i,
    {
        assert(ls.take(i + 1).drop_last() =~= ls.take(i as int));
        assert(ls.take(i + 1).last() == lines@[i as int]@);
        let (a, b) = trim_bounds(&lines[i]);
        let line = crate::text::slice_chars(&lines[i], a, b);
        if has_prefix(&line, &org_key_v) {
            let value = crate::text::slice_chars(&line, 4, line.len());
            assert(value@ =~= line@.skip(4));
            org = Some(config_value_chars(&value));
        } else if has_prefix(&line, &project_key_v) {
            let value = crate::text::slice_chars(&line, 8, line.len());
            assert(value@ =~= line@.skip(8));
            project = Some(config_value_chars(&value));
        }
        i += 1;
    }
    assert(ls.take(lines.len() as int) =~= ls);
    match (org, project) {
        (Some(o), Some(p)) => {
            if o.len() > 0 && p.len() > 0 {
                Some(ProjectContext::new(string_from_chars(&o), string_from_chars(&p)))
            } else {
                None
            }
        },
        _ => None,
    }
}

/// The name a context takes from its directory: the directory's name, or
/// `unknown` when it has none.
pub open spec fn fallback_project(dir_name: Option<Seq<char>>) -> Seq<char> {
    match dir_name {
        Some(n) => n,
        None => "unknown"@,
    }
}

/// The context named by a git remote URL, if any.
pub open spec fn url_context(url: Seq<char>) -> Option<(Seq<char>, Seq<char>)> {
    remote_context(regex_captures(SSH_REMOTE_PATTERN@, url), regex_captures(HTTPS_REMOTE_PATTERN@, url))
}

pub open spec fn opt_view(o: Option<String>) -> Option<Seq<char>> {
    match o {
        Some(s) => Some(s@),
        None => None,
    }
}

/// The context of a path: its local configuration, else its git remote,
/// else `global/<directory name>`.
pub open spec fn path_context(
    local: Option<(Seq<char>, Seq<char>)>,
    url: Option<Seq<char>>,
    dir_name: Option<Seq<char>>,
) -> (Seq<char>, Seq<char>) {
    match local {
        Some(c) => c,
        None => match url {
            Some(u) => match url_context(u) {
                Some(c) => c,
                None => ("global"@, fallback_project(dir_name)),
            },
            None => ("global"@, fallback_project(dir_name)),
        },
    }
}

/// Where the context of a path comes from.
pub open spec fn path_source(local: Option<(Seq<char>, Seq<char>)>, url: Option<Seq<char>>) -> ContextSource {
    match local {
        Some(_) => ContextSource::LocalStorage,
        None => match url {
            Some(u) => match url_context(u) {
                Some(_) => ContextSource::GitRemote,
                None => ContextSource::Fallback,
            },
            None => ContextSource::Fallback,
        },
    }
}

pub open spec fn opt_ctx_view(o: Option<ProjectContext>) -> Option<(Seq<char>, Seq<char>)> {
    match o {
        Some(c) => Some(c@),
        None => None,
    }
}

/// Detect project context from what a path offers: its `.atlas/config.yaml`
/// context (`local`), then its git remote URL, then `global/<directory name>`.
pub fn detect_context_from_path(local: Option<ProjectContext>, git_remote_url: Option<String>, dir_name: Option<String>) -> (r: ProjectContext)
    ensures
        r@ == path_context(opt_ctx_view(local), opt_view(git_remote_url), opt_view(dir_name)),
        local is None && (git_remote_url is None || url_context(git_remote_url.unwrap()@) is None)
            && dir_name is Some ==> r@ == ("global"@, dir_name.unwrap()@),
{
    if let Some(ctx) = local {
        return ctx;
    }
    if let Some(url) = git_remote_url {
        if let Some(ctx) = parse_git_url(url.as_str()) {
            return ctx;
        }
    }
    let project = match dir_name {
        Some(n) => n,
        None => String::from_str("unknown"),
    };
    ProjectContext::new(String::from_str("global"), project)
}

/// Full context detection with source tracking, by priority: the
/// `ATLAS_ORG`/`ATLAS_PROJECT` pair (both set), then the working directory's
/// `.atlas/config.yaml`, then its git remote, then `global/<directory name>`.
pub fn detect_context_full(
    env_org: Option<String>,
    env_project: Option<String>,
    local: Option<ProjectContext>,
    git_remote_url: Option<String>,
    dir_name: Option<String>,
) -> (r: DetectedContext)
    ensures
        env_org is Some && env_project is Some ==> r.source == ContextSource::EnvVars && r.context@ == (
            env_org.unwrap()@,
            env_project.unwrap()@,
        ),
        !(env_org is Some && env_project is Some) && local is None && (git_remote_url is None || url_context(
            git_remote_url.unwrap()@,
        ) is None) && dir_name is Some ==> r.source == ContextSource::Fallback && r.context@ == (
            "global"@,
            dir_name.unwrap()@,
        ),
        !(env_org is Some && env_project is Some) ==> r.context@ == path_context(
            opt_ctx_view(local),
            opt_view(git_remote_url),
            opt_view(dir_name),
        ) && r.source == path_source(opt_ctx_view(local), opt_view(git_remote_url)),
{
    if env_org.is_some() && env_project.is_some() {
        let org = env_org.unwrap();
        let project = env_project.unwrap();
        return DetectedContext::new(ProjectContext::new(org, project), ContextSource::EnvVars);
    }
    let source = if local.is_some() {
        ContextSource::LocalStorage
    } else {
        match &git_remote_url {
            Some(url) => match parse_git_url(url.as_str()) {
                Some(_) => ContextSource::GitRemote,
                None => ContextSource::Fallback,
            },
            None => ContextSource::Fallback,
        }
    };
    let context = detect_context_from_path(local, git_remote_url, dir_name);
    DetectedContext::new(context, source)
}

/// Context detection by priority: a local configuration decides alone;
/// without one, a git remote that names a context decides; without either,
/// the context is `global/<directory name>` (`global/unknown` when the
/// directory has no name), and only then is it a fallback.
pub proof fn law_context_priority(
    local: Option<(Seq<char>, Seq<char>)>,
    url: Option<Seq<char>>,
    dir_name: Option<Seq<char>>,
)
    ensures
        local is Some ==> path_context(local, url, dir_name) == local.unwrap() && path_source(local, url)
            == ContextSource::LocalStorage,
        local is None && url is Some && url_context(url.unwrap()) is Some ==> path_context(local, url, dir_name)
            == url_context(url.unwrap()).unwrap() && path_source(local, url) == ContextSource::GitRemote,
        local is None && (url is None || url_context(url.unwrap()) is None) ==> {
            &&& path_source(local, url) == ContextSource::Fallback
            &&& path_context(local, url, dir_name).0 == "global"@
            &&& dir_name is Some ==> path_context(local, url, dir_name).1 == dir_name.unwrap()
            &&& dir_name is None ==> path_context(local, url, dir_name).1 == "unknown"@
        },
{
}

} // verus!
