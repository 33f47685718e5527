//! The command surface: the commands, their arguments, and how arguments and
//! piped input become requests.
//!
//! Reading stdin is left to the caller: each function that may consume
//! piped text has a companion that says whether stdin is to be read, and
//! takes what was read as an argument.
use vstd::prelude::*;

use crate::client_context::ClientContext;
use crate::error::AtlasError;
use crate::models::{AtomType, Confidence};
use crate::telemetry::FeedbackVerdict;
use crate::text::{blank, is_blank, is_single_char, split_whitespace, split_ws, views};
use crate::atoms::ListAtomsRequest;
use crate::write::{AtomUpdateRequest, AtomWriteRequest};

verus! {

/// Output format of command results.
#[derive(Debug, Clone, Copy, PartialEq, Eq, Structural)]
pub enum OutputFormat {
    Yaml,
    Json,
}

impl OutputFormat {
    /// The name of the format as the command line spells it.
    pub fn to_string(&self) -> (r: String)
        ensures
            r@ == match self {
                OutputFormat::Yaml => "yaml"@,
                OutputFormat::Json => "json"@,
            },
    {
        match self {
            OutputFormat::Yaml => String::from_str("yaml"),
            OutputFormat::Json => String::from_str("json"),
        }
    }
}

/// The commands of the tool.
#[derive(Debug)]
pub enum Commands {
    /// Search atoms by query
    Search {
        query: Option<String>,
        types: Vec<AtomType>,
        tag: Vec<String>,
        confidence: Option<Confidence>,
        page: usize,
        page_size: usize,
        scope: Option<String>,
        ids: bool,
    },
    /// Get one or more atoms by ID
    Get { ids: Vec<String> },
    /// List atoms with optional filters
    Atoms {
        types: Vec<AtomType>,
        tag: Vec<String>,
        confidence: Option<Confidence>,
        limit: usize,
        scope: Option<String>,
        ids: bool,
    },
    /// Create a new atom
    Create { content: AtomWriteArgs },
    /// Update an existing atom by ID
    Update { id: String, content: AtomUpdateArgs },
    /// Delete an atom
    Delete { id: String, force: bool },
    /// Create a link between atoms
    Link { source: String, target: String },
    /// Remove a link between atoms
    Unlink { source: String, target: String },
    /// List all projects
    Projects,
    /// Show detected project context
    Context,
    /// Print agent instructions for using the Atlas CLI
    Instructions { client: ClientContext },
    /// Enable local storage for a project
    EnableLocal { root: Option<String> },
    /// Manage local telemetry collection
    Telemetry { action: TelemetryAction },
    /// Record caller feedback about a search result
    Feedback {
        search_id: Option<String>,
        result: Option<String>,
        verdict: FeedbackVerdict,
        note: Option<String>,
    },
}

/// What `telemetry` does.
#[derive(Debug, Clone, Copy, PartialEq, Eq, Structural)]
pub enum TelemetryAction {
    /// Show whether telemetry is enabled and where the journal is
    Status,
    /// Turn telemetry on
    Enable,
    /// Turn telemetry off
    Disable,
    /// Remove the journal and the metrics
    Clear,
    /// Show the aggregate counters
    Metrics,
}

/// Arguments of `create`.
#[derive(Debug)]
pub struct AtomWriteArgs {
    pub title: String,
    pub atom_type: AtomType,
    pub confidence: Confidence,
    pub summary: Option<String>,
    pub details: Option<String>,
    pub pitfall: Vec<String>,
    pub tag: Vec<String>,
    pub source: Vec<String>,
    /// Atoms to link the new one to: `id`, `project/id` or `org/project/id`.
    pub link: Vec<String>,
}

/// Arguments of `update`.
#[derive(Debug)]
pub struct AtomUpdateArgs {
    pub title: Option<String>,
    pub atom_type: Option<AtomType>,
    pub confidence: Option<Confidence>,
    pub summary: Option<String>,
    pub details: Option<String>,
    pub pitfall: Vec<String>,
    pub tag: Vec<String>,
    pub source: Vec<String>,
    pub clear: Vec<ClearField>,
}

/// A field that `update --clear` empties.
#[derive(Debug, Clone, Copy, PartialEq, Eq, Structural)]
pub enum ClearField {
    Details,
    Pitfalls,
    Tags,
    Sources,
}

/// The view of an optional string.
pub open spec fn opt_view(o: Option<String>) -> Option<Seq<char>> {
    match o {
        Some(s) => Some(s@),
        None => None,
    }
}

/// `Some("-")`: the argument asks for stdin.
pub open spec fn is_dash(o: Option<Seq<char>>) -> bool {
    o == Some(seq!['-'])
}

fn opt_is_dash(o: &Option<String>) -> (r: bool)
    ensures
        r == is_dash(opt_view(*o)),
{
    match o {
        Some(s) => is_single_char(s, '-'),
        None => false,
    }
}

pub open spec fn summary_required_message() -> Seq<char> {
    "--summary is required unless summary text is piped on stdin"@
}

pub open spec fn stdin_required_message() -> Seq<char> {
    "Expected stdin for '-' but no piped input was available"@
}

pub open spec fn two_stdin_message() -> Seq<char> {
    "Only one of --summary or --details can read from stdin"@
}

/// The error for a missing summary.
pub fn summary_required_error() -> (e: AtlasError)
    ensures
        e is Validation,
        e.message() == summary_required_message(),
{
    AtlasError::Validation(String::from_str("--summary is required unless summary text is piped on stdin"))
}

/// The error for `-` without piped input.
pub fn stdin_required_error() -> (e: AtlasError)
    ensures
        e is Validation,
        e.message() == stdin_required_message(),
{
    AtlasError::Validation(String::from_str("Expected stdin for '-' but no piped input was available"))
}

/// The summary and details of a new atom from the `--summary` and
/// `--details` arguments and the piped text: `-` reads stdin (for one of
/// the two at most), a missing summary is taken from stdin, a blank summary
/// is refused and blank details are dropped. The `Err` side is the message.
pub open spec fn write_text(
    summary: Option<Seq<char>>,
    details: Option<Seq<char>>,
    stdin: Option<Seq<char>>,
) -> Result<(Seq<char>, Option<Seq<char>>), Seq<char>> {
    if is_dash(summary) && is_dash(details) {
        Err(two_stdin_message())
    } else {
        let s: Result<Seq<char>, Seq<char>> = if is_dash(summary) {
            match stdin {
                Some(t) => Ok(t),
                None => Err(stdin_required_message()),
            }
        } else {
            match summary {
                Some(v) => Ok(v),
                None => match stdin {
                    Some(t) => Ok(t),
                    None => Err(summary_required_message()),
                },
            }
        };
        match s {
            Err(m) => Err(m),
            Ok(s) => if is_blank(s) {
                Err(summary_required_message())
            } else {
                let d: Result<Option<Seq<char>>, Seq<char>> = if is_dash(details) {
                    match stdin {
                        Some(t) => Ok(Some(t)),
                        None => Err(stdin_required_message()),
                    }
                } else {
                    Ok(details)
                };
                match d {
                    Err(m) => Err(m),
                    Ok(Some(d)) => Ok((s, if is_blank(d) { None } else { Some(d) })),
                    Ok(None) => Ok((s, None)),
                }
            },
        }
    }
}

/// Whether `create` reads stdin: for `--summary -`, for `--details -`, or
/// when the summary is missing and stdin is piped.
pub fn write_reads_stdin(summary: &Option<String>, details: &Option<String>, stdin_is_terminal: bool) -> (r: bool)
    ensures
        r == (is_dash(opt_view(*summary)) || is_dash(opt_view(*details)) || (summary.is_none()
            && !stdin_is_terminal)),
{
    opt_is_dash(summary) || opt_is_dash(details) || (summary.is_none() && !stdin_is_terminal)
}

/// Resolve the summary and details of a new atom (see [`write_text`]).
pub fn resolve_atom_write_text_from_source(
    summary: Option<String>,
    details: Option<String>,
    stdin: Option<String>,
) -> (r: Result<(String, Option<String>), AtlasError>)
    ensures
        match write_text(opt_view(summary), opt_view(details), opt_view(stdin)) {
            Ok((s, d)) => r matches Ok((rs, rd)) && rs@ == s && opt_view(rd) == d,
            Err(m) => r matches Err(e) && e is Validation && e.message() == m,
        },
{
    let summary_from_stdin = opt_is_dash(&summary);
    let details_from_stdin = opt_is_dash(&details);
    if summary_from_stdin && details_from_stdin {
        return Err(AtlasError::Validation(String::from_str("Only one of --summary or --details can read from stdin")));
    }
    let summary = match summary {
        Some(value) => {
            if summary_from_stdin {
                match stdin {
                    Some(ref t) => t.clone(),
                    None => return Err(stdin_required_error()),
                }
            } else {
                value
            }
        },
        None => match stdin {
            Some(ref t) => t.clone(),
            None => return Err(summary_required_error()),
        },
    };
    if blank(summary.as_str()) {
        return Err(summary_required_error());
    }
    let details = match details {
        Some(value) => {
            if details_from_stdin {
                match stdin {
                    Some(t) => Some(t),
                    None => return Err(stdin_required_error()),
                }
            } else {
                Some(value)
            }
        },
        None => None,
    };
    let details = match details {
        Some(d) => if blank(d.as_str()) {
            None
        } else {
            Some(d)
        },
        None => None,
    };
    Ok((summary, details))
}

/// `Some(v)` unless `v` is empty.
pub open spec fn non_empty<T>(v: Vec<T>) -> Option<Vec<T>> {
    if v@.len() == 0 {
        None
    } else {
        Some(v)
    }
}

fn non_empty_vec<T>(v: Vec<T>) -> (r: Option<Vec<T>>)
    ensures
        r == non_empty(v),
{
    if v.len() == 0 {
        None
    } else {
        Some(v)
    }
}

/// The listing request of `atoms`: an empty filter list filters nothing.
pub fn list_request_from_args(
    types: Vec<AtomType>,
    tag: Vec<String>,
    confidence: Option<Confidence>,
    limit: usize,
    scope: Option<String>,
) -> (r: ListAtomsRequest)
    ensures
        r.types == non_empty(types),
        r.tags == non_empty(tag),
        r.confidence == confidence,
        r.limit == Some(limit),
        r.scope == scope,
{
    ListAtomsRequest { types: non_empty_vec(types), tags: non_empty_vec(tag), confidence, limit: Some(limit), scope }
}

/// Build the create request from the arguments and, when
/// [`write_reads_stdin`] asked for it, the piped text.
pub fn atom_write_request_from_args(args: AtomWriteArgs, stdin: Option<String>) -> (r: Result<AtomWriteRequest, AtlasError>)
    ensures
        match write_text(opt_view(args.summary), opt_view(args.details), opt_view(stdin)) {
            Ok((s, d)) => r matches Ok(req) && req.title == args.title && req.atom_type == args.atom_type
                && req.confidence == args.confidence && req.summary@ == s && opt_view(req.details) == d
                && req.pitfalls == non_empty(args.pitfall) && req.tags == non_empty(args.tag)
                && req.sources == non_empty(args.source) && req.links == non_empty(args.link),
            Err(m) => r matches Err(e) && e is Validation && e.message() == m,
        },
{
    let (summary, details) = resolve_atom_write_text_from_source(args.summary, args.details, stdin)?;
    Ok(AtomWriteRequest {
        title: args.title,
        atom_type: args.atom_type,
        confidence: args.confidence,
        summary,
        details,
        pitfalls: non_empty_vec(args.pitfall),
        tags: non_empty_vec(args.tag),
        sources: non_empty_vec(args.source),
        links: non_empty_vec(args.link),
    })
}

fn clears(clear: &Vec<ClearField>, field: ClearField) -> (r: bool)
    ensures
        r == clear@.contains(field),
{
    let mut i: usize = 0;
    while i < clear.len()
        invariant
            i <= clear.len(),
            forall|j: int| 0 <= j < i ==> clear@[j] != field,
        decreases clear.len() - i,
    {
        if clear[i] == field {
            return true;
        }
        i += 1;
    }
    false
}

/// The first field, in the order details, pitfalls, tags, sources, that an
/// update both sets and clears.
pub open spec fn first_conflict(args: AtomUpdateArgs) -> Option<Seq<char>> {
    if args.clear@.contains(ClearField::Details) && args.details.is_some() {
        Some("details"@)
    } else if args.clear@.contains(ClearField::Pitfalls) && args.pitfall@.len() > 0 {
        Some("pitfalls"@)
    } else if args.clear@.contains(ClearField::Tags) && args.tag@.len() > 0 {
        Some("tags"@)
    } else if args.clear@.contains(ClearField::Sources) && args.source@.len() > 0 {
        Some("sources"@)
    } else {
        None
    }
}

pub open spec fn conflict_message(field: Seq<char>) -> Seq<char> {
    "Cannot set and clear "@ + field + " in one update."@
}

fn conflict_error(field: &str) -> (e: AtlasError)
    ensures
        e is Validation,
        e.message() == conflict_message(field@),
{
    let mut m = String::from_str("Cannot set and clear ");
    m.append(field);
    m.append(" in one update.");
    AtlasError::Validation(m)
}

/// An update may not set and clear the same field.
pub fn validate_update_clear_conflicts(args: &AtomUpdateArgs) -> (r: Result<(), AtlasError>)
    ensures
        match first_conflict(*args) {
            None => r is Ok,
            Some(f) => r matches Err(e) && e is Validation && e.message() == conflict_message(f),
        },
{
    if clears(&args.clear, ClearField::Details) && args.details.is_some() {
        return Err(conflict_error("details"));
    }
    if clears(&args.clear, ClearField::Pitfalls) && args.pitfall.len() > 0 {
        return Err(conflict_error("pitfalls"));
    }
    if clears(&args.clear, ClearField::Tags) && args.tag.len() > 0 {
        return Err(conflict_error("tags"));
    }
    if clears(&args.clear, ClearField::Sources) && args.source.len() > 0 {
        return Err(conflict_error("sources"));
    }
    Ok(())
}

pub open spec fn update_summary_stdin_message() -> Seq<char> {
    "Use --details - for update stdin input; --summary - is not supported for patch updates."@
}

pub open spec fn empty_update_message() -> Seq<char> {
    "Provide at least one field to update or clear."@
}

/// Whether `update` reads stdin: for `--details -` on an update that is not
/// refused before that.
pub fn update_reads_stdin(args: &AtomUpdateArgs) -> (r: bool)
    ensures
        r == (!is_dash(opt_view(args.summary)) && first_conflict(*args).is_none() && is_dash(
            opt_view(args.details),
        )),
{
    if opt_is_dash(&args.summary) {
        return false;
    }
    match validate_update_clear_conflicts(args) {
        Err(_) => false,
        Ok(()) => opt_is_dash(&args.details),
    }
}

/// Nothing to set or clear.
pub open spec fn is_empty_update(req: AtomUpdateRequest) -> bool {
    &&& req.title.is_none()
    &&& req.atom_type.is_none()
    &&& req.confidence.is_none()
    &&& req.summary.is_none()
    &&& req.details.is_none()
    &&& !req.clear_details
    &&& req.pitfalls.is_none()
    &&& !req.clear_pitfalls
    &&& req.tags.is_none()
    &&& !req.clear_tags
    &&& req.sources.is_none()
    &&& !req.clear_sources
}

/// A patch is empty exactly when it names no field: setting any one field
/// (title, type, confidence, summary, details, pitfalls, tags or sources) or
/// clearing any one makes it a patch.
pub proof fn law_named_field_makes_a_patch(req: AtomUpdateRequest)
    ensures
        req.title is Some ==> !is_empty_update(req),
        req.atom_type is Some ==> !is_empty_update(req),
        req.confidence is Some ==> !is_empty_update(req),
        req.summary is Some ==> !is_empty_update(req),
        req.details is Some ==> !is_empty_update(req),
        req.pitfalls is Some ==> !is_empty_update(req),
        req.tags is Some ==> !is_empty_update(req),
        req.sources is Some ==> !is_empty_update(req),
        req.clear_details || req.clear_pitfalls || req.clear_tags || req.clear_sources ==> !is_empty_update(req),
        req.title is None && req.atom_type is None && req.confidence is None && req.summary is None
            && req.details is None && req.pitfalls is None && req.tags is None && req.sources is None
            && !req.clear_details && !req.clear_pitfalls && !req.clear_tags && !req.clear_sources ==> is_empty_update(
            req,
        ),
{
}

/// Build the update request from the arguments and, when
/// [`update_reads_stdin`] asked for it, the piped text. `--summary -` is
/// refused, so are conflicting set-and-clear pairs and empty updates.
pub fn atom_update_request_from_args(args: AtomUpdateArgs, stdin: Option<String>) -> (r: Result<AtomUpdateRequest, AtlasError>)
    ensures
        is_dash(opt_view(args.summary)) ==> (r matches Err(e) && e is Validation && e.message()
            == update_summary_stdin_message()),
        !is_dash(opt_view(args.summary)) && first_conflict(args) is Some ==> (r matches Err(e)
            && e is Validation && e.message() == conflict_message(first_conflict(args).unwrap())),
        !is_dash(opt_view(args.summary)) && first_conflict(args) is None && is_dash(opt_view(args.details))
            && stdin is None ==> (r matches Err(e) && e is Validation && e.message() == stdin_required_message()),
        r matches Ok(req) ==> !is_dash(opt_view(args.summary)) && first_conflict(args) is None && {
            &&& req.title == args.title
            &&& req.atom_type == args.atom_type
            &&& req.confidence == args.confidence
            &&& req.summary == args.summary
            &&& req.details == if is_dash(opt_view(args.details)) {
                stdin
            } else {
                args.details
            }
            &&& req.clear_details == args.clear@.contains(ClearField::Details)
            &&& req.pitfalls == non_empty(args.pitfall)
            &&& req.clear_pitfalls == args.clear@.contains(ClearField::Pitfalls)
            &&& req.tags == non_empty(args.tag)
            &&& req.clear_tags == args.clear@.contains(ClearField::Tags)
            &&& req.sources == non_empty(args.source)
            &&& req.clear_sources == args.clear@.contains(ClearField::Sources)
            &&& !is_empty_update(req)
        },
        !is_dash(opt_view(args.summary)) && first_conflict(args) is None && !(is_dash(opt_view(args.details))
            && stdin is None) ==> (r is Ok <==> !is_empty_update(
            AtomUpdateRequest {
                title: args.title,
                atom_type: args.atom_type,
                confidence: args.confidence,
                summary: args.summary,
                details: if is_dash(opt_view(args.details)) {
                    stdin
                } else {
                    args.details
                },
                clear_details: args.clear@.contains(ClearField::Details),
                pitfalls: non_empty(args.pitfall),
                clear_pitfalls: args.clear@.contains(ClearField::Pitfalls),
                tags: non_empty(args.tag),
                clear_tags: args.clear@.contains(ClearField::Tags),
                sources: non_empty(args.source),
                clear_sources: args.clear@.contains(ClearField::Sources),
            },
        )),
        !is_dash(opt_view(args.summary)) && first_conflict(args) is None && !(is_dash(opt_view(args.details))
            && stdin is None) ==> (r matches Err(e) ==> e is Validation && e.message() == empty_update_message()),
        !is_dash(opt_view(args.summary)) && first_conflict(args) is None && !(is_dash(opt_view(args.details))
            && stdin is None) && (args.title is Some || args.atom_type is Some || args.confidence is Some
            || args.summary is Some || args.details is Some || args.pitfall@.len() > 0 || args.tag@.len() > 0
            || args.source@.len() > 0 || args.clear@.len() > 0) ==> r is Ok,
{
    if opt_is_dash(&args.summary) {
        return Err(AtlasError::Validation(String::from_str(
            "Use --details - for update stdin input; --summary - is not supported for patch updates.",
        )));
    }
    validate_update_clear_conflicts(&args)?;
    let details = if opt_is_dash(&args.details) {
        match stdin {
            Some(t) => Some(t),
            None => return Err(stdin_required_error()),
        }
    } else {
        args.details
    };
    proof {
        if args.clear@.len() > 0 {
            let c = args.clear@[0];
            assert(args.clear@.contains(c));
            match c {
                ClearField::Details => {},
                ClearField::Pitfalls => {},
                ClearField::Tags => {},
                ClearField::Sources => {},
            }
        }
    }
    let clear_details = clears(&args.clear, ClearField::Details);
    let clear_pitfalls = clears(&args.clear, ClearField::Pitfalls);
    let clear_tags = clears(&args.clear, ClearField::Tags);
    let clear_sources = clears(&args.clear, ClearField::Sources);
    let request = AtomUpdateRequest {
        title: args.title,
        atom_type: args.atom_type,
        confidence: args.confidence,
        summary: args.summary,
        details,
        clear_details,
        pitfalls: non_empty_vec(args.pitfall),
        clear_pitfalls,
        tags: non_empty_vec(args.tag),
        clear_tags,
        sources: non_empty_vec(args.source),
        clear_sources,
    };
    if request.title.is_none() && request.atom_type.is_none() && request.confidence.is_none()
        && request.summary.is_none() && request.details.is_none() && !request.clear_details
        && request.pitfalls.is_none() && !request.clear_pitfalls && request.tags.is_none()
        && !request.clear_tags && request.sources.is_none() && !request.clear_sources {
        return Err(AtlasError::Validation(String::from_str("Provide at least one field to update or clear.")));
    }
    Ok(request)
}

pub open spec fn no_ids_message() -> Seq<char> {
    "No atom IDs found in stdin"@
}

/// The atom ids in piped text: its whitespace-separated words, at least one.
pub fn parse_ids(input: &str) -> (r: Result<Vec<String>, AtlasError>)
    ensures
        split_ws(input@).len() > 0 ==> (r matches Ok(ids) && views(ids@) == split_ws(input@)),
        split_ws(input@).len() == 0 ==> (r matches Err(e) && e is Validation && e.message() == no_ids_message()),
{
    let ids = split_whitespace(input);
    if ids.len() == 0 {
        return Err(AtlasError::Validation(String::from_str("No atom IDs found in stdin")));
    }
    Ok(ids)
}

pub open spec fn ids_required_message() -> Seq<char> {
    "At least one atom ID is required. Pass IDs as arguments, use '-', or pipe IDs on stdin."@
}

pub open spec fn lone_dash_message() -> Seq<char> {
    "'-' must be the only get argument when reading IDs from stdin"@
}

/// Some argument is `-`.
pub open spec fn has_dash(args: Seq<String>) -> bool {
    exists|i: int| 0 <= i < args.len() && #[trigger] args[i]@ == seq!['-']
}

fn any_dash(args: &Vec<String>) -> (r: bool)
    ensures
        r == has_dash(args@),
{
    let mut i: usize = 0;
    while i < args.len()
        invariant
            i <= args.len(),
            forall|j: int| 0 <= j < i ==> #[trigger] args@[j]@ != seq!['-'],
        decreases args.len() - i,
    {
        if is_single_char(&args[i], '-') {
            return true;
        }
        i += 1;
    }
    false
}

/// Whether `get` reads its ids from stdin: with no argument and piped
/// stdin, or with the single argument `-`.
pub fn ids_read_stdin(args: &Vec<String>, stdin_is_terminal: bool) -> (r: bool)
    ensures
        r == ((args@.len() == 0 && !stdin_is_terminal) || (args@.len() == 1 && args@[0]@ == seq!['-'])),
{
    if args.len() == 0 {
        return !stdin_is_terminal;
    }
    args.len() == 1 && is_single_char(&args[0], '-')
}

/// The ids `get` works on: the arguments, or the words piped on stdin when
/// [`ids_read_stdin`] asked for them (`stdin` holds what was read).
pub fn resolve_ids(args: Vec<String>, stdin_is_terminal: bool, stdin: Option<String>) -> (r: Result<Vec<String>, AtlasError>)
    ensures
        args@.len() == 0 && stdin_is_terminal ==> (r matches Err(e) && e is Validation && e.message()
            == ids_required_message()),
        args@.len() > 1 && has_dash(args@) ==> (r matches Err(e) && e is Validation && e.message()
            == lone_dash_message()),
        args@.len() > 0 && !has_dash(args@) ==> r == Ok::<Vec<String>, AtlasError>(args),
        ((args@.len() == 0 && !stdin_is_terminal) || (args@.len() == 1 && args@[0]@ == seq!['-'])) ==> match stdin {
            None => r matches Err(e) && e is Validation && e.message() == stdin_required_message(),
            Some(t) => if split_ws(t@).len() > 0 {
                r matches Ok(ids) && views(ids@) == split_ws(t@)
            } else {
                r matches Err(e) && e is Validation && e.message() == no_ids_message()
            },
        },
{
    if args.len() == 0 {
        if !stdin_is_terminal {
            return match stdin {
                Some(t) => parse_ids(t.as_str()),
                None => Err(stdin_required_error()),
            };
        }
        return Err(AtlasError::Validation(String::from_str(
            "At least one atom ID is required. Pass IDs as arguments, use '-', or pipe IDs on stdin.",
        )));
    }
    if any_dash(&args) {
        if args.len() != 1 {
            return Err(AtlasError::Validation(String::from_str(
                "'-' must be the only get argument when reading IDs from stdin",
            )));
        }
        return match stdin {
            Some(t) => parse_ids(t.as_str()),
            None => Err(stdin_required_error()),
        };
    }
    Ok(args)
}

/// Whether a free-text argument is read from stdin: for `-`, or when it is
/// missing and stdin is piped.
pub fn input_reads_stdin(arg: &Option<String>, stdin_is_terminal: bool) -> (r: bool)
    ensures
        r == (is_dash(opt_view(*arg)) || (arg.is_none() && !stdin_is_terminal)),
{
    opt_is_dash(arg) || (arg.is_none() && !stdin_is_terminal)
}

/// The free-text argument: the piped text when [`input_reads_stdin`] asked
/// for it, the argument itself otherwise, empty when there is neither.
pub fn resolve_input(arg: Option<String>, stdin: Option<String>) -> (r: Result<String, AtlasError>)
    ensures
        is_dash(opt_view(arg)) ==> match stdin {
            Some(t) => r matches Ok(s) && s@ == t@,
            None => r matches Err(e) && e is Validation && e.message() == stdin_required_message(),
        },
        !is_dash(opt_view(arg)) && arg is Some ==> (r matches Ok(s) && s == arg.unwrap()),
        arg is None ==> (r matches Ok(s) && s@ == match stdin {
            Some(t) => t@,
            None => Seq::<char>::empty(),
        }),
{
    match arg {
        Some(s) => {
            if is_single_char(&s, '-') {
                match stdin {
                    Some(t) => Ok(t),
                    None => Err(stdin_required_error()),
                }
            } else {
                Ok(s)
            }
        },
        None => match stdin {
            Some(t) => Ok(t),
            None => Ok(String::new()),
        },
    }
}

} // verus!
