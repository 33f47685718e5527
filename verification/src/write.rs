//! Creating and updating atoms.
use vstd::prelude::*;

use crate::context::{require_explicit_write_context, ContextSource, DetectedContext, ProjectContext};
use crate::error::AtlasError;
use crate::models::{atom_id_text, clone_strings, has_entry, issued_before, lemma_id_number_of_atom_id, law_ids_from_next_are_new, upserted_entries, Atom, AtomType, Confidence, Index, IndexEntry};
use crate::reference::{format_atom_reference, full_path, parse_atom_reference, parse_ref, AtomRef};
use crate::text::{
    decimal, decimal_chars, push_str, slice_chars, str_chars, str_eq, string_from_chars, trim, trim_bounds,
    views,
};

verus! {

/// Atom write request parameters.
#[derive(Debug, Clone)]
pub struct AtomWriteRequest {
    /// Short descriptive title
    pub title: String,
    /// Type of knowledge.
    pub atom_type: AtomType,
    /// Confidence level.
    pub confidence: Confidence,
    /// Brief explanation
    pub summary: String,
    /// Extended content (optional)
    pub details: Option<String>,
    /// Potential pitfalls (optional)
    pub pitfalls: Option<Vec<String>>,
    /// Keywords for search (optional)
    pub tags: Option<Vec<String>>,
    /// References - simple strings (paths or URLs)
    pub sources: Option<Vec<String>>,
    /// Related atoms - supports bare id, project/id, or org/project/id format
    pub links: Option<Vec<String>>,
}

/// A patch of an atom: fields left `None` (and not cleared) stay as they are.
#[derive(Debug, Clone)]
pub struct AtomUpdateRequest {
    pub title: Option<String>,
    pub atom_type: Option<AtomType>,
    pub confidence: Option<Confidence>,
    pub summary: Option<String>,
    pub details: Option<String>,
    pub clear_details: bool,
    pub pitfalls: Option<Vec<String>>,
    pub clear_pitfalls: bool,
    pub tags: Option<Vec<String>>,
    pub clear_tags: bool,
    pub sources: Option<Vec<String>>,
    pub clear_sources: bool,
}

/// Atom write response.
#[derive(Debug, Clone)]
pub struct AtomWriteResult {
    /// Full atom reference: "org/project/K-000001"
    pub id: String,
    pub created: bool,
    /// Atoms this one references after the write. Reported on update as well as
    /// create, because rewriting what an atom says can outdate why it was linked.
    pub links: Vec<String>,
}


/// What `serde_json::from_str::<Vec<String>>` gives for `text`: the
/// strings of a JSON array of strings, `None` for any other text.
pub uninterp spec fn json_string_array(text: Seq<char>) -> Option<Seq<Seq<char>>>;

/// What `format!("{:?}", items)` gives for a list of strings.
pub uninterp spec fn debug_string_list(items: Seq<Seq<char>>) -> Seq<char>;

/// `serde_json::from_str::<Vec<String>>`, errors mapped to `None`. The JSON
/// grammar is named, not stated.
#[verifier::external_body]
fn parse_json_string_array(text: &str) -> (r: Option<Vec<String>>)
    ensures
        match r {
            Some(v) => json_string_array(text@) == Some(views(v@)),
            None => json_string_array(text@).is_none(),
        },
{
    serde_json::from_str::<Vec<String>>(text).ok()
}

/// `Debug` formatting of a list of strings (`format!("{:?}", ..)`); the
/// escaping rules are named, not stated.
#[verifier::external_body]
fn debug_strings(items: &Vec<String>) -> (r: String)
    ensures
        r@ == debug_string_list(views(items@)),
{
    format!("{:?}", items)
}

/// The strings a value holds when it is a stringified JSON array: trimmed,
/// it starts with `[`, ends with `]` and parses as an array of strings.
pub open spec fn stringified(value: Seq<char>) -> Option<Seq<Seq<char>>> {
    let t = trim(value);
    if t.len() > 0 && t[0] == '[' && t.last() == ']' {
        json_string_array(t)
    } else {
        None
    }
}

/// Check if a string looks like a stringified JSON array and return parsed version if so.
pub fn detect_stringified_array(value: &str) -> (r: Option<Vec<String>>)
    ensures
        match stringified(value@) {
            Some(items) => r matches Some(v) && views(v@) == items,
            None => r is None,
        },
{
    let v = str_chars(value);
    let (a, b) = trim_bounds(&v);
    if a < b && v[a] == '[' && v[b - 1] == ']' {
        let t = slice_chars(&v, a, b);
        let text = string_from_chars(&t);
        parse_json_string_array(text.as_str())
    } else {
        None
    }
}

/// `i` is the first item that is a stringified array.
pub open spec fn is_first_stringified(items: Seq<String>, i: int) -> bool {
    &&& 0 <= i < items.len()
    &&& stringified(items[i]@) is Some
    &&& forall|j: int| 0 <= j < i ==> stringified(#[trigger] items[j]@) is None
}

/// The complaint about field `name`: its first stringified item, what was
/// passed and what was meant.
pub open spec fn field_complaint(name: Seq<char>, items: Seq<String>, i: int) -> Seq<char> {
    name + "["@ + decimal(i as nat) + "] appears to be a stringified array. You passed: "@ + name + ": "@
        + debug_string_list(views(items)) + ". Correct format: "@ + name + ": "@ + debug_string_list(
        stringified(items[i]@).unwrap(),
    )
}

/// The complaint about a field, if one of its items is a stringified array.
pub open spec fn field_error(name: Seq<char>, items: Option<Vec<String>>) -> Option<Seq<char>> {
    match items {
        None => None,
        Some(v) => if exists|i: int| is_first_stringified(v@, i) {
            Some(field_complaint(name, v@, choose|i: int| is_first_stringified(v@, i)))
        } else {
            None
        },
    }
}

proof fn lemma_first_stringified_unique(items: Seq<String>, i: int)
    requires
        is_first_stringified(items, i),
    ensures
        (choose|k: int| is_first_stringified(items, k)) == i,
{
    let k = choose|k: int| is_first_stringified(items, k);
    assert(is_first_stringified(items, k));
    if k < i {
        assert(stringified(items[k]@) is None);
    }
    if i < k {
        assert(stringified(items[i]@) is None);
    }
}

fn check_field(name: &str, items: &Option<Vec<String>>) -> (r: Option<Vec<char>>)
    ensures
        match field_error(name@, *items) {
            Some(m) => r matches Some(v) && v@ == m,
            None => r is None,
        },
{
    match items {
        None => None,
        Some(v) => {
            let mut i: usize = 0;
            while i < v.len()
                invariant
                    i <= v.len(),
                    *items == Some(*v),
                    forall|j: int| 0 <= j < i ==> stringified(#[trigger] v@[j]@) is None,
                decreases v.len() - i,
            {
                match detect_stringified_array(v[i].as_str()) {
                    Some(parsed) => {
                        proof {
                            lemma_first_stringified_unique(v@, i as int);
                        }
                        let mut m: Vec<char> = Vec::new();
                        push_str(&mut m, name);
                        push_str(&mut m, "[");
                        let digits = decimal_chars(i as u64);
                        let ds = string_from_chars(&digits);
                        push_str(&mut m, ds.as_str());
                        push_str(&mut m, "] appears to be a stringified array. You passed: ");
                        push_str(&mut m, name);
                        push_str(&mut m, ": ");
                        let passed = debug_strings(v);
                        push_str(&mut m, passed.as_str());
                        push_str(&mut m, ". Correct format: ");
                        push_str(&mut m, name);
                        push_str(&mut m, ": ");
                        let meant = debug_strings(&parsed);
                        push_str(&mut m, meant.as_str());
                        assert(views(parsed@) == stringified(v@[i as int]@).unwrap());
                        assert(ds@ == decimal(i as nat));
                        assert(m@ =~= field_complaint(name@, v@, i as int));
                        assert(is_first_stringified(v@, i as int));
                        assert(*items == Some(*v));
                        assert(exists|k: int| is_first_stringified(v@, k));
                        assert(field_error(name@, *items) == Some(field_complaint(name@, v@, i as int)));
                        return Some(m);
                    },
                    None => {},
                }
                i += 1;
            }
            assert(!exists|k: int| is_first_stringified(v@, k));
            None
        },
    }
}

/// `acc` with the complaint added, if there is one.
pub open spec fn push_some(acc: Seq<Seq<char>>, e: Option<Seq<char>>) -> Seq<Seq<char>> {
    match e {
        Some(m) => acc.push(m),
        None => acc,
    }
}

/// The complaints about the fields, in the order tags, sources, links, pitfalls.
pub open spec fn complaints(req: AtomWriteRequest) -> Seq<Seq<char>> {
    push_some(
        push_some(
            push_some(push_some(seq![], field_error("tags"@, req.tags)), field_error("sources"@, req.sources)),
            field_error("links"@, req.links),
        ),
        field_error("pitfalls"@, req.pitfalls),
    )
}

/// The lines joined with `\n` between them.
pub open spec fn join_lines(lines: Seq<Seq<char>>) -> Seq<char>
    decreases lines.len(),
{
    if lines.len() == 0 {
        seq![]
    } else if lines.len() == 1 {
        lines[0]
    } else {
        join_lines(lines.drop_last()) + seq!['\n'] + lines.last()
    }
}

pub open spec fn stringified_message(lines: Seq<Seq<char>>) -> Seq<char> {
    "Array fields must be JSON arrays, not stringified arrays:\n"@ + join_lines(lines)
}

fn add_complaint(text: &mut Vec<char>, acc: Ghost<Seq<Seq<char>>>, count: usize, e: &Option<Vec<char>>) -> (n: usize)
    requires
        old(text)@ == join_lines(acc@),
        count == acc@.len(),
        count < 4,
    ensures
        n == push_some(
            acc@,
            match e {
                Some(v) => Some(v@),
                None => None,
            },
        ).len(),
        final(text)@ == join_lines(
            push_some(
                acc@,
                match e {
                    Some(v) => Some(v@),
                    None => None,
                },
            ),
        ),
{
    if let Some(m) = e {
        let ghost before = text@;
        if count > 0 {
            text.push('\n');
        }
        let mut k: usize = 0;
        let ghost base = text@;
        while k < m.len()
            invariant
                k <= m.len(),
                text@ == base + m@.take(k as int),
            decreases m.len() - k,
        {
            text.push(m[k]);
            k += 1;
            assert(text@ =~= base + m@.take(k as int));
        }
        assert(m@.take(m.len() as int) =~= m@);
        proof {
            let n = acc@.push(m@);
            assert(n.drop_last() =~= acc@);
            if acc@.len() == 0 {
                assert(text@ =~= m@);
            } else {
                assert(text@ =~= before + seq!['\n'] + m@);
            }
        }
        count + 1
    } else {
        count
    }
}

/// Validate that array fields don't contain stringified JSON arrays.
/// Returns an error with the correct format if stringified arrays are detected.
pub fn validate_array_fields(req: &AtomWriteRequest) -> (r: Result<(), AtlasError>)
    ensures
        complaints(*req).len() == 0 ==> r is Ok,
        complaints(*req).len() > 0 ==> (r matches Err(e) && e is Validation && e.message() == stringified_message(
            complaints(*req),
        )),
{
    let e0 = check_field("tags", &req.tags);
    let e1 = check_field("sources", &req.sources);
    let e2 = check_field("links", &req.links);
    let e3 = check_field("pitfalls", &req.pitfalls);
    let mut text: Vec<char> = Vec::new();
    let ghost a0: Seq<Seq<char>> = seq![];
    assert(text@ =~= join_lines(a0));
    let n = add_complaint(&mut text, Ghost(a0), 0, &e0);
    let ghost a1 = push_some(a0, field_error("tags"@, req.tags));
    let n = add_complaint(&mut text, Ghost(a1), n, &e1);
    let ghost a2 = push_some(a1, field_error("sources"@, req.sources));
    let n = add_complaint(&mut text, Ghost(a2), n, &e2);
    let ghost a3 = push_some(a2, field_error("links"@, req.links));
    let n = add_complaint(&mut text, Ghost(a3), n, &e3);
    assert(text@ == join_lines(complaints(*req)));
    if n == 0 {
        Ok(())
    } else {
        let mut m: Vec<char> = Vec::new();
        push_str(&mut m, "Array fields must be JSON arrays, not stringified arrays:\n");
        let mut k: usize = 0;
        let ghost base = m@;
        while k < text.len()
            invariant
                k <= text.len(),
                m@ == base + text@.take(k as int),
            decreases text.len() - k,
        {
            m.push(text[k]);
            k += 1;
            assert(m@ =~= base + text@.take(k as int));
        }
        assert(text@.take(text.len() as int) =~= text@);
        Err(AtlasError::Validation(string_from_chars(&m)))
    }
}


/// Where a create may write: the array fields must be real arrays and the
/// context explicit.
pub fn write_context(req: &AtomWriteRequest, detected: DetectedContext) -> (r: Result<ProjectContext, AtlasError>)
    ensures
        complaints(*req).len() > 0 ==> (r matches Err(e) && e is Validation && e.message() == stringified_message(
            complaints(*req),
        )),
        complaints(*req).len() == 0 && detected.source == ContextSource::Fallback ==> (r matches Err(e)
            && e is Context),
        complaints(*req).len() == 0 && detected.source != ContextSource::Fallback ==> r == Ok::<
            ProjectContext,
            AtlasError,
        >(detected.context),
{
    validate_array_fields(req)?;
    require_explicit_write_context(detected)
}

/// What storage says of a link target: whether its project exists, and the
/// error reading the atom gave, if any.
#[derive(Debug)]
pub struct LinkCheck {
    pub project_exists: bool,
    pub read_error: Option<AtlasError>,
}

pub open spec fn cross_org_link_message(link: Seq<char>, org: Seq<char>, target_org: Seq<char>) -> Seq<char> {
    "Cross-org links not allowed: '"@ + link + "' references org '"@ + org + "', expected '"@ + target_org + "'"@
}

pub open spec fn missing_project_message(project: Seq<char>, org: Seq<char>) -> Seq<char> {
    "Link target project '"@ + project + "' does not exist in org '"@ + org + "'"@
}

/// Why resolving links failed.
pub enum LinkFailure {
    /// A validation error with this message.
    Invalid(Seq<char>),
    /// The target at this position could not be read.
    Unreadable(int),
}

/// The links resolved in order, each added once: the first link that names
/// another org, a missing project or an unreadable atom fails the whole.
pub open spec fn resolved_links(
    target_org: Seq<char>,
    links: Seq<Seq<char>>,
    ctx: (Seq<char>, Seq<char>),
    checks: Seq<LinkCheck>,
) -> Result<Seq<(Seq<char>, Seq<char>, Seq<char>)>, LinkFailure>
    decreases links.len(),
{
    if links.len() == 0 {
        Ok(seq![])
    } else {
        let n = links.len() - 1;
        match resolved_links(target_org, links.drop_last(), ctx, checks) {
            Err(f) => Err(f),
            Ok(done) => {
                let r = parse_ref(links[n], ctx);
                if r.0 != target_org {
                    Err(LinkFailure::Invalid(cross_org_link_message(links[n], r.0, target_org)))
                } else if !checks[n].project_exists {
                    Err(LinkFailure::Invalid(missing_project_message(r.1, r.0)))
                } else if checks[n].read_error is Some {
                    Err(LinkFailure::Unreadable(n))
                } else if done.contains(r) {
                    Ok(done)
                } else {
                    Ok(done.push(r))
                }
            },
        }
    }
}

pub open spec fn ref_views(v: Seq<AtomRef>) -> Seq<(Seq<char>, Seq<char>, Seq<char>)> {
    v.map_values(|r: AtomRef| r@)
}

fn contains_ref(v: &Vec<AtomRef>, r: &AtomRef) -> (b: bool)
    ensures
        b == ref_views(v@).contains(r@),
{
    let mut i: usize = 0;
    while i < v.len()
        invariant
            i <= v.len(),
            forall|j: int| 0 <= j < i ==> #[trigger] ref_views(v@)[j] != r@,
        decreases v.len() - i,
    {
        if v[i].same_as(r) {
            assert(ref_views(v@)[i as int] == r@);
            return true;
        }
        i += 1;
    }
    false
}

/// Resolve requested links to atoms that exist in the same org.
///
/// Accepts:
/// - "K-000001" (bare id, same project)
/// - "project/K-000001" (cross-project within same org)
/// - "org/project/K-000001" (full path, org must match target_org)
///
/// `checks[i]` is what storage says of the target of `links[i]`.
pub fn resolve_links(
    target_org: &str,
    links: &Vec<String>,
    ctx: &ProjectContext,
    checks: &Vec<LinkCheck>,
) -> (r: Result<Vec<AtomRef>, AtlasError>)
    requires
        checks@.len() == links@.len(),
    ensures
        match resolved_links(target_org@, views(links@), ctx@, checks@) {
            Ok(refs) => r matches Ok(v) && ref_views(v@) == refs,
            Err(LinkFailure::Invalid(m)) => r matches Err(e) && e is Validation && e.message() == m,
            Err(LinkFailure::Unreadable(i)) => r matches Err(e) && 0 <= i < checks@.len() && checks@[i].read_error
                == Some(e),
        },
        r is Ok ==> forall|i: int|
            0 <= i < checks@.len() ==> #[trigger] checks@[i].read_error is None && checks@[i].project_exists,
        (exists|i: int| 0 <= i < checks@.len() && #[trigger] checks@[i].read_error is Some) ==> r is Err,
{
    proof {
        law_resolved_links_check_every_link(target_org@, views(links@), ctx@, checks@);
        if resolved_links(target_org@, views(links@), ctx@, checks@) is Ok {
            assert forall|i: int| 0 <= i < checks@.len() implies #[trigger] checks@[i].read_error is None
                && checks@[i].project_exists by {
                assert(parse_ref(views(links@)[i], ctx@).0 == target_org@);
            }
        }
    }
    let mut resolved: Vec<AtomRef> = Vec::new();
    let mut i: usize = 0;
    assert(views(links@).take(0) =~= Seq::<Seq<char>>::empty());
    assert(ref_views(resolved@) =~= Seq::<(Seq<char>, Seq<char>, Seq<char>)>::empty());
    while i < links.len()
        invariant
            i <= links.len(),
            checks@.len() == links@.len(),
            resolved_links(target_org@, views(links@).take(i as int), ctx@, checks@) == Ok::<
                Seq<(Seq<char>, Seq<char>, Seq<char>)>,
                LinkFailure,
            >(ref_views(resolved@)),
        decreases links.len() - i,
    {
        assert(views(links@).take(i + 1).drop_last() =~= views(links@).take(i as int));
        assert(views(links@).take(i + 1)[i as int] == links@[i as int]@);
        let atom_ref = parse_atom_reference(links[i].as_str(), ctx);
        if !str_eq(atom_ref.org.as_str(), target_org) {
            let mut m = String::from_str("Cross-org links not allowed: '");
            m.append(links[i].as_str());
            m.append("' references org '");
            m.append(atom_ref.org.as_str());
            m.append("', expected '");
            m.append(target_org);
            m.append("'");
            proof {
                lemma_resolved_prefix_fails(target_org@, views(links@), ctx@, checks@, i + 1);
            }
            return Err(AtlasError::Validation(m));
        }
        if !checks[i].project_exists {
            let mut m = String::from_str("Link target project '");
            m.append(atom_ref.project.as_str());
            m.append("' does not exist in org '");
            m.append(atom_ref.org.as_str());
            m.append("'");
            proof {
                lemma_resolved_prefix_fails(target_org@, views(links@), ctx@, checks@, i + 1);
            }
            return Err(AtlasError::Validation(m));
        }
        if let Some(e) = &checks[i].read_error {
            proof {
                lemma_resolved_prefix_fails(target_org@, views(links@), ctx@, checks@, i + 1);
            }
            return Err(e.duplicate());
        }
        let ghost before = ref_views(resolved@);
        if !contains_ref(&resolved, &atom_ref) {
            resolved.push(atom_ref);
            assert(ref_views(resolved@) =~= before.push(atom_ref@));
        }
        i += 1;
    }
    assert(views(links@).take(links.len() as int) =~= views(links@));
    Ok(resolved)
}

/// Once a prefix of the links fails, the whole fails the same way.
proof fn lemma_resolved_prefix_fails(
    target_org: Seq<char>,
    links: Seq<Seq<char>>,
    ctx: (Seq<char>, Seq<char>),
    checks: Seq<LinkCheck>,
    k: int,
)
    requires
        0 <= k <= links.len(),
        resolved_links(target_org, links.take(k), ctx, checks) is Err,
    ensures
        resolved_links(target_org, links, ctx, checks) == resolved_links(target_org, links.take(k), ctx, checks),
    decreases links.len() - k,
{
    if k < links.len() {
        assert(links.take(k + 1).drop_last() =~= links.take(k));
        lemma_resolved_prefix_fails(target_org, links, ctx, checks, k + 1);
    } else {
        assert(links.take(k) =~= links);
    }
}

/// `Some(v)`'s items, or none.
pub open spec fn items_or_empty(v: Option<Vec<String>>) -> Seq<Seq<char>> {
    match v {
        Some(v) => views(v@),
        None => seq![],
    }
}

fn unwrap_or_empty(v: Option<Vec<String>>) -> (r: Vec<String>)
    ensures
        views(r@) == items_or_empty(v),
{
    match v {
        Some(v) => v,
        None => Vec::new(),
    }
}

/// Create a new atom in a project: the index hands out its id and lists it.
/// Links are added afterwards, through `link`, so that each one lands on
/// both atoms.
fn new_atom(req: AtomWriteRequest, index: &mut Index, today: String) -> (r: Atom)
    requires
        old(index).next_id < u64::MAX,
        old(index).wf(),
    ensures
        r.id@ == atom_id_text(old(index).next_id as nat),
        !has_entry(old(index).entries@, r.id@),
        has_entry(final(index).entries@, r.id@),
        final(index).wf(),
        r.title == req.title,
        r.atom_type == req.atom_type,
        r.confidence == req.confidence,
        r.summary == req.summary,
        r.details == req.details,
        views(r.pitfalls@) == items_or_empty(req.pitfalls),
        views(r.tags@) == items_or_empty(req.tags),
        views(r.sources@) == items_or_empty(req.sources),
        r.links@.len() == 0,
        r.updated_at == today,
        final(index).next_id == old(index).next_id + 1,
        exists|e: IndexEntry|
            e@ == (r.id@, r.title@, r.atom_type, r.confidence, views(r.tags@)) && final(index).entries@
                == upserted_entries(old(index).entries@, e),
{
    proof {
        law_ids_from_next_are_new(*index, index.next_id as nat);
        lemma_id_number_of_atom_id(index.next_id as nat);
    }
    let id = index.generate_id();
    let mut atom = Atom::new(id, req.title, req.atom_type, req.confidence, req.summary);
    atom.details = req.details;
    atom.pitfalls = unwrap_or_empty(req.pitfalls);
    atom.tags = unwrap_or_empty(req.tags);
    atom.sources = unwrap_or_empty(req.sources);
    atom.updated_at = today;
    let entry = IndexEntry::from_atom(&atom);
    let ghost before = index.entries@;
    let ghost e = entry;
    index.insert_or_replace_entry(entry);
    assert(index.entries@ == before.push(e));
    assert(index.entries@[before.len() as int].id@ == atom.id@);
    atom
}

/// The result of a create: the new atom's full reference and the peers it
/// was linked to, in order.
pub fn create_result(org: &str, project: &str, atom_id: &str, peers: &Vec<AtomRef>) -> (r: AtomWriteResult)
    ensures
        r.id@ == full_path(org@, project@, atom_id@),
        r.created,
        views(r.links@) == ref_views(peers@).map_values(
            |p: (Seq<char>, Seq<char>, Seq<char>)| full_path(p.0, p.1, p.2),
        ),
{
    let mut links: Vec<String> = Vec::new();
    let mut i: usize = 0;
    while i < peers.len()
        invariant
            i <= peers.len(),
            links@.len() == i,
            forall|k: int| 0 <= k < i ==> #[trigger] links@[k]@ == full_path(peers@[k].org@, peers@[k].project@, peers@[k].id@),
        decreases peers.len() - i,
    {
        links.push(peers[i].to_full_path());
        i += 1;
    }
    assert(views(links@) =~= ref_views(peers@).map_values(
        |p: (Seq<char>, Seq<char>, Seq<char>)| full_path(p.0, p.1, p.2),
    ));
    AtomWriteResult { id: format_atom_reference(org, project, atom_id), created: true, links }
}

/// A list field after a patch: replaced when a replacement is given, else
/// emptied when cleared, else unchanged.
pub fn apply_vec_update(target: &mut Vec<String>, replacement: Option<Vec<String>>, clear: bool)
    ensures
        replacement is Some ==> *final(target) == replacement.unwrap(),
        replacement is None && clear ==> final(target)@.len() == 0,
        replacement is None && !clear ==> *final(target) == *old(target),
{
    if let Some(replacement) = replacement {
        *target = replacement;
    } else if clear {
        target.clear();
    }
}

/// Apply a patch to an atom: the fields the request sets are replaced,
/// the cleared ones emptied, everything else (links included) kept, and the
/// day of the write recorded.
pub fn update_atom(atom_ref: &AtomRef, atom: &mut Atom, index: &mut Index, req: AtomUpdateRequest, today: String) -> (r: AtomWriteResult)
    ensures
        r.id@ == full_path(atom_ref.org@, atom_ref.project@, old(atom).id@),
        !r.created,
        views(r.links@) == views(old(atom).links@).map_values(
            |l: Seq<char>| {
                let p = parse_ref(l, (atom_ref.org@, atom_ref.project@));
                full_path(p.0, p.1, p.2)
            },
        ),
        final(index).next_id == old(index).next_id,
        exists|e: IndexEntry|
            e@ == (final(atom).id@, final(atom).title@, final(atom).atom_type, final(atom).confidence, views(
                final(atom).tags@,
            )) && final(index).entries@ == upserted_entries(old(index).entries@, e),
        old(index).wf() && issued_before(old(atom).id@, old(index).next_id) ==> final(index).wf(),
        final(atom).id == old(atom).id,
        final(atom).links == old(atom).links,
        final(atom).title == match req.title {
            Some(t) => t,
            None => old(atom).title,
        },
        final(atom).atom_type == match req.atom_type {
            Some(t) => t,
            None => old(atom).atom_type,
        },
        final(atom).confidence == match req.confidence {
            Some(c) => c,
            None => old(atom).confidence,
        },
        final(atom).summary == match req.summary {
            Some(s) => s,
            None => old(atom).summary,
        },
        final(atom).details == match req.details {
            Some(d) => Some(d),
            None => if req.clear_details {
                None
            } else {
                old(atom).details
            },
        },
        req.pitfalls is Some ==> final(atom).pitfalls == req.pitfalls.unwrap(),
        req.pitfalls is None && req.clear_pitfalls ==> final(atom).pitfalls@.len() == 0,
        req.pitfalls is None && !req.clear_pitfalls ==> final(atom).pitfalls == old(atom).pitfalls,
        req.tags is Some ==> final(atom).tags == req.tags.unwrap(),
        req.tags is None && req.clear_tags ==> final(atom).tags@.len() == 0,
        req.tags is None && !req.clear_tags ==> final(atom).tags == old(atom).tags,
        req.sources is Some ==> final(atom).sources == req.sources.unwrap(),
        req.sources is None && req.clear_sources ==> final(atom).sources@.len() == 0,
        req.sources is None && !req.clear_sources ==> final(atom).sources == old(atom).sources,
        final(atom).updated_at == today,
{
    if let Some(title) = req.title {
        atom.title = title;
    }
    if let Some(atom_type) = req.atom_type {
        atom.atom_type = atom_type;
    }
    if let Some(confidence) = req.confidence {
        atom.confidence = confidence;
    }
    if let Some(summary) = req.summary {
        atom.summary = summary;
    }
    if let Some(details) = req.details {
        atom.details = Some(details);
    } else if req.clear_details {
        atom.details = None;
    }
    apply_vec_update(&mut atom.pitfalls, req.pitfalls, req.clear_pitfalls);
    apply_vec_update(&mut atom.tags, req.tags, req.clear_tags);
    apply_vec_update(&mut atom.sources, req.sources, req.clear_sources);
    atom.updated_at = today;
    index.insert_or_replace_entry(IndexEntry::from_atom(atom));
    update_result(atom_ref, atom)
}

/// Edges as unambiguous full references, so a caller reviewing them need not resolve a
/// bare id against the atom's own project.
pub fn edge_references(atom_ref: &AtomRef, links: &Vec<String>) -> (r: Vec<String>)
    ensures
        views(r@) == views(links@).map_values(
            |l: Seq<char>| {
                let p = parse_ref(l, (atom_ref.org@, atom_ref.project@));
                full_path(p.0, p.1, p.2)
            },
        ),
{
    let owner = ProjectContext::new(atom_ref.org.clone(), atom_ref.project.clone());
    let mut out: Vec<String> = Vec::new();
    let mut i: usize = 0;
    while i < links.len()
        invariant
            i <= links.len(),
            owner@ == (atom_ref.org@, atom_ref.project@),
            out@.len() == i,
            forall|k: int| 0 <= k < i ==> #[trigger] out@[k]@ == {
                let p = parse_ref(links@[k]@, (atom_ref.org@, atom_ref.project@));
                full_path(p.0, p.1, p.2)
            },
        decreases links.len() - i,
    {
        let r = parse_atom_reference(links[i].as_str(), &owner);
        out.push(r.to_full_path());
        i += 1;
    }
    assert(views(out@) =~= views(links@).map_values(
        |l: Seq<char>| {
            let p = parse_ref(l, (atom_ref.org@, atom_ref.project@));
            full_path(p.0, p.1, p.2)
        },
    ));
    out
}

/// The result of an update: the atom's full reference and its edges, which
/// rewriting what the atom says may have outdated.
pub fn update_result(atom_ref: &AtomRef, atom: &Atom) -> (r: AtomWriteResult)
    ensures
        r.id@ == full_path(atom_ref.org@, atom_ref.project@, atom.id@),
        !r.created,
        views(r.links@) == views(atom.links@).map_values(
            |l: Seq<char>| {
                let p = parse_ref(l, (atom_ref.org@, atom_ref.project@));
                full_path(p.0, p.1, p.2)
            },
        ),
{
    AtomWriteResult {
        id: format_atom_reference(atom_ref.org.as_str(), atom_ref.project.as_str(), atom.id.as_str()),
        created: false,
        links: edge_references(atom_ref, &atom.links),
    }
}

/// Create a new atom: the array fields must be real arrays, the context
/// explicit, and every requested link must name an existing atom of the
/// same org (`checks[i]` is what storage says of the target of the `i`-th
/// link, read against the detected context). Only then is the next id of
/// `index` (the context project's index) handed out and the atom entered;
/// a refused create leaves the index as it was. The result reports the
/// new atom and the peers it is to be linked to, each once, in order.
pub fn create_atom(
    req: AtomWriteRequest,
    detected: DetectedContext,
    checks: &Vec<LinkCheck>,
    index: &mut Index,
    today: String,
) -> (r: Result<(Atom, AtomWriteResult), AtlasError>)
    requires
        checks@.len() == items_or_empty(req.links).len(),
        old(index).next_id < u64::MAX,
        old(index).wf(),
    ensures
        r is Err ==> *final(index) == *old(index),
        (exists|i: int| 0 <= i < checks@.len() && #[trigger] checks@[i].read_error is Some) ==> r is Err,
        r is Ok ==> forall|i: int|
            0 <= i < checks@.len() ==> #[trigger] checks@[i].read_error is None && checks@[i].project_exists,
        complaints(req).len() > 0 ==> (r matches Err(e) && e is Validation && e.message() == stringified_message(
            complaints(req),
        )),
        complaints(req).len() == 0 && detected.source == ContextSource::Fallback ==> (r matches Err(e)
            && e is Context),
        complaints(req).len() == 0 && detected.source != ContextSource::Fallback ==> {
            let ctx = detected.context@;
            match resolved_links(ctx.0, items_or_empty(req.links), ctx, checks@) {
                Err(LinkFailure::Invalid(m)) => r matches Err(e) && e is Validation && e.message() == m,
                Err(LinkFailure::Unreadable(i)) => r matches Err(e) && 0 <= i < checks@.len()
                    && checks@[i].read_error == Some(e),
                Ok(refs) => r matches Ok((atom, res)) && {
                    &&& atom.id@ == atom_id_text(old(index).next_id as nat)
                    &&& !has_entry(old(index).entries@, atom.id@)
                    &&& atom.title == req.title
                    &&& atom.atom_type == req.atom_type
                    &&& atom.confidence == req.confidence
                    &&& atom.summary == req.summary
                    &&& atom.details == req.details
                    &&& views(atom.pitfalls@) == items_or_empty(req.pitfalls)
                    &&& views(atom.tags@) == items_or_empty(req.tags)
                    &&& views(atom.sources@) == items_or_empty(req.sources)
                    &&& atom.links@.len() == 0
                    &&& atom.updated_at == today
                    &&& final(index).next_id == old(index).next_id + 1
                    &&& exists|e: IndexEntry|
                        e@ == (atom.id@, atom.title@, atom.atom_type, atom.confidence, views(atom.tags@))
                            && final(index).entries@ == upserted_entries(old(index).entries@, e)
                    &&& has_entry(final(index).entries@, atom.id@)
                    &&& final(index).wf()
                    &&& res.id@ == full_path(ctx.0, ctx.1, atom.id@)
                    &&& res.created
                    &&& views(res.links@) == refs.map_values(
                        |p: (Seq<char>, Seq<char>, Seq<char>)| full_path(p.0, p.1, p.2),
                    )
                },
            }
        },
{
    let ghost ls = items_or_empty(req.links);
    let ghost dctx = detected.context@;
    proof {
        law_resolved_links_check_every_link(dctx.0, ls, dctx, checks@);
    }
    let ctx = write_context(&req, detected)?;
    let links: Vec<String> = match &req.links {
        Some(v) => clone_strings(v),
        None => Vec::new(),
    };
    assert(views(links@) == items_or_empty(req.links));
    let peers = resolve_links(ctx.org.as_str(), &links, &ctx, checks)?;
    assert forall|i: int| 0 <= i < checks@.len() implies #[trigger] checks@[i].read_error is None
        && checks@[i].project_exists by {
        assert(parse_ref(ls[i], dctx).0 == dctx.0);
    }
    let atom = new_atom(req, index, today);
    let result = create_result(ctx.org.as_str(), ctx.project.as_str(), atom.id.as_str(), &peers);
    Ok((atom, result))
}

/// Resolving links succeeds only when every link names an atom of the
/// target org in an existing project that could be read: a single link that
/// fails any of these, whichever project it names, fails the whole. What
/// it gives then is every link's atom, each once.
pub proof fn law_resolved_links_check_every_link(
    target_org: Seq<char>,
    links: Seq<Seq<char>>,
    ctx: (Seq<char>, Seq<char>),
    checks: Seq<LinkCheck>,
)
    requires
        checks.len() >= links.len(),
    ensures
        resolved_links(target_org, links, ctx, checks) is Ok ==> forall|i: int|
            0 <= i < links.len() ==> parse_ref(#[trigger] links[i], ctx).0 == target_org && checks[i].project_exists
                && checks[i].read_error is None,
        (exists|i: int| 0 <= i < links.len() && #[trigger] checks[i].read_error is Some) ==> resolved_links(
            target_org,
            links,
            ctx,
            checks,
        ) is Err,
        resolved_links(target_org, links, ctx, checks) matches Ok(refs) ==> {
            &&& forall|i: int| 0 <= i < links.len() ==> refs.contains(parse_ref(#[trigger] links[i], ctx))
            &&& forall|r| #[trigger] refs.contains(r) ==> exists|i: int| 0 <= i < links.len() && parse_ref(links[i], ctx) == r
            &&& refs.no_duplicates()
        },
    decreases links.len(),
{
    if links.len() > 0 {
        let d = links.drop_last();
        let n = links.len() - 1;
        law_resolved_links_check_every_link(target_org, d, ctx, checks);
        assert forall|i: int| 0 <= i < n implies #[trigger] links[i] == d[i] by {}
        if exists|i: int| 0 <= i < links.len() && #[trigger] checks[i].read_error is Some {
            let i = choose|i: int| 0 <= i < links.len() && #[trigger] checks[i].read_error is Some;
            if i < n {
                assert(exists|i: int| 0 <= i < d.len() && #[trigger] checks[i].read_error is Some);
            }
        }
        match resolved_links(target_org, d, ctx, checks) {
            Err(_) => {},
            Ok(done) => {
                let r = parse_ref(links[n], ctx);
                if resolved_links(target_org, links, ctx, checks) is Ok {
                    assert forall|i: int| 0 <= i < links.len() implies parse_ref(#[trigger] links[i], ctx).0 == target_org
                        && checks[i].project_exists && checks[i].read_error is None by {
                        if i < n {
                            assert(links[i] == d[i]);
                        }
                    }
                    let refs = resolved_links(target_org, links, ctx, checks)->Ok_0;
                    assert forall|i: int| 0 <= i < links.len() implies refs.contains(parse_ref(#[trigger] links[i], ctx)) by {
                        if i < n {
                            assert(links[i] == d[i]);
                            assert(done.contains(parse_ref(d[i], ctx)));
                            let w = choose|w: int| 0 <= w < done.len() && done[w] == parse_ref(d[i], ctx);
                            if !done.contains(r) {
                                assert(refs[w] == done[w]);
                            }
                        } else {
                            if !done.contains(r) {
                                assert(refs[done.len() as int] == r);
                            }
                        }
                    }
                    assert forall|x| #[trigger] refs.contains(x) implies exists|i: int|
                        0 <= i < links.len() && parse_ref(links[i], ctx) == x by {
                        let w = choose|w: int| 0 <= w < refs.len() && refs[w] == x;
                        if w < done.len() {
                            assert(done[w] == x);
                            assert(done.contains(x));
                            let i = choose|i: int| 0 <= i < d.len() && parse_ref(d[i], ctx) == x;
                            assert(links[i] == d[i]);
                        } else {
                            assert(parse_ref(links[n], ctx) == x);
                        }
                    }
                    if !done.contains(r) {
                        assert forall|a: int, b: int| 0 <= a < b < refs.len() implies refs[a] != refs[b] by {
                            if b == done.len() {
                                assert(refs[a] == done[a]);
                                if done[a] == r {
                                    assert(done.contains(r));
                                }
                            } else {
                                assert(refs[a] == done[a] && refs[b] == done[b]);
                            }
                        }
                    }
                }
            },
        }
    }
}

} // verus!
