//! Reading, listing and deleting atoms, and the project bookkeeping around them.
use vstd::prelude::*;

use crate::context::{name_check, reports_name_error, require_explicit_write_context, validate_name, ContextSource, DetectedContext, ProjectContext};
use crate::error::AtlasError;
use crate::link::{law_removed_reference_gone, refers_to, remove_reference, same_but_links, without_reference};
use crate::models::{clone_strings, entry_views, issued_before, has_entry, is_first_entry, AtomType, Atom, Confidence, EntryView, Index, IndexEntry};
use crate::reference::{format_atom_reference, full_path, parse_atom_reference, parse_ref, parse_scope, scope_of, AtomRef};
use crate::text::{lemma_seq_le_total, lemma_seq_le_trans, seq_le, sort_strings, sorted_views, str_eq, str_le, string_eq, to_lowercase, unicode_lowercase, views};

verus! {

// ============================================================================
// Context Hint Support
// ============================================================================

/// Hint about context detection for the user.
#[derive(Debug, Clone)]
pub struct ContextHint {
    pub message: String,
    pub source: String,
}

pub open spec fn fallback_hint_message() -> Seq<char> {
    "Context detected via fallback. Use --org and --project to set explicit context."@
}

/// Create a context hint if the source is fallback.
pub fn make_context_hint(source: &ContextSource) -> (r: Option<ContextHint>)
    ensures
        *source == ContextSource::Fallback ==> (r matches Some(h) && h.message@ == fallback_hint_message()
            && h.source@ == "fallback"@),
        *source != ContextSource::Fallback ==> r is None,
{
    match source {
        ContextSource::Fallback => Some(
            ContextHint {
                message: String::from_str(
                    "Context detected via fallback. Use --org and --project to set explicit context.",
                ),
                source: String::from_str("fallback"),
            },
        ),
        _ => None,
    }
}

// ============================================================================
// get_atom
// ============================================================================

#[derive(Debug, Clone)]
pub struct GetAtomRequest {
    /// Atom ID: "org/project/K-000001", "project/K-000001", or "K-000001"
    pub id: String,
}

/// The atom a get request names, read against the detected context.
pub fn get_atom(req: &GetAtomRequest, detected: &DetectedContext) -> (r: AtomRef)
    ensures
        r@ == parse_ref(req.id@, detected.context@),
{
    parse_atom_reference(req.id.as_str(), &detected.context)
}

// ============================================================================
// list_atoms
// ============================================================================

#[derive(Debug, Clone)]
pub struct ListAtomsRequest {
    /// Filter by atom types
    pub types: Option<Vec<AtomType>>,
    /// Filter by tags (matches any)
    pub tags: Option<Vec<String>>,
    /// Filter by confidence level
    pub confidence: Option<Confidence>,
    /// Maximum number of results (default: 50)
    pub limit: Option<usize>,
    /// Scope filter: org name or org/project path. Examples: "acme", "acme/backend"
    pub scope: Option<String>,
}

/// List atom result.
#[derive(Debug, Clone)]
pub struct ListAtomResult {
    /// Full atom reference: "org/project/K-000001"
    pub id: String,
    pub title: String,
    pub atom_type: AtomType,
    pub confidence: Confidence,
    pub tags: Vec<String>,
}

impl View for ListAtomResult {
    type V = (Seq<char>, Seq<char>, AtomType, Confidence, Seq<Seq<char>>);

    open spec fn view(&self) -> (Seq<char>, Seq<char>, AtomType, Confidence, Seq<Seq<char>>) {
        (self.id@, self.title@, self.atom_type, self.confidence, views(self.tags@))
    }
}

/// The listing of an index entry of `org/project`.
pub open spec fn entry_result(org: Seq<char>, project: Seq<char>, e: IndexEntry) -> (
    Seq<char>,
    Seq<char>,
    AtomType,
    Confidence,
    Seq<Seq<char>>,
) {
    (full_path(org, project, e.id@), e.title@, e.atom_type, e.confidence, views(e.tags@))
}

impl ListAtomResult {
    pub fn from_entry(entry: &IndexEntry, org: &str, project: &str) -> (r: Self)
        ensures
            r@ == entry_result(org@, project@, *entry),
    {
        ListAtomResult {
            id: format_atom_reference(org, project, entry.id.as_str()),
            title: entry.title.clone(),
            atom_type: entry.atom_type,
            confidence: entry.confidence,
            tags: clone_strings(&entry.tags),
        }
    }
}

/// Some filter tag equals some tag of the entry, ignoring letter case.
pub open spec fn tags_overlap(filter: Seq<String>, tags: Seq<String>) -> bool {
    exists|i: int, j: int|
        0 <= i < filter.len() && 0 <= j < tags.len() && unicode_lowercase(#[trigger] filter[i]@)
            == unicode_lowercase(#[trigger] tags[j]@)
}

/// The entry passes the request's type, confidence and tag filters.
pub open spec fn entry_matches(req: ListAtomsRequest, e: IndexEntry) -> bool {
    &&& match req.types {
        Some(ts) => ts@.contains(e.atom_type),
        None => true,
    }
    &&& match req.confidence {
        Some(c) => e.confidence == c,
        None => true,
    }
    &&& match req.tags {
        Some(ft) => tags_overlap(ft@, e.tags@),
        None => true,
    }
}

/// The listings of the matching entries, in index order.
pub open spec fn matching_results(
    req: ListAtomsRequest,
    org: Seq<char>,
    project: Seq<char>,
    entries: Seq<IndexEntry>,
) -> Seq<(Seq<char>, Seq<char>, AtomType, Confidence, Seq<Seq<char>>)>
    decreases entries.len(),
{
    if entries.len() == 0 {
        seq![]
    } else {
        let prev = matching_results(req, org, project, entries.drop_last());
        if entry_matches(req, entries.last()) {
            prev.push(entry_result(org, project, entries.last()))
        } else {
            prev
        }
    }
}

/// A project to list and its index; `None` when the index could not be
/// loaded, in which case the project is skipped.
#[derive(Debug, Clone)]
pub struct ProjectIndex {
    pub project: String,
    pub index: Option<Index>,
}

/// The listings of the matching entries of the projects, project by project.
pub open spec fn listing(req: ListAtomsRequest, org: Seq<char>, ps: Seq<ProjectIndex>) -> Seq<
    (Seq<char>, Seq<char>, AtomType, Confidence, Seq<Seq<char>>),
>
    decreases ps.len(),
{
    if ps.len() == 0 {
        seq![]
    } else {
        listing(req, org, ps.drop_last()) + match ps.last().index {
            Some(ix) => matching_results(req, org, ps.last().project@, ix.entries@),
            None => seq![],
        }
    }
}

/// The first `n` elements of `s` (all of them when there are fewer).
pub open spec fn first_n<A>(s: Seq<A>, n: nat) -> Seq<A> {
    if s.len() <= n {
        s
    } else {
        s.take(n as int)
    }
}

/// How many atoms a listing returns: the request's limit, 50 by default.
pub open spec fn list_limit(req: ListAtomsRequest) -> nat {
    match req.limit {
        Some(l) => l as nat,
        None => 50,
    }
}

fn type_in(types: &Vec<AtomType>, t: AtomType) -> (r: bool)
    ensures
        r == types@.contains(t),
{
    let mut i: usize = 0;
    while i < types.len()
        invariant
            i <= types.len(),
            forall|j: int| 0 <= j < i ==> types@[j] != t,
        decreases types.len() - i,
    {
        if types[i] == t {
            return true;
        }
        i += 1;
    }
    false
}

fn overlaps(filter: &Vec<String>, tags: &Vec<String>) -> (r: bool)
    ensures
        r == tags_overlap(filter@, tags@),
{
    let mut i: usize = 0;
    while i < filter.len()
        invariant
            i <= filter.len(),
            forall|a: int, b: int|
                0 <= a < i && 0 <= b < tags@.len() ==> unicode_lowercase(#[trigger] filter@[a]@)
                    != unicode_lowercase(#[trigger] tags@[b]@),
        decreases filter.len() - i,
    {
        let f = to_lowercase(filter[i].as_str());
        let mut j: usize = 0;
        while j < tags.len()
            invariant
                i < filter.len(),
                j <= tags.len(),
                f@ == unicode_lowercase(filter@[i as int]@),
                forall|a: int, b: int|
                    0 <= a < i && 0 <= b < tags@.len() ==> unicode_lowercase(#[trigger] filter@[a]@)
                        != unicode_lowercase(#[trigger] tags@[b]@),
                forall|b: int| 0 <= b < j ==> unicode_lowercase(filter@[i as int]@) != unicode_lowercase(
                    #[trigger] tags@[b]@,
                ),
            decreases tags.len() - j,
        {
            let t = to_lowercase(tags[j].as_str());
            if string_eq(&f, &t) {
                return true;
            }
            j += 1;
        }
        i += 1;
    }
    false
}

/// Whether an entry passes the request's filters.
pub fn matches_filters(req: &ListAtomsRequest, entry: &IndexEntry) -> (r: bool)
    ensures
        r == entry_matches(*req, *entry),
{
    if let Some(types) = &req.types {
        if !type_in(types, entry.atom_type) {
            return false;
        }
    }
    if let Some(c) = req.confidence {
        if entry.confidence != c {
            return false;
        }
    }
    if let Some(tags) = &req.tags {
        if !overlaps(tags, &entry.tags) {
            return false;
        }
    }
    true
}

/// Which org, and which project of it, a listing covers: no scope means the
/// current project; a scope naming a project means that project; a scope
/// naming an org means all its projects (`None`), listed in name order.
pub fn list_scope(req: &ListAtomsRequest, ctx: &ProjectContext) -> (r: Result<(String, Option<String>), AtlasError>)
    ensures
        match scope_of(
            match req.scope {
                Some(s) => Some(s@),
                None => None,
            },
            ctx@,
        ) {
            Some((org, project)) => r matches Ok((o, p)) && o@ == org && match req.scope {
                None => p matches Some(p) && p@ == ctx@.1,
                Some(_) => match project {
                    Some(q) => p matches Some(p) && p@ == q,
                    None => p is None,
                },
            },
            None => r matches Err(e) && e is Validation,
        },
{
    let scope: Option<&str> = match &req.scope {
        Some(s) => Some(s.as_str()),
        None => None,
    };
    let (org, project) = parse_scope(scope, ctx)?;
    match &req.scope {
        None => Ok((org, Some(ctx.project.clone()))),
        Some(_) => Ok((org, project)),
    }
}

/// The org a listing covers and the projects it reads, in order: the
/// current project when no scope is given, the named project for an
/// `org/project` scope, and for an org scope every project of that org
/// (`org_projects`, as storage lists them) sorted by name. `org_projects`
/// is read only for an org scope.
pub fn listing_projects(req: &ListAtomsRequest, ctx: &ProjectContext, org_projects: Vec<String>) -> (r: Result<(String, Vec<String>), AtlasError>)
    ensures
        match scope_of(
            match req.scope {
                Some(s) => Some(s@),
                None => None,
            },
            ctx@,
        ) {
            Some((org, project)) => r matches Ok((o, ps)) && o@ == org && match req.scope {
                None => views(ps@) == seq![ctx@.1],
                Some(_) => match project {
                    Some(q) => views(ps@) == seq![q],
                    None => sorted_views(views(ps@)) && views(ps@).to_multiset() == views(org_projects@).to_multiset(),
                },
            },
            None => r matches Err(e) && e is Validation,
        },
{
    let (org, project) = list_scope(req, ctx)?;
    match project {
        Some(p) => {
            let ps = vec![p];
            assert(views(ps@) =~= seq![ps@[0]@]);
            Ok((org, ps))
        },
        None => Ok((org, sort_strings(org_projects))),
    }
}

/// List the atoms of the given projects of `org` that pass the request's
/// filters, project by project and in index order, at most the request's
/// limit of them.
pub fn list_project_atoms(req: &ListAtomsRequest, org: &str, projects: &Vec<ProjectIndex>) -> (r: Vec<ListAtomResult>)
    ensures
        r@.map_values(|x: ListAtomResult| x@) == first_n(listing(*req, org@, projects@), list_limit(*req)),
{
    let limit: usize = match req.limit {
        Some(l) => l,
        None => 50,
    };
    let mut results: Vec<ListAtomResult> = Vec::new();
    let mut i: usize = 0;
    while i < projects.len()
        invariant
            i <= projects.len(),
            limit == list_limit(*req),
            results@.map_values(|x: ListAtomResult| x@) == first_n(listing(*req, org@, projects@.take(i as int)), limit as nat),
        decreases projects.len() - i,
    {
        assert(projects@.take(i + 1).drop_last() =~= projects@.take(i as int));
        assert(projects@.take(i + 1).last() == projects@[i as int]);
        let ghost done = listing(*req, org@, projects@.take(i as int));
        match &projects[i].index {
            None => {
                assert(listing(*req, org@, projects@.take(i + 1)) =~= done);
            },
            Some(index) => {
                let project = projects[i].project.as_str();
                let mut j: usize = 0;
                while j < index.entries.len()
                    invariant
                        j <= index.entries.len(),
                        limit == list_limit(*req),
                        results@.map_values(|x: ListAtomResult| x@) == first_n(
                            done + matching_results(*req, org@, project@, index.entries@.take(j as int)),
                            limit as nat,
                        ),
                    decreases index.entries.len() - j,
                {
                    let ghost s = done + matching_results(*req, org@, project@, index.entries@.take(j as int));
                    assert(index.entries@.take(j + 1).drop_last() =~= index.entries@.take(j as int));
                    assert(index.entries@.take(j + 1).last() == index.entries@[j as int]);
                    let entry = &index.entries[j];
                    if matches_filters(req, entry) {
                        let ghost x = entry_result(org@, project@, *entry);
                        assert(done + matching_results(*req, org@, project@, index.entries@.take(j + 1)) =~= s.push(x));
                        if results.len() < limit {
                            let item = ListAtomResult::from_entry(entry, org, project);
                            let ghost before = results@.map_values(|y: ListAtomResult| y@);
                            results.push(item);
                            assert(results@.map_values(|y: ListAtomResult| y@) =~= before.push(x));
                        } else {
                            assert(s.push(x).take(limit as int) =~= s.take(limit as int));
                        }
                    } else {
                        assert(done + matching_results(*req, org@, project@, index.entries@.take(j + 1)) =~= s);
                    }
                    j += 1;
                }
                assert(index.entries@.take(index.entries.len() as int) =~= index.entries@);
            },
        }
        i += 1;
    }
    assert(projects@.take(projects.len() as int) =~= projects@);
    results
}

/// The projects of `ps` are in increasing order of name.
pub open spec fn sorted_by_project(ps: Seq<ProjectIndex>) -> bool {
    forall|a: int, b: int| 0 <= a < b < ps.len() ==> seq_le(#[trigger] ps[a].project@, #[trigger] ps[b].project@)
}

/// The projects of `ps` named `name`, in order.
pub open spec fn named(ps: Seq<ProjectIndex>, name: Seq<char>) -> Seq<ProjectIndex> {
    ps.filter(|p: ProjectIndex| p.project@ == name)
}

fn keep_named(available: Vec<ProjectIndex>, name: &String) -> (r: Vec<ProjectIndex>)
    ensures
        r@ == named(available@, name@),
{
    let ghost orig = available@;
    let ghost pred = |p: ProjectIndex| p.project@ == name@;
    let mut rest = available;
    let total: usize = rest.len();
    let mut out: Vec<ProjectIndex> = Vec::new();
    let mut k: usize = 0;
    while rest.len() > 0
        invariant
            k + rest@.len() == orig.len(),
            orig.len() == total,
            rest@ == orig.skip(k as int),
            pred == (|p: ProjectIndex| p.project@ == name@),
            out@ == orig.take(k as int).filter(pred),
        decreases rest@.len(),
    {
        proof {
            reveal(Seq::filter);
            assert(orig.take(k + 1).drop_last() =~= orig.take(k as int));
            assert(orig.take(k + 1).last() == orig[k as int]);
        }
        let p = rest.remove(0);
        assert(p == orig[k as int]);
        if string_eq(&p.project, name) {
            out.push(p);
        }
        k += 1;
        assert(rest@ =~= orig.skip(k as int));
    }
    assert(orig.take(k as int) =~= orig);
    out
}

fn sort_by_project(available: Vec<ProjectIndex>) -> (r: Vec<ProjectIndex>)
    ensures
        sorted_by_project(r@),
        r@.to_multiset() == available@.to_multiset(),
{
    let ghost orig = available@;
    let mut rest = available;
    let total: usize = rest.len();
    let mut out: Vec<ProjectIndex> = Vec::new();
    let mut k: usize = 0;
    assert(orig.take(0) =~= Seq::<ProjectIndex>::empty());
    while rest.len() > 0
        invariant
            k + rest@.len() == orig.len(),
            orig.len() == total,
            rest@ == orig.skip(k as int),
            sorted_by_project(out@),
            out@.to_multiset() == orig.take(k as int).to_multiset(),
        decreases rest@.len(),
    {
        let x = rest.remove(0);
        assert(x == orig[k as int]);
        let mut p: usize = 0;
        while p < out.len() && !str_le(x.project.as_str(), out[p].project.as_str())
            invariant
                p <= out.len(),
                forall|j: int| 0 <= j < p ==> seq_le(#[trigger] out@[j].project@, x.project@),
            decreases out.len() - p,
        {
            proof {
                lemma_seq_le_total(x.project@, out@[p as int].project@);
            }
            p += 1;
        }
        let ghost before = out@;
        out.insert(p, x);
        proof {
            assert(out@ =~= before.insert(p as int, x));
            assert(orig.take(k + 1) =~= orig.take(k as int).push(x));
            vstd::seq_lib::to_multiset_insert(before, p as int, x);
            vstd::seq_lib::to_multiset_build(orig.take(k as int), x);
            let w = out@;
            assert forall|a: int, b: int| 0 <= a < b < w.len() implies seq_le(#[trigger] w[a].project@, #[trigger] w[b].project@) by {
                if b < p {
                    assert(w[a] == before[a] && w[b] == before[b]);
                } else if b == p {
                    assert(w[a] == before[a]);
                } else if a < p {
                    assert(w[a] == before[a] && w[b] == before[b - 1]);
                    assert(seq_le(before[a].project@, x.project@));
                    assert(seq_le(x.project@, before[p as int].project@));
                    if b - 1 > p {
                        lemma_seq_le_trans(x.project@, before[p as int].project@, before[b - 1].project@);
                    }
                    lemma_seq_le_trans(before[a].project@, x.project@, before[b - 1].project@);
                } else if a == p {
                    assert(w[b] == before[b - 1]);
                    assert(seq_le(x.project@, before[p as int].project@));
                    if b - 1 > p {
                        lemma_seq_le_trans(x.project@, before[p as int].project@, before[b - 1].project@);
                    }
                } else {
                    assert(w[a] == before[a - 1] && w[b] == before[b - 1]);
                }
            }
        }
        k += 1;
        assert(rest@ =~= orig.skip(k as int));
    }
    assert(orig.take(k as int) =~= orig);
    out
}

/// The projects a listing reads, in order, out of `available`: those named
/// `name` when the listing covers one project, all of them sorted by name
/// when it covers an org.
pub open spec fn listing_selection(available: Seq<ProjectIndex>, name: Option<Seq<char>>, ps: Seq<ProjectIndex>) -> bool {
    match name {
        Some(n) => ps == named(available, n),
        None => sorted_by_project(ps) && ps.to_multiset() == available.to_multiset(),
    }
}

/// `v` is what a listing of `org` gives when it reads the projects of
/// `available` that `sel` selects (see [`listing_selection`]).
pub open spec fn listed_from(
    req: ListAtomsRequest,
    org: Seq<char>,
    available: Seq<ProjectIndex>,
    sel: Option<Seq<char>>,
    v: Seq<(Seq<char>, Seq<char>, AtomType, Confidence, Seq<Seq<char>>)>,
) -> bool {
    exists|ps: Seq<ProjectIndex>| #[trigger] listing_selection(available, sel, ps) && v == first_n(listing(req, org, ps), list_limit(req))
}

/// List atoms with optional filtering. `available` holds the projects of
/// the listed org as storage has them, each with its index (`None` when the
/// index could not be loaded, so the project is skipped). With no scope the
/// listing covers the current project; a scope naming a project covers that
/// project; a scope naming an org covers all its projects in name order.
/// The matching entries are listed project by project, in index order, at
/// most the request's limit of them (50 by default).
pub fn list_atoms(req: &ListAtomsRequest, ctx: &ProjectContext, available: Vec<ProjectIndex>) -> (r: Result<Vec<ListAtomResult>, AtlasError>)
    ensures
        match scope_of(
            match req.scope {
                Some(s) => Some(s@),
                None => None,
            },
            ctx@,
        ) {
            Some((org, project)) => r matches Ok(v) && listed_from(
                *req,
                org,
                available@,
                match req.scope {
                    None => Some(ctx@.1),
                    Some(_) => project,
                },
                v@.map_values(|x: ListAtomResult| x@),
            ),
            None => r matches Err(e) && e is Validation,
        },
{
    let ghost avail = available@;
    let ghost sc = scope_of(crate::cli::opt_view(req.scope), ctx@);
    let (org, project) = list_scope(req, ctx)?;
    let ghost sel: Option<Seq<char>> = match req.scope {
        None => Some(ctx@.1),
        Some(_) => sc.unwrap().1,
    };
    let ps = match project {
        Some(name) => {
            assert(sel == Some(name@));
            keep_named(available, &name)
        },
        None => {
            assert(sel is None);
            sort_by_project(available)
        },
    };
    assert(listing_selection(avail, sel, ps@));
    let v = list_project_atoms(req, org.as_str(), &ps);
    assert(v@.map_values(|x: ListAtomResult| x@) == first_n(listing(*req, org@, ps@), list_limit(*req)));
    assert(sc matches Some((o, _)) && o == org@);
    assert(listed_from(*req, org@, avail, sel, v@.map_values(|x: ListAtomResult| x@)));
    Ok(v)
}

// ============================================================================
// delete_atom
// ============================================================================

#[derive(Debug, Clone)]
pub struct DeleteAtomRequest {
    /// Atom ID: "org/project/K-000001", "project/K-000001", or "K-000001"
    pub id: String,
}

/// Delete result.
#[derive(Debug, Clone)]
pub struct DeleteResult {
    pub deleted: bool,
    /// Atoms that referenced this one and were unlinked from it
    pub detached: Vec<String>,
}

/// The atom a delete request names; deleting needs an explicit context.
pub fn delete_target(req: &DeleteAtomRequest, detected: DetectedContext) -> (r: Result<AtomRef, AtlasError>)
    ensures
        detected.source == ContextSource::Fallback ==> (r matches Err(e) && e is Context),
        detected.source != ContextSource::Fallback ==> (r matches Ok(t) && t@ == parse_ref(
            req.id@,
            detected.context@,
        )),
{
    let ctx = require_explicit_write_context(detected)?;
    Ok(parse_atom_reference(req.id.as_str(), &ctx))
}

/// The atoms of one project of the target's org.
#[derive(Debug, Clone)]
pub struct ProjectAtoms {
    pub project: String,
    pub atoms: Vec<Atom>,
}

/// The full references of the atoms of project `project` of `org` whose
/// links resolve to `target`, in order.
pub open spec fn inbound_in(
    org: Seq<char>,
    project: Seq<char>,
    atoms: Seq<Atom>,
    target: (Seq<char>, Seq<char>, Seq<char>),
) -> Seq<Seq<char>>
    decreases atoms.len(),
{
    if atoms.len() == 0 {
        seq![]
    } else {
        let prev = inbound_in(org, project, atoms.drop_last(), target);
        if refers_to(views(atoms.last().links@), (org, project), target) {
            prev.push(full_path(org, project, atoms.last().id@))
        } else {
            prev
        }
    }
}

/// The inbound references over all the given projects of `org`.
pub open spec fn inbound(org: Seq<char>, ps: Seq<ProjectAtoms>, target: (Seq<char>, Seq<char>, Seq<char>)) -> Seq<Seq<char>>
    decreases ps.len(),
{
    if ps.len() == 0 {
        seq![]
    } else {
        inbound(org, ps.drop_last(), target) + inbound_in(org, ps.last().project@, ps.last().atoms@, target)
    }
}

fn holds_reference(atom: &Atom, owner: &ProjectContext, target: &AtomRef) -> (r: bool)
    ensures
        r == refers_to(views(atom.links@), owner@, target@),
{
    crate::link::references(atom, owner, target)
}

/// Every atom of the org that links to `target`, as a full reference,
/// sorted (projects arrive in directory order, which is not stable across
/// machines).
pub fn find_inbound_links(target: &AtomRef, projects: &Vec<ProjectAtoms>) -> (r: Vec<String>)
    ensures
        sorted_views(views(r@)),
        views(r@).to_multiset() == inbound(target.org@, projects@, target@).to_multiset(),
        forall|i: int, j: int, k: int|
            0 <= i < projects@.len() && 0 <= j < projects@[i].atoms@.len() && 0 <= k < projects@[i].atoms@[j].links@.len()
                && parse_ref(#[trigger] projects@[i].atoms@[j].links@[k]@, (target.org@, projects@[i].project@))
                == target@ ==> views(r@).contains(full_path(target.org@, projects@[i].project@, projects@[i].atoms@[j].id@)),
        forall|x| #[trigger]
            views(r@).contains(x) ==> exists|i: int, j: int, k: int|
                0 <= i < projects@.len() && 0 <= j < projects@[i].atoms@.len() && 0 <= k
                    < projects@[i].atoms@[j].links@.len() && parse_ref(
                    projects@[i].atoms@[j].links@[k]@,
                    (target.org@, projects@[i].project@),
                ) == target@ && x == full_path(target.org@, projects@[i].project@, projects@[i].atoms@[j].id@),
{
    let mut found: Vec<String> = Vec::new();
    let mut i: usize = 0;
    while i < projects.len()
        invariant
            i <= projects.len(),
            views(found@) == inbound(target.org@, projects@.take(i as int), target@),
        decreases projects.len() - i,
    {
        assert(projects@.take(i + 1).drop_last() =~= projects@.take(i as int));
        assert(projects@.take(i + 1).last() == projects@[i as int]);
        let ghost done = inbound(target.org@, projects@.take(i as int), target@);
        let owner = ProjectContext::new(target.org.clone(), projects[i].project.clone());
        let atoms = &projects[i].atoms;
        let mut j: usize = 0;
        while j < atoms.len()
            invariant
                i < projects.len(),
                j <= atoms.len(),
                owner@ == (target.org@, projects@[i as int].project@),
                *atoms == projects@[i as int].atoms,
                views(found@) == done + inbound_in(target.org@, owner@.1, atoms@.take(j as int), target@),
            decreases atoms.len() - j,
        {
            assert(atoms@.take(j + 1).drop_last() =~= atoms@.take(j as int));
            assert(atoms@.take(j + 1).last() == atoms@[j as int]);
            let ghost s = done + inbound_in(target.org@, owner@.1, atoms@.take(j as int), target@);
            if holds_reference(&atoms[j], &owner, target) {
                let reference = format_atom_reference(
                    target.org.as_str(),
                    projects[i].project.as_str(),
                    atoms[j].id.as_str(),
                );
                let ghost before = views(found@);
                found.push(reference);
                assert(views(found@) =~= before.push(reference@));
                assert(done + inbound_in(target.org@, owner@.1, atoms@.take(j + 1), target@) =~= s.push(reference@));
            } else {
                assert(done + inbound_in(target.org@, owner@.1, atoms@.take(j + 1), target@) =~= s);
            }
            j += 1;
        }
        assert(atoms@.take(atoms.len() as int) =~= atoms@);
        i += 1;
    }
    assert(projects@.take(projects.len() as int) =~= projects@);
    let sorted = sort_strings(found);
    proof {
        let t = target@;
        let inb = inbound(t.0, projects@, t);
        law_inbound_is_the_referrers(t.0, projects@, t);
        assert forall|x| #[trigger] views(sorted@).contains(x) <==> inb.contains(x) by {
            vstd::seq_lib::to_multiset_contains(views(sorted@), x);
            vstd::seq_lib::to_multiset_contains(inb, x);
        }
    }
    sorted
}

/// The atoms of `after` are those of `before`, project by project and in
/// order, each with its references to `target` removed and nothing else changed.
pub open spec fn detached_from(
    before: Seq<ProjectAtoms>,
    after: Seq<ProjectAtoms>,
    target: (Seq<char>, Seq<char>, Seq<char>),
) -> bool {
    &&& after.len() == before.len()
    &&& forall|i: int| 0 <= i < before.len() ==> {
        &&& (#[trigger] after[i]).project == before[i].project
        &&& after[i].atoms@.len() == before[i].atoms@.len()
        &&& forall|j: int| 0 <= j < before[i].atoms@.len() ==> {
            &&& same_but_links(before[i].atoms@[j], #[trigger] after[i].atoms@[j])
            &&& views(after[i].atoms@[j].links@) == without_reference(
                views(before[i].atoms@[j].links@),
                (target.0, before[i].project@),
                target,
            )
        }
    }
}

fn detach_atoms(atoms: Vec<Atom>, owner: &ProjectContext, target: &AtomRef) -> (r: Vec<Atom>)
    ensures
        r@.len() == atoms@.len(),
        forall|j: int| 0 <= j < atoms@.len() ==> {
            &&& same_but_links(atoms@[j], #[trigger] r@[j])
            &&& views(r@[j].links@) == without_reference(views(atoms@[j].links@), owner@, target@)
        },
{
    let ghost orig = atoms@;
    let mut rest = atoms;
    let mut out: Vec<Atom> = Vec::new();
    while rest.len() > 0
        invariant
            out@.len() + rest@.len() == orig.len(),
            rest@ == orig.skip(out@.len() as int),
            forall|j: int| 0 <= j < out@.len() ==> {
                &&& same_but_links(orig[j], #[trigger] out@[j])
                &&& views(out@[j].links@) == without_reference(views(orig[j].links@), owner@, target@)
            },
        decreases rest@.len(),
    {
        let ghost k = out@.len() as int;
        let mut a = rest.remove(0);
        assert(a == orig[k]);
        remove_reference(&mut a, owner, target);
        out.push(a);
        assert(rest@ =~= orig.skip(out@.len() as int));
    }
    out
}

fn detach_projects(projects: &mut Vec<ProjectAtoms>, target: &AtomRef)
    ensures
        detached_from(old(projects)@, final(projects)@, target@),
{
    let ghost orig = projects@;
    let mut rest: Vec<ProjectAtoms> = Vec::new();
    std::mem::swap(&mut rest, projects);
    let mut out: Vec<ProjectAtoms> = Vec::new();
    while rest.len() > 0
        invariant
            out@.len() + rest@.len() == orig.len(),
            rest@ == orig.skip(out@.len() as int),
            forall|i: int| 0 <= i < out@.len() ==> {
                &&& (#[trigger] out@[i]).project == orig[i].project
                &&& out@[i].atoms@.len() == orig[i].atoms@.len()
                &&& forall|j: int| 0 <= j < orig[i].atoms@.len() ==> {
                    &&& same_but_links(orig[i].atoms@[j], #[trigger] out@[i].atoms@[j])
                    &&& views(out@[i].atoms@[j].links@) == without_reference(
                        views(orig[i].atoms@[j].links@),
                        (target@.0, orig[i].project@),
                        target@,
                    )
                }
            },
        decreases rest@.len(),
    {
        let ghost k = out@.len() as int;
        let p = rest.remove(0);
        assert(p == orig[k]);
        let owner = ProjectContext::new(target.org.clone(), p.project.clone());
        let atoms = detach_atoms(p.atoms, &owner, target);
        out.push(ProjectAtoms { project: p.project, atoms });
        assert(rest@ =~= orig.skip(out@.len() as int));
    }
    *projects = out;
}

/// Delete the atom a request names, unlinking it from every atom that
/// referenced it. `projects` holds the atoms of every project of the
/// target's org, as stored, and `index` the target project's index.
/// Deleting needs an explicit context. The detached atoms are reported,
/// sorted, as full references; afterwards no atom of `projects` references
/// the target, and nothing else of them changed. The atom counts as
/// deleted when its index listed it (its file is then to be removed).
pub fn delete_atom(
    req: &DeleteAtomRequest,
    detected: DetectedContext,
    index: &mut Index,
    projects: &mut Vec<ProjectAtoms>,
) -> (r: Result<DeleteResult, AtlasError>)
    ensures
        detected.source == ContextSource::Fallback ==> (r matches Err(e) && e is Context && *final(index) == *old(
            index,
        ) && final(projects)@ == old(projects)@),
        detected.source != ContextSource::Fallback ==> {
            let t = parse_ref(req.id@, detected.context@);
            r matches Ok(d) && {
                &&& sorted_views(views(d.detached@))
                &&& views(d.detached@).to_multiset() == inbound(t.0, old(projects)@, t).to_multiset()
                &&& forall|i: int, j: int, k: int|
                    0 <= i < old(projects)@.len() && 0 <= j < old(projects)@[i].atoms@.len() && 0 <= k < old(
                        projects,
                    )@[i].atoms@[j].links@.len() && parse_ref(
                        #[trigger] old(projects)@[i].atoms@[j].links@[k]@,
                        (t.0, old(projects)@[i].project@),
                    ) == t ==> views(d.detached@).contains(
                        full_path(t.0, old(projects)@[i].project@, old(projects)@[i].atoms@[j].id@),
                    )
                &&& forall|x| #[trigger]
                    views(d.detached@).contains(x) ==> exists|i: int, j: int, k: int|
                        0 <= i < old(projects)@.len() && 0 <= j < old(projects)@[i].atoms@.len() && 0 <= k < old(
                            projects,
                        )@[i].atoms@[j].links@.len() && parse_ref(
                            old(projects)@[i].atoms@[j].links@[k]@,
                            (t.0, old(projects)@[i].project@),
                        ) == t && x == full_path(t.0, old(projects)@[i].project@, old(projects)@[i].atoms@[j].id@)
                &&& detached_from(old(projects)@, final(projects)@, t)
                &&& forall|i: int, j: int|
                    0 <= i < final(projects)@.len() && 0 <= j < final(projects)@[i].atoms@.len() ==> !refers_to(
                        views(#[trigger] final(projects)@[i].atoms@[j].links@),
                        (t.0, final(projects)@[i].project@),
                        t,
                    )
                &&& d.deleted == has_entry(old(index).entries@, t.2)
                &&& final(index).next_id == old(index).next_id
                &&& d.deleted ==> exists|i: int|
                    is_first_entry(old(index).entries@, t.2, i) && final(index).entries@ == old(
                        index,
                    ).entries@.remove(i)
                &&& !d.deleted ==> final(index).entries@ == old(index).entries@
                &&& old(index).wf() ==> final(index).wf()
            }
        },
{
    let target = delete_target(req, detected)?;
    let detached = find_inbound_links(&target, projects);
    proof {
        let t = target@;
        let inb = inbound(t.0, projects@, t);
        law_inbound_is_the_referrers(t.0, projects@, t);
        assert forall|x| #[trigger] views(detached@).contains(x) <==> inb.contains(x) by {
            vstd::seq_lib::to_multiset_contains(views(detached@), x);
            vstd::seq_lib::to_multiset_contains(inb, x);
        }
    }
    detach_projects(projects, &target);
    proof {
        let t = target@;
        assert forall|i: int, j: int|
            0 <= i < projects@.len() && 0 <= j < projects@[i].atoms@.len() implies !refers_to(
                views(#[trigger] projects@[i].atoms@[j].links@),
                (t.0, projects@[i].project@),
                t,
            ) by {
            assert(projects@[i].project == old(projects)@[i].project);
            law_removed_reference_gone(views(old(projects)@[i].atoms@[j].links@), (t.0, old(projects)@[i].project@), t);
        }
    }
    let removed = index.remove_entry(&target.id);
    Ok(DeleteResult { deleted: removed.is_some(), detached })
}

// ============================================================================
// enable_local_storage
// ============================================================================

#[derive(Debug, Clone)]
pub struct EnableLocalStorageRequest {
    /// Organization name
    pub org: String,
    /// Project name
    pub project: String,
    /// Directory where .atlas is created
    pub root: Option<String>,
}

/// The message for a requested root that does not exist.
pub open spec fn missing_root_message(root: Seq<char>) -> Seq<char> {
    "Project root does not exist: "@ + root
}

/// Enable local storage for a project: the org and project names must be
/// valid and a requested root (`root_exists` says whether it does) must
/// exist; then the plan for the central path (see [`local_storage_plan`]).
/// Everything is decided before any file is touched.
pub fn enable_local_storage(
    req: &EnableLocalStorageRequest,
    root_exists: bool,
    central_is_symlink: bool,
    central_exists: bool,
) -> (r: Result<LocalStoragePlan, AtlasError>)
    ensures
        match name_check(req.org@) {
            Err(f) => reports_name_error(r, f),
            Ok(()) => match name_check(req.project@) {
                Err(f) => reports_name_error(r, f),
                Ok(()) => if req.root is Some && !root_exists {
                    r matches Err(e) && e is Validation && e.message() == missing_root_message(req.root.unwrap()@)
                } else {
                    r matches Ok(p) && p.remove_broken_link == (central_is_symlink && !central_exists)
                        && p.migrate == (central_exists && !central_is_symlink) && p.create_symlink == !(
                    central_is_symlink && central_exists)
                },
            },
        },
{
    validate_name(req.org.as_str())?;
    validate_name(req.project.as_str())?;
    if let Some(root) = &req.root {
        if !root_exists {
            let mut m = String::from_str("Project root does not exist: ");
            m.append(root.as_str());
            return Err(AtlasError::Validation(m));
        }
    }
    Ok(local_storage_plan(central_is_symlink, central_exists))
}

/// Enable local storage result.
#[derive(Debug, Clone)]
pub struct EnableLocalStorageResult {
    /// Path to the local .atlas directory
    pub path: String,
    /// Whether a new symlink was created from ~/.atlas to the local directory
    pub symlink_created: bool,
    /// Number of atoms migrated from central storage to local
    pub atoms_migrated: usize,
}

/// What enabling local storage does to the project's central path.
#[derive(Debug, Clone, Copy)]
pub struct LocalStoragePlan {
    /// The central path is a symlink whose target is gone: remove it.
    pub remove_broken_link: bool,
    /// The central path is a real project directory: move its atoms and
    /// index into the local directory, then remove it.
    pub migrate: bool,
    /// Link the central path to the local directory.
    pub create_symlink: bool,
}

/// The steps for a central path that is (`is_symlink`) or is not a symlink,
/// and that does or does not lead to something (`exists`, following links).
/// A symlink that leads somewhere is left alone; anything else ends up as a
/// fresh symlink to the local directory.
pub fn local_storage_plan(is_symlink: bool, exists: bool) -> (r: LocalStoragePlan)
    ensures
        r.remove_broken_link == (is_symlink && !exists),
        r.migrate == (exists && !is_symlink),
        r.create_symlink == !(is_symlink && exists),
{
    LocalStoragePlan {
        remove_broken_link: is_symlink && !exists,
        migrate: exists && !is_symlink,
        create_symlink: !(is_symlink && exists),
    }
}

/// The entries after merging `central` into `repo`: each central entry
/// whose id is not yet present is appended, in order.
pub open spec fn merged_entries(repo: Seq<EntryView>, central: Seq<EntryView>) -> Seq<EntryView>
    decreases central.len(),
{
    if central.len() == 0 {
        repo
    } else {
        let acc = merged_entries(repo, central.drop_last());
        if has_id(acc, central.last().0) {
            acc
        } else {
            acc.push(central.last())
        }
    }
}

/// Some entry has id `id`.
pub open spec fn has_id(entries: Seq<EntryView>, id: Seq<char>) -> bool {
    exists|i: int| 0 <= i < entries.len() && #[trigger] entries[i].0 == id
}

/// Merge a central project index into the repository-local one: entries of
/// the local index win, central entries for other atoms are added, and the
/// next id is the larger of the two.
pub fn merge_index(repo: &mut Index, central: &Index)
    ensures
        entry_views(final(repo).entries@) == merged_entries(entry_views(old(repo).entries@), entry_views(central.entries@)),
        final(repo).next_id == if central.next_id > old(repo).next_id {
            central.next_id
        } else {
            old(repo).next_id
        },
        old(repo).wf() && central.wf() ==> final(repo).wf(),
{
    let ghost m: u64 = if central.next_id > repo.next_id { central.next_id } else { repo.next_id };
    let ghost both = repo.wf() && central.wf();
    let mut i: usize = 0;
    while i < central.entries.len()
        invariant
            i <= central.entries.len(),
            repo.next_id == old(repo).next_id,
            m == if central.next_id > old(repo).next_id { central.next_id } else { old(repo).next_id },
            both == (old(repo).wf() && central.wf()),
            both ==> forall|j: int| 0 <= j < repo.entries@.len() ==> issued_before(#[trigger] repo.entries@[j].id@, m),
            entry_views(repo.entries@) == merged_entries(entry_views(old(repo).entries@), entry_views(central.entries@).take(i as int)),
        decreases central.entries.len() - i,
    {
        let ghost cv = entry_views(central.entries@);
        let ghost acc = entry_views(repo.entries@);
        assert(cv.take(i + 1).drop_last() =~= cv.take(i as int));
        assert(cv.take(i + 1).last() == central.entries@[i as int]@);
        let entry = &central.entries[i];
        match repo.find_entry(&entry.id) {
            Some(k) => {
                assert(acc[k as int].0 == entry.id@);
            },
            None => {
                assert forall|k: int| 0 <= k < acc.len() implies #[trigger] acc[k].0 != entry.id@ by {
                    assert(acc[k].0 == repo.entries@[k].id@);
                }
                let ghost before = repo.entries@;
                let d = entry.duplicate();
                assert(d.id@ == entry.id@);
                repo.entries.push(d);
                assert(entry_views(repo.entries@) =~= acc.push(entry@));
                assert(both ==> forall|j: int| 0 <= j < repo.entries@.len() ==> issued_before(#[trigger] repo.entries@[j].id@, m)) by {
                    if both {
                        assert forall|j: int| 0 <= j < repo.entries@.len() implies issued_before(#[trigger] repo.entries@[j].id@, m) by {
                            if j < before.len() {
                                assert(repo.entries@[j] == before[j]);
                            } else {
                                assert(issued_before(central.entries@[i as int].id@, central.next_id));
                            }
                        }
                    }
                }
            },
        }
        i += 1;
    }
    assert(entry_views(central.entries@).take(central.entries.len() as int) =~= entry_views(central.entries@));
    if central.next_id > repo.next_id {
        repo.next_id = central.next_id;
    }
    assert(repo.next_id == m);
}

/// After a merge every central atom is listed, and every local entry stays
/// where it was.
pub proof fn law_merge_keeps_every_atom(repo: Seq<EntryView>, central: Seq<EntryView>)
    ensures
        forall|k: int| 0 <= k < repo.len() ==> merged_entries(repo, central)[k] == repo[k],
        repo.len() <= merged_entries(repo, central).len(),
        forall|k: int|
            0 <= k < central.len() ==> has_id(merged_entries(repo, central), #[trigger] central[k].0),
    decreases central.len(),
{
    if central.len() > 0 {
        let d = central.drop_last();
        law_merge_keeps_every_atom(repo, d);
        let acc = merged_entries(repo, d);
        assert forall|k: int| 0 <= k < central.len() implies has_id(
            merged_entries(repo, central),
            #[trigger] central[k].0,
        ) by {
            if k < d.len() {
                assert(d[k] == central[k]);
                assert(has_id(acc, d[k].0));
                let w = choose|w: int| 0 <= w < acc.len() && #[trigger] acc[w].0 == d[k].0;
                assert(merged_entries(repo, central)[w] == acc[w]);
            } else {
                if !has_id(acc, central.last().0) {
                    assert(merged_entries(repo, central)[acc.len() as int] == central.last());
                }
            }
        }
    }
}

// ============================================================================
// list_projects / get_context
// ============================================================================

/// Project info.
#[derive(Debug, Clone)]
pub struct ProjectInfo {
    pub org: String,
    pub project: String,
    pub atom_count: usize,
    /// True if this is the currently active project
    pub active: bool,
}

/// The listing of one project: active when it is the detected context.
pub fn project_info(org: String, project: String, atom_count: usize, active_context: &Option<ProjectContext>) -> (r: ProjectInfo)
    ensures
        r.org == org,
        r.project == project,
        r.atom_count == atom_count,
        r.active == match active_context {
            Some(c) => c@ == (org@, project@),
            None => false,
        },
{
    let active = match active_context {
        Some(c) => str_eq(c.org.as_str(), org.as_str()) && str_eq(c.project.as_str(), project.as_str()),
        None => false,
    };
    ProjectInfo { org, project, atom_count, active }
}

/// Context info.
#[derive(Debug, Clone)]
pub struct ContextInfo {
    pub org: String,
    pub project: String,
    pub cwd: String,
    /// Source of context detection
    pub source: ContextSource,
    /// Hint for the user if using fallback detection
    pub hint: Option<ContextHint>,
}

/// Describe the detected context, with a hint when it is a fallback.
pub fn get_context(detected: DetectedContext, cwd: String) -> (r: ContextInfo)
    ensures
        r.org == detected.context.org,
        r.project == detected.context.project,
        r.cwd == cwd,
        r.source == detected.source,
        detected.source == ContextSource::Fallback <==> r.hint is Some,
        r.hint matches Some(h) ==> h.message@ == fallback_hint_message() && h.source@ == "fallback"@,
{
    let hint = make_context_hint(&detected.source);
    ContextInfo {
        org: detected.context.org,
        project: detected.context.project,
        cwd,
        source: detected.source,
        hint,
    }
}

/// The listing filters: an entry passes the type filter when its type is any
/// one of the requested types, the confidence filter when its confidence is
/// the requested one, and the tag filter when one of its tags equals one of
/// the requested tags ignoring case; an absent filter passes everything, and
/// an entry is listed when it passes all three.
pub proof fn law_list_filters(req: ListAtomsRequest, e: IndexEntry)
    ensures
        ({
            let type_ok = match req.types {
                Some(ts) => exists|k: int| 0 <= k < ts@.len() && ts@[k] == e.atom_type,
                None => true,
            };
            let confidence_ok = match req.confidence {
                Some(c) => e.confidence == c,
                None => true,
            };
            let tags_ok = match req.tags {
                Some(ft) => exists|i: int, j: int|
                    0 <= i < ft@.len() && 0 <= j < e.tags@.len() && unicode_lowercase(ft@[i]@) == unicode_lowercase(
                        e.tags@[j]@,
                    ),
                None => true,
            };
            entry_matches(req, e) == (type_ok && confidence_ok && tags_ok)
        }),
{
    match req.types {
        Some(ts) => {
            if ts@.contains(e.atom_type) {
                let k = choose|k: int| 0 <= k < ts@.len() && ts@[k] == e.atom_type;
                assert(0 <= k < ts@.len() && ts@[k] == e.atom_type);
            }
            if exists|k: int| 0 <= k < ts@.len() && ts@[k] == e.atom_type {
                let k = choose|k: int| 0 <= k < ts@.len() && ts@[k] == e.atom_type;
                assert(ts@.contains(e.atom_type));
            }
        },
        None => {},
    }
    match req.tags {
        Some(ft) => {
            if tags_overlap(ft@, e.tags@) {
                let (i, j) = choose|i: int, j: int|
                    0 <= i < ft@.len() && 0 <= j < e.tags@.len() && unicode_lowercase(#[trigger] ft@[i]@)
                        == unicode_lowercase(#[trigger] e.tags@[j]@);
                assert(unicode_lowercase(ft@[i]@) == unicode_lowercase(e.tags@[j]@));
            }
        },
        None => {},
    }
}

/// A project's listing holds exactly its entries that pass the filters, in
/// index order: every passing entry is listed, and everything listed is a
/// passing entry.
pub proof fn law_listing_keeps_exactly_the_matches(
    req: ListAtomsRequest,
    org: Seq<char>,
    project: Seq<char>,
    entries: Seq<IndexEntry>,
)
    ensures
        forall|k: int|
            0 <= k < entries.len() && entry_matches(req, #[trigger] entries[k]) ==> matching_results(
                req,
                org,
                project,
                entries,
            ).contains(entry_result(org, project, entries[k])),
        forall|x| #[trigger]
            matching_results(req, org, project, entries).contains(x) ==> exists|k: int|
                0 <= k < entries.len() && entry_matches(req, entries[k]) && x == entry_result(org, project, entries[k]),
    decreases entries.len(),
{
    if entries.len() > 0 {
        let d = entries.drop_last();
        law_listing_keeps_exactly_the_matches(req, org, project, d);
        let prev = matching_results(req, org, project, d);
        let last = entries.last();
        let m = matching_results(req, org, project, entries);
        assert forall|k: int|
            0 <= k < entries.len() && entry_matches(req, #[trigger] entries[k]) implies m.contains(
                entry_result(org, project, entries[k]),
            ) by {
            if k < entries.len() - 1 {
                assert(entries[k] == d[k]);
                assert(prev.contains(entry_result(org, project, d[k])));
                let w = choose|w: int| 0 <= w < prev.len() && prev[w] == entry_result(org, project, d[k]);
                if entry_matches(req, last) {
                    assert(m[w] == prev[w]);
                }
            } else {
                assert(m[m.len() - 1] == entry_result(org, project, last));
            }
        }
        assert forall|x| #[trigger] m.contains(x) implies exists|k: int|
            0 <= k < entries.len() && entry_matches(req, entries[k]) && x == entry_result(org, project, entries[k]) by {
            let w = choose|w: int| 0 <= w < m.len() && m[w] == x;
            if w < prev.len() {
                assert(prev[w] == x);
                assert(prev.contains(x));
                let k = choose|k: int| 0 <= k < d.len() && entry_matches(req, d[k]) && x == entry_result(org, project, d[k]);
                assert(entries[k] == d[k]);
            } else {
                assert(entry_matches(req, last));
                assert(entries[entries.len() - 1] == last);
            }
        }
    }
}

/// An atom of `project` is inbound to `target` exactly when one of its
/// links, read against its own project, names the target: every such atom
/// is reported, and every report is such an atom.
pub proof fn law_inbound_in_is_the_referrers(
    org: Seq<char>,
    project: Seq<char>,
    atoms: Seq<Atom>,
    target: (Seq<char>, Seq<char>, Seq<char>),
)
    ensures
        forall|j: int, k: int|
            0 <= j < atoms.len() && 0 <= k < atoms[j].links@.len() && parse_ref(
                #[trigger] atoms[j].links@[k]@,
                (org, project),
            ) == target ==> inbound_in(org, project, atoms, target).contains(full_path(org, project, atoms[j].id@)),
        forall|x| #[trigger]
            inbound_in(org, project, atoms, target).contains(x) ==> exists|j: int, k: int|
                0 <= j < atoms.len() && 0 <= k < atoms[j].links@.len() && parse_ref(atoms[j].links@[k]@, (org, project))
                    == target && x == full_path(org, project, atoms[j].id@),
    decreases atoms.len(),
{
    if atoms.len() > 0 {
        let d = atoms.drop_last();
        law_inbound_in_is_the_referrers(org, project, d, target);
        let prev = inbound_in(org, project, d, target);
        let last = atoms.last();
        let m = inbound_in(org, project, atoms, target);
        assert forall|j: int, k: int|
            0 <= j < atoms.len() && 0 <= k < atoms[j].links@.len() && parse_ref(
                #[trigger] atoms[j].links@[k]@,
                (org, project),
            ) == target implies m.contains(full_path(org, project, atoms[j].id@)) by {
            if j < atoms.len() - 1 {
                assert(atoms[j] == d[j]);
                assert(parse_ref(d[j].links@[k]@, (org, project)) == target);
                assert(prev.contains(full_path(org, project, d[j].id@)));
                let w = choose|w: int| 0 <= w < prev.len() && prev[w] == full_path(org, project, d[j].id@);
                assert(m[w] == prev[w]);
            } else {
                assert(views(last.links@)[k] == last.links@[k]@);
                assert(refers_to(views(last.links@), (org, project), target));
                assert(m[m.len() - 1] == full_path(org, project, last.id@));
            }
        }
        assert forall|x| #[trigger] m.contains(x) implies exists|j: int, k: int|
            0 <= j < atoms.len() && 0 <= k < atoms[j].links@.len() && parse_ref(atoms[j].links@[k]@, (org, project))
                == target && x == full_path(org, project, atoms[j].id@) by {
            let w = choose|w: int| 0 <= w < m.len() && m[w] == x;
            if w < prev.len() {
                assert(prev[w] == x);
                assert(prev.contains(x));
                let (j, k) = choose|j: int, k: int|
                    0 <= j < d.len() && 0 <= k < d[j].links@.len() && parse_ref(d[j].links@[k]@, (org, project)) == target
                        && x == full_path(org, project, d[j].id@);
                assert(atoms[j] == d[j]);
            } else {
                assert(refers_to(views(last.links@), (org, project), target));
                let k = choose|k: int| 0 <= k < views(last.links@).len() && #[trigger] parse_ref(views(last.links@)[k], (org, project)) == target;
                assert(views(last.links@)[k] == last.links@[k]@);
                assert(atoms[atoms.len() - 1] == last);
            }
        }
    }
}

/// Over all projects of the org: an atom is inbound to `target` exactly when
/// one of its links, read against its own project, names the target.
pub proof fn law_inbound_is_the_referrers(
    org: Seq<char>,
    ps: Seq<ProjectAtoms>,
    target: (Seq<char>, Seq<char>, Seq<char>),
)
    ensures
        forall|i: int, j: int, k: int|
            0 <= i < ps.len() && 0 <= j < ps[i].atoms@.len() && 0 <= k < ps[i].atoms@[j].links@.len() && parse_ref(
                #[trigger] ps[i].atoms@[j].links@[k]@,
                (org, ps[i].project@),
            ) == target ==> inbound(org, ps, target).contains(full_path(org, ps[i].project@, ps[i].atoms@[j].id@)),
        forall|x| #[trigger]
            inbound(org, ps, target).contains(x) ==> exists|i: int, j: int, k: int|
                0 <= i < ps.len() && 0 <= j < ps[i].atoms@.len() && 0 <= k < ps[i].atoms@[j].links@.len() && parse_ref(
                    ps[i].atoms@[j].links@[k]@,
                    (org, ps[i].project@),
                ) == target && x == full_path(org, ps[i].project@, ps[i].atoms@[j].id@),
    decreases ps.len(),
{
    if ps.len() > 0 {
        let d = ps.drop_last();
        law_inbound_is_the_referrers(org, d, target);
        let last = ps.last();
        law_inbound_in_is_the_referrers(org, last.project@, last.atoms@, target);
        let a = inbound(org, d, target);
        let b = inbound_in(org, last.project@, last.atoms@, target);
        let m = inbound(org, ps, target);
        assert(m == a + b);
        assert forall|i: int, j: int, k: int|
            0 <= i < ps.len() && 0 <= j < ps[i].atoms@.len() && 0 <= k < ps[i].atoms@[j].links@.len() && parse_ref(
                #[trigger] ps[i].atoms@[j].links@[k]@,
                (org, ps[i].project@),
            ) == target implies m.contains(full_path(org, ps[i].project@, ps[i].atoms@[j].id@)) by {
            let x = full_path(org, ps[i].project@, ps[i].atoms@[j].id@);
            if i < ps.len() - 1 {
                assert(ps[i] == d[i]);
                assert(parse_ref(d[i].atoms@[j].links@[k]@, (org, d[i].project@)) == target);
                assert(a.contains(x));
                let w = choose|w: int| 0 <= w < a.len() && a[w] == x;
                assert(m[w] == a[w]);
            } else {
                assert(ps[i] == last);
                assert(parse_ref(last.atoms@[j].links@[k]@, (org, last.project@)) == target);
                assert(b.contains(x));
                let w = choose|w: int| 0 <= w < b.len() && b[w] == x;
                assert(m[a.len() + w] == b[w]);
            }
        }
        assert forall|x| #[trigger] m.contains(x) implies exists|i: int, j: int, k: int|
            0 <= i < ps.len() && 0 <= j < ps[i].atoms@.len() && 0 <= k < ps[i].atoms@[j].links@.len() && parse_ref(
                ps[i].atoms@[j].links@[k]@,
                (org, ps[i].project@),
            ) == target && x == full_path(org, ps[i].project@, ps[i].atoms@[j].id@) by {
            let w = choose|w: int| 0 <= w < m.len() && m[w] == x;
            if w < a.len() {
                assert(a[w] == x);
                assert(a.contains(x));
                let (i, j, k) = choose|i: int, j: int, k: int|
                    0 <= i < d.len() && 0 <= j < d[i].atoms@.len() && 0 <= k < d[i].atoms@[j].links@.len() && parse_ref(
                        d[i].atoms@[j].links@[k]@,
                        (org, d[i].project@),
                    ) == target && x == full_path(org, d[i].project@, d[i].atoms@[j].id@);
                assert(ps[i] == d[i]);
            } else {
                assert(b[w - a.len()] == x);
                assert(b.contains(x));
                let (j, k) = choose|j: int, k: int|
                    0 <= j < last.atoms@.len() && 0 <= k < last.atoms@[j].links@.len() && parse_ref(
                        last.atoms@[j].links@[k]@,
                        (org, last.project@),
                    ) == target && x == full_path(org, last.project@, last.atoms@[j].id@);
                assert(ps[ps.len() - 1] == last);
            }
        }
    }
}

} // verus!
