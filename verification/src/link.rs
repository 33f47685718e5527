//! Mutual links between atoms.
//!
//! A link is written on both atoms: each one holds a reference to the other,
//! written relative to its own project. Stored references predate the
//! current format rules, so a reference is compared by the atom it resolves
//! to rather than by how it is written.
use vstd::prelude::*;

use crate::context::{require_explicit_write_context, DetectedContext, ProjectContext};
use crate::error::AtlasError;
use crate::models::Atom;
use crate::reference::{full_path, parse_atom_reference, parse_ref, AtomRef};
use crate::text::{lemma_first_index, lemma_seq_le_total, push_str, seq_le, str_eq, str_le, string_from_chars, views};

verus! {

/// Link request parameters.
#[derive(Debug, Clone)]
pub struct LinkRequest {
    /// Source atom: "org/project/K-000001", "project/K-000001", or "K-000001"
    pub source: String,
    /// Target atom: "org/project/K-000001", "project/K-000001", or "K-000001"
    pub target: String,
}

/// Link response.
#[derive(Debug, Clone)]
pub struct LinkResponse {
    /// Full source reference: "org/project/K-000001"
    pub source: String,
    /// Full target reference: "org/project/K-000001"
    pub target: String,
    /// False if both atoms already referenced each other
    pub created: bool,
}

/// Unlink response.
#[derive(Debug, Clone)]
pub struct UnlinkResponse {
    /// Full source reference: "org/project/K-000001"
    pub source: String,
    /// Full target reference: "org/project/K-000001"
    pub target: String,
    /// False if neither atom referenced the other
    pub removed: bool,
}

/// The outcome of a link: the response, and which atoms changed and must be saved.
#[derive(Debug, Clone)]
pub struct LinkOutcome {
    pub response: LinkResponse,
    pub save_source: bool,
    pub save_target: bool,
}

/// The outcome of an unlink: the response, and which atoms changed and must be saved.
#[derive(Debug, Clone)]
pub struct UnlinkOutcome {
    pub response: UnlinkResponse,
    pub save_source: bool,
    pub save_target: bool,
}

/// How an atom of project `source_project` writes a reference to atom `id`
/// of project `target_project`: bare within the project, `project/id` across.
pub open spec fn storage_link(source_project: Seq<char>, target_project: Seq<char>, id: Seq<char>) -> Seq<char> {
    if source_project == target_project {
        id
    } else {
        target_project + seq!['/'] + id
    }
}

/// Whether some stored link, read from `owner`, resolves to `target`.
pub open spec fn refers_to(
    links: Seq<Seq<char>>,
    owner: (Seq<char>, Seq<char>),
    target: (Seq<char>, Seq<char>, Seq<char>),
) -> bool {
    exists|i: int| 0 <= i < links.len() && #[trigger] parse_ref(links[i], owner) == target
}

/// The links after a reference to `target` is added: unchanged when one
/// already resolves to it, else the owner's storage form appended.
pub open spec fn with_reference(
    links: Seq<Seq<char>>,
    owner: (Seq<char>, Seq<char>),
    target: (Seq<char>, Seq<char>, Seq<char>),
) -> Seq<Seq<char>> {
    if refers_to(links, owner, target) {
        links
    } else {
        links.push(storage_link(owner.1, target.1, target.2))
    }
}

/// The links after every reference that resolves to `target` is removed.
pub open spec fn without_reference(
    links: Seq<Seq<char>>,
    owner: (Seq<char>, Seq<char>),
    target: (Seq<char>, Seq<char>, Seq<char>),
) -> Seq<Seq<char>> {
    links.filter(|l: Seq<char>| parse_ref(l, owner) != target)
}

/// A target that the owner's storage form names exactly: same org, and
/// neither its project nor its id holds a `/`.
pub open spec fn linkable(owner: (Seq<char>, Seq<char>), target: (Seq<char>, Seq<char>, Seq<char>)) -> bool {
    &&& target.0 == owner.0
    &&& !target.1.contains('/')
    &&& !target.2.contains('/')
}

/// Every field but `links` is the same.
pub open spec fn same_but_links(a: Atom, b: Atom) -> bool {
    &&& a.id == b.id
    &&& a.title == b.title
    &&& a.atom_type == b.atom_type
    &&& a.confidence == b.confidence
    &&& a.summary == b.summary
    &&& a.details == b.details
    &&& a.pitfalls == b.pitfalls
    &&& a.tags == b.tags
    &&& a.sources == b.sources
    &&& a.updated_at == b.updated_at
}

/// Format link relative to source project for storage.
/// Same project: "K-000001"
/// Cross-project: "other-project/K-000001"
pub fn format_link_for_storage(source_project: &str, target_project: &str, target_id: &str) -> (r: String)
    ensures
        r@ == storage_link(source_project@, target_project@, target_id@),
{
    if str_eq(source_project, target_project) {
        String::from_str(target_id)
    } else {
        let mut v: Vec<char> = Vec::new();
        push_str(&mut v, target_project);
        v.push('/');
        push_str(&mut v, target_id);
        string_from_chars(&v)
    }
}

/// The context an atom's own links are read against: its org and project.
pub fn owner_context(atom_ref: &AtomRef) -> (r: ProjectContext)
    ensures
        r@ == (atom_ref.org@, atom_ref.project@),
{
    ProjectContext::new(atom_ref.org.clone(), atom_ref.project.clone())
}

/// Whether the atom holds a link that resolves to `target`.
pub fn references(atom: &Atom, owner: &ProjectContext, target: &AtomRef) -> (r: bool)
    ensures
        r == refers_to(views(atom.links@), owner@, target@),
{
    let mut i: usize = 0;
    while i < atom.links.len()
        invariant
            i <= atom.links.len(),
            forall|j: int| 0 <= j < i ==> parse_ref(#[trigger] views(atom.links@)[j], owner@) != target@,
        decreases atom.links.len() - i,
    {
        let r = parse_atom_reference(atom.links[i].as_str(), owner);
        if r.same_as(target) {
            assert(parse_ref(views(atom.links@)[i as int], owner@) == target@);
            return true;
        }
        i += 1;
    }
    false
}

/// Add a reference to `target` unless one already resolves to it.
/// Returns whether the atom changed.
pub fn add_reference(atom: &mut Atom, owner: &ProjectContext, target: &AtomRef) -> (r: bool)
    ensures
        r == !refers_to(views(old(atom).links@), owner@, target@),
        views(final(atom).links@) == with_reference(views(old(atom).links@), owner@, target@),
        same_but_links(*old(atom), *final(atom)),
{
    if references(atom, owner, target) {
        return false;
    }
    let link = format_link_for_storage(owner.project.as_str(), target.project.as_str(), target.id.as_str());
    let ghost before = views(atom.links@);
    atom.links.push(link);
    assert(views(atom.links@) =~= before.push(storage_link(owner@.1, target@.1, target@.2)));
    true
}

/// Remove every reference that resolves to `target`. Returns whether the atom changed.
pub fn remove_reference(atom: &mut Atom, owner: &ProjectContext, target: &AtomRef) -> (r: bool)
    ensures
        r == refers_to(views(old(atom).links@), owner@, target@),
        views(final(atom).links@) == without_reference(views(old(atom).links@), owner@, target@),
        same_but_links(*old(atom), *final(atom)),
{
    let ghost pred = |l: Seq<char>| parse_ref(l, owner@) != target@;
    let ghost all = views(atom.links@);
    let mut kept: Vec<String> = Vec::new();
    let mut i: usize = 0;
    while i < atom.links.len()
        invariant
            i <= atom.links.len(),
            all == views(atom.links@),
            pred == (|l: Seq<char>| parse_ref(l, owner@) != target@),
            views(kept@) == all.take(i as int).filter(pred),
            kept@.len() <= i,
            (kept@.len() < i) == (exists|j: int| 0 <= j < i && #[trigger] parse_ref(all[j], owner@) == target@),
        decreases atom.links.len() - i,
    {
        proof {
            reveal(Seq::filter);
            assert(all.take(i + 1).drop_last() =~= all.take(i as int));
            assert(all.take(i + 1).last() == all[i as int]);
        }
        let r = parse_atom_reference(atom.links[i].as_str(), owner);
        if !r.same_as(target) {
            let s = atom.links[i].clone();
            let ghost before = views(kept@);
            kept.push(s);
            assert(views(kept@) =~= before.push(all[i as int]));
        } else {
            assert(parse_ref(all[i as int], owner@) == target@);
        }
        i += 1;
    }
    assert(all.take(atom.links.len() as int) =~= all);
    let changed = kept.len() != atom.links.len();
    atom.links = kept;
    changed
}

/// The order in which two projects are locked: by org, then by project.
pub open spec fn scope_le(a: (Seq<char>, Seq<char>), b: (Seq<char>, Seq<char>)) -> bool {
    if a.0 == b.0 {
        seq_le(a.1, b.1)
    } else {
        seq_le(a.0, b.0)
    }
}

/// The projects a link touches, each once, in the order they must be locked
/// so that two concurrent links over the same pair cannot each hold the lock
/// the other waits for.
pub fn lock_projects(a: &AtomRef, b: &AtomRef) -> (r: Vec<(String, String)>)
    ensures
        (a.org@, a.project@) == (b.org@, b.project@) ==> r@.len() == 1 && (r@[0].0@, r@[0].1@) == (
            a.org@,
            a.project@,
        ),
        (a.org@, a.project@) != (b.org@, b.project@) ==> r@.len() == 2 && {
            let first = (r@[0].0@, r@[0].1@);
            let second = (r@[1].0@, r@[1].1@);
            &&& (first == (a.org@, a.project@) && second == (b.org@, b.project@)) || (first == (
                b.org@,
                b.project@,
            ) && second == (a.org@, a.project@))
            &&& scope_le(first, second)
        },
{
    let mut r: Vec<(String, String)> = Vec::new();
    let same_org = str_eq(a.org.as_str(), b.org.as_str());
    let same_project = str_eq(a.project.as_str(), b.project.as_str());
    if same_org && same_project {
        r.push((a.org.clone(), a.project.clone()));
        return r;
    }
    let a_first = if same_org {
        str_le(a.project.as_str(), b.project.as_str())
    } else {
        str_le(a.org.as_str(), b.org.as_str())
    };
    if a_first {
        r.push((a.org.clone(), a.project.clone()));
        r.push((b.org.clone(), b.project.clone()));
    } else {
        proof {
            lemma_seq_le_total(a.org@, b.org@);
            lemma_seq_le_total(a.project@, b.project@);
        }
        r.push((b.org.clone(), b.project.clone()));
        r.push((a.org.clone(), a.project.clone()));
    }
    r
}

/// The message for a link between organizations.
pub open spec fn cross_org_message() -> Seq<char> {
    "Cannot link atoms across different organizations"@
}

/// The message for a link from an atom to itself.
pub open spec fn self_link_message() -> Seq<char> {
    "Cannot link an atom to itself"@
}

/// Resolve both ends of a link request against an explicit write context;
/// both ends must be in the same org.
pub fn resolve_pair(req: &LinkRequest, detected: DetectedContext) -> (r: Result<(AtomRef, AtomRef), AtlasError>)
    ensures
        detected.source == crate::context::ContextSource::Fallback ==> (r matches Err(e) && e is Context),
        detected.source != crate::context::ContextSource::Fallback ==> {
            let s = parse_ref(req.source@, detected.context@);
            let t = parse_ref(req.target@, detected.context@);
            if s.0 != t.0 {
                r matches Err(e) && e is Validation && e.message() == cross_org_message()
            } else {
                r matches Ok((a, b)) && a@ == s && b@ == t
            }
        },
{
    let ctx = require_explicit_write_context(detected)?;
    let source_ref = parse_atom_reference(req.source.as_str(), &ctx);
    let target_ref = parse_atom_reference(req.target.as_str(), &ctx);
    if !str_eq(source_ref.org.as_str(), target_ref.org.as_str()) {
        return Err(AtlasError::Validation(String::from_str("Cannot link atoms across different organizations")));
    }
    Ok((source_ref, target_ref))
}

/// The ends of a link request, which must be two different atoms of one org.
pub fn link_ends(req: &LinkRequest, detected: DetectedContext) -> (r: Result<(AtomRef, AtomRef), AtlasError>)
    ensures
        detected.source == crate::context::ContextSource::Fallback ==> (r matches Err(e) && e is Context),
        detected.source != crate::context::ContextSource::Fallback ==> {
            let s = parse_ref(req.source@, detected.context@);
            let t = parse_ref(req.target@, detected.context@);
            if s.0 != t.0 {
                r matches Err(e) && e is Validation && e.message() == cross_org_message()
            } else if s == t {
                r matches Err(e) && e is Validation && e.message() == self_link_message()
            } else {
                r matches Ok((a, b)) && a@ == s && b@ == t
            }
        },
{
    let (source_ref, target_ref) = resolve_pair(req, detected)?;
    if source_ref.same_as(&target_ref) {
        return Err(AtlasError::Validation(String::from_str("Cannot link an atom to itself")));
    }
    Ok((source_ref, target_ref))
}

/// Link two atoms so each one references the other. Each atom gains the
/// reference it lacks; `created` is false when both already held theirs.
pub fn link_atoms(source_ref: &AtomRef, target_ref: &AtomRef, source_atom: &mut Atom, target_atom: &mut Atom) -> (r: LinkOutcome)
    ensures
        views(final(source_atom).links@) == with_reference(
            views(old(source_atom).links@),
            (source_ref.org@, source_ref.project@),
            target_ref@,
        ),
        views(final(target_atom).links@) == with_reference(
            views(old(target_atom).links@),
            (target_ref.org@, target_ref.project@),
            source_ref@,
        ),
        same_but_links(*old(source_atom), *final(source_atom)),
        same_but_links(*old(target_atom), *final(target_atom)),
        r.save_source == !refers_to(views(old(source_atom).links@), (source_ref.org@, source_ref.project@), target_ref@),
        r.save_target == !refers_to(views(old(target_atom).links@), (target_ref.org@, target_ref.project@), source_ref@),
        r.response.created == (r.save_source || r.save_target),
        r.response.source@ == full_path(source_ref.org@, source_ref.project@, source_ref.id@),
        r.response.target@ == full_path(target_ref.org@, target_ref.project@, target_ref.id@),
{
    let source_ctx = owner_context(source_ref);
    let target_ctx = owner_context(target_ref);
    let forward = add_reference(source_atom, &source_ctx, target_ref);
    let backward = add_reference(target_atom, &target_ctx, source_ref);
    LinkOutcome {
        response: LinkResponse {
            source: source_ref.to_full_path(),
            target: target_ref.to_full_path(),
            created: forward || backward,
        },
        save_source: forward,
        save_target: backward,
    }
}

/// Remove the references two atoms hold to each other. The target may be
/// gone (`None`): a deleted target still leaves the source's half behind.
pub fn unlink_atoms(
    source_ref: &AtomRef,
    target_ref: &AtomRef,
    source_atom: &mut Atom,
    target_atom: &mut Option<Atom>,
) -> (r: UnlinkOutcome)
    ensures
        views(final(source_atom).links@) == without_reference(
            views(old(source_atom).links@),
            (source_ref.org@, source_ref.project@),
            target_ref@,
        ),
        same_but_links(*old(source_atom), *final(source_atom)),
        r.save_source == refers_to(views(old(source_atom).links@), (source_ref.org@, source_ref.project@), target_ref@),
        old(target_atom).is_none() ==> final(target_atom).is_none() && !r.save_target,
        old(target_atom).is_some() ==> final(target_atom).is_some()
            && views(final(target_atom).unwrap().links@) == without_reference(
            views(old(target_atom).unwrap().links@),
            (target_ref.org@, target_ref.project@),
            source_ref@,
        ) && same_but_links(old(target_atom).unwrap(), final(target_atom).unwrap())
            && r.save_target == refers_to(
            views(old(target_atom).unwrap().links@),
            (target_ref.org@, target_ref.project@),
            source_ref@,
        ),
        r.response.removed == (r.save_source || r.save_target),
        r.response.source@ == full_path(source_ref.org@, source_ref.project@, source_ref.id@),
        r.response.target@ == full_path(target_ref.org@, target_ref.project@, target_ref.id@),
{
    let forward = remove_reference(source_atom, &owner_context(source_ref), target_ref);
    let backward = match target_atom {
        Some(t) => remove_reference(t, &owner_context(target_ref), source_ref),
        None => false,
    };
    UnlinkOutcome {
        response: UnlinkResponse {
            source: source_ref.to_full_path(),
            target: target_ref.to_full_path(),
            removed: forward || backward,
        },
        save_source: forward,
        save_target: backward,
    }
}

/// A linkable target's storage form, read back from the owner, names the target.
pub proof fn lemma_storage_link_resolves(owner: (Seq<char>, Seq<char>), target: (Seq<char>, Seq<char>, Seq<char>))
    requires
        linkable(owner, target),
    ensures
        parse_ref(storage_link(owner.1, target.1, target.2), owner) == target,
{
    let s = storage_link(owner.1, target.1, target.2);
    if owner.1 != target.1 {
        let i = target.1.len() as int;
        assert(s[i] == '/');
        assert forall|j: int| 0 <= j < i implies s[j] != '/' by {
            assert(s[j] == target.1[j]);
        }
        lemma_first_index(s, '/', i);
        assert(s.take(i) =~= target.1);
        assert(s.skip(i + 1) =~= target.2);
    }
}

/// After a reference to a linkable target is added, the links refer to it.
pub proof fn law_added_reference_refers(
    links: Seq<Seq<char>>,
    owner: (Seq<char>, Seq<char>),
    target: (Seq<char>, Seq<char>, Seq<char>),
)
    requires
        linkable(owner, target),
    ensures
        refers_to(with_reference(links, owner, target), owner, target),
{
    if !refers_to(links, owner, target) {
        lemma_storage_link_resolves(owner, target);
        let l = with_reference(links, owner, target);
        assert(parse_ref(l[links.len() as int], owner) == target);
    }
}

/// Adding a reference twice is the same as adding it once.
pub proof fn law_add_reference_idempotent(
    links: Seq<Seq<char>>,
    owner: (Seq<char>, Seq<char>),
    target: (Seq<char>, Seq<char>, Seq<char>),
)
    requires
        linkable(owner, target),
    ensures
        with_reference(with_reference(links, owner, target), owner, target) == with_reference(
            links,
            owner,
            target,
        ),
{
    law_added_reference_refers(links, owner, target);
}

/// After the references to a target are removed, none is left.
pub proof fn law_removed_reference_gone(
    links: Seq<Seq<char>>,
    owner: (Seq<char>, Seq<char>),
    target: (Seq<char>, Seq<char>, Seq<char>),
)
    ensures
        !refers_to(without_reference(links, owner, target), owner, target),
{
    let pred = |l: Seq<char>| parse_ref(l, owner) != target;
    let w = without_reference(links, owner, target);
    assert forall|i: int| 0 <= i < w.len() implies parse_ref(w[i], owner) != target by {
        links.lemma_filter_pred(pred, i);
    }
}

/// Removing references from links that hold none changes nothing.
pub proof fn lemma_without_absent(
    links: Seq<Seq<char>>,
    owner: (Seq<char>, Seq<char>),
    target: (Seq<char>, Seq<char>, Seq<char>),
)
    requires
        !refers_to(links, owner, target),
    ensures
        without_reference(links, owner, target) == links,
    decreases links.len(),
{
    reveal(Seq::filter);
    if links.len() > 0 {
        let d = links.drop_last();
        assert forall|i: int| 0 <= i < d.len() implies #[trigger] parse_ref(d[i], owner) != target by {
            assert(d[i] == links[i]);
        }
        lemma_without_absent(d, owner, target);
        assert(parse_ref(links[links.len() - 1], owner) != target);
        assert(links =~= d.push(links.last()));
    }
}

/// Unlinking undoes a link: removing the reference that was just added to
/// links that held none gives back the links as they were.
pub proof fn law_unlink_undoes_link(
    links: Seq<Seq<char>>,
    owner: (Seq<char>, Seq<char>),
    target: (Seq<char>, Seq<char>, Seq<char>),
)
    requires
        linkable(owner, target),
        !refers_to(links, owner, target),
    ensures
        without_reference(with_reference(links, owner, target), owner, target) == links,
{
    reveal(Seq::filter);
    lemma_storage_link_resolves(owner, target);
    let added = links.push(storage_link(owner.1, target.1, target.2));
    assert(added.drop_last() =~= links);
    lemma_without_absent(links, owner, target);
}

/// Links are mutual: after `link`, each of two linkable atoms refers to the
/// other, whatever either held before.
pub proof fn law_link_is_mutual(
    source_links: Seq<Seq<char>>,
    target_links: Seq<Seq<char>>,
    source: (Seq<char>, Seq<char>, Seq<char>),
    target: (Seq<char>, Seq<char>, Seq<char>),
)
    requires
        linkable((source.0, source.1), target),
        linkable((target.0, target.1), source),
    ensures
        refers_to(with_reference(source_links, (source.0, source.1), target), (source.0, source.1), target),
        refers_to(with_reference(target_links, (target.0, target.1), source), (target.0, target.1), source),
{
    law_added_reference_refers(source_links, (source.0, source.1), target);
    law_added_reference_refers(target_links, (target.0, target.1), source);
}

/// Linking two atoms that did not reference each other, then unlinking
/// them, gives both atoms back the links they had before.
pub proof fn law_link_then_unlink_restores_both(
    source_links: Seq<Seq<char>>,
    target_links: Seq<Seq<char>>,
    source: (Seq<char>, Seq<char>, Seq<char>),
    target: (Seq<char>, Seq<char>, Seq<char>),
)
    requires
        linkable((source.0, source.1), target),
        linkable((target.0, target.1), source),
        !refers_to(source_links, (source.0, source.1), target),
        !refers_to(target_links, (target.0, target.1), source),
    ensures
        without_reference(with_reference(source_links, (source.0, source.1), target), (source.0, source.1), target)
            == source_links,
        without_reference(with_reference(target_links, (target.0, target.1), source), (target.0, target.1), source)
            == target_links,
{
    law_unlink_undoes_link(source_links, (source.0, source.1), target);
    law_unlink_undoes_link(target_links, (target.0, target.1), source);
}

/// Link two atoms so each one references the other: `source_atom` and
/// `target_atom` are the atoms the request names, as stored. Linking needs an
/// explicit context, and refuses an atom linked to itself and atoms of two
/// orgs; a refused link changes neither atom.
pub fn link(req: &LinkRequest, detected: DetectedContext, source_atom: &mut Atom, target_atom: &mut Atom) -> (r: Result<LinkOutcome, AtlasError>)
    ensures
        detected.source == crate::context::ContextSource::Fallback ==> (r matches Err(e) && e is Context),
        detected.source != crate::context::ContextSource::Fallback ==> {
            let s = parse_ref(req.source@, detected.context@);
            let t = parse_ref(req.target@, detected.context@);
            if s.0 != t.0 {
                r matches Err(e) && e is Validation && e.message() == cross_org_message()
            } else if s == t {
                r matches Err(e) && e is Validation && e.message() == self_link_message()
            } else {
                r matches Ok(o) && {
                    &&& views(final(source_atom).links@) == with_reference(views(old(source_atom).links@), (s.0, s.1), t)
                    &&& views(final(target_atom).links@) == with_reference(views(old(target_atom).links@), (t.0, t.1), s)
                    &&& same_but_links(*old(source_atom), *final(source_atom))
                    &&& same_but_links(*old(target_atom), *final(target_atom))
                    &&& o.save_source == !refers_to(views(old(source_atom).links@), (s.0, s.1), t)
                    &&& o.save_target == !refers_to(views(old(target_atom).links@), (t.0, t.1), s)
                    &&& o.response.created == (o.save_source || o.save_target)
                    &&& o.response.source@ == full_path(s.0, s.1, s.2)
                    &&& o.response.target@ == full_path(t.0, t.1, t.2)
                }
            }
        },
        r is Err ==> *final(source_atom) == *old(source_atom) && *final(target_atom) == *old(target_atom),
{
    let (source_ref, target_ref) = link_ends(req, detected)?;
    Ok(link_atoms(&source_ref, &target_ref, source_atom, target_atom))
}

/// Remove the references two atoms hold to each other: `source_atom` is the
/// source as stored, `target_atom` the target (`None` when it is gone, whose
/// half is then left alone). Unlinking needs an explicit context and refuses
/// atoms of two orgs; a refused unlink changes neither atom.
pub fn unlink(
    req: &LinkRequest,
    detected: DetectedContext,
    source_atom: &mut Atom,
    target_atom: &mut Option<Atom>,
) -> (r: Result<UnlinkOutcome, AtlasError>)
    ensures
        detected.source == crate::context::ContextSource::Fallback ==> (r matches Err(e) && e is Context),
        detected.source != crate::context::ContextSource::Fallback ==> {
            let s = parse_ref(req.source@, detected.context@);
            let t = parse_ref(req.target@, detected.context@);
            if s.0 != t.0 {
                r matches Err(e) && e is Validation && e.message() == cross_org_message()
            } else {
                r matches Ok(o) && {
                    &&& views(final(source_atom).links@) == without_reference(views(old(source_atom).links@), (s.0, s.1), t)
                    &&& same_but_links(*old(source_atom), *final(source_atom))
                    &&& o.save_source == refers_to(views(old(source_atom).links@), (s.0, s.1), t)
                    &&& old(target_atom).is_none() ==> final(target_atom).is_none() && !o.save_target
                    &&& old(target_atom).is_some() ==> final(target_atom).is_some() && views(
                        final(target_atom).unwrap().links@,
                    ) == without_reference(views(old(target_atom).unwrap().links@), (t.0, t.1), s) && same_but_links(
                        old(target_atom).unwrap(),
                        final(target_atom).unwrap(),
                    ) && o.save_target == refers_to(views(old(target_atom).unwrap().links@), (t.0, t.1), s)
                    &&& o.response.removed == (o.save_source || o.save_target)
                    &&& o.response.source@ == full_path(s.0, s.1, s.2)
                    &&& o.response.target@ == full_path(t.0, t.1, t.2)
                }
            }
        },
        r is Err ==> *final(source_atom) == *old(source_atom) && *final(target_atom) == *old(target_atom),
{
    let (source_ref, target_ref) = resolve_pair(req, detected)?;
    Ok(unlink_atoms(&source_ref, &target_ref, source_atom, target_atom))
}

} // verus!
