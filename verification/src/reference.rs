//! Atom references: `org/project/K-000001`, `project/K-000001` or a bare
//! `K-000001`, where the current context fills in what is left out.
use vstd::prelude::*;

use crate::context::ProjectContext;
use crate::error::AtlasError;
use crate::text::{first_index, find_char, lemma_first_index, push_str, slice_chars, str_chars, string_eq, string_from_chars};

verus! {

/// A fully resolved atom reference.
#[derive(Debug, Clone)]
pub struct AtomRef {
    pub org: String,
    pub project: String,
    pub id: String,
}

impl View for AtomRef {
    type V = (Seq<char>, Seq<char>, Seq<char>);

    open spec fn view(&self) -> (Seq<char>, Seq<char>, Seq<char>) {
        (self.org@, self.project@, self.id@)
    }
}

/// `org/project/id`.
pub open spec fn full_path(org: Seq<char>, project: Seq<char>, id: Seq<char>) -> Seq<char> {
    org + seq!['/'] + project + seq!['/'] + id
}

/// The atom a reference names, read against the context `(org, project)`:
/// no `/` names an atom of the context's project; one `/` names a project
/// of the context's org; otherwise the text up to the first `/` is the org,
/// up to the second the project, and the rest the id.
pub open spec fn parse_ref(s: Seq<char>, ctx: (Seq<char>, Seq<char>)) -> (Seq<char>, Seq<char>, Seq<char>) {
    if !s.contains('/') {
        (ctx.0, ctx.1, s)
    } else {
        let i = first_index(s, '/');
        let rest = s.skip(i + 1);
        if !rest.contains('/') {
            (ctx.0, s.take(i), rest)
        } else {
            let j = first_index(rest, '/');
            (s.take(i), rest.take(j), rest.skip(j + 1))
        }
    }
}

impl AtomRef {
    pub fn new(org: String, project: String, id: String) -> (r: Self)
        ensures
            r.org == org,
            r.project == project,
            r.id == id,
    {
        AtomRef { org, project, id }
    }

    /// The reference as `org/project/id`.
    pub fn to_full_path(&self) -> (r: String)
        ensures
            r@ == full_path(self.org@, self.project@, self.id@),
    {
        format_atom_reference(self.org.as_str(), self.project.as_str(), self.id.as_str())
    }

    /// Whether two references name the same atom.
    pub fn same_as(&self, other: &AtomRef) -> (r: bool)
        ensures
            r == (self@ == other@),
    {
        string_eq(&self.org, &other.org) && string_eq(&self.project, &other.project) && string_eq(
            &self.id,
            &other.id,
        )
    }
}

/// Format `org/project/id`.
pub fn format_atom_reference(org: &str, project: &str, id: &str) -> (r: String)
    ensures
        r@ == full_path(org@, project@, id@),
{
    let mut v: Vec<char> = Vec::new();
    push_str(&mut v, org);
    v.push('/');
    push_str(&mut v, project);
    v.push('/');
    push_str(&mut v, id);
    string_from_chars(&v)
}

/// Resolve an atom reference against the current context.
pub fn parse_atom_reference(input: &str, ctx: &ProjectContext) -> (r: AtomRef)
    ensures
        r@ == parse_ref(input@, ctx@),
{
    let v = str_chars(input);
    assert(v@.skip(0) =~= v@);
    match find_char(&v, 0, '/') {
        None => AtomRef::new(ctx.org.clone(), ctx.project.clone(), String::from_str(input)),
        Some(i) => {
            proof {
                lemma_first_index(v@, '/', i as int);
            }
            let ghost rest = v@.skip(i + 1);
            match find_char(&v, i + 1, '/') {
                None => {
                    let project = slice_chars(&v, 0, i);
                    let id = slice_chars(&v, i + 1, v.len());
                    assert(project@ =~= v@.take(i as int));
                    assert(id@ =~= rest);
                    AtomRef::new(ctx.org.clone(), string_from_chars(&project), string_from_chars(&id))
                },
                Some(k) => {
                    proof {
                        lemma_first_index(rest, '/', k - (i + 1));
                    }
                    let org = slice_chars(&v, 0, i);
                    let project = slice_chars(&v, i + 1, k);
                    let id = slice_chars(&v, k + 1, v.len());
                    assert(org@ =~= v@.take(i as int));
                    assert(project@ =~= rest.take(k - (i + 1)));
                    assert(id@ =~= rest.skip(k - (i + 1) + 1));
                    AtomRef::new(
                        string_from_chars(&org),
                        string_from_chars(&project),
                        string_from_chars(&id),
                    )
                },
            }
        },
    }
}

/// A full path whose org and project hold no `/` reads back as the same
/// reference, whatever the context.
pub proof fn law_full_path_round_trip(
    org: Seq<char>,
    project: Seq<char>,
    id: Seq<char>,
    ctx: (Seq<char>, Seq<char>),
)
    requires
        !org.contains('/'),
        !project.contains('/'),
    ensures
        parse_ref(full_path(org, project, id), ctx) == (org, project, id),
{
    let s = full_path(org, project, id);
    let i = org.len() as int;
    assert(s[i] == '/');
    assert forall|j: int| 0 <= j < i implies s[j] != '/' by {
        assert(s[j] == org[j]);
    }
    lemma_first_index(s, '/', i);
    let rest = s.skip(i + 1);
    assert(rest =~= project + seq!['/'] + id);
    let k = project.len() as int;
    assert(rest[k] == '/');
    assert forall|j: int| 0 <= j < k implies rest[j] != '/' by {
        assert(rest[j] == project[j]);
    }
    lemma_first_index(rest, '/', k);
    assert(s.take(i) =~= org);
    assert(rest.take(k) =~= project);
    assert(rest.skip(k + 1) =~= id);
}

/// The org and, when one is named, the project that a scope selects:
/// no scope means the context's org; `org` means that org; `org/project`
/// means that project.
pub open spec fn scope_of(scope: Option<Seq<char>>, ctx: (Seq<char>, Seq<char>)) -> Option<(Seq<char>, Option<Seq<char>>)> {
    match scope {
        None => Some((ctx.0, None)),
        Some(s) => if !s.contains('/') {
            if s.len() == 0 { None } else { Some((s, None)) }
        } else {
            let i = first_index(s, '/');
            let rest = s.skip(i + 1);
            if rest.contains('/') || i == 0 || rest.len() == 0 {
                None
            } else {
                Some((s.take(i), Some(rest)))
            }
        },
    }
}

/// The message for a scope that names neither an org nor an org/project pair.
pub open spec fn invalid_scope_message(scope: Seq<char>) -> Seq<char> {
    "Invalid scope '"@ + scope + "': expected <org> or <org>/<project>"@
}

/// Parse a scope filter: an org name or an `org/project` path.
pub fn parse_scope(scope: Option<&str>, ctx: &ProjectContext) -> (r: Result<(String, Option<String>), AtlasError>)
    ensures
        match scope_of(
            match scope {
                Some(s) => Some(s@),
                None => None,
            },
            ctx@,
        ) {
            Some((org, project)) => r matches Ok((o, p)) && o@ == org && match p {
                Some(p) => project == Some(p@),
                None => project.is_none(),
            },
            None => r matches Err(e) && e is Validation && e.message() == invalid_scope_message(
                scope.unwrap()@,
            ),
        },
{
    match scope {
        None => Ok((ctx.org.clone(), None)),
        Some(s) => {
            let v = str_chars(s);
            assert(v@.skip(0) =~= v@);
            match find_char(&v, 0, '/') {
                None => {
                    if v.len() == 0 {
                        Err(invalid_scope(s))
                    } else {
                        Ok((String::from_str(s), None))
                    }
                },
                Some(i) => {
                    proof {
                        lemma_first_index(v@, '/', i as int);
                    }
                    let second = find_char(&v, i + 1, '/');
                    if second.is_some() || i == 0 || i + 1 == v.len() {
                        Err(invalid_scope(s))
                    } else {
                        let org = slice_chars(&v, 0, i);
                        let project = slice_chars(&v, i + 1, v.len());
                        assert(org@ =~= v@.take(i as int));
                        assert(project@ =~= v@.skip(i + 1));
                        Ok((string_from_chars(&org), Some(string_from_chars(&project))))
                    }
                },
            }
        },
    }
}

fn invalid_scope(scope: &str) -> (e: AtlasError)
    ensures
        e is Validation,
        e.message() == invalid_scope_message(scope@),
{
    let mut m = String::from_str("Invalid scope '");
    m.append(scope);
    m.append("': expected <org> or <org>/<project>");
    AtlasError::Validation(m)
}

} // verus!
