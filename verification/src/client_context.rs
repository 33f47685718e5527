//! Which agent the instructions are written for.
use vstd::prelude::*;

use crate::text::{to_lowercase, unicode_lowercase};

verus! {

/// Client context determines which instructions are shown to the AI agent.
/// Different clients have different workflows and emphases.
#[derive(Debug, Clone, Copy, PartialEq, Eq, Structural)]
pub enum ClientContext {
    /// Agentic coding CLIs - agentic coding with proactive knowledge use (named `agent`)
    ClaudeCode,
    /// IDE assistants (VSCode, Cursor) - reactive, code-focused
    Ide,
    /// OpenAI Codex CLI - code generation focused
    Codex,
}

impl Default for ClientContext {
    fn default() -> (r: Self)
        ensures
            r == ClientContext::ClaudeCode,
    {
        ClientContext::ClaudeCode
    }
}

/// The instructions written for each client.
pub open spec fn instructions_text(c: ClientContext) -> Seq<char> {
    match c {
        ClientContext::ClaudeCode => INSTRUCTIONS_CLAUDE_CODE@,
        ClientContext::Ide => INSTRUCTIONS_IDE@,
        ClientContext::Codex => INSTRUCTIONS_CODEX@,
    }
}

/// The name of each client as the command line spells it.
pub open spec fn client_name(c: ClientContext) -> Seq<char> {
    match c {
        ClientContext::ClaudeCode => "agent"@,
        ClientContext::Ide => "ide"@,
        ClientContext::Codex => "codex"@,
    }
}

/// The message for a name that is no client.
pub open spec fn unknown_client_message(s: Seq<char>) -> Seq<char> {
    "unknown client context '"@ + s + "', expected: agent, ide, codex"@
}

impl ClientContext {
    /// Returns the instructions tailored for this client context.
    pub fn instructions(&self) -> (r: &'static str)
        ensures
            r@ == instructions_text(*self),
    {
        match self {
            ClientContext::ClaudeCode => INSTRUCTIONS_CLAUDE_CODE,
            ClientContext::Ide => INSTRUCTIONS_IDE,
            ClientContext::Codex => INSTRUCTIONS_CODEX,
        }
    }

    /// The client's name as the command line spells it.
    pub fn to_string(&self) -> (r: String)
        ensures
            r@ == client_name(*self),
    {
        match self {
            ClientContext::ClaudeCode => String::from_str("agent"),
            ClientContext::Ide => String::from_str("ide"),
            ClientContext::Codex => String::from_str("codex"),
        }
    }

    /// The client a name designates, in any letter case.
    pub fn parse_name(s: &str) -> (r: Result<Self, String>)
        ensures
            (exists|c: ClientContext| client_name(c) == unicode_lowercase(s@)) ==> (r matches Ok(c)
                && client_name(c) == unicode_lowercase(s@)),
            !(exists|c: ClientContext| client_name(c) == unicode_lowercase(s@)) ==> (r matches Err(m)
                && m@ == unknown_client_message(s@)),
    {
        let lower = to_lowercase(s);
        let first = String::from_str("agent");
        let ide = String::from_str("ide");
        let codex = String::from_str("codex");
        if lower == first {
            assert(client_name(ClientContext::ClaudeCode) == unicode_lowercase(s@));
            Ok(ClientContext::ClaudeCode)
        } else if lower == ide {
            assert(client_name(ClientContext::Ide) == unicode_lowercase(s@));
            Ok(ClientContext::Ide)
        } else if lower == codex {
            assert(client_name(ClientContext::Codex) == unicode_lowercase(s@));
            Ok(ClientContext::Codex)
        } else {
            assert forall|c: ClientContext| client_name(c) != unicode_lowercase(s@) by {
                match c {
                    ClientContext::ClaudeCode => {},
                    ClientContext::Ide => {},
                    ClientContext::Codex => {},
                }
            }
            let mut m = String::from_str("unknown client context '");
            m.append(s);
            m.append("', expected: agent, ide, codex");
            Err(m)
        }
    }
}

impl std::str::FromStr for ClientContext {
    type Err = String;

    fn from_str(s: &str) -> (r: Result<Self, Self::Err>)
        ensures
            (exists|c: ClientContext| client_name(c) == unicode_lowercase(s@)) ==> (r matches Ok(c)
                && client_name(c) == unicode_lowercase(s@)),
            !(exists|c: ClientContext| client_name(c) == unicode_lowercase(s@)) ==> (r matches Err(m)
                && m@ == unknown_client_message(s@)),
    {
        ClientContext::parse_name(s)
    }
}

pub const INSTRUCTIONS_CLAUDE_CODE: &'static str = r#"Atlas CLI - Long-term memory for AI agents.

WORKFLOW (optimized for agentic coding CLIs):
1. SEARCH first - Run `atlas search "<query>"` before planning work
2. READ full atoms - Run `atlas get <id>` for each relevant result
3. APPLY knowledge - Let retrieved atoms constrain your approach
4. RECORD learnings - After completing work, run `atlas create` for new atoms or `atlas update --id <id>` for existing atoms
5. LINK related atoms - Connect related knowledge with `atlas link`

Use Atlas proactively: search before planning, record after learning.

ATOM TYPES:
- note: Facts, observations, domain knowledge
- gotcha: Warnings, pitfalls, "watch out for X"
- recipe: Patterns, how-to guides, code snippets
- decision: Architectural rationale, why X over Y

ATOM IDs:
- All IDs returned as full paths: "org/project/K-000001"
- Accepts: full path, "project/K-000001", or bare "K-000001" (context fills gaps)
- Cross-project/org operations use full paths

LINKING:
- Use link/unlink to create directed connections between atoms
- Links are directed: A links to B does NOT mean B links to A
- Cross-project links supported within same org

CONTEXT: Auto-detected from `--org/--project`, `.atlas/`, git remote, then fallback. Use `atlas context` to verify. If fallback is wrong, rerun commands with `--org <org> --project <project>`.

CITATION: Reference atom IDs in reasoning, e.g., [K-000042]

PIPE-FRIENDLY USAGE:
- `printf '%s\n' "$REQUEST" | atlas search`
- `atlas search "error handling" --ids | xargs atlas get`
- `cat notes.md | atlas create --title "Pattern" --type recipe --confidence high --summary "Short summary" --details -`"#;

pub const INSTRUCTIONS_IDE: &'static str = r#"Atlas CLI - Long-term memory for AI agents.

WORKFLOW (optimized for IDE assistants):
1. SEARCH - Run `atlas search "<query>"` when users ask about patterns or conventions
2. GET - Run `atlas get <id>` for detailed guidance
3. APPLY - Use retrieved knowledge to inform code suggestions
4. RECORD - Capture useful patterns with `atlas create`, or revise known patterns with `atlas update --id <id>`

Focus on code patterns, conventions, and project-specific knowledge.

ATOM TYPES:
- note: Facts, observations, domain knowledge
- gotcha: Warnings, pitfalls, "watch out for X"
- recipe: Patterns, how-to guides, code snippets
- decision: Architectural rationale, why X over Y

ATOM IDs: Commands accept full path, project/id, or bare id.

CONTEXT: Auto-detected from `--org/--project`, `.atlas/`, git remote, then fallback. Use `atlas context`.

PIPE-FRIENDLY USAGE:
- Pipe text into `atlas search` when the query is already available on stdin
- Use `atlas atoms --ids` or `atlas search --ids` when another command needs atom IDs"#;

pub const INSTRUCTIONS_CODEX: &'static str = r#"Atlas CLI - Long-term memory for AI agents.

WORKFLOW (optimized for Codex CLI):
1. SEARCH - Query relevant context before generating code: `atlas search "<query>"`
2. GET - Retrieve full atoms for detailed patterns: `atlas get <id>`
3. RECORD - Record reusable patterns after successful work: `atlas create ...`
4. LINK - Connect related knowledge atoms: `atlas link <source> <target>`

Prioritize recipes and gotchas for code generation tasks.

ATOM TYPES: note, gotcha, recipe, decision

ATOM IDs: Full path (org/project/id), project/id, or bare id

CONTEXT: Auto-detected from `--org/--project`, `.atlas/`, git remote, then fallback

PIPE-FRIENDLY USAGE:
- `printf '%s\n' "$TASK" | atlas search --page-size 10`
- `atlas search "api client" --ids | xargs atlas get`
- `cat finding.md | atlas create --title "API client timeout gotcha" --type gotcha --confidence high --summary "Timeouts must be explicit" --details - --tag api --tag timeout`"#;


} // verus!
