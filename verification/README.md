# atlas

A command-line store of small knowledge atoms (notes, gotchas, recipes,
decisions) for coding agents, organised by organisation and project. Atoms
can be linked to each other; a link is always mutual.

The decisions of the tool are a library verified with Verus; the command
line around it is ordinary Rust.

## Layout

- `src/` — the verified library.
  - `text.rs`: character-level string helpers (trimming, splitting,
    ordering, decimal digits) with their specifications.
  - `error.rs`: the error type.
  - `context.rs`: project context (org/project), name validation, git
    remote and `.atlas/config.yaml` parsing, and context detection by
    priority.
  - `reference.rs`: atom references (`org/project/id`, `project/id`, `id`)
    and scope filters.
  - `models.rs`: atoms, index entries and the project index (id
    generation, upsert, removal).
  - `link.rs`: mutual links between atoms and the laws they obey.
  - `write.rs`: creating and patching atoms, link resolution, array-field
    validation.
  - `atoms.rs`: listing, deletion with detachment of inbound links, index
    merging, project and context reports.
  - `telemetry.rs`: local usage counters with a daily retention window,
    and journal trimming.
  - `cli.rs`, `client_context.rs`: the commands and how their arguments
    and piped input become requests; the agent instructions.
- `app/` — the binary: argument parsing, files on disk, stdin, git, and
  output formatting.
- `tests/` — tests of the library.

## Storage

```
~/.atlas/                     (or $ATLAS_STORAGE)
├── orgs/{org}/{project}/
│   ├── index.yaml
│   └── atoms/{id}.yaml
└── telemetry/
    ├── config.yaml
    ├── events.jsonl
    └── metrics.yaml
```
