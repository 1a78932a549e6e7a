# kanbus

A git-backed issue tracker's core, written in Verus: the rules that decide
what an issue, a dependency, a comment or a Beads record becomes, each
function carrying a contract that Verus proves.

## Layout

- `src/` — the verified library.
  - `models.rs`, `json_value.rs`: issues, comments, agents, configuration,
    and JSON values as plain data, with their compact JSON text.
  - `issue_creation.rs`, `issue_update.rs`, `issue_comment.rs`: creating
    and updating issues and comments, short identifiers, duplicate titles,
    label edits.
  - `dependencies.rs`, `graph.rs`: dependency links, cycle detection,
    ready issues.
  - `hierarchy.rs`, `config.rs`, `config_loader.rs`: the issue hierarchy,
    the default configuration, its validation, the reading of the
    configuration and override files' YAML, and the merging of the
    configuration file, its overrides and `.env` lines.
  - `index.rs`: the in-memory index of issues by identifier, status, type,
    parent, label and blocking target, built from issues or from a cache.
  - `project_management.rs`: the values the project management guide is
    rendered from (rules, workflows, priorities, command examples), their
    JSON form, and the rendering of the guide's template.
  - `issue_lookup.rs`, `issue_listing.rs`, `file_io.rs`: resolving
    abbreviated identifiers, choosing the projects a listing covers (each
    found once, those with issues), and the one project directory a
    command works on.
  - `beads_write.rs`: Beads (JSONL) records: reading them line by line, new
    issues, comments, dependencies, updates and deletions.
  - `event_history.rs`: event records, payloads and paging.
  - `console_backend.rs`: issue lookup and the trees of active work.
  - `agents_management.rs`: the Kanbus section of AGENTS.md.
  - `issue_line.rs`, `issue_display.rs`, `cli.rs`: how issues are shown,
    command-line helpers, merging Beads and project views.
  - `daemon_protocol.rs`, `daemon_server.rs`, `daemon_paths.rs`: the
    daemon's protocol and answers.
  - `text.rs`, `paths.rs`, `ids.rs`, `agent_metadata.rs`, `console_local.rs`,
    `error.rs`: text, paths, identifiers, agent provenance, console helpers
    and errors.
- `tests/` — tests run against the compiled library.
- `app/` — the command line: files, arguments, finding the projects and
  the guide template, writing event files, printing around the library,
  and the serializable copies of the issue, event and configuration
  records.

Outside calls (JSON and YAML parsing, UUIDs, regular expressions, hashing,
random slugs, terminal colors, Unicode lowercase, template rendering) stand behind small trusted wrappers whose
contracts state what the called crate documents.
