# agent_skills

Tooling for publishing Agent Skills — directories holding a `SKILL.md` whose
YAML frontmatter names and describes the skill — as GitHub releases, plus an
example MCP server and an example ORM model set.

## Layout

- `src/` — the verified library. Every function carries a `requires`/`ensures`
  contract that Verus proves, except three trusted items whose contracts are
  assumed: `debug_string` (`format!("{:?}", s)`), `to_lowercase`
  (`str::to_lowercase`) and the specification of `String::push`.
  - `text.rs` — trimming, splitting, prefixes and suffixes, decimal numbers,
    stated over the characters of a string.
  - `paths.rs` — joining `/`-separated paths, taking their final component,
    and ordering paths component by component as `PathBuf` does.
  - `skill.rs` — the skill model and assembling a parsed skill.
  - `validator.rs` — the publication rules, their violations and messages.
  - `archiver.rs` — release tags, archive names and archive entry names.
  - `order.rs` — lexicographic order and sorting artifacts by file name.
  - `pipeline.rs` — what a scan found, name collisions, build decisions.
  - `releases.rs` — the index of existing releases and the upload plan.
  - `repo.rs` — naming the GitHub repository from `owner/name` and remote URLs.
  - `sources.rs` — drift of skills from their upstream sources, and its summary.
  - `mcp.rs` — the answers of the example MCP server.
  - `cli.rs`, `store.rs` — command-line types, exit statuses, ORM data.
- `tests/` — tests of the library on concrete values.
- `app/` — the program: file system, `git`, GitHub, logging, command-line
  parsing, the MCP transports and the ORM models. Besides the skill commands
  it runs the example MCP server (`mcp-stdio`, `mcp-http`) and the ORM demo
  (`orm-demo`).
