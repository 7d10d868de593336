# rocinante

A terminal coding agent. The logic lives in a library that is verified with
Verus; a thin command-line frontend runs it against an Ollama server.

## Layout

- `src/`: the verified library. Every function has a `requires`/`ensures`
  contract that is stated over spec functions and views, and Verus proves
  it. The library covers:
  - configuration values and model resolution (`config`);
  - provider planning and the model catalog (`provider_factory`);
  - request bodies for each provider's wire format (`wire`);
  - streaming-response assembly (`stream`, `ollama`);
  - the bookkeeping of an agent turn, with its iteration and repair limits
    (`agent`);
  - tool-call scraping, repair and schema validation (`repair`);
  - permission rules and their precedence (`permissions`);
  - the tools' pure parts, such as truncation, diffs, edits and globs
    (`tools`, `tool_defs`, `edit`);
  - sessions, replay and compaction (`session`, `context`);
  - the memory file (`memory`), workspace trust (`trust`) and the state
    file (`state`);
  - LSP and MCP message handling (`lsp*`, `mcp`, `transport`, `uri`);
  - REPL command parsing and terminal rendering (`repl`, `terminal`);
  - subagent delegation (`task`) and skills (`skills`).

  Properties that span calls are stated either as public proof functions
  named `law_*` or in the contracts themselves, for example:
  - a turn makes at most its limit of model calls;
  - tool results come back in call order;
  - a deny rule always wins;
  - malformed rules are ignored;
  - a trusted project reads back as trusted;
  - a displayed interval parses back;
  - compaction replaces exactly its range.
- `tests/`: ordinary Rust tests of the library, run with the real outside
  crates linked.
- `app/`: the `rocinante` binary. It holds only what cannot be verified:
  - argument parsing (clap) and layered config loading (figment, serde);
  - HTTP to Ollama (reqwest, tokio);
  - file and process I/O for the read, write, edit and bash tools;
  - the terminal loop;
  - the floating-point size and tier notes of the delegation briefing.

## Trusted boundary

Calls into outside crates go through small `#[verifier::external_body]`
wrappers. Each wrapper's doc comment names the outside function and says
what its contract claims:
- `serde_json` for parsing and printing JSON;
- `toml` for the trust store and untrusted project configs;
- `globset` for glob matching;
- `jsonschema` for tool-argument validation;
- `similar` for unified diffs;
- `sha2` for checksums;
- `dirs` for the home directory;
- a few `std` string and path functions.

Where a result takes pages to state (a serialisation, a diff), the contract
names it with an uninterpreted spec function of the arguments alone. The
verified code is then proved against that name.

## Frontend scope

The frontend drives the following verified parts:
- the Ollama provider;
- the four basic tools;
- permissions, with "always allow";
- the turn loop: repair rounds, the tool-call format fallback, and results
  in call order (calls run one at a time);
- mode and model switching, with the last model remembered;
- `/trust`.

The other providers, sessions and resume, compaction, subagents, skills,
LSP, MCP and self-update are verified in the library but not wired into
this frontend; their REPL commands say so.
