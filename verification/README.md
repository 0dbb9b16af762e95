# piso

`piso` is the core of a terminal coding agent: it talks to language-model
providers, streams their answers, runs file and shell tools for the model,
keeps sessions on disk and lets extensions hook into every step.

The logic is written in Verus. Each public function states what it returns
in `requires` / `ensures` over mathematical models (`Seq`, `Map`, `int`)
and Verus proves the code against those contracts.

## Layout

- `src/` — the verified library.
  - `text`, `json_text`, `json`: string, UTF-8 and JSON helpers used everywhere.
  - `diff`, `edit`, `read`, `truncate`, `search`, `tool_output`, `tools`,
    `tool_registry`: the tools the agent offers and the text they report.
  - `message`, `transform`, `requests`, `drivers`, `sse`, `llm_stream`:
    requests to the providers and the decoding of their streamed answers.
  - `agent_loop`, `conversation`, `compaction`, `token_est`: the turn-taking
    of the agent and the bounds it keeps on the context.
  - `session`, `session_log`, `export`, `markdown`: sessions on disk and
    their export to HTML.
  - `hooks`, `extension`, `ext_store`: extensions and the hooks they register.
  - `prompt`, `skills`, `context`, `fileref`: what goes into the system prompt
    and the user's message.
  - `cli`, `config`, `auth`, `oauth`, `launch`, `rpc`, `subcommands`:
    command-line and RPC decisions, settings and credentials.
  - `paths`, `version`, `runtime`, `lsp`, `completion_item_kind`: smaller
    helpers and tables.
  - `laws`: properties that span several functions, stated and proved once.
- `tests/` — tests on concrete values, run against the compiled library.
- `app/` — the program around the library: argument parsing, files, network,
  terminal and process handling.

Functions that call other crates (regular expressions, base64, paths, time)
do so through small wrappers whose contracts say what those crates promise;
everything built on top of them is verified.
