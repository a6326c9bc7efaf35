# mini_codex

A local coding agent driven by an Ollama model (DeepSeek R1 by default), with its
decision logic verified by Verus.

The library (`src/`) holds everything the agent decides: how a model answer is read as
tool calls, how plans are cleaned of tool syntax, which paths and shell commands are
allowed, the texts the model and the user are shown (tool results, guidance, diffs,
previews, summaries), when a turn stops, and what the command line asks for. Each
public function states its result over a character-sequence model of the text.

The program (`app/`) reads the terminal and the environment, calls Ollama, runs the
shell, touches the file system, writes the JSONL session log and decodes JSON with
serde; it hands the library plain values and acts on what comes back.

Layout of `src/`:

- `text.rs`, `scan.rs`: the text model and the scanning primitives.
- `types.rs`: tool calls, outcomes, chat messages and decoder verdicts.
- `parser.rs`: reading tool calls out of an answer.
- `profile.rs`, `deepseek.rs`: model profiles, prompts and plan cleanup.
- `workspace.rs`, `tools.rs`: path resolution, command checks, tool dispatch, listings.
- `guidance.rs`, `diff.rs`, `failures.rs`: what is reported after tool calls.
- `agent.rs`, `cli.rs`, `session.rs`: the agent loop's decisions, the command line,
  time stamps.

The program takes `--workspace DIR` (or `-w DIR`; the current directory otherwise) and
reads `MINI_CODEX_MODEL`, `MINI_CODEX_OLLAMA_URL`, `MINI_CODEX_AUTO_APPROVE` and
`MINI_CODEX_PLAN_FIRST` from the environment.
