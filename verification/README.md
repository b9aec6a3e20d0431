# unirun

Cross-platform command execution normalization for AI agents: one command
specification in, one normalized result out, whatever the platform, shell or
encoding.

The library under `src/` holds everything that decides: argument parsing,
launch plans, supervision of deadlines and aborts, output capping, decoding,
error classification, recipes and their layers, SSH and WinRM payloads,
background session records, and the MCP and ACP servers' routing. It is written
in Verus; each function states in its contract what it returns, and the laws
that relate functions are the public proof functions whose names start with
`law_`.

| Module | What it holds |
|---|---|
| `text`, `textmap`, `number`, `path` | texts, ordered maps, number formats, paths |
| `encoding`, `payload` | decoding of output, UTF-16 and base64 payloads |
| `spec` | execution specs and results |
| `exec` | launch plans, supervision, capped and streamed output, results |
| `error_maps`, `taxonomy` | error patterns and classification |
| `probe` | which shells and tools a host has |
| `recipe` | project recipes, registry layers, the capability cache |
| `transport`, `winrm` | remote runs |
| `session` | background sessions |
| `json`, `acp`, `mcp` | the two JSON-RPC servers |
| `cli` | the command line |

What the library takes from other crates and from the standard library without
proof stands behind functions marked `external_body` and behind
`assume_specification` items; a comment above each says what is taken for
granted.

The program under `app/` does the rest: it starts processes and signals them,
reads and writes files, pipes and sockets, and turns JSON and TOML into the
library's types and back.
