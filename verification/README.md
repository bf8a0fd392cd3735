# liteclaw

A lightweight local coding assistant: small command-line tools ("claws")
for reading, searching, editing and auditing files, a skill system, an
agent loop that lets a model call those tools, and a web chat server — with
a security kernel (the Defender) and a write sandbox in front of every
mutating action.

## Layout

- `src/` — the library, written in Verus and verified. It holds the logic:
  the Defender's rule tables, scoring and URL allow-list; the sandbox's path
  resolution; skill identity, SKILL.md splitting, merging and lookup; the
  streaming decoders for both model protocols; the agent loop as a state
  machine; every tool's checks and output; hooks and undo planning; the web
  server's sessions, history and payload shaping; and the selection of
  manual images. Each public function states its result in its contract;
  the laws that relate several functions are public proof functions.
- `tests/` — tests of the library on concrete values.
- `app/` — the `lc` program around the library: argument parsing, file
  system, processes, HTTP (model client and web server), JSON and YAML
  decoding, and the async plumbing.

Outside crates are reached from `src/` only through a few trusted items
(`regex` for the Defender's and grep's patterns, and a handful of standard
library conversions), each with a contract stating what the crate does.
