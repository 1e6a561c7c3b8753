# keke

The core of a terminal coding agent as a Verus library: what its tools, its wire formats, its
remote servers and its interface compute, each function with a contract that Verus proves.

- `src/` is the library. The built-in tools are in `apply_patch`, `bash`, `grep`, `list_dir` and
  `write_file`, over `paths`, `support` and `workspace`. `wire` speaks to inference endpoints,
  `mcp` and `oauth` to remote tool servers. `app` is the state of the interface and `draw` what it
  puts on the screen; `transcript`, `input`, `selection`, `scroll`, `history`, `picker`, `plan`,
  `slash` and `file_search` are its parts. `text` and `cells` are what everything is written with.
- `tests/` runs the library on concrete values.
- `app/` is what the library leaves to the world: files, processes, the network and the terminal.

A law that relates several functions stands at the end of the module it is about, as a public
proof function. What is not proved is a handful of calls into other crates and the standard
library; each stands behind a function marked `external_body`, or an `assume_specification`, whose
comment says what it claims.
