# kotlin-lsp core

The core of a language server for Kotlin, Java and Swift, written in Verus. Every function under
`src/` carries a contract, and the laws that hold across functions stand beside them as public
proof functions.

| Module | What it is |
|---|---|
| `rg` | ripgrep searches: patterns, arguments, output, ignore patterns, definitions, implementors, references |
| `stdlib` | hover texts and completions of the Kotlin standard library |
| `semantic_tokens` | legend, parameter uses, ordering and delta encoding of tokens, UTF-16 columns |
| `workspace`, `workspace_json` | configuration, source discovery, scan queue, lifecycle and events |
| `resolver` | imports, types read off source lines, completion matching |
| `types`, `str_ext`, `util` | shared data and string helpers |
| `text`, `chars`, `path`, `uri` | text, characters, paths and URIs as sequences of characters |
| `raw_path` | paths as bytes, which need not be UTF-8 |

`tests/` runs the library from outside. `app/` is ordinary Rust around it: it runs `rg`, reads
files, drives the event loop on tokio and converts to protocol types.

A few functions of other crates and of std are taken at their word: globbing (`globset`), `file:`
URLs (`url`, through `tower_lsp`), Unicode character classes and lower-casing. Their doc comments
say what is claimed of each.
