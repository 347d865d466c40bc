# brainjar

Memory for AI agents: files from configured folders are chunked and indexed
in a local SQLite database (full-text, fuzzy-corrected, vector and
knowledge-graph search), and served on the command line or as an MCP server.

## Layout

- `src/` — the verified library (Verus). Each module states its behaviour
  in `requires`/`ensures` contracts over mathematical models, and the
  `law_*` proof functions state properties that span calls:
  - `chunk`, `chunk_laws` — splitting text, markdown and code into chunks;
  - `fuzzy` — edit distance, query correction, tokens and vocabulary;
  - `search`, `dedup` — search modes, query sanitising, filename scoring,
    first-occurrence and near-duplicate collapsing of results;
  - `sync`, `state` — content hashes, change sets, what is indexed, the
    per-knowledge-base sync state;
  - `config`, `init` — provider credentials, paths, the setup wizard's
    defaults and the `brainjar.toml` it writes;
  - `embed`, `extract`, `graph`, `db`, `mcp`, `local_search`,
    `treesitter`, `watch` — the decisions around embedding and extraction
    requests, graph upserts, the index, the MCP tools, local file search,
    code chunk kinds and watch-mode locks;
  - `text`, `paths` — string and path helpers the rest is built on.
- `app/` — the `brainjar` program: argument parsing, files, SQLite,
  HTTP, the graph database, the MCP loop, and the floating-point score
  fusion, around the library.
- `tests/` — tests of the library.
