# code_retriever

A code-retrieval library for repositories: it chunks source files along
their syntax, extracts symbols, builds a code graph of definitions, calls,
imports and data flow, finds paths through that graph, and answers the
searches and tool calls of a question-answering agent. The library is
written in Verus; its public functions state what they compute (apart from
the field-less constructors), and Verus proves it.

Layout:

- `src/` — the verified library. Parsing goes through tree-sitter, token
  counting through tiktoken, hashing through sha2 and hex, graph traversal
  through petgraph, pattern search through regex and globset; each of those
  calls stands behind a small trusted wrapper whose contract says what the
  library relies on.
- `tests/` — tests run against the compiled library with those crates linked.
- `app/` — the command-line program: walking the repository, reading and
  writing the index as JSON, and talking to the language model over plain
  HTTP (`http://` endpoints only). `app/retrieval.rs` keeps the
  floating-point score fusion of ranked retrieval; no command calls it yet,
  since ranked search needs the lexical and vector stores, which this
  program does not have. Symbol and regular-expression searches
  (`search --symbol`, and the case-sensitive `search --regex`) are
  available; the `grep` command and the agent's grep tool match regardless
  of case.
