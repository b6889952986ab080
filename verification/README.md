# agent_memory_rs

A memory system for AI agents: episodes, semantic memories and procedures in
SQLite with vector search, daily consolidation into synopses and patterns,
and an MCP server and a CLI in front.

- `src/` is the verified library (Verus). It holds the decisions and texts
  the system is made of: request routing and validation, the consolidation
  counter and first-use gate, command-line parsing, keyword match counting,
  reciprocal rank fusion and top-k ranking with exact fractions, pattern
  extraction, daily synopsis text and counts, context budgeting, the
  similarity query builder, timestamp reading, batch padding for the
  embedding model, workspace paths, and number formatting and parsing.
- `app/` is the I/O around it: SQLite, the candle embedding model, model
  download, the rmcp server, the CLI entry points, and the floating-point
  scores (cosine similarity, BM25 logarithms, recency decay, health).
- `tests/` exercises the library on concrete values.
