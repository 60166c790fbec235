# ai_memory

Verified core of a memory store for AI assistants: memories with tiers,
namespaces and tags, kept in SQLite with full-text search.

- `src/` is the library, verified with Verus:
  - `text` — character-level string utilities (whitespace, trimming,
    splitting, ASCII case folding, lexicographic order).
  - `fts` — sanitization of user input into safe FTS5 queries, with the
    proof that sanitizing twice changes nothing and that every term is a
    quoted run of safe characters.
  - `validate` — removal of invisible Unicode characters from stored text.
  - `config` — feature tiers, their models and capability report, and the
    resolution of the tier, database path and service URLs.
  - `models` — memory tiers.
  - `store` — the decisions of the storage layer: tag encoding and
    filters, schema migration, bulk deletion, partial updates, recall
    filters, link checks and consolidation of several memories into one.
  - `upsert` — how a write under a title that the namespace already holds
    merges with the stored memory (a store, or a sync that keeps the newer
    content), with the proofs that neither lowers tier or priority and
    that repeating a write changes nothing.
  - `access` — what reading a memory does to it: access count, expiry
    extension, promotion to long-term and priority raises.
- `app/` holds what performs I/O or computes in floating point: the SQLite
  statements, ranking scores, embeddings, configuration files, the
  environment, and serialisable copies of the configuration types.
- `tests/` exercises the library.
