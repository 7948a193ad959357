# reasondb_core

The core of ReasonDB, a reasoning-native document database: documents are
stored as trees of `PageNode`s, and queries are written in RQL, a small
SQL-like language.

The library under `src/` is written in Verus. Its functions carry contracts
that Verus proves, except for a few small trusted wrappers around outside
calls (the clock, random UUIDs, SHA-256, hex, lowercasing and the regex
crate), whose contracts are assumed and say what the outside code does.

- `model` — `PageNode`, `Document`, `NodeMetadata`, with views that the
  contracts speak of.
- `store` — the `NodeStore`: nodes, documents and the document-to-nodes
  index, with the laws that tie its operations together (a read gives back
  the last write, deleting a document deletes the nodes that its index
  lists, ...).
- `table` — a sorted association list from strings to values, viewed as a
  `Map`.
- `rql` — the query language: `lexer` (text to tokens), `grammar` (the
  language as spec functions over tokens), `parser` (proved to follow the
  grammar), `builder`, `pattern` (`LIKE` via the regex crate) and
  `executor` (resolving the `FROM` table by ID, slug or display name,
  filtering, stable sorting and pagination, with laws).
- `auth` — API key hashing and format checks, and permission sets.
- `llm::health` — the health tracker of an LLM role.

`app/` holds what Verus does not see: the redb-backed persistent store, the
serde forms of the model types, and the conversion of JSON metadata into
query values.
