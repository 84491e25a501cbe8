# rustyrag

A config-first retrieval-augmented-generation ETL framework: pipelines read documents from a
directory, parse and chunk them, embed the chunks and upsert them into a vector store; a query
service embeds questions, retrieves chunks, builds a prompt context and asks a language model.

## Layout

- `src/` — the verified library (Verus). It holds the configuration model and its validation,
  the adapter registry, `${VAR}` substitution, document hashing and point identifiers, the
  source's file filter and ordering, HTML/plain parsing, recursive and semantic chunking, BM25
  token counts, the idempotency state, the ETL and dry-run state machines, embedding batches,
  vector-store payloads, context and prompt building, and the parsing of streamed replies.
  Calls into `sha2`, `hex`, `text-splitter` and `html2text` stand behind small trusted wrappers
  whose contracts name what those crates return.
- `app/` — the program around the library: the CLI, YAML and `.env` loading, the HTTP API, the
  network clients for the embedding, language-model and Qdrant services, file I/O, and the
  floating-point scoring (BM25 weights, cosine similarity, hybrid reranking, cost estimates).
  It drives the library's state machines and performs the I/O they ask for.
- `tests/` — tests of the library's public functions on concrete values.
