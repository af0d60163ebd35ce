# semquery

Local search and cited answers for document collections. Files are split into
chunks, chunks are indexed by keyword and by vector, and a query is answered
from the passages that both searches, fused and reranked, find best.

## Layout

- `src/` is the library. Everything in it is verified with Verus: what a
  function returns is stated in its `ensures`, and what holds across functions
  is stated by the public proof functions whose names begin with `law_`.
- `app/` is the command-line program around it: files, SQLite, models, the
  terminal. It performs what the library decides.
- `tests/` runs the library.

| Part | Modules |
|---|---|
| Reading | `reader`, `reader_registry` |
| Chunking | `chunker`, `tokens`, `charsmap`, `text` |
| Indexing | `indexer`, `indexing`, `batch`, `incremental`, `hash`, `tokenizer` |
| Storage | `storage`, `sql` |
| Searching | `search`, `retriever`, `fusion`, `ranking`, `score` |
| Answering | `synthesizer`, `prompt`, `citation`, `llm` |
| Models | `registry`, `hub`, `rerank`, `loading` |
| Program | `engine`, `config`, `cli`, `verbose` |
| Shared | `models`, `error`, `traits` |

## State machines

Where work on files, the store or a model alternates with decisions, the
decisions are a state machine: `Search`, `Recall`, `Flush`,
`DirectoryIndexing`, `FileIndexing`, `SourceIndexing`, `Ask`, `Generation` and
`Loading`. Each takes what came of the last action and gives the next one. The
caller performs it.

## What is trusted

Calls into other crates stand behind small functions whose contracts are
believed, not proved. Each says in its doc comment what it claims: SHA-256
(`hash`), regular expressions (`citation`), word segmentation (`tokenizer`),
token counts (`tokens`), glob patterns (`reader_registry`), UTF-8
(`reader`), times (`storage`), the clock (`indexer`) and `String::push` (`text`).

Floating point stays in `app/`. In the library scores and vectors are held by
their bits, which is enough to compare, negate and store them.
