# loggytracy

The parts of a log store that decide something, verified with Verus: what a push
may hold, how the journal is framed, replayed and compacted, when a flush may
move its checkpoint, what a delete request hides, how a filter over trigrams
prunes, and how the load, comparison and memory runs come to their verdicts.

- `src/` is the library. Every function states what it returns; the public proof
  functions state what holds across functions.
- `tests/` runs it on concrete values.
- `app/` holds the programs and the edges of the server: files, sockets, clocks
  and floating point.
- `extras/compare_report/` holds the fixed prose of the comparison page. A place
  that is marked `@@` is filled with what a run measured.

| module | what it holds |
|---|---|
| `bloom` | Bloom filters over trigrams, and the set that sizes them |
| `config`, `env` | the server's settings, out of environment variables and a memory budget |
| `corpus`, `corpus_laws` | the generator that every measurement draws its data from |
| `delete_requests` | requests that hide rows until a rewrite drops them |
| `flush` | the steps of a flush, and what undoes each |
| `ingest`, `log_ingest` | the limits of a push and of an export |
| `journal` | records, replay, the writer and compaction |
| `log_scan` | the steps and the bounds of a query, and the counting of its rows |
| `load` | the load harness: workload, queries, statistics and verdict |
| `memory_gate` | the run that holds a server against a memory budget |
| `compare` | the comparison of answers between systems |
| `model`, `push`, `tenant`, `rng`, `time`, `order`, `text`, `bytes`, `json`, `form`, `snappy`, `checks` | what the others are made of |
