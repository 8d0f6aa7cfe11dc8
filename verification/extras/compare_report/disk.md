## Bytes on disk

Measured per volume with `du -sb` inside each container, after the settle and
before the query phase, so every system had the same chance to flush, cut
chunks and compact.

| | loggytracy | Loki | VictoriaLogs |
|---|---|---|---|
@@
Breakdown:

* loggytracy — `@@`
* Loki — `@@`
* VictoriaLogs — `@@`

**The total row and the settled-data row say different things and the second is
the fairer one.**
loggytracy compacts its write-ahead log only when an object store is
configured — `flush.rs:219` passes `remote_cache.is_some()` as the `compact`
flag, so in the local-only mode this bed runs it in, the checkpoint offset
advances and the file never shrinks. Everything ever ingested is still in it,
uncompressed, because the WAL stores the decompressed protobuf rather than the
client's snappy (`todo.md`, M11). Loki truncates its ingester WAL on flush, so
its WAL row is kilobytes.

That difference is a **property of the configuration this bed chose**, not of
the engine as it is meant to be deployed, and reporting only the total would be
charging loggytracy for the bed's decision — the same defect as a rigged win,
pointed the other way. The settled-data row is the like-for-like number: parts
and sidecars against chunks and TSDB index. The total row is what an operator
running local-only actually gets, and it is not small.

The settle was @@ seconds. Loki's chunks were flushed explicitly first, because
Loki holds a chunk in its ingester until it has been idle for `chunk_idle_period`
(30 minutes) or has reached `max_chunk_age` (2 hours), and neither happens
inside a run that takes minutes; without the flush its disk number would be a
fact about the run's length. VictoriaLogs was told to flush its in-memory parts
for the same reason — its rows are not even *searchable* before that flush.
loggytracy flushes every five seconds at its default and needed no equivalent.

