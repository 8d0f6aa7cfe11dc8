## What was compared

| | loggytracy | Loki | VictoriaLogs |
|---|---|---|---|
| build | `@@` (`@@`) | `@@` (`@@`) | `@@` |
| image | built from `Dockerfile` at that revision | `@@` | `@@` |
| storage | local filesystem, **no object store** | local filesystem (`common.storage.filesystem`) | local filesystem (`-storageDataPath`) |
| index | Parquet parts plus `index.bin` sidecars | TSDB, schema `v13`, 24h period | per-block columns plus its own indexdb |
| data model | stores the line, parses at query time | stores the line, parses at query time | stores the line, parses at query time (its ingest-time JSON parse is a property of its Loki push endpoint, which this bed no longer uses) |
| memory limit | @@ | identical | identical (`mem_limit` and `memswap_limit`) |
| CPU limit | none | none | none |
| volume | `loggytracy-data` | `loki-data` | `victorialogs-data` |

Machine: @@. Docker @@, Compose @@.

The data-model row changed with the ingest protocol. Under Loki push,
VictoriaLogs parsed a JSON line into fields at write time and did not keep the
line; under OTLP it stores the body as `_msg` unparsed (measured, v1.52.0), so
a field the other two reach through `| json` it now reaches through
`| unpack_json` — the parser stage is paid at query time on all three, and the
`json_field` / `metadata_rare` pair separates parsed-line from attribute
storage on every system. What still differs is what a row *is*: VictoriaLogs
answers with every field it holds where the other two answer with what the
pipeline produced, which is why every pair containing it is compared on the
reduced basis below.

**Why loggytracy runs with no object store.** Loki's filesystem backend keeps
exactly one durable copy of a chunk on local disk, and so does VictoriaLogs.
Pointing loggytracy at a `file://` object store would make it keep a local part
*and* a remote copy of the same part, so the bytes-on-disk axis would be
measuring the bed rather than the engine. Local-only is the configuration that
makes the three comparable. It is also the configuration in which loggytracy's
object-store request counters are all zero, which is half of why that axis is
deferred below.

Everything else on the loggytracy side is the engine's own default. The
container sets three variables — the listen addresses and the data directory —
and nothing else. Its full environment and its startup log are at the end of
this document, beside Loki's config diff and VictoriaLogs' non-default flags.

