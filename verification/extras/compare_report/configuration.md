## Configuration, in full

Publish enough that a reader can find the bias. Both systems' complete
configuration is below, and the raw dumps are in `target/compare/`
(`loki_config.yaml`, `loki_config_defaults.yaml`, `loggytracy_startup.log`).

### Loki: every deviation from its own defaults

This is `GET /config` against the running process, diffed against
`GET /config?mode=defaults` from the same process — Loki's own report, not this
repository's claim about it. (`?mode=diff` answers `unsupported type <nil>` in
3.3.2, so the diff is taken here.) Entries that only assign a path, a ring
store or a replication factor are consequences of `common.path_prefix` and of
running one process; the ones that matter are `ingestion_rate_mb`,
`per_stream_rate_limit`, `max_global_streams_per_user`, `max_query_series`,
`max_entries_limit_per_query`, `compaction_interval` and `log_level`, and
`compare/loki-config.yaml` gives the reason for each beside it.

Deliberately left at Loki's default, and checked rather than assumed:
`reject_old_samples_max_age` (1w, the same window as loggytracy's
`max_timestamp_age`), `unordered_writes` (true), `allow_structured_metadata`
(true on v13), `max_streams_per_user` (0), `max_line_size`, the query frontend's
splitting and its embedded result cache, and `querier.max_concurrent`.

```diff
@@```

### loggytracy: the container's whole configuration surface

```
@@```

Everything else is `src/config.rs`'s default. Its startup log, which prints the
derived budgets:

```
@@```
