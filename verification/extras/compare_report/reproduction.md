## Reproducing this

```
compare/run.sh
```

That builds the loggytracy image, brings all three systems up under
`compare/docker-compose.yml` at `@@` per container, runs every phase, and
rewrites this file. It takes minutes rather than hours; the run this document
comes from settled for @@ seconds between ingest and query.

There is deliberately no other way to run a three-way comparison. The first
three-way numbers came from an ad-hoc shell loop that bypassed this script and
with it the agreement check, and a timing table went out over answers nobody
had compared — two of its six shapes were not even answering the same
question. The script is the path, and the check is on the path.

The knobs are defaults, not assignments — `COMPARE_MEMORY`,
`COMPARE_MEMORY_LIMITS`, `COMPARE_LOAD_EPS`, `COMPARE_LOAD_EVENTS`,
`COMPARE_VERIFY_ROWS`, `COMPARE_MATRIX_REPEATS`, `COMPARE_SETTLE_SECONDS`,
`COMPARE_SEED` — so a reader can vary one without editing the script.

Every number below comes from the JSON in
[`artifacts/m9/`](artifacts/m9/), which the same run copied out of
`target/compare/` — so the artifacts and the document cannot disagree about
which run they describe. That is not a formality: of the numbers this
repository retired, one cited artifact did not exist and another disagreed with
the document citing it on both build revision and verdict.

