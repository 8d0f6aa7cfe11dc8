# loggytracy against Loki and VictoriaLogs

**Written by `compare/run.sh` on @@, from revision `@@` (`@@`). Do not edit
this file: it is written anew from the result JSON in `target/compare/`, and the
last time this repository kept a hand-written performance document beside its
artifacts the two disagreed on both the build and the verdict.**

`docs/VISION.md` states the claim this bed exists to test, and states it as a
falsifiable one:

> At an equal container memory limit, on the same corpus and the same machine,
> loggytracy answers `{...} | field="value"` over structured metadata — the
> shape an OTLP attribute produces — in materially less time than Loki, which
> does not index it, and not materially worse than VictoriaLogs, which
> columnizes it, without giving up ingest throughput or disk footprint.

It also says what publishing it honestly requires: *"Publishing the comparison
means publishing it when it loses."* The verdict is below, computed from the
numbers rather than asserted — and no timing ratio in this document is printed
for a shape whose answers disagreed, because a fast wrong answer is not a win.

