## Do they return the same rows?

This is the check that matters more than any timing, because a fast wrong
answer is not a win — and **no timing ratio below is printed for a shape whose
answers disagreed here**. All three systems hold the same entries by
construction — the same generator, the same seed, the same fixed log
timestamps — so the same query over the same absolute window has one right
answer.

Two bases, because there are two kinds of pair. Between the two systems that
store the line — loggytracy and Loki — each response is reduced to an
order-independent **strict** digest over the whole answer: one record per
returned entry holding its timestamp, its line, and every label that entry
carried together with where the response put it. A response that returns the
right lines under the wrong stream is therefore not equal. For `sum(rate(...))`
the digest is one record per series identity — so an extra empty series cannot
hide — plus one per sample, compared at six decimals.

Any pair containing VictoriaLogs is compared on the **reduced** basis: each
row's nanosecond timestamp plus the values of the fields the query itself
named. VictoriaLogs returns every field it holds for a row where the other two
answer with what the pipeline produced, so a basis of "all fields" compares
the storage models and disagrees always and everywhere — a basis
that did so once reported 0/24 zeros that were its own. What every system
returns for the same row is the row's time and the fields the query
constrained, so that is the basis, and it is deliberately the weaker claim of
the two. Field names are canonicalized the way the promoting systems sanitize
them — VictoriaLogs answers under the dotted `service.name` it was sent while
loggytracy and Loki answer under the promoted `service_name` — and a metric
answer's remaining representation difference — LogsQL labels a `_time` bucket
by its start where LogQL labels the sample by its evaluation point — is
converted with the query's own step, not exempted.

The digest was over `(timestamp, line)` pairs alone until this run, which is how
a `| json` label difference was once reported as 24 of 24 agreed (`todo.md`,
"Open correctness defects"). **No placement is exempt from it.** One was, for one
run: labels the seed pushed as structured metadata were digested without their
placement, because Loki promoted them into a log response's stream labels while
loggytracy returned them in the third element of each `values` tuple. That was
the same defect the `| json` shape was open as — the same slot — and it is fixed
rather than declared, so both sides now answer with one flat stream label set and
a two-element tuple, and a regression back into that slot is a disagreement here.

Two exemptions remain, both by name rather than by placement, both reported
below with counts rather than left implicit. `detected_level` is **dropped**,
because Loki derives it at ingest from the line and nothing in this bed pushes
one; `service_name` is no longer exempt — the OTLP encoder pushes the corpus's
`app` as `service.name`, so it is data every system is held to. And
`__error_details__` is compared by **presence with its value normalized**: an
answer missing the label is a disagreement — 16 of 24 `json_field_rare`
answers once were exactly that — while its wording is each engine's own parser
internals and matching it would be matching Loki's JSON library.

Two known differences are left, and neither is normalized away by the digest.
The metric step grid is handled by the query: `align_to_step` snaps every window
boundary to a whole `step`, so Loki's absolute-multiple alignment and
loggytracy's step-from-`start` produce the same instants. And an *unaggregated*
metric query still differs in series identity — Loki promotes a row's structured
metadata and extracted fields into it, loggytracy groups by stream labels and by
whatever the query names in `by`/`without` — which is why the matrix asks for
`sum(rate(...))`, and which is reported as a difference rather than hidden.

**loggytracy and Loki agreed on @@ of @@ queries on the strict
basis.** Every pair, per shape:

| shape | loggytracy = Loki (strict) | loggytracy = VictoriaLogs (reduced) | Loki = VictoriaLogs (reduced) |
|---|---|---|---|
