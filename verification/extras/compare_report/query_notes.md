
`rate` is `sum(rate(...))` rather than a bare `rate(...)`, and that is a
measured decision rather than a stylistic one. Loki promotes structured
metadata into a metric's identity, so a bare `rate()` over this corpus returns
one series per `trace_id` on Loki and one series per stream on loggytracy —
neither the same amount of work nor a comparable answer. Summed, all three have
to produce the same number, which is what the row-equality check tests. Its
window equals the query step, because that is the one configuration in which
LogQL's sliding window and LogsQL's tumbling `_time` buckets ask the same
question.

`json_field`, `json_field_rare` and `metadata_rare` are three different
questions to the two systems that parse at query time and **one question asked
three ways** to VictoriaLogs, which parsed at ingest. Read those rows together:
the spread between them on the loggytracy side is what the parser stage and
the storage each cost, and the absence of a spread on the VictoriaLogs side is
its design.

