## The verdict on the claim

The claim is about one shape: `{...} | field="value"` over **structured
metadata**, with no parser stage — what an OTLP attribute produces. The three
systems genuinely differ here by design: loggytracy indexes structured metadata
into a per-row-group bloom, Loki stores it without indexing it, VictoriaLogs
turns it into a column. The claim has two halves and both must hold: materially
less time than Loki (below 0.9x), not materially worse than VictoriaLogs
(below 1.1x).

* `metadata_rare`, cold: @@
* `metadata_rare`, warm: @@
* against Loki, cold: @@
* against Loki, warm: @@
* against VictoriaLogs, cold: @@
* against VictoriaLogs, warm: @@
* ingest: loggytracy achieved @@ eps against Loki's @@ and VictoriaLogs' @@
* disk: @@

The previous claim's shape stays measured beside it: `json_field` cold is @@
against Loki and @@ against VictoriaLogs. That claim was measured, lost, and
replaced — moving the target does not retract the loss, and the row is here so
the reader can see it.

