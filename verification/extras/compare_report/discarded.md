
Loki discarded **@@** samples and VictoriaLogs dropped **@@** rows during their
runs. Every deviation this bed makes from either system's defaults exists to
keep those numbers at zero — a non-zero value would be this bed throttling a
system where loggytracy is unthrottled, which is a misconfiguration reported as
a loss, and that is the same defect as a rigged win.

Queries ran concurrently with ingest on every side at @@ qps — in each
system's own query language, at its own endpoint — so reads contended with
writes; those latencies are not the query measurement and are not reported
here. The query measurement is below, taken on a quiescent system over a
dataset all three hold identically.

