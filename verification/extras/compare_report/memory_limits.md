## The memory limit the comparison could actually run at

The bed sweeps container memory limits and runs the rest of the pipeline at the
first one **every** system survives. A limit where one of them is killed is not
a failed setup to be retried past quietly; it is an ingest result at that
limit, and it is the first row of this comparison.

| limit | loggytracy survived / OOM | Loki survived / OOM | VictoriaLogs survived / OOM |
|---|---|---|---|
