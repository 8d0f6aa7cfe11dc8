## The same six shapes at each query limit

A `limit` above the number of rows a window holds never reaches the scan, so it measures an engine that cannot stop early as if it were one that can. The rows below are the same queries over the same dataset, differing only in the bound Grafana would have sent.

| shape | limit | loggytracy cold p50 | Loki cold p50 | VictoriaLogs cold p50 | lt / Loki | lt / VL | loggytracy lines read | Loki lines read | rows returned |
|---|---|---|---|---|---|---|---|---|---|
