**Loki answers this window from memory and loggytracy answers it from disk.** Loki keeps flushed chunks resident and `query_ingesters_within` is three hours by default, so every query in the matrix hits the ingester's in-memory chunks as well as the store. loggytracy has no equivalent: after a restart its rows are in Parquet parts and it reads them. Both are each system's default behaviour and neither was changed, but it means the query columns are not 'two engines reading the same medium'. A comparison over a window older than Loki's ingester retention would answer this, and it needs a run measured in hours rather than minutes.
