## Peak memory

cgroup v2 `memory.peak` per container: the kernel's own high-water mark for the
cgroup, which is the analogue of the `VmHWM` the harness reads for a local
process and the only figure comparable between a Rust process and two Go ones,
whose RSS is a statement about when their garbage collectors last ran.

The containers are restarted between the two phases, so each phase's peak is
measured against a fresh cgroup.

**`memory.peak` is not the process's footprint on its own.** A cgroup's memory
accounting includes the page cache its own file I/O created, and every system
here writes a write-ahead log or journal and then large data files, so all
carry reclaimable cache inside their limit. That was measured here, not
assumed: an ingest-only run drove `memory.peak` to exactly the 2 GiB limit
without being killed, while the same run with the query workload on was killed.
So the anonymous high-water mark is reported beside it — sampled from the
cgroup's `memory.stat` during the ingest phase — and it is the number an OOM
kill is actually decided on.

| | loggytracy | Loki | VictoriaLogs |
|---|---|---|---|
| limit | @@ | identical | identical |
| `memory.peak` during ingest | @@ | @@ | @@ |
| **anonymous peak during ingest** | @@ | @@ | @@ |
| `memory.peak` during queries | @@ | @@ | @@ |
| OOM-killed | @@ | @@ | @@ |

