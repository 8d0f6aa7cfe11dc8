## Ingest

Same corpus, same seed, same offered rate, same number of connections, same
wire format — every system ingests the identical OTLP protobuf body at its own
`/v1/logs` spelling, so these are the same bytes sent three times, and they are
the bytes the one intended consumer sends.
The runs are **sequential**, not concurrent, so no system's throughput is a
function of what the others were doing with the same twelve cores; the cost of
that choice is that a later run starts with a warmer page cache, and it is the
only asymmetry in this phase.

Every run stops at the same event target rather than after the same time, so
all three end up holding the same number of entries. `ended_on` says which
condition actually stopped each one: a run that says `duration_cap` did not
reach the target, and its data volume is smaller than the others'.

Latency is reported twice. **Service time** starts when the bytes went out;
**response time** starts when the pacer intended them to. Their gap is the
delay the offered rate could not be issued at — the correction M8 added, and
the one whose absence let the retired numbers report a healthy p99 beside an
achieved rate a sixth of the offered one.

