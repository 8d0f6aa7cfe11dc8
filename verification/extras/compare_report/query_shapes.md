## The six query shapes

Every system was **restarted** after the settle and before this phase, so
"cold" is a process that has just started. Each shape is issued as
`apps x sub-windows` distinct queries over absolute time ranges of the
verification dataset; **cold** is the first issue of each, after every other
query of every other shape has already run, and **warm** is the @@ repeats that
follow. All three cache — Loki has an embedded result cache on by default,
loggytracy has resident part sidecars, VictoriaLogs has its own caches, and the
page cache sits under everything — so reporting one number would hide which was
being measured.

The dataset is @@ rows over @@ streams at fixed timestamps, pushed identically
to every system (`src/bin/load/matrix.rs`). One request at a time, one
connection: this is a latency instrument, not a throughput one.

A ratio cell reading `withheld` is the agreement gate above doing its job: that
shape's answers disagreed, and the speed of a different answer is not a
measurement of anything.

