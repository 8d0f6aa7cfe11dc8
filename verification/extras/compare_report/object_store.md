## Object-store request counts: deferred, and why

The M9 brief lists object-store request counts as a fourth axis. **It is
deferred, deliberately, and not for want of a MinIO image.**

On a filesystem backend the two counters do not count the same thing.
loggytracy's `loggytracy_object_store_operations_total` counts calls into the
`object_store` crate, and with no object store configured — which is how it has
to run here, so that it keeps one durable copy of a part rather than two — it
counts zero. Loki's filesystem chunk client emits no request counter at all.
Two zeroes are not a comparison.

Making the axis real means putting **both** systems on MinIO, and that is a
different experiment rather than an extra column on this one: it changes
loggytracy's storage path end to end (restores, the local cache, the manifest
CAS preflight that refuses startup when conditional writes are not enforced)
and Loki's too (its chunk client, its shipper, its index gateway path). Both
would need their own settling and their own validation before any number off
them could be trusted, and running it half-configured would produce exactly the
kind of number this milestone exists to stop publishing.

What is already known and does not need this bed: loggytracy's counts are
structural and pinned by a test — four PUTs per part plus one GET and one PUT
per manifest commit, four DELETEs per retirement, two LISTs per orphan sweep
(`docs/LOAD_RESULTS.md` §9). What is missing is Loki's side of the same
arithmetic, and it stays missing until both run on the same object store.

