**@@% of loggytracy's disk number is a write-ahead log the bed's own configuration stops it from compacting.** `flush.rs:219` compacts the WAL only when an object store is configured, and this bed runs loggytracy local-only so that it keeps one durable copy of a part rather than two. The two choices are in tension and I did not find a configuration that avoids both; the table reports the total and the WAL-excluded figure separately rather than picking one. The WAL-excluded row is the one to compare engines on, and the total is the one an operator running local-only actually gets.
