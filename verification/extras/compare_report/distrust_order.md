**The ingest runs are sequential, and loggytracy went first.** A later run starts with a warmer page cache and a machine that has just finished doing work. Running them concurrently would remove that and introduce a worse problem — each system's throughput would depend on the others' — so this is a chosen bias rather than an overlooked one, and its direction favours the systems that ran later (@@ / @@ / @@ achieved eps in run order).
