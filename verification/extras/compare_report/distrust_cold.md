**"Cold" means a restarted process, not a cold page cache.** Dropping the host page cache needs root, so both systems' data files may still be in it when the cold pass runs. Both get exactly the same treatment, so the comparison is fair, but neither cold column is a cold-storage number.
