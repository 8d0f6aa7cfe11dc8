
Milliseconds, and a ratio above `1.00x` means loggytracy took longer. "Lines read" is each system's own `data.stats.summary.totalLinesProcessed`, summed over the shape's answers — what the engine had to touch to produce the answer, which is the quantity pruning and early termination exist to reduce. It is reported rather than gated: the systems count it in their own terms, and VictoriaLogs does not report it at all. The agreement gate on the ratio columns is the primary run's; each limit's own agreement is in its artifact.

