**The published run is at @@, not at the @@ the bed asks for first.** loggytracy was OOM-killed at the lower limit and Loki was not, so the query, disk and memory columns are all taken at a limit loggytracy needed and Loki did not. That is the single largest thing this comparison found, it is not a caveat about the measurement but a result, and it means the claim's phrase 'at an equal container memory limit' is satisfied here only by raising the limit until the losing side fits.
