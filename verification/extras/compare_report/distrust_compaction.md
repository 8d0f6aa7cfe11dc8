**Loki's compaction interval was moved from 10 minutes to 1 minute.** Without it the index would still be uncompacted when a run that takes minutes ends, and Loki's disk number would be an artefact of the run length rather than a property of the engine. It costs Loki CPU and memory during the @@-second settle, which is charged to its memory peak.
