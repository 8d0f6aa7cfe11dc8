
Milliseconds. A ratio above `1.00x` means loggytracy took longer. A `null` percentile is one the sample count could not support — `stats.rs::min_samples_for` refuses `p99` under 101 samples and `p95` under 21, and `null` is not a pass. p99 is in the artifacts.

