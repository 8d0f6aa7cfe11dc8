**The verification dataset is small relative to a real window.** It is sized so a full run takes minutes; a pruning advantage that only appears at a much larger part count is not visible here, and neither is a scan cost that only hurts at one. The shape of the curve is not measured, only one point on it.
