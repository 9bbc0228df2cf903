# Tracegrams

Tracegrams tracks how tail latency propagates through a linear request pipeline
without storing traces. Each request carries a small context; checkpoints along
its path update transition histograms in one fixed recorder. The histograms show
where tail latency is born, where it is amplified, and where it is carried
downstream.

The library is written in Verus: every function states what it returns or
changes, and the statements are proved. One statement about the standard library
is taken on trust: that boxing a string keeps its text.

## Layout

| Module | Contents |
|---|---|
| `bucket`, `quantile`, `counts`, `ratio`, `binary64` | pinned latency grids, nearest ranks, sums, exact ratios, rounded quotients |
| `matrix`, `layout` | places of the counters in one flat storage |
| `recorder`, `init` | storage of a recorder, stage registration, memory estimates |
| `checkpoint`, `context` | what one mark does to the counters and to its request |
| `calibration`, `freeze` | readiness, threshold reports, the collecting-to-frozen transition |
| `snapshot` | scans of the counters and windows between two scans |
| `scores`, `diagnose`, `text`, `debug` | tail-propagation scores, labels, rendered reports, debug output |
| `laws` | what holds of the library as a whole |

`app/` holds the shared handle around the library: counters in atomics, the
process-wide source of registry brands, the clock, and numbers shown to people.

## Numbers

Latencies are integer nanoseconds. Quantiles and policy thresholds are given by
the bit patterns of their binary64 values. Scores are exact integer ratios; where
one is held against a policy, the binary64 quotient of its terms is computed in
integers and compared.
