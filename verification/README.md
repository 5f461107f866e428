# equant

Batch technical-analysis operators for ordered market-data series, with the
order-sensitive logic of every operator specified and proved in Verus.

## Layout

- `src/` is the verified library. It sees a series as a sequence of
  `Observation`s: `None` for a missing, NaN or infinite value, and an integer
  key for a finite value, where keys order the series as the prices are
  ordered and the key of zero is zero.
  - `validation`, `parameters`: which periods, lengths and configurations
    each operator accepts, and which error it reports first.
  - `window`: completeness of trailing windows (warmup and invalidation by
    missing values) and rolling minima and maxima by a monotone queue.
  - `transform`: DeMark setup and countdown counts, Aroon recency offsets,
    the missing-value mask and lags.
  - `volume`: On-Balance Volume directions and restarts.
  - `volatility`, `trend`: estimator inputs and the KST configuration.
  - `error`: the error type and its messages.
  - `laws`: causality (appending data never changes earlier results),
    channel ordering, and the bounds of the DeMark counts.
- `app/` holds the `f64` operators. They convert prices to observations,
  call the library for every decision it makes, and carry out the
  floating-point arithmetic, which Verus cannot reason about.
- `tests/` exercises the library on concrete series.
