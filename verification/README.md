# ferric-alpha

Factor analysis in the style of Alphalens: factor data is validated, quantized and joined
with forward returns, and performance, turnover and event-study statistics are gathered into
serializable tear-sheet tables.

## Layout

- `src/` is the verified library. The rules the analysis applies to keys, dates, periods,
  quantiles, sessions, windows and report tables are executable functions with contracts
  that Verus proves, together with the laws that relate these functions (`lemma_*`).
  Floating-point values cross it only as IEEE-754 bit patterns. Time-zone arithmetic is
  delegated to `chrono` and `chrono-tz` through small trusted wrappers in
  `src/performance/dates.rs`.
- `app/` is the data-frame layer built on Polars: it reads frames, hands their keys and labels
  to the library, computes the floating-point statistics, and reads and writes tear sheets as
  JSON.
- `tests/` exercises the library on concrete values.

The conversion of factor returns and positions into pyfolio's input (`create_pyfolio_input`
and its `PyfolioInput`) is not included: it is floating-point arithmetic over the cumulative
returns and positions that `app/` already computes, with no rule for the library to check.
