# quant_lessons

Small lessons in market statistics (volatility, robust averages, fat tails,
leverage, mean reversion, Chebyshev tail bounds) computed in exact decimal
arithmetic with `rust_decimal`, with the computing part verified by Verus.

- `src/` is the verified library. `decimal` models a `Decimal` as a mantissa
  and a scale and holds the trusted calls into `rust_decimal`; `sort`,
  `statistics` (and the standalone `mean`, `median`, `variance`, `std_dev`,
  `range`) hold the statistics; `lessons` holds the lessons' computations;
  `data_sources` keeps what the loaders keep of the Yahoo and FRED series.
- `app/` is the program: it reads the files, hands the values to the library
  and prints what comes back.
- `tests/` runs the library on concrete values.
