# utah

A small data frame library, verified with Verus.

A `DataFrame` is a matrix of cells (`InnerType`) with a label (`OuterType`) for
each row and each column. Its rows or columns can be walked as a lazy stream of
named lines, which can be filtered by label (`select`, `remove`), extended
(`append`, `concat`), mapped (`mapdf`) and joined with another stream
(`InnerJoin`, `OuterJoin`); a join can be turned back into a data frame.

Layout:

- `src/types.rs`: labels, cells, axes and errors.
- `src/matrix.rs`: the matrix of cells, stored in an `ndarray::Array2`.
- `src/dataframe.rs`: data frames, line streams and their operations, with the
  laws that relate them.
- `src/join.rs`: inner and outer joins and the data frames built from them.
- `app/lib.rs`: conversions from floating-point numbers and ndarray arrays.
- `tests/`: tests of the library.
