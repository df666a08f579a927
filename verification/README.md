# bruce-core

Attention over masks and over a key/value memory, with contracts proved by Verus.

* `src/` is the library. `masked_attention` folds a stream of index pairs, in any order and
  on one thread or many, into one output row per query. `KvMemory` stores keys and values by
  id, lets only owners change live rows, logs every change, and answers attention queries
  over the live rows.
* The scalars are a type parameter: a caller brings addition, comparison, the exponential and
  the rest as functions. The contracts say which of them are applied, to what and in which
  order. The laws say what the folds compute apart from rounding.
* `app/` puts the library on `ndarray` arrays of `f64` and keeps snapshots in Parquet files,
  with the audit log beside them as JSON lines.
* `tests/` runs the library on `f64`.
