# iceberg_deletes

Row-level deletes of Iceberg tables: writers of position deletes and of row deltas, and the loader
that reads position deletes back. The library is verified with Verus.

- `src/` is the library. The writers and the loader are state machines over plain values; contracts
  state what each call returns and changes. `arrow_batch` reads and builds Arrow record batches,
  `bitmap` holds positions in roaring bitmaps, and `round_trip` states that what is written can be
  read back.
- `app/` drives the state machines: it opens Parquet files, hands batches to file writers and awaits
  them.
- `tests/` runs the library on Arrow batches.
