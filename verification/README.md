# mz_ingest

A verified library for the ingestion of data: what is read from a source becomes updates, and what
is known of the updates is written down so that it can be read again.

The library, under `src/`, is verified with [Verus](https://github.com/verus-lang/verus).

- `debezium`: change records become updates. Duplicates are told by their position in the log of
  the upstream database and skipped. With transaction metadata, the records of a transaction go
  out at the time at which the transaction ended. What holds over any run of messages and
  activations stands in `dedup_history` and `tx_history`.
- `source`: what readers of sources hand on, and what is measured of them.
- `persist`: the state of a shard and the differences between states, as messages. What was
  written is read as the same, by code of the same or a later version; earlier code does not read
  it.
- `indexed`: parts of batches, as Parquet files. How a file is laid out is tested before it is
  read: how deep its schema is nested, the columns that it keeps, and the pages of each column.
- `proto`: the wire format of Protocol Buffers.

What the library calls from other crates stands behind functions marked
`#[verifier::external_body]`. The doc comment of each says what it calls and what is claimed of it.

`app/` is ordinary Rust around the library: dataflow operators, readers of sources, Prometheus,
files, and types that can be serialised. `tests/` runs the library.
