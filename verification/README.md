# kvengine

The logic of a sharded key-value storage engine, verified with Verus.

- `src/` is the library. Every function states what it does, and Verus proves it.
  - `bound`, `key`, `keyspace`, `range`, `table_key`: keys and ranges of keys.
  - `del_prefixes`, `properties`, `schema_meta`, `merge_rule`, `file_meta`, `files`: what a
    shard keeps besides its data.
  - `meta`: the metadata of a shard, and how change sets, splits and merges change it.
  - `shard`: the data of a shard, its levels and full text files, splits, merges and what is
    to be compacted.
  - `read`: reading rows and columns of a snapshot.
  - `prepare`: which files a change set needs, and where they come from.
  - `ia`: the cache of segments of remote files.
  - `limiter`: how fast writes may be.
- `app/` is ordinary Rust around it: the store of shards, files, locks, settings and floating
  point.
- `tests/` runs the library.

Proof functions whose names begin with `law_` state what holds of several functions
together. Functions marked `external_body`, and `assume_specification` items, call outside
crates; their contracts are taken from the sources of those crates.
