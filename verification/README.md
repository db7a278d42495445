# mz_tools

A small verified library in four modules:

- `build_info`: build metadata (`BuildInfo`), its human-readable version string,
  its semantic version (parsed by the `semver` crate) and a Pg-style version
  number.
- `datagen`: the pure parts of an S3 load generator: record and object contents,
  object keys, the bucket location constraint, and parsing of the object-size
  argument (by the `bytefmt` crate).
- `compaction`: the per-attempt decisions of a check that timestamp bindings get
  compacted.
- `decimal`: decimal digit strings shared by the above, with their lemmas.

`app/` holds the load-generator program (S3 requests, logging, progress bar), the
compaction action's retry loop, and the compile-time `build_info!` macro.
