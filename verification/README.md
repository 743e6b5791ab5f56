# swamp_core

What is inside build storage, and what removing a piece of it would cost.

The library takes what was measured and read (directory totals, file metadata,
manifest texts, lockfile contents) as plain values, and says of each directory
which build tool made it, in which role, how many bytes it holds on which basis,
when it last changed, and what it would cost to get it back. It never says that
something is unused: where the evidence runs out, a unit carries an explicit
unknown or a limit.

- `src/build_adapters`: one adapter for each family of build tools, the registry,
  the published support matrix, identification passes and summaries,
  (`claims`) what holds of every unit that any adapter identifies, and
  (`family_laws`) what the rows of a summary stand for. The adapters for Cargo,
  Maven and BuildKit take a container whole; what they say of it, the tables of
  conventional layouts and the catalog of detectors are this library's own choice.
- `src/build_stores`: machine-wide stores, the rows their units are kept as, and
  their history.
- `src/cargo_artifacts`: Cargo's build directories and profiles.
- `src/external`: locations outside projects, measured once each.
- `src/consumers`, `src/consumer_wiring`: projects, and who uses what.
- `app`: reading the file system and running the library's passes.

Every executable function in `src` has a contract over mathematical models of its
values, and the `law_` proof functions state what holds across functions. JSON
and TOML texts are read by `serde_json` and `toml`; their results are named, not
described.
