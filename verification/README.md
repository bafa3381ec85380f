# bevy_rmmz_assets

Loading RPG Maker MZ `data/*.json` databases into Bevy, with the database
logic proved correct by Verus.

- `src/` is the verified library: the note tokenizer (`notes::tokens`), the
  note-parser registry with baking and unbaking (`notes::registry`), the
  parse-once note cache (`notes::cache`), null-padded record tables (`asset`),
  load configuration and the asset-type registry (`config`), the aggregate
  load status and its latch (`status`), map requests, map file names and map
  note metadata (`maps`), the custom-asset snapshot (`snapshot`), ahead-of-time
  note baking (`processing`), and the record models (`data`). Every public
  function carries a contract; the `law_*` proof functions state properties
  that span several calls.
- `app/` is the Bevy integration: asset types and loaders, resources,
  systems, the `RmmzDatabase` system parameter, the plugin, and the JSON
  shapes of the records (with serde derives).
- `tests/` exercises the library on concrete values.
