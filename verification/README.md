# fyrox_savegame_free

Game-oriented save/load: named save slots, rich metadata, save-data
versioning with migrations, LZ4 compression and CRC32 integrity checks.

## Layout

- `src/` — the verified library (Verus).
  - `save_file.rs`: the save-file envelope (magic, version, compression,
    metadata, CRC32, payload); `encode_save`, `decode_save` and
    `peek_metadata_bytes`. Their contracts state each outcome in terms of what
    bincode and LZ4 produce and read back, and what the registered migration
    steps may give; they include the law that decoding what was encoded gives
    back the payload and metadata.
  - `metadata.rs`: `SaveMetadata`, its builders and map-like custom pairs.
  - `migration.rs`: `MigrationRegistry`, sequential version upgrades; a run
    is stated step by step over what each registered step may give.
  - `integrity.rs`: CRC32 checksum and its verification.
  - `slot.rs`: slot file names, which directory entries are slots, newest-first
    listing order, the decisions of every slot operation (a save is written
    to a temporary file that one rename then moves onto the slot file), and
    their effect on a model of the save directory.
  - `error.rs`: `SaveError`.
- `app/` — the user-facing API around the library: serde (de)serialization of
  game state, `SaveManager`'s file-system access, error display.
- `tests/` — tests of the library.

Calls into `bincode`, `crc32fast` and `lz4_flex` stand behind small trusted
wrappers whose contracts are documented where they are declared.
