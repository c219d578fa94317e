//! Game-oriented save/load library: named save slots, rich metadata, data
//! versioning with migrations, LZ4 compression and CRC32 integrity checks.
//!
//! The save-file envelope (magic, version, compression, metadata, checksum
//! and payload) is built and checked here; turning a game's own state into
//! payload bytes, and all file-system access, happen outside this crate.

pub mod error;
pub mod integrity;
pub mod metadata;
pub mod migration;
pub mod save_file;
pub mod slot;

pub use error::{SaveError, SaveResult};
pub use integrity::{crc32, verify_crc32};
pub use metadata::{unix_now, unix_seconds, SaveMetadata};
pub use migration::{MigrationFn, MigrationRegistry, MigrationStep};
pub use save_file::{decode_save, encode_save, peek_metadata_bytes, CompressionKind, SaveConfig, MAGIC};
pub use slot::{
    backup_file_name, QUICKSAVE_SLOT, plan_backup, plan_delete, plan_read, plan_restore, plan_transfer, plan_write, slot_file_name,
    slot_info_from_file, slot_name_of_file, sort_slots_newest_first, temp_file_name, SlotInfo, SlotRefusal, SlotStep,
};
