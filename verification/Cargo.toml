[package]
name = "fyrox_savegame_free"
version = "0.1.0"
edition = "2021"
publish = false

[dependencies]
bincode = "1.3"
crc32fast = "1"
lz4_flex = "0.11"
serde = { version = "1", features = ["derive"] }
thiserror = "1"
