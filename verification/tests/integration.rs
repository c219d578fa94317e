use fyrox_savegame_free::{
    decode_save, encode_save, CompressionKind, MigrationRegistry, SaveConfig, SaveError,
    SaveMetadata, SaveResult,
};

/// A player's game state, as the tuple that a derived
/// `Serialize` impl of a struct with these fields lays out field by field.
type PlayerState = (String, u32, f32, [f64; 3], Vec<String>);

fn sample_player() -> PlayerState {
    (
        "Hero".to_string(),
        42,
        87.5,
        [100.0, 0.5, -200.0],
        vec!["Sword".into(), "Shield".into(), "Potion".into()],
    )
}

fn encode_state<T: serde::Serialize>(data: &T, metadata: SaveMetadata, config: &SaveConfig) -> SaveResult<Vec<u8>> {
    let raw = bincode::serialize(data).map_err(SaveError::Serialize)?;
    encode_save(&raw, metadata, config)
}

fn decode_state<T: serde::de::DeserializeOwned>(
    bytes: &[u8],
    config: &SaveConfig,
    migrations: Option<&MigrationRegistry>,
) -> SaveResult<(T, SaveMetadata)> {
    let (raw, metadata) = decode_save(bytes, config, migrations)?;
    let data: T = bincode::deserialize(&raw).map_err(SaveError::Serialize)?;
    Ok((data, metadata))
}

#[test]
fn test_encode_decode_no_compression() {
    let config = SaveConfig {
        version: 1,
        compression: CompressionKind::NoCompression,
        ..SaveConfig::default()
    };

    let player = sample_player();
    let bytes = encode_state(&player, SaveMetadata::new().with_description("raw"), &config).unwrap();
    let (loaded, meta): (PlayerState, SaveMetadata) = decode_state(&bytes, &config, None).unwrap();

    assert_eq!(loaded, player);
    assert_eq!(meta.description, "raw");
}

#[test]
fn test_corrupted_data_detected() {
    let config = SaveConfig::default();
    let player = sample_player();

    let mut bytes = encode_state(&player, SaveMetadata::new(), &config).unwrap();
    if let Some(b) = bytes.last_mut() {
        *b ^= 0xFF;
    }

    let result: SaveResult<(PlayerState, SaveMetadata)> = decode_state(&bytes, &config, None);
    assert!(result.is_err());
}

#[test]
fn test_migration() {
    let config_v1 = SaveConfig {
        version: 1,
        compression: CompressionKind::NoCompression,
        ..SaveConfig::default()
    };
    let bytes = encode_state(&100u32, SaveMetadata::new(), &config_v1).unwrap();

    let config_v2 = SaveConfig {
        version: 2,
        compression: CompressionKind::NoCompression,
        ..SaveConfig::default()
    };

    let mut migrations = MigrationRegistry::new();
    migrations.register(1, |old_data: Vec<u8>| -> SaveResult<Vec<u8>> {
        let val: u32 = bincode::deserialize(&old_data).unwrap();
        Ok(bincode::serialize(&(val, "migrated".to_string())).unwrap())
    });

    let (loaded, _): ((u32, String), SaveMetadata) =
        decode_state(&bytes, &config_v2, Some(&migrations)).unwrap();

    assert_eq!(loaded.0, 100);
    assert_eq!(loaded.1, "migrated");
}

#[test]
fn test_metadata_builder() {
    let meta = SaveMetadata::new()
        .with_description("Chapter 5")
        .with_play_time_bits(7200.0f64.to_bits())
        .with_thumbnail(vec![0xFF, 0xD8, 0xFF])
        .with_custom("location", "Dark Forest")
        .with_custom("difficulty", "Hard");

    assert_eq!(meta.description, "Chapter 5");
    assert_eq!(f64::from_bits(meta.play_time_bits), 7200.0);
    assert!(meta.thumbnail.is_some());
    assert_eq!(meta.custom.len(), 2);
    assert_eq!(meta.custom_value("location").unwrap(), "Dark Forest");
}
