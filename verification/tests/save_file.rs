use fyrox_savegame_free::{
    crc32, decode_save, encode_save, peek_metadata_bytes, verify_crc32, CompressionKind,
    MigrationRegistry, SaveConfig, SaveError, SaveMetadata, SaveResult, MAGIC,
};

fn raw_config(version: u32) -> SaveConfig {
    SaveConfig { version, compression: CompressionKind::NoCompression, ..SaveConfig::default() }
}

fn sample_bytes(config: &SaveConfig) -> Vec<u8> {
    let raw = bincode::serialize(&(7u32, "seven".to_string())).unwrap();
    encode_save(&raw, SaveMetadata::new().with_description("sample").with_custom("k", "v"), config).unwrap()
}

#[test]
fn migrated_data_is_what_the_steps_produce() {
    let bytes = sample_bytes(&raw_config(1));
    let mut reg = MigrationRegistry::new();
    reg.register(1, |mut d: Vec<u8>| -> SaveResult<Vec<u8>> {
        d.push(0xAA);
        Ok(d)
    });
    reg.register(2, |mut d: Vec<u8>| -> SaveResult<Vec<u8>> {
        d.push(0xBB);
        Ok(d)
    });
    let (raw, meta) = decode_save(&bytes, &raw_config(3), Some(&reg)).unwrap();
    let mut expected = bincode::serialize(&(7u32, "seven".to_string())).unwrap();
    expected.extend_from_slice(&[0xAA, 0xBB]);
    assert_eq!(raw, expected);
    assert_eq!(meta.description, "sample");
}

#[test]
fn crc32_of_check_string() {
    assert_eq!(crc32(b"123456789"), 0xCBF4_3926);
    assert_eq!(crc32(b""), 0);
}

#[test]
fn verify_crc32_reports_both_checksums() {
    assert!(verify_crc32(b"abc", crc32(b"abc")).is_ok());
    match verify_crc32(b"abc", 1) {
        Err(SaveError::Crc32Mismatch { expected, got }) => {
            assert_eq!(expected, 1);
            assert_eq!(got, crc32(b"abc"));
        }
        other => panic!("expected Crc32Mismatch, got {other:?}"),
    }
}

#[test]
fn default_config_is_version_one_lz4_without_backups() {
    let c = SaveConfig::default();
    assert_eq!(c.version, 1);
    assert_eq!(c.compression, CompressionKind::Lz4);
    assert_eq!(CompressionKind::default(), CompressionKind::Lz4);
    assert!(!c.keep_backup_on_overwrite);
}

#[test]
fn lz4_round_trip_gives_back_raw_and_metadata() {
    let config = SaveConfig::default();
    let raw: Vec<u8> = (0..2000u32).flat_map(|x| (x % 7).to_le_bytes()).collect();
    let meta = SaveMetadata::new().with_description("lz4").with_custom("a", "1");
    let bytes = encode_save(&raw, meta.clone(), &config).unwrap();
    assert!(bytes.len() < raw.len());
    let (back, m) = decode_save(&bytes, &config, None).unwrap();
    assert_eq!(back, raw);
    assert_eq!(m.description, "lz4");
    assert_eq!(m.created_at, meta.created_at);
    assert_eq!(m.custom, meta.custom);
}

#[test]
fn file_starts_with_magic_version_and_tag() {
    let bytes = sample_bytes(&raw_config(3));
    assert_eq!(&bytes[0..4], &MAGIC.to_le_bytes());
    assert_eq!(&bytes[0..4], b"GSXF");
    assert_eq!(&bytes[4..8], &3u32.to_le_bytes());
    assert_eq!(&bytes[8..12], &0u32.to_le_bytes());
    let lz = sample_bytes(&SaveConfig::default());
    assert_eq!(&lz[8..12], &1u32.to_le_bytes());
}

#[test]
fn bad_magic_is_reported() {
    let config = raw_config(1);
    let mut bytes = sample_bytes(&config);
    bytes[0] = 0;
    match decode_save(&bytes, &config, None) {
        Err(SaveError::InvalidMagic { expected, got }) => {
            assert_eq!(expected, MAGIC);
            assert_eq!(got, MAGIC & 0xFFFF_FF00);
        }
        other => panic!("expected InvalidMagic, got {other:?}"),
    }
    assert!(matches!(peek_metadata_bytes(&bytes), Err(SaveError::InvalidMagic { .. })));
}

#[test]
fn unknown_compression_tag_is_a_serialization_error() {
    let config = raw_config(1);
    let mut bytes = sample_bytes(&config);
    bytes[8] = 5;
    match decode_save(&bytes, &config, None) {
        Err(SaveError::Serialize(e)) => {
            assert!(e.to_string().contains("variant index 0 <= i < 2"), "{e}");
        }
        other => panic!("expected Serialize, got {other:?}"),
    }
    assert!(matches!(peek_metadata_bytes(&bytes), Err(SaveError::Serialize(_))));
}

#[test]
fn truncated_file_is_a_serialization_error() {
    let config = raw_config(1);
    let bytes = sample_bytes(&config);
    assert!(matches!(decode_save(&bytes[..bytes.len() - 1], &config, None), Err(SaveError::Serialize(_))));
    assert!(matches!(decode_save(&bytes[..3], &config, None), Err(SaveError::Serialize(_))));
    assert!(matches!(peek_metadata_bytes(&bytes[..3]), Err(SaveError::Serialize(_))));
}

#[test]
fn corrupted_payload_is_a_checksum_mismatch() {
    let config = raw_config(1);
    let mut bytes = sample_bytes(&config);
    let n = bytes.len();
    bytes[n - 1] ^= 0xFF;
    assert!(matches!(decode_save(&bytes, &config, None), Err(SaveError::Crc32Mismatch { .. })));
    // Only the header is read when peeking, so the payload does not matter.
    let m = peek_metadata_bytes(&bytes).unwrap();
    assert_eq!(m.description, "sample");
}

/// A save file laid out field by field, as the envelope is written.
fn forged_file(tag: u32, payload: &[u8]) -> Vec<u8> {
    let no_custom: Vec<(String, String)> = Vec::new();
    bincode::serialize(&(
        MAGIC, 1u32, tag, 10i64, 20i64, 0u64, "forged".to_string(), None::<Vec<u8>>, no_custom,
        crc32(payload), payload.to_vec(),
    ))
    .unwrap()
}

#[test]
fn corrupted_lz4_payload_is_a_decompression_error() {
    let config = SaveConfig::default();
    // The size prefix promises 200 bytes, the block holds a truncated token.
    let bytes = forged_file(1, &[200, 0, 0, 0, 0x10]);
    assert!(matches!(decode_save(&bytes, &config, None), Err(SaveError::Decompression(_))));
    let m = peek_metadata_bytes(&bytes).unwrap();
    assert_eq!((m.created_at, m.updated_at), (10, 20));
}

#[test]
fn hand_framed_file_is_read() {
    let bytes = forged_file(0, b"plain");
    let (raw, m) = decode_save(&bytes, &SaveConfig::default(), None).unwrap();
    assert_eq!(raw, b"plain".to_vec());
    assert_eq!(m.description, "forged");
    assert!(m.thumbnail.is_none());
}

#[test]
fn older_file_without_migrations_is_unsupported() {
    let bytes = sample_bytes(&raw_config(1));
    match decode_save(&bytes, &raw_config(3), None) {
        Err(SaveError::UnsupportedVersion { version, max_supported }) => {
            assert_eq!(version, 1);
            assert_eq!(max_supported, 3);
        }
        other => panic!("expected UnsupportedVersion, got {other:?}"),
    }
}

#[test]
fn older_file_with_gap_in_migrations_reports_the_gap() {
    let bytes = sample_bytes(&raw_config(1));
    let mut reg = MigrationRegistry::new();
    reg.register(1, |d: Vec<u8>| -> SaveResult<Vec<u8>> { Ok(d) });
    match decode_save(&bytes, &raw_config(3), Some(&reg)) {
        Err(SaveError::NoMigration(v)) => assert_eq!(v, 2),
        other => panic!("expected NoMigration(2), got {other:?}"),
    }
    let empty = MigrationRegistry::new();
    assert!(matches!(decode_save(&bytes, &raw_config(2), Some(&empty)), Err(SaveError::NoMigration(1))));
}

#[test]
fn newer_file_is_used_as_is() {
    let bytes = sample_bytes(&raw_config(5));
    let (raw, meta) = decode_save(&bytes, &raw_config(2), None).unwrap();
    let back: (u32, String) = bincode::deserialize(&raw).unwrap();
    assert_eq!(back, (7, "seven".to_string()));
    assert_eq!(meta.custom_value("k").unwrap(), "v");
}

#[test]
fn repeated_custom_keys_are_read_as_a_map() {
    let config = raw_config(1);
    let mut meta = SaveMetadata::new();
    meta.custom = vec![
        ("a".to_string(), "1".to_string()),
        ("b".to_string(), "2".to_string()),
        ("a".to_string(), "3".to_string()),
    ];
    let bytes = encode_save(b"x", meta, &config).unwrap();
    let (_, m) = decode_save(&bytes, &config, None).unwrap();
    assert_eq!(m.custom, vec![("a".to_string(), "3".to_string()), ("b".to_string(), "2".to_string())]);
    let p = peek_metadata_bytes(&bytes).unwrap();
    assert_eq!(p.custom, m.custom);
}

#[test]
fn peek_metadata_bytes_roundtrip() {
    let meta = SaveMetadata::new()
        .with_description("Peek test")
        .with_play_time_bits(123.0f64.to_bits())
        .with_custom("zone", "F1");
    let payload: Vec<u32> = (0..1000).collect();
    let raw = bincode::serialize(&payload).unwrap();
    let bytes = encode_save(&raw, meta, &SaveConfig::default()).unwrap();
    let peeked = peek_metadata_bytes(&bytes).unwrap();
    assert_eq!(peeked.description, "Peek test");
    assert_eq!(f64::from_bits(peeked.play_time_bits), 123.0);
    assert_eq!(peeked.custom_value("zone").unwrap(), "F1");
}

#[test]
fn peeking_ignores_what_follows_the_metadata() {
    let raw = b"payload bytes".to_vec();
    let meta = SaveMetadata::new().with_description("head").with_custom("k", "v");
    let bytes = encode_save(&raw, meta, &raw_config(1)).unwrap();
    let k = bytes.len() - 12 - raw.len();
    let cut = &bytes[..k];
    assert_eq!(peek_metadata_bytes(cut).unwrap().description, "head");
    let mut altered = cut.to_vec();
    altered.extend_from_slice(&[0xFF; 5]);
    let m = peek_metadata_bytes(&altered).unwrap();
    assert_eq!(m.description, "head");
    assert_eq!(m.custom_value("k").map(|s| s.as_str()), Some("v"));
    let mut bad_payload = bytes.clone();
    let last = bad_payload.len() - 1;
    bad_payload[last] ^= 0xFF;
    assert_eq!(peek_metadata_bytes(&bad_payload).unwrap().description, "head");
    assert!(matches!(decode_save(&bad_payload, &raw_config(1), None), Err(SaveError::Crc32Mismatch { .. })));
    assert!(matches!(peek_metadata_bytes(&bytes[..k - 1]), Err(SaveError::Serialize(_))));
}
