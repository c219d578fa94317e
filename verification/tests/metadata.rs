use fyrox_savegame_free::{MigrationRegistry, SaveMetadata, SaveResult};

#[test]
fn new_metadata_is_fresh() {
    let m = SaveMetadata::new();
    assert_eq!(m.created_at, m.updated_at);
    assert_eq!(m.play_time_bits, 0);
    assert_eq!(f64::from_bits(m.play_time_bits), 0.0);
    assert_eq!(m.description, "");
    assert!(m.thumbnail.is_none());
    assert!(m.custom.is_empty());
    let d = SaveMetadata::default();
    assert!(d.custom.is_empty());
}

#[test]
fn custom_value_is_replaced_in_place() {
    let m = SaveMetadata::new()
        .with_custom("chapter", "3")
        .with_custom("zone", "F1")
        .with_custom("chapter", "4");
    assert_eq!(m.custom.len(), 2);
    assert_eq!(m.custom[0], ("chapter".to_string(), "4".to_string()));
    assert_eq!(m.custom_value("chapter").unwrap(), "4");
    assert_eq!(m.custom_value("zone").unwrap(), "F1");
    assert!(m.custom_value("missing").is_none());
}

#[test]
fn builders_touch_only_their_field() {
    let m = SaveMetadata::new();
    let t = m.created_at;
    let m = m.with_description("d").with_thumbnail(vec![1, 2]).with_play_time_bits(5);
    assert_eq!(m.created_at, t);
    assert_eq!(m.description, "d");
    assert_eq!(m.thumbnail, Some(vec![1, 2]));
    assert_eq!(m.play_time_bits, 5);
}

#[test]
fn migrations_run_in_order() {
    let mut reg = MigrationRegistry::default();
    assert_eq!(reg.max_target_version(), 0);
    reg.register(1, |mut d: Vec<u8>| -> SaveResult<Vec<u8>> {
        d.push(1);
        Ok(d)
    });
    reg.register(2, |mut d: Vec<u8>| -> SaveResult<Vec<u8>> {
        d.push(2);
        Ok(d)
    });
    assert_eq!(reg.max_target_version(), 3);
    assert_eq!(reg.migrate(vec![0], 1, 3).unwrap(), vec![0, 1, 2]);
    assert_eq!(reg.migrate(vec![9], 3, 3).unwrap(), vec![9]);
    assert_eq!(reg.migrate(vec![9], 5, 3).unwrap(), vec![9]);
    assert!(matches!(reg.migrate(vec![], 0, 3), Err(fyrox_savegame_free::SaveError::NoMigration(0))));
    assert!(matches!(reg.migrate(vec![], 2, 4), Err(fyrox_savegame_free::SaveError::NoMigration(3))));
}

#[test]
fn failing_step_stops_the_run() {
    let mut reg = MigrationRegistry::new();
    reg.register(1, |_d: Vec<u8>| -> SaveResult<Vec<u8>> {
        Err(fyrox_savegame_free::SaveError::Integrity("bad".to_string()))
    });
    match reg.migrate(vec![], 1, 5) {
        Err(fyrox_savegame_free::SaveError::Integrity(m)) => assert_eq!(m, "bad"),
        other => panic!("expected the step's error, got {other:?}"),
    }
}

#[test]
fn registering_again_replaces_the_step() {
    let mut reg = MigrationRegistry::new();
    assert!(!reg.has_migration(4));
    reg.register(4, |_d: Vec<u8>| -> SaveResult<Vec<u8>> { Ok(vec![1]) });
    reg.register(4, |_d: Vec<u8>| -> SaveResult<Vec<u8>> { Ok(vec![2]) });
    assert!(reg.has_migration(4));
    assert_eq!(reg.migrate(vec![], 4, 5).unwrap(), vec![2]);
    assert_eq!(reg.max_target_version(), 5);
}

#[test]
fn a_run_splits_at_any_middle_version() {
    let mut reg = MigrationRegistry::new();
    for v in 0..4u32 {
        reg.register(v, move |mut d: Vec<u8>| -> SaveResult<Vec<u8>> {
            d.push(v as u8);
            Ok(d)
        });
    }
    let whole = reg.migrate(vec![9], 0, 4).unwrap();
    let first = reg.migrate(vec![9], 0, 2).unwrap();
    let rest = reg.migrate(first, 2, 4).unwrap();
    assert_eq!(whole, rest);
    assert_eq!(whole, vec![9, 0, 1, 2, 3]);
}
