use fyrox_savegame_free::{
    backup_file_name, encode_save, plan_backup, plan_delete, plan_read, plan_restore,
    plan_transfer, plan_write, slot_file_name, temp_file_name, slot_info_from_file, slot_name_of_file,
    sort_slots_newest_first, unix_now, unix_seconds, SaveConfig, SaveMetadata, SlotInfo,
    SlotRefusal, SlotStep,
};

#[test]
fn slot_and_backup_file_names() {
    assert_eq!(slot_file_name("slot1"), "slot1.fxsave");
    assert_eq!(backup_file_name("slot1"), "slot1.fxsave.bak");
}

#[test]
fn only_fxsave_files_are_slots() {
    assert_eq!(slot_name_of_file("a.fxsave"), Some("a".to_string()));
    assert_eq!(slot_name_of_file("x.y.fxsave"), Some("x.y".to_string()));
    assert_eq!(slot_name_of_file("..fxsave"), Some(".".to_string()));
    assert_eq!(slot_name_of_file("héros.fxsave"), Some("héros".to_string()));
    assert_eq!(slot_name_of_file(".fxsave"), None);
    assert_eq!(slot_name_of_file("slot1.fxsave.bak"), None);
    assert_eq!(slot_name_of_file("slot1.fxsave.tmp"), None);
    assert_eq!(slot_name_of_file("notes.txt"), None);
    assert_eq!(slot_name_of_file("fxsave"), None);
    let name = slot_file_name("quicksave");
    assert_eq!(slot_name_of_file(&name), Some("quicksave".to_string()));
    assert_eq!(slot_name_of_file(&backup_file_name("quicksave")), None);
}

fn info(name: &str, updated_at: i64) -> SlotInfo {
    let mut metadata = SaveMetadata::new();
    metadata.updated_at = updated_at;
    SlotInfo { name: name.to_string(), metadata }
}

#[test]
fn slots_are_listed_newest_first_and_ties_keep_their_order() {
    let slots = vec![info("a", 5), info("b", 9), info("c", 5), info("d", 7), info("e", 9)];
    let sorted = sort_slots_newest_first(slots);
    let names: Vec<&str> = sorted.iter().map(|s| s.name.as_str()).collect();
    assert_eq!(names, vec!["b", "e", "d", "a", "c"]);
    assert!(sort_slots_newest_first(Vec::new()).is_empty());
}

#[test]
fn slot_info_reads_metadata_or_falls_back_to_fresh() {
    let meta = SaveMetadata::new().with_description("stored");
    let bytes = encode_save(b"data", meta, &SaveConfig::default()).unwrap();
    let good = slot_info_from_file("s".to_string(), Some(&bytes));
    assert_eq!(good.name, "s");
    assert_eq!(good.metadata.description, "stored");

    let bad = slot_info_from_file("t".to_string(), Some(b"junk"));
    assert_eq!(bad.metadata.description, "");
    assert_eq!(bad.metadata.created_at, bad.metadata.updated_at);
    assert!(bad.metadata.custom.is_empty());

    let missing = slot_info_from_file("u".to_string(), None);
    assert_eq!(missing.name, "u");
    assert!(missing.metadata.thumbnail.is_none());
}

#[test]
fn clock_readings() {
    assert!(unix_now() > 1_600_000_000);
    assert_eq!(unix_seconds(None), 0);
    assert_eq!(unix_seconds(Some(42)), 42);
    assert_eq!(unix_seconds(Some(u64::MAX)), -1);
}

#[test]
fn transfers_refuse_missing_source_then_existing_destination() {
    match plan_transfer("a", "b", false, true, false) {
        Ok(SlotStep::Rename { from, to }) => assert_eq!((from.as_str(), to.as_str()), ("a.fxsave", "b.fxsave")),
        _ => panic!("expected a rename"),
    }
    match plan_transfer("src", "dst", true, true, false) {
        Ok(SlotStep::Copy { from, to }) => assert_eq!((from.as_str(), to.as_str()), ("src.fxsave", "dst.fxsave")),
        _ => panic!("expected a copy"),
    }
    match plan_transfer("nope", "x", true, false, true) {
        Err(SlotRefusal::Missing(s)) => assert_eq!(s, "nope"),
        _ => panic!("expected a missing source"),
    }
    match plan_transfer("b", "c", false, true, true) {
        Err(SlotRefusal::Occupied { file, slot }) => {
            assert_eq!(file, "c.fxsave");
            assert_eq!(slot, "c");
        }
        _ => panic!("expected an occupied destination"),
    }
}

#[test]
fn backups_are_made_only_when_asked_and_needed() {
    match plan_backup("slot1", true, true) {
        SlotStep::Rename { from, to } => assert_eq!((from.as_str(), to.as_str()), ("slot1.fxsave", "slot1.fxsave.bak")),
        _ => panic!("expected a rename to the backup"),
    }
    assert!(matches!(plan_backup("slot1", true, false), SlotStep::Skip));
    assert!(matches!(plan_backup("slot1", false, true), SlotStep::Skip));
    match plan_restore("slot1", true) {
        Ok(SlotStep::Rename { from, to }) => assert_eq!((from.as_str(), to.as_str()), ("slot1.fxsave.bak", "slot1.fxsave")),
        _ => panic!("expected a restore"),
    }
    match plan_restore("slot1", false) {
        Err(SlotRefusal::Missing(s)) => assert_eq!(s, "slot1.fxsave.bak"),
        _ => panic!("expected a missing backup"),
    }
}

#[test]
fn deletes_and_reads_of_slots() {
    match plan_delete("doomed", true) {
        SlotStep::Remove(f) => assert_eq!(f, "doomed.fxsave"),
        _ => panic!("expected a removal"),
    }
    assert!(matches!(plan_delete("doomed", false), SlotStep::Skip));
    assert_eq!(plan_read("slot1", true).ok(), Some("slot1.fxsave".to_string()));
    match plan_read("nonexistent", false) {
        Err(SlotRefusal::Missing(s)) => assert_eq!(s, "nonexistent"),
        _ => panic!("expected a missing slot"),
    }
}

#[test]
fn new_saves_go_through_a_temporary_file() {
    assert_eq!(temp_file_name("slot1"), "slot1.fxsave.tmp");
    assert_eq!(temp_file_name("a.b"), "a.b.fxsave.tmp");
    assert_eq!(temp_file_name(""), ".fxsave.fxsave.tmp");
    assert_eq!(temp_file_name("sub/"), "sub/.fxsave.fxsave.tmp");
    assert_eq!(temp_file_name("."), "..");
    assert_eq!(temp_file_name("sub/."), "sub/..");
    for slot in ["slot1", "a.b", "", "sub/", ".", "..", "x.", "sub/y", "sub/.", "sub/..", "a..", "/", "./"] {
        let by_path = std::path::Path::new(&slot_file_name(slot)).with_extension("fxsave.tmp");
        assert_eq!(by_path.to_str(), Some(temp_file_name(slot).as_str()), "slot {slot:?}");
    }
    match plan_write("slot1") {
        (temp, SlotStep::Rename { from, to }) => {
            assert_eq!(temp, "slot1.fxsave.tmp");
            assert_eq!(from, "slot1.fxsave.tmp");
            assert_eq!(to, "slot1.fxsave");
        }
        _ => panic!("expected a rename onto the slot file"),
    }
}
