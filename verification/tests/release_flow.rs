use kse_core::commands::lifecycle::{cancel_target, publish_target, stage_release};
use kse_core::model::release::{FileStorage, ReleaseEntry, ReleaseRecord, ReleaseStatus};

const BASE: &str = "/tmp/repo";

fn make_record(version: &str, status: ReleaseStatus) -> ReleaseRecord {
    let mut r = ReleaseRecord::new_staged(version, 1_700_000_000);
    r.status = status;
    r
}

// ---- ReleaseRecord and the store ----

#[test]
fn test_record_fields() {
    let r = make_record("v1.0.0", ReleaseStatus::Staged);
    assert_eq!(r.version, "v1.0.0");
    assert_eq!(r.status, ReleaseStatus::Staged);
    assert!(!r.id.is_empty());
    assert!(!r.created_at.is_empty());
    assert_eq!(r.created_at, r.updated_at);
}

#[test]
fn test_storage_save_and_load() {
    let mut storage = FileStorage::new(BASE, &[]);
    let r = make_record("v1.0.0", ReleaseStatus::Staged);
    storage.save(&r);
    let loaded = storage.load("v1.0.0");
    assert!(loaded.is_some());
    assert_eq!(loaded.unwrap().version, "v1.0.0");
}

#[test]
fn test_storage_load_nonexistent() {
    let storage = FileStorage::new(BASE, &[]);
    assert!(storage.load("v9.9.9").is_none());
}

#[test]
fn test_storage_update_existing() {
    let mut storage = FileStorage::new(BASE, &[]);
    let mut r = make_record("v1.0.0", ReleaseStatus::Staged);
    storage.save(&r);
    r.status = ReleaseStatus::Published;
    r.updated_at = "999".into();
    storage.save(&r);
    let loaded = storage.load("v1.0.0").unwrap();
    assert_eq!(loaded.status, ReleaseStatus::Published);
    assert_eq!(loaded.updated_at, "999");
}

#[test]
fn test_storage_journal_appended() {
    let mut storage = FileStorage::new(BASE, &[]);
    assert_eq!(storage.events_path(), "/tmp/repo/.quanttide/devops/release-journal.jsonl");
    let r = make_record("v1.0.0", ReleaseStatus::Staged);
    let mut journal: Vec<ReleaseEntry> = vec![storage.save(&r)];
    assert_eq!(journal[0].version, "v1.0.0");
    let mut r2 = r.duplicate();
    r2.status = ReleaseStatus::Published;
    journal.push(storage.save(&r2));
    assert_eq!(journal.len(), 2);
}

#[test]
fn test_storage_list() {
    let mut storage = FileStorage::new(BASE, &[]);
    storage.save(&make_record("v1.0.0", ReleaseStatus::Staged));
    storage.save(&make_record("v2.0.0", ReleaseStatus::Published));
    assert_eq!(storage.list().len(), 2);
}

#[test]
fn test_storage_persists_across_instances() {
    let journal = {
        let mut storage = FileStorage::new(BASE, &[]);
        vec![storage.save(&make_record("v1.0.0", ReleaseStatus::Staged))]
    };
    let storage = FileStorage::new(BASE, &journal);
    assert!(storage.load("v1.0.0").is_some());
}

#[test]
fn test_created_at_preserved_across_updates() {
    let mut journal: Vec<ReleaseEntry> = Vec::new();
    let first_ts: String;
    {
        let mut storage = FileStorage::new(BASE, &journal);
        let r = make_record("v1.0.0", ReleaseStatus::Staged);
        first_ts = r.created_at.clone();
        journal.push(storage.save(&r));
    }
    {
        let mut storage = FileStorage::new(BASE, &journal);
        let loaded = storage.load("v1.0.0").unwrap();
        assert_eq!(loaded.created_at, first_ts);
        let mut updated = loaded;
        updated.status = ReleaseStatus::Published;
        updated.updated_at = "1700000050".into();
        journal.push(storage.save(&updated));
    }
    {
        let storage = FileStorage::new(BASE, &journal);
        let loaded = storage.load("v1.0.0").unwrap();
        assert_eq!(loaded.created_at, first_ts);
        assert_eq!(loaded.status, ReleaseStatus::Published);
        assert!(loaded.updated_at >= first_ts);
    }
}

// ---- stage ----

#[test]
fn test_stage_new_version() {
    let mut storage = FileStorage::new(BASE, &[]);
    let (id, _) = stage_release(&mut storage, "v1.0.0", 100).unwrap();
    assert!(!id.is_empty());
    let r = storage.load("v1.0.0").unwrap();
    assert_eq!(r.status, ReleaseStatus::Staged);
}

#[test]
fn test_stage_invalid_version() {
    let mut storage = FileStorage::new(BASE, &[]);
    let result = stage_release(&mut storage, "bad", 100);
    assert!(result.is_err());
}

#[test]
fn test_stage_already_published_rejected() {
    let mut storage = FileStorage::new(BASE, &[]);
    storage.save(&make_record("v1.0.0", ReleaseStatus::Published));
    let result = stage_release(&mut storage, "v1.0.0", 100);
    assert!(result.is_err());
    assert!(result.unwrap_err().contains("已发布"));
}

#[test]
fn test_stage_cancelled_restage() {
    let mut storage = FileStorage::new(BASE, &[]);
    let r = make_record("v1.0.0", ReleaseStatus::Cancelled);
    let old_id = r.id.clone();
    storage.save(&r);
    let (id, _) = stage_release(&mut storage, "v1.0.0", 100).unwrap();
    assert!(!id.is_empty());
    let loaded = storage.load("v1.0.0").unwrap();
    assert_eq!(loaded.status, ReleaseStatus::Staged);
    assert_ne!(loaded.id, old_id);
}

#[test]
fn test_stage_retired_rejected() {
    let mut storage = FileStorage::new(BASE, &[]);
    storage.save(&make_record("v1.0.0", ReleaseStatus::Retired));
    let result = stage_release(&mut storage, "v1.0.0", 100);
    assert!(result.is_err());
    assert!(result.unwrap_err().contains("退役"));
}

#[test]
fn test_stage_idempotent_refresh() {
    let mut storage = FileStorage::new(BASE, &[]);
    let (id1, _) = stage_release(&mut storage, "v1.0.0", 100).unwrap();
    let (id2, _) = stage_release(&mut storage, "v1.0.0", 200).unwrap();
    assert_eq!(id1, id2);
    assert_eq!(storage.list().len(), 1);
    assert_eq!(storage.load("v1.0.0").unwrap().updated_at, "200");
}

// ---- publish and cancel ----

#[test]
fn test_publish_not_staged() {
    let mut storage = FileStorage::new(BASE, &[]);
    storage.save(&make_record("v1.0.0", ReleaseStatus::Cancelled));
    let result = publish_target(&storage, "v1.0.0");
    assert!(result.is_err());
}

#[test]
fn test_publish_not_found() {
    let storage = FileStorage::new(BASE, &[]);
    let result = publish_target(&storage, "v1.0.0");
    assert!(result.is_err());
    assert!(result.unwrap_err().contains("请先执行 stage"));
}

#[test]
fn test_cancel_not_staged() {
    let mut storage = FileStorage::new(BASE, &[]);
    storage.save(&make_record("v1.0.0", ReleaseStatus::Published));
    let result = cancel_target(&storage, "v1.0.0");
    assert!(result.is_err());
}

#[test]
fn test_cancel_nonexistent() {
    let storage = FileStorage::new(BASE, &[]);
    let result = cancel_target(&storage, "v9.9.9");
    assert!(result.is_err());
}

#[test]
fn staged_ids_are_hyphenated_uuids() {
    let r = ReleaseRecord::new_staged("v1.0.0", 1);
    assert_eq!(r.id.chars().count(), 36);
    for (i, c) in r.id.chars().enumerate() {
        if [8, 13, 18, 23].contains(&i) {
            assert_eq!(c, '-');
        } else {
            assert!(c.is_ascii_digit() || ('a'..='f').contains(&c));
        }
    }
}
