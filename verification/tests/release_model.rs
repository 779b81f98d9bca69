use kse_core::model::release::{
    validate_transition, FileStorage, ReleaseEntry, ReleaseRecord, ReleaseStatus, TransitionError,
};

#[test]
fn test_release_status_debug() {
    assert_eq!(format!("{:?}", ReleaseStatus::Staged), "Staged");
    assert_eq!(format!("{:?}", ReleaseStatus::Published), "Published");
    assert_eq!(format!("{:?}", ReleaseStatus::Cancelled), "Cancelled");
    assert_eq!(format!("{:?}", ReleaseStatus::Retired), "Retired");
}

#[test]
fn test_release_status_clone_eq() {
    let a = ReleaseStatus::Staged;
    let b = a.clone();
    assert_eq!(a, b);
}

#[test]
fn test_validate_staged_to_published() {
    assert!(validate_transition(&ReleaseStatus::Staged, &ReleaseStatus::Published).is_ok());
}

#[test]
fn test_validate_staged_to_cancelled() {
    assert!(validate_transition(&ReleaseStatus::Staged, &ReleaseStatus::Cancelled).is_ok());
}

#[test]
fn test_validate_cancelled_to_staged() {
    assert!(validate_transition(&ReleaseStatus::Cancelled, &ReleaseStatus::Staged).is_ok());
}

#[test]
fn test_validate_published_to_retired() {
    assert!(validate_transition(&ReleaseStatus::Published, &ReleaseStatus::Retired).is_ok());
}

#[test]
fn test_validate_invalid_transitions() {
    assert!(validate_transition(&ReleaseStatus::Staged, &ReleaseStatus::Retired).is_err());
    assert!(validate_transition(&ReleaseStatus::Published, &ReleaseStatus::Staged).is_err());
    assert!(validate_transition(&ReleaseStatus::Published, &ReleaseStatus::Cancelled).is_err());
    assert!(validate_transition(&ReleaseStatus::Cancelled, &ReleaseStatus::Published).is_err());
    assert!(validate_transition(&ReleaseStatus::Cancelled, &ReleaseStatus::Retired).is_err());
    assert!(validate_transition(&ReleaseStatus::Retired, &ReleaseStatus::Staged).is_err());
    assert!(validate_transition(&ReleaseStatus::Retired, &ReleaseStatus::Published).is_err());
    assert!(validate_transition(&ReleaseStatus::Retired, &ReleaseStatus::Cancelled).is_err());
}

#[test]
fn test_transition_error_display() {
    let err = TransitionError::AlreadyPublished("v1.0.0".into());
    assert!(err.to_string().contains("已发布"));

    let err = TransitionError::NotStaged("v1.0.0".into());
    assert!(err.to_string().contains("Staged"));

    let err = TransitionError::NotPublished("v1.0.0".into());
    assert!(err.to_string().contains("Published"));
}

fn make_record(version: &str, status: ReleaseStatus, now: u64) -> ReleaseRecord {
    let mut r = ReleaseRecord::new_staged(version, now);
    r.status = status;
    r
}

#[test]
fn new_staged_record_fields() {
    let r = ReleaseRecord::new_staged("v1.0.0", 1700000000);
    assert_eq!(r.version, "v1.0.0");
    assert_eq!(r.status, ReleaseStatus::Staged);
    assert!(!r.id.is_empty());
    assert_eq!(r.created_at, "1700000000");
    assert_eq!(r.updated_at, "1700000000");
}

#[test]
fn storage_read_after_save_and_update() {
    let mut storage = FileStorage::new("/repo", &[]);
    assert_eq!(storage.events_path(), "/repo/.quanttide/devops/release-journal.jsonl");
    assert!(storage.load("v1.0.0").is_none());
    let r = make_record("v1.0.0", ReleaseStatus::Staged, 100);
    let e1 = storage.save(&r);
    assert_eq!(e1.version, "v1.0.0");
    assert_eq!(storage.load("v1.0.0").unwrap().status, ReleaseStatus::Staged);
    let mut r2 = r.duplicate();
    r2.status = ReleaseStatus::Published;
    r2.updated_at = "999".into();
    let e2 = storage.save(&r2);
    assert_eq!(e2.created_at, "999");
    let loaded = storage.load("v1.0.0").unwrap();
    assert_eq!(loaded.status, ReleaseStatus::Published);
    assert_eq!(loaded.updated_at, "999");
    storage.save(&make_record("v2.0.0", ReleaseStatus::Published, 5));
    assert_eq!(storage.list().len(), 2);
}

#[test]
fn journal_replay_keeps_first_created_at() {
    let mut storage = FileStorage::new("/repo", &[]);
    let r = make_record("v1.0.0", ReleaseStatus::Staged, 100);
    let mut journal: Vec<ReleaseEntry> = vec![storage.save(&r)];
    let reopened = FileStorage::new("/repo", &journal);
    let loaded = reopened.load("v1.0.0").unwrap();
    assert_eq!(loaded.created_at, "100");
    let mut updated = loaded;
    updated.status = ReleaseStatus::Published;
    updated.updated_at = "200".into();
    let mut s2 = FileStorage::new("/repo", &journal);
    journal.push(s2.save(&updated));
    assert_eq!(journal.len(), 2);
    let s3 = FileStorage::new("/repo", &journal);
    let loaded = s3.load("v1.0.0").unwrap();
    assert_eq!(loaded.created_at, "100");
    assert_eq!(loaded.status, ReleaseStatus::Published);
    assert_eq!(loaded.updated_at, "200");
}
