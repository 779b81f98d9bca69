use kse_core::model::{classify, AggregateStatus, CommitHash, RepoState, Submodule, SubmoduleStatus};

#[test]
fn test_status_priority_ordering() {
    assert!(SubmoduleStatus::Dirty.priority() < SubmoduleStatus::Clean.priority());
    assert!(SubmoduleStatus::Orphaned.priority() < SubmoduleStatus::BehindRemote.priority());
    assert!(SubmoduleStatus::Detached.priority() < SubmoduleStatus::AheadOfParent.priority());
    assert!(SubmoduleStatus::Uninitialized.priority() < SubmoduleStatus::Clean.priority());
}

#[test]
fn test_clean_is_lowest_priority() {
    let statuses = [
        SubmoduleStatus::Dirty,
        SubmoduleStatus::Orphaned,
        SubmoduleStatus::Detached,
        SubmoduleStatus::Uninitialized,
        SubmoduleStatus::BehindRemote,
        SubmoduleStatus::AheadOfParent,
    ];
    for s in &statuses {
        assert!(s.priority() < SubmoduleStatus::Clean.priority());
    }
}

#[test]
fn test_all_priorities_are_unique() {
    let priorities: Vec<u8> = [
        SubmoduleStatus::Dirty,
        SubmoduleStatus::Orphaned,
        SubmoduleStatus::Detached,
        SubmoduleStatus::Uninitialized,
        SubmoduleStatus::BehindRemote,
        SubmoduleStatus::AheadOfParent,
        SubmoduleStatus::Clean,
    ]
    .iter()
    .map(|s| s.priority())
    .collect();
    let mut sorted = priorities.clone();
    sorted.sort();
    sorted.dedup();
    assert_eq!(priorities.len(), sorted.len());
}

#[test]
fn test_status_debug_output() {
    assert_eq!(format!("{:?}", SubmoduleStatus::Clean), "Clean");
    assert_eq!(format!("{:?}", SubmoduleStatus::Dirty), "Dirty");
    assert_eq!(format!("{:?}", SubmoduleStatus::Orphaned), "Orphaned");
    assert_eq!(format!("{:?}", SubmoduleStatus::Detached), "Detached");
    assert_eq!(format!("{:?}", SubmoduleStatus::Uninitialized), "Uninitialized");
    assert_eq!(format!("{:?}", SubmoduleStatus::AheadOfParent), "AheadOfParent");
    assert_eq!(format!("{:?}", SubmoduleStatus::BehindRemote), "BehindRemote");
}

#[test]
fn test_status_clone_eq() {
    let a = SubmoduleStatus::Dirty;
    let b = a.clone();
    assert_eq!(a, b);
}

#[test]
fn test_commit_hash_display_truncates() {
    let hash = CommitHash("abcdef1234567890".to_string());
    assert_eq!(hash.to_string(), "abcdef1");
}

#[test]
fn test_commit_hash_display_short() {
    let hash = CommitHash("abc".to_string());
    assert_eq!(hash.to_string(), "abc");
}

#[test]
fn test_commit_hash_display_empty() {
    let hash = CommitHash(String::new());
    assert_eq!(hash.to_string(), "");
}

#[test]
fn test_commit_hash_equality() {
    let a = CommitHash("abc".to_string());
    let b = CommitHash("abc".to_string());
    let c = CommitHash("def".to_string());
    assert_eq!(a, b);
    assert_ne!(a, c);
}

#[test]
fn test_commit_hash_default() {
    let d = CommitHash::default();
    assert_eq!(d.0, "0000000000000000000000000000000000000000");
    assert_eq!(d.to_string(), "0000000");
}

#[test]
fn test_commit_hash_clone() {
    let a = CommitHash("deadbeef".to_string());
    let b = a.clone();
    assert_eq!(a, b);
}

fn submodule(name: &str, status: SubmoduleStatus) -> Submodule {
    Submodule {
        name: name.into(),
        path: String::new(),
        url: String::new(),
        tracked_branch: "main".into(),
        parent_pointer: CommitHash::default(),
        local_head: CommitHash::default(),
        remote_head: CommitHash::default(),
        status,
        ahead_count: 0,
        behind_count: 0,
        remote_unreachable: false,
    }
}

#[test]
fn test_submodule_builder() {
    let sm = Submodule {
        name: "test".into(),
        path: "libs/test".into(),
        url: "https://example.com/test.git".into(),
        tracked_branch: "main".into(),
        parent_pointer: CommitHash("aaa".into()),
        local_head: CommitHash("bbb".into()),
        remote_head: CommitHash("ccc".into()),
        status: SubmoduleStatus::BehindRemote,
        ahead_count: 0,
        behind_count: 3,
        remote_unreachable: false,
    };
    assert_eq!(sm.name, "test");
    assert_eq!(sm.behind_count, 3);
    assert!(!sm.remote_unreachable);
}

#[test]
fn test_aggregate_status_default() {
    let agg = AggregateStatus::default();
    assert_eq!(agg.total, 0);
}

#[test]
fn test_aggregate_status_from_submodules() {
    let sms = vec![
        submodule("a", SubmoduleStatus::Clean),
        submodule("b", SubmoduleStatus::Dirty),
        submodule("c", SubmoduleStatus::Orphaned),
    ];
    let agg = AggregateStatus::from_submodules(&sms);
    assert_eq!(agg.total, 3);
    assert_eq!(agg.clean, 1);
    assert_eq!(agg.dirty, 1);
    assert_eq!(agg.orphaned, 1);
}

#[test]
fn test_repo_state_empty() {
    let state = RepoState {
        root_path: "/tmp".into(),
        submodules: vec![],
        total: 0,
        clean_count: 0,
        needs_attention: vec![],
    };
    assert_eq!(state.total, 0);
}

#[test]
fn summary_partitions_clean_and_attention() {
    let sms = vec![
        submodule("a", SubmoduleStatus::Clean),
        submodule("b", SubmoduleStatus::Dirty),
        submodule("c", SubmoduleStatus::Clean),
    ];
    let state = RepoState::summarize("/r".into(), sms);
    assert_eq!(state.total, 3);
    assert_eq!(state.clean_count, 2);
    assert_eq!(state.needs_attention, vec!["b".to_string()]);
    let (subs, agg) = RepoState::scan_all(state);
    assert_eq!(subs.len(), 3);
    assert_eq!(agg.clean + agg.dirty, 3);
}

#[test]
fn classify_follows_the_ladder() {
    assert_eq!(classify(true, true, true, true, false, 1, 1), SubmoduleStatus::Uninitialized);
    assert_eq!(classify(false, true, true, false, false, 0, 0), SubmoduleStatus::Dirty);
    assert_eq!(classify(false, false, true, false, false, 0, 0), SubmoduleStatus::Detached);
    assert_eq!(classify(false, false, false, true, false, 0, 0), SubmoduleStatus::Orphaned);
    assert_eq!(classify(false, false, false, true, true, 0, 0), SubmoduleStatus::Clean);
    assert_eq!(classify(false, false, false, false, false, 2, 0), SubmoduleStatus::AheadOfParent);
    assert_eq!(classify(false, false, false, false, false, 2, 1), SubmoduleStatus::BehindRemote);
    assert_eq!(classify(false, false, false, false, true, 0, 1), SubmoduleStatus::Clean);
}
