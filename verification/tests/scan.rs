use kse_core::gix_scan::{
    default_submodule_state, determine_submodule_status, gix_scanned_submodule,
    parse_gitmodules_ini, summarize_by_name, CommitHash, GixObserved, Submodule, SubmoduleStatus,
};
use kse_core::model::{scanned_submodule, Observed};

#[test]
fn gitmodules_entries_and_branch_defaults() {
    let content = "[submodule \"b\"]\n\tpath = libs/b\n\turl = https://x/b.git\n[submodule \"a\"]\n\tpath = libs/a\n\turl = https://x/a.git\n\tbranch = dev\n[submodule \"c\"]\n\tpath = libs/c\n";
    let e = parse_gitmodules_ini(content);
    assert_eq!(e.len(), 3);
    assert_eq!(e[0], ("b".into(), "libs/b".into(), "https://x/b.git".into(), "main".into()));
    assert_eq!(e[1], ("a".into(), "libs/a".into(), "https://x/a.git".into(), "dev".into()));
    assert_eq!(e[2], ("c".into(), "libs/c".into(), String::new(), String::new()));
    assert!(parse_gitmodules_ini("path = x\n").is_empty());
}

#[test]
fn default_state_is_uninitialized() {
    let s = default_submodule_state();
    assert_eq!(s.0, CommitHash::default());
    assert!(s.7);
    assert!(!s.8);
}

#[test]
fn status_ladder_with_unreachable_remote() {
    let a = CommitHash("a".into());
    let b = CommitHash("b".into());
    assert_eq!(
        determine_submodule_status(false, false, false, false, true, 0, 0, &a, &b),
        SubmoduleStatus::AheadOfParent
    );
    assert_eq!(
        determine_submodule_status(false, false, false, false, true, 0, 0, &a, &a),
        SubmoduleStatus::Clean
    );
    assert_eq!(
        determine_submodule_status(true, true, false, false, false, 0, 0, &a, &a),
        SubmoduleStatus::Uninitialized
    );
    assert_eq!(
        determine_submodule_status(false, false, false, false, false, 0, 2, &a, &a),
        SubmoduleStatus::BehindRemote
    );
}

fn sm(name: &str, status: SubmoduleStatus) -> Submodule {
    Submodule {
        name: name.into(),
        path: String::new(),
        url: String::new(),
        tracked_branch: "main".into(),
        parent_pointer: CommitHash::default(),
        local_head: CommitHash::default(),
        remote_head: CommitHash::default(),
        status,
        ahead_count: 0,
        behind_count: 0,
        remote_unreachable: false,
    }
}

#[test]
fn summary_is_ordered_by_name() {
    let state = summarize_by_name(
        "/r".into(),
        vec![sm("c", SubmoduleStatus::Clean), sm("a", SubmoduleStatus::Dirty), sm("b", SubmoduleStatus::Clean)],
    );
    let names: Vec<&str> = state.submodules.iter().map(|s| s.name.as_str()).collect();
    assert_eq!(names, vec!["a", "b", "c"]);
    assert_eq!(state.total, 3);
    assert_eq!(state.clean_count, 2);
    assert_eq!(state.needs_attention, vec!["a".to_string()]);
}

fn h(c: &str) -> CommitHash {
    CommitHash(c.repeat(40))
}

fn observed(remote: Option<CommitHash>, ahead: usize, behind: usize, left: bool) -> Observed {
    Observed {
        local_head: h("b"),
        is_detached: false,
        remote_head: remote,
        ahead,
        behind,
        pointer_left_remote: left,
    }
}

#[test]
fn scanned_submodule_counts_and_status() {
    let mk = |uninit: bool, o: Option<Observed>| {
        scanned_submodule(
            "m".into(),
            "libs/m".into(),
            "u".into(),
            "dev".into(),
            h("a"),
            uninit,
            false,
            o,
        )
    };
    // uninitialized: nothing observed, nothing counted, remote reachable
    let s = mk(true, Some(observed(None, 3, 4, true)));
    assert_eq!((s.ahead_count, s.behind_count, s.remote_unreachable), (0, 0, false));
    assert_eq!(s.status, SubmoduleStatus::Uninitialized);
    assert_eq!(s.local_head, CommitHash::default());
    // unreachable remote: counts dropped
    let s = mk(false, Some(observed(None, 3, 4, true)));
    assert_eq!((s.ahead_count, s.behind_count, s.remote_unreachable), (0, 0, true));
    assert_eq!(s.remote_head, CommitHash::default());
    assert_eq!(s.status, SubmoduleStatus::Clean);
    // reachable: counts kept, behind only
    let s = mk(false, Some(observed(Some(h("c")), 0, 2, false)));
    assert_eq!((s.ahead_count, s.behind_count), (0, 2));
    assert_eq!(s.status, SubmoduleStatus::BehindRemote);
    assert_eq!(s.tracked_branch, "dev");
    // the parent's pointer left the remote history
    let s = mk(false, Some(observed(Some(h("c")), 1, 0, true)));
    assert_eq!(s.status, SubmoduleStatus::Orphaned);
    // the orphan test does not apply when the remote is the parent's pointer
    let s = mk(false, Some(observed(Some(h("a")), 1, 0, true)));
    assert_eq!(s.status, SubmoduleStatus::AheadOfParent);
    // unopened repository: default state
    let s = mk(false, None);
    assert_eq!((s.ahead_count, s.behind_count, s.remote_unreachable), (0, 0, false));
    assert_eq!(s.status, SubmoduleStatus::Clean);
}

#[test]
fn gix_scanned_submodule_records() {
    let s = gix_scanned_submodule("m".into(), "p".into(), "u".into(), h("a"), None);
    assert_eq!(s.status, SubmoduleStatus::Uninitialized);
    assert_eq!(s.tracked_branch, "main");
    let o = |remote: Option<CommitHash>, dirty: bool| GixObserved {
        local_head: h("b"),
        is_detached: false,
        remote_head: remote,
        is_dirty: dirty,
    };
    let s = gix_scanned_submodule("m".into(), "p".into(), "u".into(), h("a"), Some(o(None, false)));
    assert!(s.remote_unreachable);
    assert_eq!(s.status, SubmoduleStatus::AheadOfParent);
    assert_eq!((s.ahead_count, s.behind_count), (0, 0));
    let s = gix_scanned_submodule("m".into(), "p".into(), "u".into(), h("a"), Some(o(Some(h("c")), false)));
    assert_eq!(s.status, SubmoduleStatus::Clean);
    assert_eq!(s.remote_head, h("c"));
    let s = gix_scanned_submodule("m".into(), "p".into(), "u".into(), h("a"), Some(o(Some(h("c")), true)));
    assert_eq!(s.status, SubmoduleStatus::Dirty);
}
