use kse_core::commands::lifecycle::{cancel_target, complete_transition, publish_target, stage_release};
use kse_core::git_experiment::{tally, Trial};
use kse_core::model::release::{FileStorage, ReleaseStatus};
use kse_core::preflight::{step_ok, test_result_line, PreflightResult};

#[test]
fn stage_publish_cancel_cycle() {
    let mut s = FileStorage::new("/repo", &[]);
    assert_eq!(stage_release(&mut s, "1.0", 10).unwrap_err(), "版本号格式错误: 1.0");
    let (id, e) = stage_release(&mut s, "v1.0.0", 10).unwrap();
    assert_eq!(e.id, id);
    assert_eq!(e.status, ReleaseStatus::Staged);
    // staging again refreshes the same attempt
    let (id2, e2) = stage_release(&mut s, "v1.0.0", 20).unwrap();
    assert_eq!(id2, id);
    assert_eq!(e2.created_at, "20");
    assert_eq!(s.load("v1.0.0").unwrap().created_at, "10");
    // publish
    let rec = publish_target(&s, "v1.0.0").unwrap();
    let (pid, pe) = complete_transition(&mut s, rec, ReleaseStatus::Published, 30);
    assert_eq!(pid, id);
    assert_eq!(pe.status, ReleaseStatus::Published);
    assert_eq!(
        stage_release(&mut s, "v1.0.0", 40).unwrap_err(),
        "版本 v1.0.0 已发布，不可重复 stage"
    );
    assert_eq!(
        publish_target(&s, "v1.0.0").unwrap_err(),
        "版本 v1.0.0 不处于 Staged 状态 (当前: Published)"
    );
    assert_eq!(publish_target(&s, "v9.0.0").unwrap_err(), "版本 v9.0.0 不存在，请先执行 stage");
    assert_eq!(cancel_target(&s, "v9.0.0").unwrap_err(), "版本 v9.0.0 不存在");
    assert_eq!(cancel_target(&s, "v1.0.0").unwrap_err(), "版本 v1.0.0 不处于 Staged 状态");
    // a cancelled version can be staged again with a new attempt
    let (id3, _) = stage_release(&mut s, "v2.0.0", 50).unwrap();
    let rec = cancel_target(&s, "v2.0.0").unwrap();
    complete_transition(&mut s, rec, ReleaseStatus::Cancelled, 60);
    let (id4, _) = stage_release(&mut s, "v2.0.0", 70).unwrap();
    assert_ne!(id3, id4);
    assert_eq!(s.load("v2.0.0").unwrap().status, ReleaseStatus::Staged);
}

#[test]
fn preflight_steps() {
    assert!(step_ok(false, None));
    assert!(step_ok(true, Some(true)));
    assert!(!step_ok(true, Some(false)));
    assert!(!step_ok(true, None));
    let r = PreflightResult { build_ok: true, test_ok: true, dry_run_ok: false, version: "?".into() };
    assert!(!r.all_pass());
    assert_eq!(
        test_result_line("running\n  test result: ok. 1 passed  \n"),
        Some("test result: ok. 1 passed".to_string())
    );
    assert_eq!(test_result_line("nothing\n"), None);
}

#[test]
fn trial_winner() {
    let t = |a: bool, b: bool, x: u128, y: u128| Trial { label: "t", git2_ok: a, gix_ok: b, git2_nanos: x, gix_nanos: y };
    assert_eq!(t(false, false, 1, 2).winner(), "both failed");
    assert_eq!(t(false, true, 1, 2).winner(), "gix only");
    assert_eq!(t(true, false, 1, 2).winner(), "git2 only");
    assert_eq!(t(true, true, 1, 2).winner(), "git2");
    assert_eq!(t(true, true, 3, 2).winner(), "gix");
    assert_eq!(t(true, true, 2, 2).winner(), "tie");
}

#[test]
fn trial_tally() {
    let t = |a: bool, b: bool, x: u128, y: u128| Trial { label: "t", git2_ok: a, gix_ok: b, git2_nanos: x, gix_nanos: y };
    let trials = [
        t(true, true, 1, 2),
        t(true, true, 5, 2),
        t(true, true, 3, 4),
        t(true, true, 2, 2),
        t(false, false, 1, 1),
        t(true, false, 1, 9),
    ];
    assert_eq!(tally(&trials), (2, 1, 1));
    assert_eq!(tally(&[]), (0, 0, 0));
}
