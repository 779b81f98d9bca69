use kse_core::code::{diagnose, sort_by_severity, AnomalyKind, HealthIssue, OutOfSyncKind, Severity, SubmoduleStatus};

fn health_issue(name: &str, status: &SubmoduleStatus) -> HealthIssue {
    diagnose(name, status)
}

#[test]
fn test_synchronized_is_info() {
    let h = health_issue("sm", &SubmoduleStatus::Synchronized);
    assert_eq!(h.severity, Severity::Info);
    assert!(h.auto_fixable);
}

#[test]
fn test_ahead_is_info_and_fixable() {
    let h = health_issue("sm", &SubmoduleStatus::OutOfSync(OutOfSyncKind::AheadOfRemote));
    assert_eq!(h.severity, Severity::Info);
    assert!(h.auto_fixable);
}

#[test]
fn test_behind_is_info_and_fixable() {
    let h = health_issue("sm", &SubmoduleStatus::OutOfSync(OutOfSyncKind::BehindRemote));
    assert_eq!(h.severity, Severity::Info);
    assert!(h.auto_fixable);
}

#[test]
fn test_dirty_is_warning_not_fixable() {
    let h = health_issue("sm", &SubmoduleStatus::OutOfSync(OutOfSyncKind::Dirty));
    assert_eq!(h.severity, Severity::Warning);
    assert!(!h.auto_fixable);
}

#[test]
fn test_diverged_is_error_not_fixable() {
    let h = health_issue("sm", &SubmoduleStatus::OutOfSync(OutOfSyncKind::Diverged));
    assert_eq!(h.severity, Severity::Error);
    assert!(!h.auto_fixable);
}

#[test]
fn test_detached_is_error() {
    let h = health_issue("sm", &SubmoduleStatus::Anomaly(AnomalyKind::DetachedHead));
    assert_eq!(h.severity, Severity::Error);
}

#[test]
fn test_missing_is_error_but_fixable() {
    let h = health_issue("sm", &SubmoduleStatus::Anomaly(AnomalyKind::Missing));
    assert_eq!(h.severity, Severity::Error);
    assert!(h.auto_fixable);
}

#[test]
fn test_orphaned_is_error() {
    let h = health_issue("sm", &SubmoduleStatus::Anomaly(AnomalyKind::Orphaned));
    assert_eq!(h.severity, Severity::Error);
}

#[test]
fn test_unknown_includes_message() {
    let h = health_issue(
        "sm",
        &SubmoduleStatus::Anomaly(AnomalyKind::Unknown("network error".into())),
    );
    assert!(h.description.contains("network error"));
}

#[test]
fn test_severity_ordering() {
    assert!(Severity::Info < Severity::Warning);
    assert!(Severity::Warning < Severity::Error);
}

#[test]
fn diagnosis_names_the_submodule_and_symbols() {
    let h = diagnose("libs/a", &SubmoduleStatus::Synchronized);
    assert_eq!(h.submodule, "libs/a");
    assert_eq!(Severity::Info.to_string(), "ℹ");
    assert_eq!(Severity::Warning.to_string(), "⚠");
    assert_eq!(Severity::Error.to_string(), "✗");
}

#[test]
fn report_sorted_by_severity_keeps_all() {
    let issues = vec![
        health_issue("e1", &SubmoduleStatus::Anomaly(AnomalyKind::Missing)),
        health_issue("i1", &SubmoduleStatus::Synchronized),
        health_issue("w1", &SubmoduleStatus::OutOfSync(OutOfSyncKind::Dirty)),
        health_issue("i2", &SubmoduleStatus::Synchronized),
    ];
    let sorted = sort_by_severity(&issues);
    assert_eq!(sorted.len(), issues.len());
    for w in sorted.windows(2) {
        assert!(w[0].severity <= w[1].severity);
    }
    let names: Vec<&str> = sorted.iter().map(|i| i.submodule.as_str()).collect();
    // infos first, in their order
    assert_eq!(&names[..2], &["i1", "i2"]);
    assert_eq!(sorted[3].submodule, "e1");
}
