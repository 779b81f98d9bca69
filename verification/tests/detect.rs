use std::collections::HashMap;
use kse_core::cli_detect;
use kse_core::detect::{
    build_version, collect_tags_with_scope, detect_version_for_scope, fallback_heuristic,
    parse_tag, parse_version, prefix_version, LlmDecision,
};

#[test]
fn test_parse_tag_scoped() {
    assert_eq!(parse_tag("cli/v0.8.4"), (Some("cli".to_string()), "v0.8.4"));
}

#[test]
fn test_parse_tag_root() {
    assert_eq!(parse_tag("v0.1.0"), (None, "v0.1.0"));
}

#[test]
fn test_parse_version_formal() {
    let (ma, mi, pa, st, nu) = parse_version("0.8.4").unwrap();
    assert_eq!((ma, mi, pa), (0, 8, 4));
    assert!(st.is_none());
    assert!(nu.is_none());
}

#[test]
fn detect_test_parse_version_formal() {
    let (maj, min, pat, pre) = cli_detect::parse_version("v1.2.3").unwrap();
    assert_eq!((maj, min, pat), (1, 2, 3));
    assert!(pre.is_none());
}

#[test]
fn test_parse_version_prerelease() {
    let (ma, mi, pa, st, nu) = parse_version("0.9.0-rc.1").unwrap();
    assert_eq!((ma, mi, pa), (0, 9, 0));
    assert_eq!(st.as_deref(), Some("rc"));
    assert_eq!(nu, Some(1));
}

#[test]
fn detect_test_parse_version_prerelease() {
    let (maj, min, pat, pre) = cli_detect::parse_version("v0.1.0-rc.1").unwrap();
    assert_eq!((maj, min, pat), (0, 1, 0));
    assert_eq!(pre, Some("rc.1".into()));
}

#[test]
fn test_parse_version_with_v_prefix() {
    let (ma, mi, pa, _, _) = parse_version("v0.8.4").unwrap();
    assert_eq!((ma, mi, pa), (0, 8, 4));
}

#[test]
fn test_parse_version_bad_format() {
    assert!(parse_version("abc").is_err());
    assert!(parse_version("0.1").is_err());
}

#[test]
fn detect_test_parse_version_bad_format() {
    assert!(cli_detect::parse_version("invalid").is_none());
}

#[test]
fn test_parse_version_beta() {
    let (ma, mi, pa, st, nu) = parse_version("0.7.0-beta.3").unwrap();
    assert_eq!((ma, mi, pa), (0, 7, 0));
    assert_eq!(st.as_deref(), Some("beta"));
    assert_eq!(nu, Some(3));
}

#[test]
fn test_collect_tags_sorts_by_semver() {
    let tags = vec![
        "cli/v0.8.4",
        "cli/v0.9.0",
        "cli/v0.8.4-rc.1",
        "cli/v0.10.0",
        "cli/v0.9.0-rc.2",
    ];
    let mut groups: HashMap<String, Vec<(String, u32, u32, u32)>> = HashMap::new();
    for tag in &tags {
        let (scope, ver_str) = parse_tag(tag);
        let name = scope.unwrap_or_else(|| "(root)".to_string());
        if let Ok((ma, mi, pa, _, _)) = parse_version(ver_str) {
            groups
                .entry(name)
                .or_default()
                .push((tag.to_string(), ma, mi, pa));
        }
    }
    let mut cli = groups.remove("cli").unwrap();
    cli.sort_by(|a, b| (b.1, b.2, b.3).cmp(&(a.1, a.2, a.3)));
    let versions: Vec<&str> = cli.iter().map(|(t, _, _, _)| t.as_str()).collect();
    assert_eq!(
        versions,
        vec![
            "cli/v0.10.0",
            "cli/v0.9.0",
            "cli/v0.9.0-rc.2",
            "cli/v0.8.4",
            "cli/v0.8.4-rc.1",
        ]
    );
}

#[test]
fn collected_tags_rank_release_above_its_prereleases() {
    let tags: Vec<String> = vec![
        "cli/v0.8.4".to_string(),
        "cli/v0.9.0".to_string(),
        "cli/v0.8.4-rc.1".to_string(),
        "cli/v0.10.0".to_string(),
        "cli/v0.9.0-rc.2".to_string(),
    ];
    let groups = collect_tags_with_scope(&tags);
    assert_eq!(groups.len(), 1);
    let cli = groups.iter().find(|(k, _)| k == "cli").unwrap();
    assert_eq!(
        cli.1,
        vec![
            "cli/v0.10.0",
            "cli/v0.9.0",
            "cli/v0.9.0-rc.2",
            "cli/v0.8.4",
            "cli/v0.8.4-rc.1",
        ]
    );
}

#[test]
fn stages_rank_alpha_beta_rc_release() {
    let tags: Vec<String> = vec![
        "v1.0.0-beta.2".to_string(),
        "v1.0.0".to_string(),
        "v1.0.0-alpha.1".to_string(),
        "v1.0.0-rc.1".to_string(),
        "v1.0.0-beta.10".to_string(),
    ];
    let groups = collect_tags_with_scope(&tags);
    assert_eq!(
        groups[0].1,
        vec!["v1.0.0", "v1.0.0-rc.1", "v1.0.0-beta.10", "v1.0.0-beta.2", "v1.0.0-alpha.1"]
    );
    assert_eq!(
        kse_core::detect::get_latest_tag_for_scope(&groups, None),
        Some("v1.0.0".to_string())
    );
}

#[test]
fn test_fallback_heuristic_feat() {
    let commits: Vec<String> = vec!["feat: add new command".into()];
    let d = fallback_heuristic(&commits);
    assert_eq!(d.action, "release");
    assert_eq!(d.increment.as_deref(), Some("minor"));
    assert!(d.prerelease.is_none());
}

#[test]
fn detect_test_fallback_heuristic_feat() {
    let d = cli_detect::fallback_heuristic(&["feat: new command".into()], &None).unwrap();
    assert_eq!(d.action, "release");
    assert_eq!(d.increment.as_deref(), Some("minor"));
}

#[test]
fn test_fallback_heuristic_fix() {
    let commits: Vec<String> = vec!["fix: resolve crash".into()];
    let d = fallback_heuristic(&commits);
    assert_eq!(d.action, "release");
    assert_eq!(d.increment.as_deref(), Some("patch"));
    assert!(d.prerelease.is_none());
}

#[test]
fn detect_test_fallback_heuristic_fix() {
    let d = cli_detect::fallback_heuristic(&["fix: bug fix".into()], &None).unwrap();
    assert_eq!(d.action, "release");
    assert_eq!(d.increment.as_deref(), Some("patch"));
}

#[test]
fn test_fallback_heuristic_docs() {
    let commits: Vec<String> = vec!["docs: update readme".into()];
    let d = fallback_heuristic(&commits);
    assert_eq!(d.action, "release");
    assert_eq!(d.increment.as_deref(), Some("patch"));
    assert!(d.prerelease.is_none());
}

#[test]
fn test_fallback_heuristic_skip() {
    let commits: Vec<String> = vec!["chore: bump version".into()];
    let d = fallback_heuristic(&commits);
    assert_eq!(d.action, "skip");
}

#[test]
fn test_fallback_heuristic_breaking() {
    let commits: Vec<String> = vec!["feat!: breaking change".into()];
    let d = fallback_heuristic(&commits);
    assert_eq!(d.action, "human");
}

#[test]
fn test_fallback_heuristic_skip_chore() {
    let d = cli_detect::fallback_heuristic(&["chore: cleanup".into()], &None).unwrap();
    assert_eq!(d.action, "skip");
}

#[test]
fn test_build_version_patch() {
    let v = build_version(0, 8, 4, None, None, "patch", None);
    assert_eq!(v, "v0.8.5");
}

#[test]
fn detect_test_build_version_patch() {
    let d = cli_detect::Decision {
        action: "release".into(),
        increment: Some("patch".into()),
        prerelease: None,
    };
    let v = cli_detect::build_version(&Some("v0.2.0".into()), &d, &[]).unwrap();
    assert_eq!(v, "v0.2.1");
}

#[test]
fn test_build_version_minor_rc() {
    let v = build_version(0, 8, 4, None, None, "minor", Some("rc"));
    assert_eq!(v, "v0.9.0-rc.1");
}

#[test]
fn detect_test_build_version_minor_rc() {
    let d = cli_detect::Decision {
        action: "release".into(),
        increment: Some("minor".into()),
        prerelease: Some("rc".into()),
    };
    let v = cli_detect::build_version(&None, &d, &[]).unwrap();
    assert_eq!(v, "v0.1.0-rc.1");
}

#[test]
fn test_build_version_prerelease_increment() {
    let v = build_version(0, 9, 0, Some("rc"), Some(1), "patch", None);
    assert_eq!(v, "v0.9.0-rc.2");
}

#[test]
fn test_build_version_minor_formal() {
    let v = build_version(0, 8, 4, None, None, "minor", None);
    assert_eq!(v, "v0.9.0");
}

#[test]
fn test_build_version_skip() {
    let d = cli_detect::Decision {
        action: "skip".into(),
        increment: None,
        prerelease: None,
    };
    assert!(cli_detect::build_version(&None, &d, &[]).is_err());
}

#[test]
fn test_prefix_version_scoped() {
    assert_eq!(prefix_version("cli", "v0.9.0"), "cli/v0.9.0");
}

#[test]
fn test_prefix_version_root() {
    assert_eq!(prefix_version("(root)", "v0.9.0"), "v0.9.0");
}

#[test]
fn test_prefix_version_empty() {
    assert_eq!(prefix_version("", "v0.9.0"), "v0.9.0");
}

// ── further cases ──────────────────────────────────────────────

fn decision(action: &str, increment: Option<&str>, prerelease: Option<&str>) -> LlmDecision {
    LlmDecision {
        action: action.to_string(),
        increment: increment.map(|s| s.to_string()),
        prerelease: prerelease.map(|s| s.to_string()),
        reason: "r".to_string(),
    }
}

#[test]
fn scope_first_release_is_0_1_0_even_when_skipped() {
    let commits: Vec<String> = vec!["chore: x".into()];
    let r = detect_version_for_scope(None, false, &commits, &decision("skip", None, None));
    assert_eq!(r, Ok(Some("v0.1.0".to_string())));
    let r = detect_version_for_scope(None, false, &commits, &decision("release", None, Some("alpha")));
    assert_eq!(r, Ok(Some("v0.1.0-alpha.1".to_string())));
}

#[test]
fn scope_errors_and_skips() {
    let commits: Vec<String> = vec!["fix: x".into()];
    let d = decision("release", Some("patch"), None);
    assert_eq!(
        detect_version_for_scope(Some("cli/v1.2.3"), true, &commits, &d),
        Err("上次标签后没有新提交".to_string())
    );
    assert_eq!(
        detect_version_for_scope(Some("cli/v1.2.3"), false, &[], &d),
        Err("没有提交记录".to_string())
    );
    assert_eq!(
        detect_version_for_scope(Some("cli/v1.2"), false, &commits, &d),
        Err("版本号格式错误: 1.2，需要 X.Y.Z".to_string())
    );
    assert_eq!(
        detect_version_for_scope(Some("cli/v1.2.3"), false, &commits, &decision("skip", None, None)),
        Ok(None)
    );
    assert_eq!(
        detect_version_for_scope(Some("cli/v1.2.3"), false, &commits, &decision("human", None, None)),
        Err("需要人类判断: r".to_string())
    );
    assert_eq!(
        detect_version_for_scope(Some("cli/v1.2.3"), false, &commits, &d),
        Ok(Some("v1.2.4".to_string()))
    );
}

#[test]
fn parse_version_number_errors() {
    assert_eq!(parse_version("x.1.2"), Err("major 不是数字".to_string()));
    assert_eq!(parse_version("1.y.2"), Err("minor 不是数字".to_string()));
    assert_eq!(parse_version("1.2.z"), Err("patch 不是数字".to_string()));
    assert_eq!(parse_version("4294967296.0.0"), Err("major 不是数字".to_string()));
}

#[test]
fn tags_grouped_by_scope_and_unparsable_left_out() {
    let tags: Vec<String> = vec![
        "v0.1.0".to_string(),
        "cli/v0.2.0".to_string(),
        "junk".to_string(),
        "v0.2.0-alpha.1".to_string(),
        "v0.2.0-beta.1".to_string(),
    ];
    let groups = collect_tags_with_scope(&tags);
    assert_eq!(groups.len(), 2);
    let root = groups.iter().find(|(k, _)| k == "(root)").unwrap();
    assert_eq!(root.1, vec!["v0.2.0-beta.1", "v0.2.0-alpha.1", "v0.1.0"]);
    assert_eq!(
        kse_core::detect::get_latest_tag_for_scope(&groups, None),
        Some("v0.2.0-beta.1".to_string())
    );
    assert_eq!(
        kse_core::detect::get_latest_tag_for_scope(&groups, Some("cli")),
        Some("cli/v0.2.0".to_string())
    );
    assert_eq!(
        kse_core::detect::base_tag_for_diff(&groups),
        Some("cli/v0.2.0".to_string())
    );
}

#[test]
fn detect_scopes_sorted_hits_then_fallbacks() {
    let paths: Vec<String> = vec!["src/studio/a.rs".into(), "cli/main.rs".into()];
    let scopes: Vec<(String, String)> = vec![
        ("studio".into(), "/src/studio".into()),
        ("cli".into(), "cli".into()),
        ("docs".into(), "docs".into()),
    ];
    let r = kse_core::detect::detect_scopes(&paths, &scopes, &[]);
    assert_eq!(r, vec!["cli".to_string(), "studio".to_string()]);
    let none: Vec<String> = vec![];
    let r = kse_core::detect::detect_scopes(&none, &scopes, &[]);
    assert_eq!(r, vec!["(root)".to_string()]);
    let groups = collect_tags_with_scope(&["api/v1.0.0".to_string(), "v1.0.0".to_string()]);
    let r = kse_core::detect::detect_scopes(&none, &scopes, &groups);
    assert_eq!(r, vec!["api".to_string()]);
}

#[test]
fn project_type_from_indicators() {
    assert_eq!(kse_core::detect::detect_project_type(false, &[true]), "unknown");
    assert_eq!(kse_core::detect::detect_project_type(true, &[false, true]), "code");
    assert_eq!(kse_core::detect::detect_project_type(true, &[false, false]), "docs");
}

#[test]
fn cli_tags_filtered_and_sorted_descending() {
    let tags: Vec<String> = vec![
        "v0.1.0".into(),
        "cli/v0.2.0".into(),
        "other/v9.0.0".into(),
        "cli/v0.10.0".into(),
    ];
    let r = cli_detect::collect_tags_with_scope(&tags, "cli");
    assert_eq!(r, vec!["v0.1.0", "cli/v0.2.0", "cli/v0.10.0"]);
}

#[test]
fn cli_commits_from_log() {
    let c = cli_detect::get_commits_since_tag(&None, true, "abc feat: x\n");
    assert_eq!(c, vec!["feat: 初始版本".to_string()]);
    let c = cli_detect::get_commits_since_tag(&Some("v1.0.0".into()), false, "");
    assert_eq!(c, vec!["feat: 未知变更".to_string()]);
    let c = cli_detect::get_commits_since_tag(&Some("v1.0.0".into()), true, "abc feat: x\nnospace\ndef fix: y\n");
    assert_eq!(c, vec!["feat: x".to_string(), "fix: y".to_string()]);
}

#[test]
fn cli_scope_version_patch_in_prerelease_series() {
    let tags: Vec<String> = vec!["v0.3.0-rc.2".into()];
    let commits: Vec<String> = vec!["fix: y".into()];
    let r = cli_detect::detect_version_for_scope(&tags, "cli", &commits);
    assert_eq!(r, Ok(Some("v0.3.1-rc.3".to_string())));
    // a scoped tag is parsed whole, so its version does not parse
    let scoped: Vec<String> = vec!["cli/v0.3.0".into()];
    let r = cli_detect::detect_version_for_scope(&scoped, "cli", &commits);
    assert_eq!(r, Ok(Some("v0.0.1".to_string())));
    let r = cli_detect::detect_version_for_scope(&tags, "cli", &[]);
    assert_eq!(r, Ok(None));
    let d = cli_detect::Decision {
        action: "release".into(),
        increment: Some("major".into()),
        prerelease: None,
    };
    assert_eq!(
        cli_detect::build_version(&None, &d, &[]),
        Err("无效增量类型".to_string())
    );
}

#[test]
fn built_versions_parse_back() {
    let v = build_version(1, 2, 3, None, None, "patch", None);
    assert_eq!(v, "v1.2.4");
    assert_eq!(parse_version(&v).unwrap(), (1, 2, 4, None, None));
    let v = build_version(0, 3, 0, Some("rc"), Some(1), "minor", None);
    assert_eq!(v, "v0.3.0-rc.2");
    assert_eq!(parse_version(&v).unwrap(), (0, 3, 0, Some("rc".to_string()), Some(2)));
    let v = build_version(0, 9, 7, None, None, "minor", Some("beta"));
    assert_eq!(v, "v0.10.0-beta.1");
    assert_eq!(parse_version(&v).unwrap(), (0, 10, 0, Some("beta".to_string()), Some(1)));
    let v = build_version(2, 0, 0, None, None, "minor", None);
    assert_eq!(parse_version(&v).unwrap(), (2, 1, 0, None, None));
}

#[test]
fn cli_built_versions_parse_back() {
    let patch = cli_detect::Decision {
        action: "release".into(),
        increment: Some("patch".into()),
        prerelease: None,
    };
    let v = cli_detect::build_version(&Some("v0.2.0-rc.3".into()), &patch, &[]).unwrap();
    assert_eq!(v, "v0.2.1-rc.4");
    assert_eq!(cli_detect::parse_version(&v), Some((0, 2, 1, Some("rc.4".to_string()))));
    let minor = cli_detect::Decision {
        action: "release".into(),
        increment: Some("minor".into()),
        prerelease: Some("rc".into()),
    };
    let v = cli_detect::build_version(&Some("v1.4.9".into()), &minor, &[]).unwrap();
    assert_eq!(v, "v1.5.0-rc.1");
    assert_eq!(cli_detect::parse_version(&v), Some((1, 5, 0, Some("rc.1".to_string()))));
    let v = cli_detect::build_version(&None, &patch, &[]).unwrap();
    assert_eq!(cli_detect::parse_version(&v), Some((0, 0, 1, None)));
}

#[test]
fn fallback_reads_prefixes_case_insensitively() {
    let d = fallback_heuristic(&["FEAT: Shout".to_string()]);
    assert_eq!(d.increment.as_deref(), Some("minor"));
    let d = fallback_heuristic(&["Fix: typo in parser".to_string()]);
    assert_eq!(d.increment.as_deref(), Some("patch"));
    let d = fallback_heuristic(&["refactor: BREAKING storage layout".to_string()]);
    assert_eq!(d.action, "human");
}

#[test]
fn written_versions_parse_back() {
    assert_eq!(parse_version("v4294967295.0.1").unwrap(), (4294967295, 0, 1, None, None));
    assert_eq!(parse_version("0.12.3").unwrap(), (0, 12, 3, None, None));
    assert_eq!(
        parse_version("3.4.5-dev.0").unwrap(),
        (3, 4, 5, Some("dev".to_string()), Some(0))
    );
    assert_eq!(
        parse_version("v1.0.0-rc-x.7").unwrap(),
        (1, 0, 0, Some("rc-x".to_string()), Some(7))
    );
}
