use kse_core::commands::export::{generate_ci_script, timestamp};
use kse_core::commands::history::list_query;
use kse_core::commands::release::{
    extract_notes, normalize_version, parse_github_repo, precheck_version_changelog,
    release_confirmed, validate_version,
};
use kse_core::commands::{describe_issue, health_issues};
use kse_core::model::{CommitHash, RepoState, Submodule, SubmoduleStatus};

#[test]
fn test_validate_version_v_prefix() {
    assert!(validate_version("v1.2.3"));
}

#[test]
fn test_validate_version_with_suffix() {
    assert!(validate_version("v1.2.3-alpha.1"));
    assert!(validate_version("v1.2.3-rc1"));
    assert!(validate_version("v1.2.3-beta"));
    assert!(validate_version("v1.2.3-0"));
}

#[test]
fn test_validate_version_pkg_prefix() {
    assert!(validate_version("pkg/v1.2.3"));
    assert!(validate_version("my-crate/v1.2.3"));
    assert!(validate_version("a.b_c/v1.2.3"));
}

#[test]
fn test_validate_version_pkg_with_suffix() {
    assert!(validate_version("pkg/v1.2.3-rc.1"));
}

#[test]
fn test_validate_version_invalid() {
    assert!(!validate_version("1.2.3"));
    assert!(!validate_version("v1.2"));
    assert!(!validate_version("v1.2.3.4"));
    assert!(!validate_version("abc"));
    assert!(!validate_version(""));
    assert!(!validate_version("vabc.def.ghi"));
    assert!(!validate_version("V1.2.3"));
    assert!(!validate_version(" v1.2.3"));
    assert!(!validate_version("v1.2.3 "));
    assert!(!validate_version("v1.0.0-"));
    assert!(!validate_version("/v1.0.0"));
}

#[test]
fn release_test_normalize_version_v_prefix() {
    assert_eq!(normalize_version("v1.2.3"), "1.2.3");
}

#[test]
fn test_normalize_version_pkg() {
    assert_eq!(normalize_version("pkg/v1.2.3"), "1.2.3");
}

#[test]
fn test_normalize_version_with_suffix() {
    assert_eq!(normalize_version("v1.2.3-rc1"), "1.2.3-rc1");
}

#[test]
fn test_normalize_version_complex_pkg() {
    assert_eq!(normalize_version("my-crate/v1.2.3-beta.2"), "1.2.3-beta.2");
}

#[test]
fn test_normalize_version_no_prefix() {
    assert_eq!(normalize_version("1.2.3"), "1.2.3");
}

const PATH: &str = "CHANGELOG.md";

#[test]
fn test_precheck_changelog_version_format_error() {
    let errors = precheck_version_changelog("v1.x", PATH, Some("## [1.0.0]\n\ncontent"));
    assert!(errors.iter().any(|e| e.contains("版本号格式错误")));
}

#[test]
fn test_precheck_changelog_file_not_found() {
    let errors = precheck_version_changelog("v1.0.0", PATH, None);
    assert!(errors.iter().any(|e| e.contains("不存在")));
}

#[test]
fn test_precheck_changelog_missing_entry() {
    let errors = precheck_version_changelog("v2.0.0", PATH, Some("## [1.0.0]\n\ncontent"));
    assert!(errors.iter().any(|e| e.contains("未找到")));
}

#[test]
fn test_precheck_changelog_no_errors() {
    let errors = precheck_version_changelog("v1.0.0", PATH, Some("## [1.0.0]\n\ncontent"));
    assert!(errors.is_empty());
}

#[test]
fn test_precheck_changelog_pkg_version_entry() {
    let errors = precheck_version_changelog("pkg/v2.0.0", PATH, Some("## [2.0.0]\n\ncontent"));
    assert!(errors.is_empty());
}

#[test]
fn test_precheck_changelog_both_errors() {
    let errors = precheck_version_changelog("bad", PATH, Some("## [1.0.0]\n\ncontent"));
    assert_eq!(errors.len(), 2);
}

#[test]
fn test_extract_notes_found() {
    let content = "# Changelog\n\n## [1.0.0] — 2026-01-01\n\n### Added\n\n- feature 1\n- feature 2\n\n## [0.9.0]\n\nold";
    let notes = extract_notes("v1.0.0", Some(content));
    assert!(notes.is_some());
    let text = notes.unwrap();
    assert!(text.contains("feature 1"));
    assert!(text.contains("feature 2"));
    assert!(!text.contains("old"));
}

#[test]
fn test_extract_notes_pkg_version() {
    let content = "# Changelog\n\n## [2.0.0] — 2026-05-24\n\n### Breaking\n\nrelease notes here";
    let notes = extract_notes("pkg/v2.0.0", Some(content));
    assert!(notes.is_some());
    assert!(notes.unwrap().contains("Breaking"));
}

#[test]
fn test_extract_notes_not_found() {
    assert!(extract_notes("v2.0.0", Some("# Changelog\n\n## [1.0.0]\n\ncontent")).is_none());
}

#[test]
fn test_extract_notes_empty_notes() {
    assert!(extract_notes("v1.0.0", Some("# Changelog\n\n## [1.0.0]\n\n")).is_none());
}

#[test]
fn test_extract_notes_suffixed_version() {
    let content = "# Changelog\n\n## [1.0.0-rc.1]\n\npre-release notes\n\n## [1.0.0]\n\nstable notes";
    let notes = extract_notes("v1.0.0-rc.1", Some(content));
    assert!(notes.is_some());
    assert!(notes.unwrap().contains("pre-release"));
}

#[test]
fn test_extract_notes_multiple_versions() {
    let content = "# Changelog\n\n## [3.0.0]\n\nthird\n\n## [2.0.0]\n\nsecond\n\n## [1.0.0]\n\nfirst";
    let notes = extract_notes("v2.0.0", Some(content));
    assert!(notes.is_some());
    assert_eq!(notes.unwrap(), "second");
}

#[test]
fn test_extract_notes_no_changelog() {
    assert!(extract_notes("v1.0.0", None).is_none());
}

#[test]
fn test_extract_notes_empty_file() {
    assert!(extract_notes("v1.0.0", Some("")).is_none());
}

#[test]
fn test_parse_github_repo_https() {
    let url = "https://github.com/owner/repo.git";
    assert_eq!(parse_github_repo(url), Some("owner/repo".into()));
}

#[test]
fn test_parse_github_repo_ssh() {
    let url = "git@github.com:owner/repo.git";
    assert_eq!(parse_github_repo(url), Some("owner/repo".into()));
}

#[test]
fn test_parse_github_repo_no_git_suffix() {
    let url = "https://github.com/owner/repo";
    assert_eq!(parse_github_repo(url), Some("owner/repo".into()));
}

#[test]
fn test_parse_github_repo_org_subpath() {
    let url = "https://github.com/org-name/sub-team/repo.git";
    assert_eq!(parse_github_repo(url), None);
}

#[test]
fn test_parse_github_repo_not_github() {
    let url = "https://gitlab.com/owner/repo.git";
    assert_eq!(parse_github_repo(url), None);
}

#[test]
fn test_parse_github_repo_invalid_url() {
    assert_eq!(parse_github_repo(""), None);
    assert_eq!(parse_github_repo("not-a-url"), None);
    assert_eq!(parse_github_repo("github.com"), None);
    assert_eq!(parse_github_repo("https://example.com"), None);
}

#[test]
fn test_parse_github_repo_ssh_no_git_suffix() {
    let url = "git@github.com:owner/repo";
    assert_eq!(parse_github_repo(url), Some("owner/repo".into()));
}

#[test]
fn test_parse_github_repo_trailing_slash() {
    let url = "https://github.com/owner/repo/";
    assert_eq!(parse_github_repo(url), None);
}

fn submodule(name: &str, status: SubmoduleStatus) -> Submodule {
    Submodule {
        name: name.into(),
        path: String::new(),
        url: String::new(),
        tracked_branch: "main".into(),
        parent_pointer: CommitHash::default(),
        local_head: CommitHash::default(),
        remote_head: CommitHash::default(),
        status,
        ahead_count: 0,
        behind_count: 0,
        remote_unreachable: false,
    }
}

#[test]
fn timestamp_formats_the_scripts_clock() {
    assert_eq!(timestamp(0), "1970-01-01T00:00:00Z");
    assert_eq!(timestamp(86400 * 400 + 3661), "1971-02-08T01:01:01Z");
}

#[test]
fn ci_scripts_list_the_submodules_to_update() {
    let state = RepoState::summarize(
        "/r".into(),
        vec![
            submodule("a", SubmoduleStatus::BehindRemote),
            submodule("b", SubmoduleStatus::Clean),
        ],
    );
    let sh = generate_ci_script(&state, "shell", 0);
    assert_eq!(
        sh,
        "#!/bin/bash\n# KSE 自动生成的子模块更新脚本\n# 生成时间: 1970-01-01T00:00:00Z\n\nset -e\n\n# 需要更新的子模块:\nkse update a --strategy fast-forward\n\n# 同步到父仓库\nkse sync-all\n"
    );
    let gl = generate_ci_script(&state, "gitlab", 0);
    assert!(gl.contains("    - ./target/release/kse update a --strategy fast-forward\n"));
    let gh = generate_ci_script(&state, "github", 0);
    assert!(gh.contains("run: ./target/release/kse update a --strategy fast-forward"));
    let clean = RepoState::summarize("/r".into(), vec![submodule("b", SubmoduleStatus::Clean)]);
    assert!(generate_ci_script(&clean, "shell", 0).contains("# 所有子模块已是最新状态\n"));
}

#[test]
fn health_issues_skip_clean_submodules() {
    let state = RepoState::summarize(
        "/r".into(),
        vec![
            submodule("a", SubmoduleStatus::Dirty),
            submodule("b", SubmoduleStatus::Clean),
        ],
    );
    let issues = health_issues(&state);
    assert_eq!(issues.len(), 1);
    assert_eq!(issues[0].submodule_name, "a");
    let (d, _) = describe_issue(&SubmoduleStatus::Dirty);
    assert_eq!(issues[0].description, d);
}

#[test]
fn history_query_filters() {
    let q = list_query(None, None, None);
    assert!(q.text_params.is_empty());
    let q = list_query(Some("a"), Some("2024-01-01"), None);
    assert_eq!(q.text_params, vec!["a".to_string(), "2024-01-01".to_string()]);
    assert!(q.sql.contains("WHERE"));
}

// ---- confirmation ----

#[test]
fn test_confirm_release_yes_flag() {
    assert!(release_confirmed(true, ""));
}

#[test]
fn test_confirm_release_yes_flag_with_notes() {
    // the notes are only shown by the prompt; `yes` confirms without an answer
    assert!(release_confirmed(true, ""));
}

#[test]
fn test_confirm_release_with_empty_notes() {
    assert!(release_confirmed(true, ""));
}

#[test]
fn confirmation_answers() {
    assert!(release_confirmed(false, "y\n"));
    assert!(release_confirmed(false, "  YES \n"));
    assert!(release_confirmed(false, "Yes"));
    assert!(!release_confirmed(false, "\n"));
    assert!(!release_confirmed(false, "no"));
    assert!(!release_confirmed(false, "yess"));
}
