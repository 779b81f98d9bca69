use kse_core::build_status::{ci_summary, syntax_check, syntax_line, version_line};
use kse_core::commands::editor::remove_submodule_section;
use kse_core::commands::runs::{elapsed_text, plan_file_summary, test_run_outcome};
use kse_core::contract::{default_contract, Language};
use kse_core::detect::llm_prompt;
use kse_core::plan::{clean_roadmap, doctor_roadmap, parse_roadmap};
use kse_core::preflight::{step_ok, PreflightResult};

// ---- planning files ----

#[test]
fn test_plan_no_files() {
    // with no planning file there is nothing to count
    assert_eq!(plan_file_summary(""), (0, 0, 0));
}

#[test]
fn test_plan_with_todos() {
    let todo = plan_file_summary("# TODO\n- [ ] task 1\n- [x] task 2\n- [ ] task 3\n");
    let changelog = plan_file_summary("# Changelog\n\n## [1.0.0]\n\ncontent\n");
    assert_eq!(todo, (4, 2, 1));
    assert_eq!(changelog, (5, 0, 0));
    assert_eq!((todo.0 + changelog.0).to_string(), "9");
}

#[test]
fn test_plan_with_bugs() {
    assert_eq!(plan_file_summary("# BUGS\n- BUG: something broken\n"), (2, 0, 0));
    assert_eq!(plan_file_summary("# ROADMAP\n\n## Iter 1\n\nstuff\n"), (5, 0, 0));
}

#[test]
fn test_plan_reads_line_count() {
    assert_eq!(plan_file_summary("a\nb\nc\n").0.to_string(), "3");
}

#[test]
fn plan_items_are_trimmed_before_matching() {
    assert_eq!(plan_file_summary("  - [ ] a\n\t- [x] b\n- [X] c"), (3, 1, 1));
}

#[test]
fn test_file_not_found() {
    // a missing roadmap reads as empty text
    assert!(parse_roadmap("").is_empty());
}

#[test]
fn test_clean_file_not_found() {
    assert!(clean_roadmap("").is_empty());
}

#[test]
fn test_doctor_file_not_found() {
    assert!(doctor_roadmap("").is_empty());
}

// ---- test and build runs ----

#[test]
fn test_outcome_counts_and_names() {
    let out = "running 3 tests\ntest a ... ok\ntest b ... FAILED\n  test c ... ok  \n";
    let (passed, failed) = test_run_outcome(out);
    assert_eq!(passed, 2);
    assert_eq!(failed, vec!["test b".to_string()]);
    assert_eq!(test_run_outcome(""), (0, vec![]));
}

#[test]
fn elapsed_formats() {
    assert_eq!(elapsed_text(2, 5), "2.005s");
    assert_eq!(elapsed_text(1, 250), "1.250s");
    assert_eq!(elapsed_text(12, 0), "12.000s");
    assert_eq!(elapsed_text(0, 37), "37ms");
    assert_eq!(elapsed_text(0, 0), "0ms");
}

// ---- build status ----

#[test]
fn test_print_scope_all_ok() {
    assert_eq!(version_line(Some("0.1.0"), Some("0.1.0")), "✅ 0.1.0（一致）");
}

#[test]
fn version_line_cases() {
    assert_eq!(version_line(Some("0.2.0"), Some("0.1.0")), "⚠ tag 0.2.0 ≠ 配置 0.1.0");
    assert_eq!(version_line(Some("0.2.0"), None), "tag 0.2.0（无配置文件）");
    assert_eq!(version_line(None, Some("0.1.0")), "配置 0.1.0（无 tag）");
    assert_eq!(version_line(None, None), "暂无发布");
}

#[test]
fn test_detect_no_contract_yaml() {
    let c = default_contract();
    assert!(c.scopes.is_empty());
}

#[test]
fn test_load_no_file() {
    // without a contract file the default contract applies
    let c = default_contract();
    assert!(c.scopes.is_empty());
}

#[test]
fn ci_summary_cases() {
    let ok = r#"[{"conclusion":"success","displayTitle":"CI","headBranch":"main","number":42}]"#;
    assert_eq!(ci_summary(Some(true), ok), "✅ CI (main #42}])");
    let ok2 = r#"[{"conclusion":"success","displayTitle":"CI","headBranch":"main","number":42,"x":1}]"#;
    assert_eq!(ci_summary(Some(true), ok2), "✅ CI (main #42)");
    let bad = r#"[{"conclusion":"failure","displayTitle":"Build","headBranch":"dev","number":7,"a":0}]"#;
    assert_eq!(ci_summary(Some(true), bad), "❌ Build (dev #7)");
    let cancelled = r#"[{"conclusion":"cancelled","displayTitle":"CI","headBranch":"main","number":1,"a":0}]"#;
    assert_eq!(ci_summary(Some(true), cancelled), "🔶 CI 已取消");
    let running = r#"[{"conclusion":"skipped","displayTitle":"CI","number":3,"a":0}]"#;
    assert_eq!(ci_summary(Some(true), running), "⏳ CI (?) - skipped");
    assert_eq!(ci_summary(Some(true), "[]"), "⚠ 无 CI 运行记录");
    assert_eq!(ci_summary(Some(false), ok), "⚠ 无 CI 运行记录");
    assert_eq!(ci_summary(None, ok), "⚠ gh CLI 未安装");
}

#[test]
fn syntax_checks() {
    let rust = syntax_check(&Language::Rust, "/p/Cargo.toml").unwrap();
    assert_eq!(rust.program, "cargo");
    assert_eq!(rust.args, vec!["check", "--manifest-path", "/p/Cargo.toml"]);
    assert_eq!(rust.label, "cargo check");
    assert_eq!(rust.marker, "Cargo.toml");
    let go = syntax_check(&Language::Go, "").unwrap();
    assert_eq!((go.program.as_str(), go.args.clone()), ("go", vec!["vet".to_string(), "./...".to_string()]));
    assert_eq!(syntax_check(&Language::TypeScript, "").unwrap().marker, "package.json");
    assert!(syntax_check(&Language::Unknown("cobol".into()), "").is_none());

    let check = Some(rust);
    assert_eq!(syntax_line(&check, true, Some(true)), "✅ cargo check 通过");
    assert_eq!(syntax_line(&check, true, Some(false)), "❌ cargo check 失败");
    assert_eq!(syntax_line(&check, true, None), "⚠ cargo 未安装");
    assert_eq!(syntax_line(&check, false, None), "—");
    assert_eq!(syntax_line(&None, true, Some(true)), "⚠ 语言未知，跳过语法校验");
}

// ---- preflight ----

#[test]
fn test_preflight_no_cargo_toml() {
    let r = PreflightResult {
        build_ok: step_ok(false, None),
        test_ok: step_ok(false, None),
        dry_run_ok: step_ok(false, None),
        version: "?".into(),
    };
    assert!(r.all_pass());
}

// ---- editor ----

#[test]
fn removes_one_section() {
    let content = "[submodule \"a\"]\n\tpath = a\n\turl = x\n[submodule \"b\"]\n\tpath = b\n";
    assert_eq!(
        remove_submodule_section(content, "a"),
        "[submodule \"b\"]\n\tpath = b\n"
    );
    assert_eq!(
        remove_submodule_section(content, "b"),
        "[submodule \"a\"]\n\tpath = a\n\turl = x\n"
    );
    assert_eq!(remove_submodule_section(content, "c"), content);
    assert_eq!(remove_submodule_section("", "a"), "");
}

// ---- prompt ----

#[test]
fn prompt_lists_commits_in_order() {
    let commits = vec!["feat: a".to_string(), "fix: b".to_string()];
    let p = llm_prompt(&commits, "v1.0.0", "code", "cli");
    assert!(p.starts_with("你是一个版本号推断专家"));
    assert!(p.contains("项目类型: code\n最新 tag: v1.0.0\nscope: cli\n\n## 提交记录（tag→HEAD）\n1. feat: a\n2. fix: b\n\n## 输出格式"));
    assert!(p.ends_with("\"reason\": \"判断理由\"}\n"));
}
