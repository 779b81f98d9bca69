use kse_core::plan::{
    clean_roadmap, doctor_llm, doctor_roadmap, is_category_header, is_done_item,
    is_version_header, parse_roadmap,
};

/// The text that cleaning leaves, written one line per `\n` as the file is.
fn cleaned(content: &str) -> String {
    let mut out = String::new();
    for line in clean_roadmap(content) {
        out.push_str(&line);
        out.push('\n');
    }
    out
}

#[test]
fn test_parse_empty() {
    let v = parse_roadmap("");
    assert!(v.is_empty());
}

#[test]
fn test_parse_single_version() {
    let v = parse_roadmap(
        "## [0.1.0]\n\
         \n\
         ### Added\n\
         - [x] feature a\n\
         - [ ] feature b\n\
         ### Fixed\n\
         - [x] bug c\n",
    );
    assert_eq!(v.len(), 1);
    assert_eq!(v[0].version, "0.1.0");
    assert_eq!(v[0].done, 2);
    assert_eq!(v[0].total, 3);
}

#[test]
fn test_parse_multi_version() {
    let v = parse_roadmap(
        "## [0.2.0]\n\
         - [x] done\n\
         - [ ] todo\n\
         \n\
         ## [0.1.0]\n\
         - [x] a\n\
         - [x] b\n",
    );
    assert_eq!(v.len(), 2);
    assert_eq!(v[0].version, "0.2.0");
    assert_eq!(v[0].done, 1);
    assert_eq!(v[0].total, 2);
    assert_eq!(v[1].version, "0.1.0");
    assert_eq!(v[1].done, 2);
    assert_eq!(v[1].total, 2);
}

#[test]
fn test_parse_v_prefix() {
    let v = parse_roadmap("## [v0.1.0]\n- [x] item\n");
    assert_eq!(v[0].version, "0.1.0");
}

#[test]
fn test_parse_no_checkboxes() {
    let v = parse_roadmap("## [0.1.0]\n\njust text\nno boxes\n");
    assert_eq!(v.len(), 1);
    assert_eq!(v[0].done, 0);
    assert_eq!(v[0].total, 0);
}

#[test]
fn test_clean_removes_done_items() {
    let content = cleaned(
        "## [0.1.0]\n\
         ### Added\n\
         - [x] done item\n\
         - [ ] todo item\n\
         ### Fixed\n\
         - [x] fixed bug\n",
    );
    assert!(!content.contains("done item"));
    assert!(!content.contains("fixed bug"));
    assert!(content.contains("todo item"));
}

#[test]
fn test_clean_removes_empty_category() {
    let content = cleaned(
        "## [0.1.0]\n\
         ### Added\n\
         - [x] done\n\
         ### Fixed\n\
         - [ ] remaining\n",
    );
    assert!(!content.contains("### Added"));
    assert!(content.contains("### Fixed"));
}

#[test]
fn test_clean_removes_empty_version() {
    let content = cleaned(
        "## [0.2.0]\n\
         ### Added\n\
         - [x] done\n\
         \n\
         ## [0.1.0]\n\
         - [ ] remaining\n",
    );
    assert!(!content.contains("0.2.0"));
    assert!(content.contains("0.1.0"));
}

#[test]
fn test_clean_no_done_items_no_change() {
    let content = cleaned("## [0.1.0]\n- [ ] todo\n");
    assert!(content.contains("todo"));
    assert!(content.contains("0.1.0"));
}

#[test]
fn test_doctor_fixes_v_prefix() {
    let fixes = doctor_roadmap("## [v0.1.0]\n- [ ] item\n");
    assert!(fixes.iter().any(|f| f.issue.contains("v 前缀")));
}

#[test]
fn test_doctor_fixes_category_case() {
    let fixes = doctor_roadmap("## [0.1.0]\n### added\n- [ ] item\n");
    assert!(fixes.iter().any(|f| f.issue.contains("大小写")));
}

#[test]
fn test_doctor_clean_file_no_fixes() {
    let fixes = doctor_roadmap("## [0.1.0]\n### Added\n- [ ] item\n");
    assert!(fixes.is_empty());
}

#[test]
fn test_doctor_unknown_category_not_touched() {
    let fixes = doctor_roadmap("## [0.1.0]\n### Custom\n- [ ] item\n");
    assert!(fixes.is_empty());
}

#[test]
fn test_doctor_fixes_malformed_checkbox() {
    let fixes = doctor_roadmap("## [0.1.0]\n-[x]no space after dash\n-  [ ] double space\n");
    assert!(fixes.iter().any(|f| f.issue.contains("checkbox")));
}

#[test]
fn test_doctor_does_not_modify_file() {
    let original = "## [v0.1.0]\n### added\n-  [x] bad format\n";
    let text = original.to_string();
    let _fixes = doctor_roadmap(&text);
    assert_eq!(text, original);
}

#[test]
fn test_doctor_standard_checkbox_not_touched() {
    let fixes = doctor_roadmap("## [0.1.0]\n- [x] normal\n- [ ] normal\n");
    let checkbox_fixes: Vec<_> = fixes.iter().filter(|f| f.issue.contains("checkbox")).collect();
    assert!(checkbox_fixes.is_empty());
}

#[test]
fn test_doctor_fixes_multiple_issues() {
    let fixes = doctor_roadmap("## [v0.1.0]\n### fixed\n- [ ] bug\n### ADDED\n- [ ] feature\n");
    assert!(fixes.len() >= 2);
}

#[test]
fn doctor_messages_and_lines() {
    let fixes = doctor_roadmap("## [v0.1.0]\n### added\n- [ ] ok\n-[x]bad\n");
    assert_eq!(fixes.len(), 3);
    assert_eq!(fixes[0].line, 1);
    assert_eq!(fixes[0].issue, "版本号不应有 v 前缀: v0.1.0");
    assert_eq!(fixes[1].line, 2);
    assert_eq!(fixes[1].issue, "分类标题大小写: 应为 '### Added'，当前 '### added'");
    assert_eq!(fixes[2].line, 4);
    assert_eq!(fixes[2].issue, "checkbox 格式异常: -[x]bad");
    assert!(doctor_llm("x", &fixes).is_none());
}

#[test]
fn line_kinds() {
    assert!(is_done_item("  - [X] a"));
    assert!(!is_done_item("- [ ] a"));
    assert!(is_category_header(" ### security "));
    assert!(!is_category_header("### Custom"));
    assert!(is_version_header("## [1.0.0]"));
    assert!(!is_version_header("## 1.0.0"));
}

#[test]
fn clean_keeps_text_and_drops_trailing_blank_lines() {
    let lines = clean_roadmap("## [0.1.0]\nnote\n- [x] a\n\n\n");
    assert_eq!(lines, vec!["## [0.1.0]".to_string(), "note".to_string()]);
}

#[test]
fn done_never_exceeds_total() {
    let content = "## [1.0]\n- [x] a\n- [X] b\n- [ ] c\n## [v2.0]\n- [x] d\n## [3.0]\n";
    let vs = parse_roadmap(content);
    assert_eq!(vs.len(), 3);
    for v in &vs {
        assert!(v.done <= v.total);
    }
    assert_eq!((vs[0].done, vs[0].total), (2, 3));
    assert_eq!((vs[1].version.as_str(), vs[1].done, vs[1].total), ("2.0", 1, 1));
    assert_eq!((vs[2].done, vs[2].total), (0, 0));
}

#[test]
fn clean_all_done_leaves_nothing() {
    let r = clean_roadmap("## [0.1.0]\n- [x] a\n");
    assert!(r.is_empty());
    assert_eq!(cleaned("## [0.1.0]\n- [x] a\n"), "");
}
