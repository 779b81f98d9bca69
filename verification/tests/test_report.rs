use kse_core::test_report::{parse_lcov_counts, parse_test_summary, summary_detail, summary_icon, TestSummary};

fn lcov_percentage(content: &str) -> Option<f64> {
    let (hit, total) = parse_lcov_counts(content);
    if total == 0 {
        None
    } else {
        Some((hit as f64 / total as f64) * 100.0)
    }
}

#[test]
fn test_parse_test_summary_ok() {
    let s = parse_test_summary("test result: ok. 10 passed; 0 failed; 2 ignored; 0 measured; 12 filtered out");
    assert_eq!(s.passed, 10);
    assert_eq!(s.failed, 0);
    assert_eq!(s.skipped, 2);
    assert_eq!(s.total, 12);
}

#[test]
fn test_parse_test_summary_failed() {
    let s = parse_test_summary("test result: FAILED. 8 passed; 3 failed; 1 ignored; 0 measured");
    assert_eq!(s.passed, 8);
    assert_eq!(s.failed, 3);
    assert_eq!(s.skipped, 1);
}

#[test]
fn test_parse_lcov_empty() {
    assert!(lcov_percentage("").is_none());
}

#[test]
fn test_parse_lcov_simple() {
    let content = "SF:src/lib.rs\nDA:1,1\nDA:2,0\nDA:3,1\nend_of_record\n";
    let pct = lcov_percentage(content).unwrap();
    assert!((pct - 66.666).abs() < 0.01);
}

#[test]
fn lcov_counts_exact() {
    assert_eq!(parse_lcov_counts("DA:1,1\nDA:2,0\nDA:3, 4\nDA:4\nXX:5,1\n"), (2, 3));
}

#[test]
fn summary_ignores_other_lines_and_the_last_result_wins() {
    let s = parse_test_summary("running 3 tests\ntest result: ok. 1 passed; 0 failed\ntest result: ok. 2 passed; 1 failed\n");
    assert_eq!((s.passed, s.failed, s.skipped, s.total), (2, 1, 0, 3));
    let d = TestSummary::default();
    assert_eq!(d.total, 0);
}

#[test]
fn status_icon_and_detail() {
    let s = TestSummary { total: 4, passed: 3, failed: 1, skipped: 0 };
    assert_eq!(summary_icon(&s), "❌");
    assert_eq!(summary_detail(&s), "1 / 4 失败");
    let s = TestSummary { total: 4, passed: 3, failed: 0, skipped: 1 };
    assert_eq!(summary_icon(&s), "⚠");
    assert_eq!(summary_detail(&s), "3 通过 / 1 跳过 / 4 总计");
    let s = TestSummary { total: 4, passed: 4, failed: 0, skipped: 0 };
    assert_eq!(summary_icon(&s), "✅");
    assert_eq!(summary_detail(&s), "4 ✅ 全部通过");
    let s = TestSummary::default();
    assert_eq!(summary_icon(&s), "—");
    assert_eq!(summary_detail(&s), "暂无测试");
}
