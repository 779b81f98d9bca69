//! Test results and coverage counts read from tool output: the summary
//! line of `cargo test` and the `DA:` records of an lcov report, and the
//! status line shown for a scope.
use vstd::prelude::*;
use crate::text::{
    chars_of, contains, contains_chars, decimal, lines, lines_chars, parse_uint, parse_uint_chars,
    push_decimal, split, split_chars, starts_with, strip_prefix_chars, trim, trim_chars, words,
    words_chars,
};

verus! {

/// Counts of one test run.
#[derive(Debug)]
pub struct TestSummary {
    pub total: u32,
    pub passed: u32,
    pub failed: u32,
    pub skipped: u32,
}

impl Default for TestSummary {
    fn default() -> (r: TestSummary)
        ensures
            r.total == 0 && r.passed == 0 && r.failed == 0 && r.skipped == 0,
    {
        TestSummary { total: 0, passed: 0, failed: 0, skipped: 0 }
    }
}

pub open spec fn u32_max() -> nat {
    0xffff_ffff
}

/// Passed, failed and ignored counts read so far.
pub type Counts = (nat, nat, nat);

/// One `;`-separated part of a result line: its last word names the count,
/// the word before it is the number; a later part overrides an earlier one.
pub open spec fn part_update(st: Counts, part: Seq<char>) -> Counts {
    let ws = words(trim(part));
    if ws.len() < 2 {
        st
    } else {
        let kind = ws[ws.len() - 1];
        match parse_uint(ws[ws.len() - 2], u32_max()) {
            Some(n) => if kind == "passed"@ {
                (n, st.1, st.2)
            } else if kind == "failed"@ {
                (st.0, n, st.2)
            } else if kind == "ignored"@ {
                (st.0, st.1, n)
            } else {
                st
            },
            None => st,
        }
    }
}

pub open spec fn parts_update(st: Counts, parts: Seq<Seq<char>>) -> Counts
    decreases parts.len(),
{
    if parts.len() == 0 {
        st
    } else {
        part_update(parts_update(st, parts.drop_last()), parts.last())
    }
}

/// Lines with `test result:` are read part by part; others are ignored.
pub open spec fn summary_run(ls: Seq<Seq<char>>) -> Counts
    decreases ls.len(),
{
    if ls.len() == 0 {
        (0, 0, 0)
    } else {
        let st = summary_run(ls.drop_last());
        if contains(ls.last(), "test result:"@) {
            parts_update(st, split(ls.last(), ';'))
        } else {
            st
        }
    }
}

/// The counts of a test output.
pub open spec fn summary_spec(content: Seq<char>) -> Counts {
    summary_run(lines(content))
}

fn part_update_exec(st: (u32, u32, u32), part: &[char]) -> (r: (u32, u32, u32))
    ensures
        (r.0 as nat, r.1 as nat, r.2 as nat) == part_update(
            (st.0 as nat, st.1 as nat, st.2 as nat),
            part@,
        ),
{
    let p = trim_chars(part);
    let ws = words_chars(&p);
    if ws.len() < 2 {
        return st;
    }
    proof {
        assert(ws@[ws.len() - 1].deep_view() =~= ws@[ws.len() - 1]@);
        assert(ws@[ws.len() - 2].deep_view() =~= ws@[ws.len() - 2]@);
    }
    let kind = &ws[ws.len() - 1];
    match parse_uint_chars(&ws[ws.len() - 2], 0xffff_ffff) {
        Some(n) => {
            let n = n as u32;
            if crate::text::eq(kind, &chars_of("passed")) {
                (n, st.1, st.2)
            } else if crate::text::eq(kind, &chars_of("failed")) {
                (st.0, n, st.2)
            } else if crate::text::eq(kind, &chars_of("ignored")) {
                (st.0, st.1, n)
            } else {
                st
            }
        },
        None => st,
    }
}

/// Reads the passed, failed and ignored counts of `cargo test` output; the
/// total is their sum.
pub fn parse_test_summary(content: &str) -> (r: TestSummary)
    requires
        summary_spec(content@).0 + summary_spec(content@).1 + summary_spec(content@).2 <= u32_max(),
    ensures
        r.passed == summary_spec(content@).0,
        r.failed == summary_spec(content@).1,
        r.skipped == summary_spec(content@).2,
        r.total == r.passed + r.failed + r.skipped,
{
    let text = chars_of(content);
    let ls = lines_chars(&text);
    let ghost all = ls.deep_view();
    let mut st: (u32, u32, u32) = (0, 0, 0);
    let marker = chars_of("test result:");
    let mut i: usize = 0;
    assert(all.take(0) =~= Seq::<Seq<char>>::empty());
    while i < ls.len()
        invariant
            i <= ls.len(),
            all == ls.deep_view(),
            all == lines(content@),
            marker@ == "test result:"@,
            (st.0 as nat, st.1 as nat, st.2 as nat) == summary_run(all.take(i as int)),
        decreases ls.len() - i,
    {
        proof {
            assert(all.take(i + 1).drop_last() =~= all.take(i as int));
            assert(ls@[i as int].deep_view() =~= ls@[i as int]@);
            assert(all.take(i + 1).last() == ls@[i as int]@);
        }
        if contains_chars(&ls[i], &marker) {
            let parts = split_chars(&ls[i], ';');
            let ghost ps = parts.deep_view();
            let ghost st0 = (st.0 as nat, st.1 as nat, st.2 as nat);
            let mut j: usize = 0;
            assert(ps.take(0) =~= Seq::<Seq<char>>::empty());
            while j < parts.len()
                invariant
                    j <= parts.len(),
                    ps == parts.deep_view(),
                    (st.0 as nat, st.1 as nat, st.2 as nat) == parts_update(st0, ps.take(j as int)),
                decreases parts.len() - j,
            {
                proof {
                    assert(ps.take(j + 1).drop_last() =~= ps.take(j as int));
                    assert(parts@[j as int].deep_view() =~= parts@[j as int]@);
                    assert(ps.take(j + 1).last() == parts@[j as int]@);
                }
                st = part_update_exec(st, &parts[j]);
                j += 1;
            }
            assert(ps.take(j as int) =~= ps);
        }
        i += 1;
    }
    assert(all.take(i as int) =~= all);
    let total = st.0 + st.1 + st.2;
    TestSummary { total, passed: st.0, failed: st.1, skipped: st.2 }
}

// ───────────────────────────── coverage ─────────────────────────────

/// Hit and total line counts of an lcov report: every `DA:` record with a
/// second comma-separated field counts; it is hit when that field, trimmed,
/// is a positive `u32`.
pub open spec fn lcov_run(ls: Seq<Seq<char>>) -> (nat, nat)
    decreases ls.len(),
{
    if ls.len() == 0 {
        (0, 0)
    } else {
        let st = lcov_run(ls.drop_last());
        let l = ls.last();
        if starts_with(l, "DA:"@) && split(l.skip(3), ',').len() >= 2 {
            let hit = match parse_uint(trim(split(l.skip(3), ',')[1]), u32_max()) {
                Some(n) => n > 0,
                None => false,
            };
            (if hit {
                st.0 + 1
            } else {
                st.0
            }, st.1 + 1)
        } else {
            st
        }
    }
}

pub open spec fn lcov_spec(content: Seq<char>) -> (nat, nat) {
    lcov_run(lines(content))
}

/// The hit and total line counts of an lcov report (the percentage is hit
/// over total, when total is not zero).
pub fn parse_lcov_counts(content: &str) -> (r: (u32, u32))
    requires
        lcov_spec(content@).1 <= u32_max(),
    ensures
        (r.0 as nat, r.1 as nat) == lcov_spec(content@),
{
    let text = chars_of(content);
    let ls = lines_chars(&text);
    let ghost all = ls.deep_view();
    let prefix = chars_of("DA:");
    let mut hit: u32 = 0;
    let mut total: u32 = 0;
    let mut i: usize = 0;
    assert(all.take(0) =~= Seq::<Seq<char>>::empty());
    while i < ls.len()
        invariant
            i <= ls.len(),
            all == ls.deep_view(),
            all == lines(content@),
            prefix@ == "DA:"@,
            lcov_run(all).1 <= u32_max(),
            (hit as nat, total as nat) == lcov_run(all.take(i as int)),
        decreases ls.len() - i,
    {
        proof {
            assert(all.take(i + 1).drop_last() =~= all.take(i as int));
            assert(ls@[i as int].deep_view() =~= ls@[i as int]@);
            assert(all.take(i + 1).last() == ls@[i as int]@);
            lemma_lcov_total_monotone(all, i + 1);
            reveal_strlit("DA:");
        }
        match strip_prefix_chars(&ls[i], &prefix) {
            Some(rest) => {
                let pieces = split_chars(&rest, ',');
                if pieces.len() >= 2 {
                    proof {
                        assert(pieces@[1].deep_view() =~= pieces@[1]@);
                    }
                    let count = trim_chars(&pieces[1]);
                    total += 1;
                    match parse_uint_chars(&count, 0xffff_ffff) {
                        Some(n) => {
                            if n > 0 {
                                hit += 1;
                            }
                        },
                        None => {},
                    }
                }
            },
            None => {},
        }
        i += 1;
    }
    assert(all.take(i as int) =~= all);
    (hit, total)
}

proof fn lemma_lcov_hit_le_total(ls: Seq<Seq<char>>)
    ensures
        lcov_run(ls).0 <= lcov_run(ls).1 <= ls.len(),
    decreases ls.len(),
{
    if ls.len() > 0 {
        lemma_lcov_hit_le_total(ls.drop_last());
    }
}

proof fn lemma_lcov_total_monotone(ls: Seq<Seq<char>>, k: int)
    requires
        0 <= k <= ls.len(),
    ensures
        lcov_run(ls.take(k)).1 <= lcov_run(ls).1,
        lcov_run(ls.take(k)).0 <= lcov_run(ls.take(k)).1,
    decreases ls.len() - k,
{
    lemma_lcov_hit_le_total(ls.take(k));
    if k < ls.len() {
        lemma_lcov_total_monotone(ls, k + 1);
        assert(ls.take(k + 1).drop_last() =~= ls.take(k));
    } else {
        assert(ls.take(k) =~= ls);
    }
}

// ───────────────────────────── scope status ─────────────────────────────

/// The icon of a scope's test status: failures, then skipped tests, then
/// passing tests, then no tests.
pub open spec fn icon_spec(s: TestSummary) -> Seq<char> {
    if s.failed > 0 {
        "❌"@
    } else if s.skipped > 0 {
        "⚠"@
    } else if s.total > 0 {
        "✅"@
    } else {
        "—"@
    }
}

pub fn summary_icon(s: &TestSummary) -> (r: &'static str)
    ensures
        r@ == icon_spec(*s),
{
    if s.failed > 0 {
        "❌"
    } else if s.skipped > 0 {
        "⚠"
    } else if s.total > 0 {
        "✅"
    } else {
        "—"
    }
}

/// The count line of a scope's test status.
pub open spec fn detail_spec(s: TestSummary) -> Seq<char> {
    if s.total > 0 {
        if s.failed > 0 {
            decimal(s.failed as nat) + " / "@ + decimal(s.total as nat) + " 失败"@
        } else if s.skipped > 0 {
            decimal(s.passed as nat) + " 通过 / "@ + decimal(s.skipped as nat) + " 跳过 / "@
                + decimal(s.total as nat) + " 总计"@
        } else {
            decimal(s.total as nat) + " ✅ 全部通过"@
        }
    } else {
        "暂无测试"@
    }
}

pub fn summary_detail(s: &TestSummary) -> (r: String)
    ensures
        r@ == detail_spec(*s),
{
    if s.total > 0 {
        let mut m = String::new();
        if s.failed > 0 {
            push_decimal(&mut m, s.failed as u64);
            m.append(" / ");
            push_decimal(&mut m, s.total as u64);
            m.append(" 失败");
        } else if s.skipped > 0 {
            push_decimal(&mut m, s.passed as u64);
            m.append(" 通过 / ");
            push_decimal(&mut m, s.skipped as u64);
            m.append(" 跳过 / ");
            push_decimal(&mut m, s.total as u64);
            m.append(" 总计");
        } else {
            push_decimal(&mut m, s.total as u64);
            m.append(" ✅ 全部通过");
        }
        assert(m@ =~= detail_spec(*s));
        m
    } else {
        String::from_str("暂无测试")
    }
}

} // verus!
