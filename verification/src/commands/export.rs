//! Export of a CI script that brings outdated submodules up to date.
use vstd::prelude::*;
use crate::model::{RepoState, Submodule, SubmoduleStatus};
use crate::text::{decimal, push_char, push_decimal};

verus! {

/// Whether a submodule needs the update job.
pub open spec fn needs_update(s: SubmoduleStatus) -> bool {
    s == SubmoduleStatus::BehindRemote || s == SubmoduleStatus::Uninitialized || s
        == SubmoduleStatus::Detached || s == SubmoduleStatus::Dirty
}

/// The names of the submodules that need updating, in order.
pub open spec fn update_names(s: Seq<Submodule>) -> Seq<Seq<char>>
    decreases s.len(),
{
    if s.len() == 0 {
        Seq::empty()
    } else if needs_update(s.last().status) {
        update_names(s.drop_last()).push(s.last().name@)
    } else {
        update_names(s.drop_last())
    }
}

/// One line per name: `pre` + name + `post`.
pub open spec fn each(names: Seq<Seq<char>>, pre: Seq<char>, post: Seq<char>) -> Seq<char>
    decreases names.len(),
{
    if names.len() == 0 {
        Seq::empty()
    } else {
        each(names.drop_last(), pre, post) + pre + names.last() + post
    }
}

/// `n` in decimal, left-padded with zeros to `width` digits.
pub open spec fn padded(n: nat, width: nat) -> Seq<char> {
    let d = decimal(n);
    if d.len() >= width {
        d
    } else {
        Seq::new((width - d.len()) as nat, |i: int| '0') + d
    }
}

/// The generation time written into scripts: `YYYY-MM-DDTHH:MM:SSZ` from a
/// count of seconds since the Unix epoch, with 365-day years and 28-day
/// months.
pub open spec fn timestamp_text(secs: nat) -> Seq<char> {
    let days = secs / 86400;
    let time = secs % 86400;
    padded(1970 + days / 365, 4) + "-"@ + padded(1 + (days % 365) / 28, 2) + "-"@ + padded(
        1 + (days % 365) % 28,
        2,
    ) + "T"@ + padded(time / 3600, 2) + ":"@ + padded((time % 3600) / 60, 2) + ":"@ + padded(
        time % 60,
        2,
    ) + "Z"@
}

fn push_padded(s: &mut String, n: u64, width: u64)
    ensures
        final(s)@ == old(s)@ + padded(n as nat, width as nat),
{
    let d = crate::text::decimal_string(n);
    let dl = crate::text::chars_of(d.as_str()).len() as u64;
    let ghost start = s@;
    if dl < width {
        let mut k: u64 = 0;
        while k < width - dl
            invariant
                k <= width - dl,
                s@ == start + Seq::new(k as nat, |i: int| '0'),
            decreases width - dl - k,
        {
            push_char(s, '0');
            assert(start + Seq::new((k + 1) as nat, |i: int| '0') =~= (start + Seq::new(
                k as nat,
                |i: int| '0',
            )).push('0'));
            k += 1;
        }
    }
    s.append(d.as_str());
    assert(s@ =~= start + padded(n as nat, width as nat));
}

/// Formats a Unix time as the scripts' generation time.
pub fn timestamp(secs: u64) -> (r: String)
    ensures
        r@ == timestamp_text(secs as nat),
{
    let days = secs / 86400;
    let time = secs % 86400;
    let year = 1970 + days / 365;
    let mut s = String::new();
    push_padded(&mut s, year, 4);
    s.append("-");
    push_padded(&mut s, 1 + (days % 365) / 28, 2);
    s.append("-");
    push_padded(&mut s, 1 + (days % 365) % 28, 2);
    s.append("T");
    push_padded(&mut s, time / 3600, 2);
    s.append(":");
    push_padded(&mut s, (time % 3600) / 60, 2);
    s.append(":");
    push_padded(&mut s, time % 60, 2);
    s.append("Z");
    assert(s@ =~= timestamp_text(secs as nat));
    s
}

/// The shell script form.
pub open spec fn shell_script(names: Seq<Seq<char>>, ts: Seq<char>) -> Seq<char> {
    "#!/bin/bash\n"@ + "# KSE 自动生成的子模块更新脚本\n"@ + "# 生成时间: "@ + ts + "\n\n"@
        + "set -e\n\n"@ + if names.len() == 0 {
        "# 所有子模块已是最新状态\n"@
    } else {
        "# 需要更新的子模块:\n"@ + each(names, "kse update "@, " --strategy fast-forward\n"@)
            + "\n# 同步到父仓库\n"@ + "kse sync-all\n"@
    }
}

/// The GitHub Actions workflow form.
pub open spec fn github_actions(names: Seq<Seq<char>>) -> Seq<char> {
    "name: Update Submodules\n\n"@ + "on:\n  workflow_dispatch:\n  schedule:\n    - cron: '0 6 * * 1'\n\n"@
        + "jobs:\n  update:\n    runs-on: ubuntu-latest\n"@ + "    steps:\n"@
        + "      - uses: actions/checkout@v4\n"@ + "        with:\n          submodules: true\n"@
        + "      - uses: actions-rust-lang/setup-rust-toolchain@v1\n"@
        + "      - name: Build KSE\n"@ + "        run: cargo build --release\n"@ + if names.len()
        != 0 {
        "      - name: Update submodules\n"@ + each(
            names,
            "        run: ./target/release/kse update "@,
            " --strategy fast-forward\n"@,
        ) + "      - name: Sync to parent\n"@ + "        run: ./target/release/kse sync-all\n"@
    } else {
        "      - name: Check status\n"@ + "        run: ./target/release/kse health-check\n"@
    }
}

/// The GitLab CI form.
pub open spec fn gitlab_ci(names: Seq<Seq<char>>) -> Seq<char> {
    "stages:\n  - update\n\nupdate-submodules:\n"@ + "  stage: update\n"@ + "  script:\n"@
        + "    - apt-get update && apt-get install -y libgit2-dev\n"@
        + "    - cargo build --release\n"@ + (if names.len() != 0 {
        each(names, "    - ./target/release/kse update "@, " --strategy fast-forward\n"@)
            + "    - ./target/release/kse sync-all\n"@
    } else {
        Seq::empty()
    }) + "  only:\n    - schedules\n"@
}

/// The script for a format name: `github`, `gitlab`, else a shell script.
pub open spec fn ci_script(format: Seq<char>, names: Seq<Seq<char>>, ts: Seq<char>) -> Seq<char> {
    if format == "github"@ {
        github_actions(names)
    } else if format == "gitlab"@ {
        gitlab_ci(names)
    } else {
        shell_script(names, ts)
    }
}

fn collect_update_names(subs: &[Submodule]) -> (r: Vec<String>)
    ensures
        r.deep_view() == update_names(subs@),
{
    let mut out: Vec<String> = Vec::new();
    let mut i: usize = 0;
    while i < subs.len()
        invariant
            i <= subs.len(),
            out.deep_view() == update_names(subs@.take(i as int)),
        decreases subs.len() - i,
    {
        proof {
            assert(subs@.take(i + 1).drop_last() =~= subs@.take(i as int));
        }
        let st = subs[i].status;
        if st == SubmoduleStatus::BehindRemote || st == SubmoduleStatus::Uninitialized || st
            == SubmoduleStatus::Detached || st == SubmoduleStatus::Dirty {
            let ghost before = out.deep_view();
            out.push(subs[i].name.clone());
            proof {
                assert(out.deep_view() =~= before.push(subs@[i as int].name@));
            }
        }
        i += 1;
    }
    proof {
        assert(subs@.take(i as int) =~= subs@);
    }
    out
}

fn append_each(s: &mut String, names: &Vec<String>, pre: &str, post: &str)
    ensures
        final(s)@ == old(s)@ + each(names.deep_view(), pre@, post@),
{
    let mut i: usize = 0;
    while i < names.len()
        invariant
            i <= names.len(),
            s@ == old(s)@ + each(names.deep_view().take(i as int), pre@, post@),
        decreases names.len() - i,
    {
        let ghost before = s@;
        s.append(pre);
        s.append(names[i].as_str());
        s.append(post);
        proof {
            assert(names.deep_view().take(i + 1).drop_last() =~= names.deep_view().take(i as int));
            assert(names.deep_view().take(i + 1).last() == names@[i as int]@);
            assert(s@ =~= old(s)@ + each(names.deep_view().take(i + 1), pre@, post@));
        }
        i += 1;
    }
    proof {
        assert(names.deep_view().take(i as int) =~= names.deep_view());
    }
}

/// The CI script of a scanned repository in the requested format, stamped
/// with the time `now_secs` (seconds since the Unix epoch) when it is a
/// shell script.
pub fn generate_ci_script(state: &RepoState, format: &str, now_secs: u64) -> (r: String)
    ensures
        r@ == ci_script(format@, update_names(state.submodules@), timestamp_text(now_secs as nat)),
{
    let names = collect_update_names(&state.submodules);
    let ghost ns = names.deep_view();
    let mut s = String::new();
    if crate::text::str_is(format, "github") {
        s.append("name: Update Submodules\n\n");
        s.append("on:\n  workflow_dispatch:\n  schedule:\n    - cron: '0 6 * * 1'\n\n");
        s.append("jobs:\n  update:\n    runs-on: ubuntu-latest\n");
        s.append("    steps:\n");
        s.append("      - uses: actions/checkout@v4\n");
        s.append("        with:\n          submodules: true\n");
        s.append("      - uses: actions-rust-lang/setup-rust-toolchain@v1\n");
        s.append("      - name: Build KSE\n");
        s.append("        run: cargo build --release\n");
        if names.len() != 0 {
            s.append("      - name: Update submodules\n");
            append_each(
                &mut s,
                &names,
                "        run: ./target/release/kse update ",
                " --strategy fast-forward\n",
            );
            s.append("      - name: Sync to parent\n");
            s.append("        run: ./target/release/kse sync-all\n");
        } else {
            s.append("      - name: Check status\n");
            s.append("        run: ./target/release/kse health-check\n");
        }
        assert(s@ =~= github_actions(ns));
    } else if crate::text::str_is(format, "gitlab") {
        s.append("stages:\n  - update\n\nupdate-submodules:\n");
        s.append("  stage: update\n");
        s.append("  script:\n");
        s.append("    - apt-get update && apt-get install -y libgit2-dev\n");
        s.append("    - cargo build --release\n");
        let ghost mid = s@;
        if names.len() != 0 {
            append_each(
                &mut s,
                &names,
                "    - ./target/release/kse update ",
                " --strategy fast-forward\n",
            );
            s.append("    - ./target/release/kse sync-all\n");
        }
        s.append("  only:\n    - schedules\n");
        assert(s@ =~= gitlab_ci(ns));
    } else {
        let ts = timestamp(now_secs);
        s.append("#!/bin/bash\n");
        s.append("# KSE 自动生成的子模块更新脚本\n");
        s.append("# 生成时间: ");
        s.append(ts.as_str());
        s.append("\n\n");
        s.append("set -e\n\n");
        if names.len() == 0 {
            s.append("# 所有子模块已是最新状态\n");
        } else {
            s.append("# 需要更新的子模块:\n");
            append_each(&mut s, &names, "kse update ", " --strategy fast-forward\n");
            s.append("\n# 同步到父仓库\n");
            s.append("kse sync-all\n");
        }
        assert(s@ =~= shell_script(ns, timestamp_text(now_secs as nat)));
    }
    s
}

} // verus!
