//! Three-way submodule health model: synchronized, out of sync (fixable by a
//! sync), or anomalous (needs a person), with a diagnosis for each state.
use vstd::prelude::*;
use crate::text::{
    chars_of, contains, lines, lines_chars, parse_uint, parse_uint_chars, split_once,
    split_once_chars, starts_with, starts_with_chars, string_of, strip_prefix_chars, trim,
    trim_chars, trim_end_matches, trim_end_matches_chars, trim_start_matches,
    trim_start_matches_chars, decimal, is_ws, lemma_decimal_digits, lemma_digit_not_ws,
    lemma_digits_lack, lemma_parse_uint_decimal, lemma_split_once_parts, lemma_trim_edges,
};

verus! {

/// Top-level state of a submodule.
#[derive(Debug)]
pub enum SubmoduleStatus {
    /// In sync: the desired state.
    Synchronized,
    /// Drifted in a way a sync can repair.
    OutOfSync(OutOfSyncKind),
    /// Structurally wrong: needs a person.
    Anomaly(AnomalyKind),
}

/// Drift that a sync can repair.
#[derive(Debug, Clone, Copy, PartialEq, Eq, Structural)]
pub enum OutOfSyncKind {
    AheadOfRemote,
    BehindRemote,
    Dirty,
    Diverged,
}

/// Structural problems.
#[derive(Debug)]
pub enum AnomalyKind {
    DetachedHead,
    Orphaned,
    Missing,
    Unregistered,
    Unknown(String),
}

/// Abstract form of [`AnomalyKind`].
pub enum AnomalyView {
    DetachedHead,
    Orphaned,
    Missing,
    Unregistered,
    Unknown(Seq<char>),
}

/// Abstract form of [`SubmoduleStatus`].
pub enum StatusView {
    Synchronized,
    OutOfSync(OutOfSyncKind),
    Anomaly(AnomalyView),
}

impl View for SubmoduleStatus {
    type V = StatusView;

    open spec fn view(&self) -> StatusView {
        match self {
            SubmoduleStatus::Synchronized => StatusView::Synchronized,
            SubmoduleStatus::OutOfSync(k) => StatusView::OutOfSync(*k),
            SubmoduleStatus::Anomaly(a) => StatusView::Anomaly(
                match a {
                    AnomalyKind::DetachedHead => AnomalyView::DetachedHead,
                    AnomalyKind::Orphaned => AnomalyView::Orphaned,
                    AnomalyKind::Missing => AnomalyView::Missing,
                    AnomalyKind::Unregistered => AnomalyView::Unregistered,
                    AnomalyKind::Unknown(m) => AnomalyView::Unknown(m@),
                },
            ),
        }
    }
}

/// How serious an issue is; `Info < Warning < Error`.
#[derive(Debug, Clone, Copy, PartialEq, Eq, PartialOrd, Ord, Structural)]
pub enum Severity {
    Info,
    Warning,
    Error,
}

pub open spec fn severity_rank(s: Severity) -> int {
    match s {
        Severity::Info => 0,
        Severity::Warning => 1,
        Severity::Error => 2,
    }
}

pub open spec fn severity_symbol(s: Severity) -> Seq<char> {
    match s {
        Severity::Info => "ℹ"@,
        Severity::Warning => "⚠"@,
        Severity::Error => "✗"@,
    }
}

impl Severity {
    /// The symbol shown for the severity.
    pub fn to_string(&self) -> (r: String)
        ensures
            r@ == severity_symbol(*self),
    {
        match self {
            Severity::Info => String::from_str("ℹ"),
            Severity::Warning => String::from_str("⚠"),
            Severity::Error => String::from_str("✗"),
        }
    }
}

/// A diagnosis of one submodule.
#[derive(Debug)]
pub struct HealthIssue {
    pub severity: Severity,
    pub submodule: String,
    pub description: String,
    pub suggested_action: String,
    pub auto_fixable: bool,
}

pub struct IssueView {
    pub severity: Severity,
    pub submodule: Seq<char>,
    pub description: Seq<char>,
    pub suggested_action: Seq<char>,
    pub auto_fixable: bool,
}

impl View for HealthIssue {
    type V = IssueView;

    open spec fn view(&self) -> IssueView {
        IssueView {
            severity: self.severity,
            submodule: self.submodule@,
            description: self.description@,
            suggested_action: self.suggested_action@,
            auto_fixable: self.auto_fixable,
        }
    }
}

/// The diagnosis of a status: severity, description, suggested action, and
/// whether a tool can fix it.
pub open spec fn diagnosis(status: StatusView) -> (Severity, Seq<char>, Seq<char>, bool) {
    match status {
        StatusView::Synchronized => (Severity::Info, "已同步"@, "无需操作"@, true),
        StatusView::OutOfSync(kind) => match kind {
            OutOfSyncKind::AheadOfRemote => (
                Severity::Info,
                "有本地提交未推送"@,
                "运行 code sync 自动推送"@,
                true,
            ),
            OutOfSyncKind::BehindRemote => (
                Severity::Info,
                "远程有新提交未拉取"@,
                "运行 code sync 自动拉取"@,
                true,
            ),
            OutOfSyncKind::Dirty => (
                Severity::Warning,
                "有未提交的修改"@,
                "请先提交或 stash，然后运行 sync"@,
                false,
            ),
            OutOfSyncKind::Diverged => (
                Severity::Error,
                "本地与远程历史分叉"@,
                "手动 merge 或 rebase"@,
                false,
            ),
        },
        StatusView::Anomaly(kind) => match kind {
            AnomalyView::DetachedHead => (
                Severity::Error,
                "HEAD 游离"@,
                "运行 git switch main"@,
                false,
            ),
            AnomalyView::Orphaned => (
                Severity::Error,
                "父仓库记录的 commit 在远程已不存在"@,
                "手动检查子模块状态"@,
                false,
            ),
            AnomalyView::Missing => (
                Severity::Error,
                "子模块目录不存在"@,
                "运行 git submodule update --init"@,
                true,
            ),
            AnomalyView::Unregistered => (
                Severity::Warning,
                "子模块存在但未在 .gitmodules 注册"@,
                "手动清理或重新注册"@,
                false,
            ),
            AnomalyView::Unknown(msg) => (
                Severity::Error,
                "未知异常: "@ + msg,
                "请手动检查仓库状态"@,
                false,
            ),
        },
    }
}

fn issue(
    severity: Severity,
    submodule: &str,
    description: String,
    action: &str,
    auto_fixable: bool,
) -> (r: HealthIssue)
    ensures
        r.severity == severity,
        r.submodule@ == submodule@,
        r.description@ == description@,
        r.suggested_action@ == action@,
        r.auto_fixable == auto_fixable,
{
    HealthIssue {
        severity,
        submodule: String::from_str(submodule),
        description,
        suggested_action: String::from_str(action),
        auto_fixable,
    }
}

/// Builds the diagnosis report of one submodule.
pub fn diagnose(submodule: &str, status: &SubmoduleStatus) -> (r: HealthIssue)
    ensures
        r.submodule@ == submodule@,
        (r.severity, r.description@, r.suggested_action@, r.auto_fixable) == diagnosis(status@),
{
    match status {
        SubmoduleStatus::Synchronized => issue(
            Severity::Info,
            submodule,
            String::from_str("已同步"),
            "无需操作",
            true,
        ),
        SubmoduleStatus::OutOfSync(kind) => match kind {
            OutOfSyncKind::AheadOfRemote => issue(
                Severity::Info,
                submodule,
                String::from_str("有本地提交未推送"),
                "运行 code sync 自动推送",
                true,
            ),
            OutOfSyncKind::BehindRemote => issue(
                Severity::Info,
                submodule,
                String::from_str("远程有新提交未拉取"),
                "运行 code sync 自动拉取",
                true,
            ),
            OutOfSyncKind::Dirty => issue(
                Severity::Warning,
                submodule,
                String::from_str("有未提交的修改"),
                "请先提交或 stash，然后运行 sync",
                false,
            ),
            OutOfSyncKind::Diverged => issue(
                Severity::Error,
                submodule,
                String::from_str("本地与远程历史分叉"),
                "手动 merge 或 rebase",
                false,
            ),
        },
        SubmoduleStatus::Anomaly(kind) => match kind {
            AnomalyKind::DetachedHead => issue(
                Severity::Error,
                submodule,
                String::from_str("HEAD 游离"),
                "运行 git switch main",
                false,
            ),
            AnomalyKind::Orphaned => issue(
                Severity::Error,
                submodule,
                String::from_str("父仓库记录的 commit 在远程已不存在"),
                "手动检查子模块状态",
                false,
            ),
            AnomalyKind::Missing => issue(
                Severity::Error,
                submodule,
                String::from_str("子模块目录不存在"),
                "运行 git submodule update --init",
                true,
            ),
            AnomalyKind::Unregistered => issue(
                Severity::Warning,
                submodule,
                String::from_str("子模块存在但未在 .gitmodules 注册"),
                "手动清理或重新注册",
                false,
            ),
            AnomalyKind::Unknown(msg) => {
                let mut d = String::from_str("未知异常: ");
                d.append(msg.as_str());
                issue(Severity::Error, submodule, d, "请手动检查仓库状态", false)
            },
        },
    }
}

/// Only out-of-sync drift other than local edits and divergence, a missing
/// checkout, and the synchronized state are marked fixable by a tool; every
/// anomaly but a missing directory is an error or a warning.
pub proof fn fixable_states(status: StatusView)
    ensures
        diagnosis(status).3 <==> (status matches StatusView::Synchronized || status
            matches StatusView::OutOfSync(OutOfSyncKind::AheadOfRemote) || status
            matches StatusView::OutOfSync(OutOfSyncKind::BehindRemote) || status
            matches StatusView::Anomaly(AnomalyView::Missing)),
        status matches StatusView::Anomaly(_) ==> diagnosis(status).0 != Severity::Info,
{
}

// ───────────────────────────── .gitmodules ─────────────────────────────

/// State while reading `.gitmodules` line by line: sections found so far,
/// the current section's name and path, and whether a section is open.
pub struct SectionScan {
    pub found: Seq<(Seq<char>, Seq<char>)>,
    pub name: Seq<char>,
    pub path: Seq<char>,
    pub open: bool,
}

/// The section name written in a header line `[submodule "NAME"]`.
pub open spec fn header_name(t: Seq<char>) -> Seq<char> {
    trim_end_matches(trim_start_matches(t, "[submodule \""@), "\"]"@)
}

/// The section closed before a new header or at the end, if it has a name.
pub open spec fn close_section(st: SectionScan) -> Seq<(Seq<char>, Seq<char>)> {
    if st.open && st.name.len() > 0 {
        st.found.push((st.name, st.path))
    } else {
        st.found
    }
}

pub open spec fn section_step(st: SectionScan, line: Seq<char>) -> SectionScan {
    let t = trim(line);
    if starts_with(t, "[submodule"@) {
        SectionScan { found: close_section(st), name: header_name(t), path: Seq::empty(), open: true }
    } else if st.open && starts_with(t, "path = "@) {
        SectionScan { path: t.skip("path = "@.len() as int), ..st }
    } else {
        st
    }
}

pub open spec fn section_scan(ls: Seq<Seq<char>>) -> SectionScan
    decreases ls.len(),
{
    if ls.len() == 0 {
        SectionScan { found: Seq::empty(), name: Seq::empty(), path: Seq::empty(), open: false }
    } else {
        section_step(section_scan(ls.drop_last()), ls.last())
    }
}

/// The named sections of a `.gitmodules` text, in order, each with the last
/// `path = ` value given inside it (empty when none).
pub open spec fn submodule_sections(content: Seq<char>) -> Seq<(Seq<char>, Seq<char>)> {
    close_section(section_scan(lines(content)))
}

pub open spec fn pairs_view(v: Seq<(String, String)>) -> Seq<(Seq<char>, Seq<char>)> {
    v.map_values(|p: (String, String)| (p.0@, p.1@))
}

/// Reads the submodule sections of a `.gitmodules` text.
pub fn parse_submodule_sections(content: &str) -> (r: Vec<(String, String)>)
    ensures
        pairs_view(r@) == submodule_sections(content@),
{
    let text = chars_of(content);
    let ls = lines_chars(&text);
    let header = chars_of("[submodule");
    let path_key = chars_of("path = ");
    let open_quote = chars_of("[submodule \"");
    let close_quote = chars_of("\"]");
    let mut found: Vec<(String, String)> = Vec::new();
    let mut name: Vec<char> = Vec::new();
    let mut path: Vec<char> = Vec::new();
    let mut open = false;
    let mut i: usize = 0;
    proof {
        assert(pairs_view(found@) =~= Seq::<(Seq<char>, Seq<char>)>::empty());
        assert(name@ =~= Seq::<char>::empty());
        assert(path@ =~= Seq::<char>::empty());
        assert(ls.deep_view().take(0) =~= Seq::<Seq<char>>::empty());
    }
    while i < ls.len()
        invariant
            i <= ls.len(),
            ls.deep_view() == lines(content@),
            header@ == "[submodule"@,
            path_key@ == "path = "@,
            open_quote@ == "[submodule \""@,
            close_quote@ == "\"]"@,
            section_scan(ls.deep_view().take(i as int)) == (SectionScan {
                found: pairs_view(found@),
                name: name@,
                path: path@,
                open,
            }),
        decreases ls.len() - i,
    {
        let ghost before = section_scan(ls.deep_view().take(i as int));
        proof {
            assert(ls.deep_view().take(i + 1).drop_last() =~= ls.deep_view().take(i as int));
            assert(ls@[i as int].deep_view() =~= ls@[i as int]@);
            assert(ls.deep_view().take(i + 1).last() == ls@[i as int]@);
        }
        let t = trim_chars(&ls[i]);
        if starts_with_chars(&t, &header) {
            if open && name.len() > 0 {
                let ghost f = pairs_view(found@);
                found.push((string_of(&name), string_of(&path)));
                proof {
                    assert(pairs_view(found@) =~= f.push((name@, path@)));
                }
            }
            let a = trim_start_matches_chars(&t, &open_quote);
            name = trim_end_matches_chars(&a, &close_quote);
            path = Vec::new();
            open = true;
            proof {
                assert(path@ =~= Seq::<char>::empty());
            }
        } else if open {
            match strip_prefix_chars(&t, &path_key) {
                Some(p) => {
                    path = p;
                },
                None => {},
            }
        }
        proof {
            let after = section_step(before, ls@[i as int]@);
            assert(after.found =~= pairs_view(found@));
            assert(after.name =~= name@);
            assert(after.path =~= path@);
            assert(after.open == open);
            assert(section_scan(ls.deep_view().take(i + 1)) == after);
        }
        i += 1;
    }
    proof {
        assert(ls.deep_view().take(i as int) =~= ls.deep_view());
    }
    if open && name.len() > 0 {
        let ghost f = pairs_view(found@);
        found.push((string_of(&name), string_of(&path)));
        proof {
            assert(pairs_view(found@) =~= f.push((name@, path@)));
        }
    }
    found
}

// ───────────────────────────── status checks ───────────────────────────

/// The counts in `git rev-list --left-right --count` output: the trimmed
/// text split at its first tab, each side trimmed and read as a count
/// (0 when it does not read as one).
pub open spec fn ahead_behind(out: Seq<char>) -> Option<(nat, nat)> {
    match split_once(trim(out), '\t') {
        Some((a, b)) => Some(
            (
                match parse_uint(trim(a), usize::MAX as nat) {
                    Some(n) => n,
                    None => 0,
                },
                match parse_uint(trim(b), usize::MAX as nat) {
                    Some(n) => n,
                    None => 0,
                },
            ),
        ),
        None => None,
    }
}

/// The decision of a submodule check from what was observed: whether its
/// directory and its `.git` exist, whether `git status --porcelain` printed
/// anything (when it ran), and what `git rev-list --left-right --count
/// HEAD...origin/main` printed (when it ran).
pub open spec fn check_outcome(
    dir_exists: bool,
    git_dir_exists: bool,
    status_output_nonempty: Option<bool>,
    rev_list_output: Option<Seq<char>>,
) -> StatusView {
    if !dir_exists {
        StatusView::Anomaly(AnomalyView::Missing)
    } else if !git_dir_exists {
        StatusView::Anomaly(AnomalyView::Unknown("不是 git 仓库"@))
    } else if status_output_nonempty == Some(true) {
        StatusView::OutOfSync(OutOfSyncKind::Dirty)
    } else {
        match rev_list_output {
            Some(out) => match ahead_behind(out) {
                Some((a, b)) => if a > 0 && b > 0 {
                    StatusView::OutOfSync(OutOfSyncKind::Diverged)
                } else if a > 0 {
                    StatusView::OutOfSync(OutOfSyncKind::AheadOfRemote)
                } else if b > 0 {
                    StatusView::OutOfSync(OutOfSyncKind::BehindRemote)
                } else {
                    StatusView::Synchronized
                },
                None => StatusView::Synchronized,
            },
            None => StatusView::Synchronized,
        }
    }
}

proof fn lemma_count_text(n: nat)
    requires
        n <= usize::MAX,
    ensures
        trim(decimal(n)) == decimal(n),
        parse_uint(decimal(n), usize::MAX as nat) == Some(n),
        !decimal(n).contains('\t'),
        !is_ws(decimal(n)[0]),
        !is_ws(decimal(n).last()),
{
    lemma_decimal_digits(n);
    lemma_parse_uint_decimal(n, usize::MAX as nat);
    lemma_digits_lack(decimal(n), '\t');
    lemma_digit_not_ws(decimal(n)[0]);
    lemma_digit_not_ws(decimal(n).last());
    lemma_trim_edges(decimal(n));
}

/// `git rev-list --left-right --count HEAD...origin/main` prints the number
/// of commits only in the submodule's HEAD, a tab, and the number only on
/// the remote.  A checked submodule with a clean working tree is ahead of
/// the remote when only its own count is positive, behind when only the
/// remote's is, diverged when both are and synchronized when neither is.
pub proof fn rev_list_counts_decide(
    left: nat,
    right: nat,
    status_output_nonempty: Option<bool>,
    newline: bool,
)
    requires
        left <= usize::MAX,
        right <= usize::MAX,
        status_output_nonempty != Some(true),
    ensures
        ({
            let out = decimal(left) + seq!['\t'] + decimal(right) + if newline {
                seq!['\n']
            } else {
                Seq::<char>::empty()
            };
            let st = check_outcome(true, true, status_output_nonempty, Some(out));
            &&& left > 0 && right == 0 ==> st == StatusView::OutOfSync(OutOfSyncKind::AheadOfRemote)
            &&& left == 0 && right > 0 ==> st == StatusView::OutOfSync(OutOfSyncKind::BehindRemote)
            &&& left > 0 && right > 0 ==> st == StatusView::OutOfSync(OutOfSyncKind::Diverged)
            &&& left == 0 && right == 0 ==> st == StatusView::Synchronized
        }),
{
    lemma_count_text(left);
    lemma_count_text(right);
    let x = decimal(left) + seq!['\t'] + decimal(right);
    let out = x + if newline {
        seq!['\n']
    } else {
        Seq::<char>::empty()
    };
    assert(x[0] == decimal(left)[0]);
    assert(x.last() == decimal(right).last());
    lemma_trim_edges(x);
    if !newline {
        assert(out =~= x);
    }
    assert(trim(out) == x);
    lemma_split_once_parts(decimal(left), decimal(right), '\t');
    assert(ahead_behind(out) == Some((left, right)));
}

/// Turns a count text into a number, 0 when it does not read as one.
fn count_or_zero(s: &[char]) -> (r: usize)
    ensures
        r as nat == match parse_uint(trim(s@), usize::MAX as nat) {
            Some(n) => n,
            None => 0,
        },
{
    let t = trim_chars(s);
    match parse_uint_chars(&t, usize::MAX as u64) {
        Some(n) => n as usize,
        None => 0,
    }
}

/// Decides a submodule's state from the observations of a check.
pub fn check_submodule(
    dir_exists: bool,
    git_dir_exists: bool,
    status_output_nonempty: Option<bool>,
    rev_list_output: Option<&str>,
) -> (r: SubmoduleStatus)
    ensures
        r@ == check_outcome(
            dir_exists,
            git_dir_exists,
            status_output_nonempty,
            match rev_list_output {
                Some(o) => Some(o@),
                None => None,
            },
        ),
{
    if !dir_exists {
        return SubmoduleStatus::Anomaly(AnomalyKind::Missing);
    }
    if !git_dir_exists {
        return SubmoduleStatus::Anomaly(AnomalyKind::Unknown(String::from_str("不是 git 仓库")));
    }
    if status_output_nonempty == Some(true) {
        return SubmoduleStatus::OutOfSync(OutOfSyncKind::Dirty);
    }
    match rev_list_output {
        Some(out) => {
            let t = crate::text::trimmed(out);
            match split_once_chars(&t, '\t') {
                Some((a, b)) => {
                    let x = count_or_zero(&a);
                    let y = count_or_zero(&b);
                    if x > 0 && y > 0 {
                        SubmoduleStatus::OutOfSync(OutOfSyncKind::Diverged)
                    } else if x > 0 {
                        SubmoduleStatus::OutOfSync(OutOfSyncKind::AheadOfRemote)
                    } else if y > 0 {
                        SubmoduleStatus::OutOfSync(OutOfSyncKind::BehindRemote)
                    } else {
                        SubmoduleStatus::Synchronized
                    }
                },
                None => SubmoduleStatus::Synchronized,
            }
        },
        None => SubmoduleStatus::Synchronized,
    }
}

// ─────────────────────────────── reports ───────────────────────────────

pub open spec fn issue_views(v: Seq<HealthIssue>) -> Seq<IssueView> {
    v.map_values(|i: HealthIssue| i@)
}

pub open spec fn with_severity(s: Seq<IssueView>, sev: Severity) -> Seq<IssueView> {
    s.filter(|i: IssueView| i.severity == sev)
}

/// A stable sort by severity: infos, then warnings, then errors, each in
/// the order they were given in.
pub open spec fn by_severity(s: Seq<IssueView>) -> Seq<IssueView> {
    with_severity(s, Severity::Info) + with_severity(s, Severity::Warning) + with_severity(
        s,
        Severity::Error,
    )
}

/// Severities never decrease along `s`.
pub open spec fn severities_sorted(s: Seq<IssueView>) -> bool {
    forall|i: int, j: int|
        0 <= i < j < s.len() ==> severity_rank(#[trigger] s[i].severity) <= severity_rank(
            #[trigger] s[j].severity,
        )
}

proof fn lemma_with_severity_only(s: Seq<IssueView>, sev: Severity)
    ensures
        forall|i: int|
            0 <= i < with_severity(s, sev).len() ==> (#[trigger] with_severity(s, sev)[i]).severity
                == sev,
{
    let p = |i: IssueView| i.severity == sev;
    assert forall|i: int| 0 <= i < with_severity(s, sev).len() implies (#[trigger] with_severity(
        s,
        sev,
    )[i]).severity == sev by {
        s.lemma_filter_pred(p, i);
    }
}

proof fn lemma_with_severity_push(s: Seq<IssueView>, x: IssueView, sev: Severity)
    ensures
        with_severity(s.push(x), sev) == if x.severity == sev {
            with_severity(s, sev).push(x)
        } else {
            with_severity(s, sev)
        },
{
    reveal_with_fuel(Seq::<_>::filter, 1);
    assert(s.push(x).drop_last() =~= s);
}

proof fn lemma_by_severity_multiset(s: Seq<IssueView>)
    ensures
        by_severity(s).to_multiset() == s.to_multiset(),
    decreases s.len(),
{
    broadcast use vstd::seq_lib::group_to_multiset_ensures;
    broadcast use vstd::seq_lib::lemma_multiset_commutative;
    broadcast use vstd::seq_lib::to_multiset_build;
    broadcast use vstd::multiset::group_multiset_axioms;

    if s.len() == 0 {
        reveal_with_fuel(Seq::<_>::filter, 1);
        assert(by_severity(s) =~= Seq::<IssueView>::empty());
    } else {
        let d = s.drop_last();
        let x = s.last();
        lemma_by_severity_multiset(d);
        assert(d.push(x) =~= s);
        lemma_with_severity_push(d, x, Severity::Info);
        lemma_with_severity_push(d, x, Severity::Warning);
        lemma_with_severity_push(d, x, Severity::Error);
        let a = with_severity(d, Severity::Info);
        let b = with_severity(d, Severity::Warning);
        let c = with_severity(d, Severity::Error);
        assert(by_severity(d).to_multiset() =~= a.to_multiset().add(b.to_multiset()).add(
            c.to_multiset(),
        ));
        assert(by_severity(s).to_multiset() =~= by_severity(d).to_multiset().insert(x));
    }
}

/// A health report lists its issues by severity, infos first and errors
/// last, and holds each diagnosed issue exactly as often as it was
/// diagnosed.
pub proof fn report_order_sorted_permutation(s: Seq<IssueView>)
    ensures
        severities_sorted(by_severity(s)),
        by_severity(s).to_multiset() == s.to_multiset(),
{
    let a = with_severity(s, Severity::Info);
    let b = with_severity(s, Severity::Warning);
    let c = with_severity(s, Severity::Error);
    lemma_with_severity_only(s, Severity::Info);
    lemma_with_severity_only(s, Severity::Warning);
    lemma_with_severity_only(s, Severity::Error);
    let r = by_severity(s);
    assert forall|i: int, j: int| 0 <= i < j < r.len() implies severity_rank(
        #[trigger] r[i].severity,
    ) <= severity_rank(#[trigger] r[j].severity) by {
        let rank_at = |k: int|
            if k < a.len() {
                0int
            } else if k < a.len() + b.len() {
                1int
            } else {
                2int
            };
        assert forall|k: int| 0 <= k < r.len() implies severity_rank(r[k].severity) == rank_at(
            k,
        ) by {
            if k < a.len() {
                assert(r[k] == a[k]);
            } else if k < a.len() + b.len() {
                assert(r[k] == b[k - a.len()]);
            } else {
                assert(r[k] == c[k - a.len() - b.len()]);
            }
        }
        assert(severity_rank(r[i].severity) == rank_at(i));
        assert(severity_rank(r[j].severity) == rank_at(j));
    }
    lemma_by_severity_multiset(s);
}

impl HealthIssue {
    /// A copy with the same contents.
    pub fn duplicate(&self) -> (r: HealthIssue)
        ensures
            r@ == self@,
    {
        HealthIssue {
            severity: self.severity,
            submodule: self.submodule.clone(),
            description: self.description.clone(),
            suggested_action: self.suggested_action.clone(),
            auto_fixable: self.auto_fixable,
        }
    }
}

/// Appends copies of the issues of one severity, in order, to `out`.
fn append_severity(issues: &[HealthIssue], sev: Severity, out: &mut Vec<HealthIssue>)
    ensures
        issue_views(final(out)@) == issue_views(old(out)@) + with_severity(
            issue_views(issues@),
            sev,
        ),
{
    let mut k: usize = 0;
    while k < issues.len()
        invariant
            k <= issues.len(),
            issue_views(out@) == issue_views(old(out)@) + with_severity(
                issue_views(issues@).take(k as int),
                sev,
            ),
        decreases issues.len() - k,
    {
        proof {
            assert(issue_views(issues@).take(k + 1).drop_last() =~= issue_views(issues@).take(
                k as int,
            ));
            assert(issue_views(issues@).take(k + 1).last() == issues@[k as int]@);
            reveal_with_fuel(Seq::<_>::filter, 1);
        }
        if issues[k].severity == sev {
            let ghost ov = issue_views(out@);
            out.push(issues[k].duplicate());
            proof {
                assert(issue_views(out@) =~= ov.push(issues@[k as int]@));
            }
        }
        k += 1;
    }
    proof {
        assert(issue_views(issues@).take(k as int) =~= issue_views(issues@));
    }
}

/// Orders issues by severity, stably: infos first, errors last.
pub fn sort_by_severity(issues: &[HealthIssue]) -> (r: Vec<HealthIssue>)
    ensures
        issue_views(r@) == by_severity(issue_views(issues@)),
{
    let mut out: Vec<HealthIssue> = Vec::new();
    append_severity(issues, Severity::Info, &mut out);
    append_severity(issues, Severity::Warning, &mut out);
    append_severity(issues, Severity::Error, &mut out);
    proof {
        assert(issue_views(Seq::<HealthIssue>::empty()) =~= Seq::<IssueView>::empty());
        assert(Seq::<IssueView>::empty() + with_severity(issue_views(issues@), Severity::Info)
            =~= with_severity(issue_views(issues@), Severity::Info));
    }
    out
}

/// The health report of a repository from each submodule's name and checked
/// state, in file order: one diagnosis per submodule, ordered by severity.
pub fn report(checked: &[(String, SubmoduleStatus)]) -> (r: Vec<HealthIssue>)
    ensures
        issue_views(r@) == by_severity(diagnoses(checked@)),
{
    let mut issues: Vec<HealthIssue> = Vec::new();
    let mut k: usize = 0;
    while k < checked.len()
        invariant
            k <= checked.len(),
            issue_views(issues@) == diagnoses(checked@.take(k as int)),
        decreases checked.len() - k,
    {
        let d = diagnose(checked[k].0.as_str(), &checked[k].1);
        let ghost iv = issue_views(issues@);
        issues.push(d);
        proof {
            assert(checked@.take(k + 1).drop_last() =~= checked@.take(k as int));
            assert(issue_views(issues@) =~= iv.push(d@));
        }
        k += 1;
    }
    proof {
        assert(checked@.take(k as int) =~= checked@);
    }
    sort_by_severity(&issues)
}

/// The diagnosis of each (name, state) pair, in order.
pub open spec fn diagnoses(c: Seq<(String, SubmoduleStatus)>) -> Seq<IssueView>
    decreases c.len(),
{
    if c.len() == 0 {
        Seq::empty()
    } else {
        diagnoses(c.drop_last()).push(
            {
                let d = diagnosis(c.last().1@);
                IssueView {
                    severity: d.0,
                    submodule: c.last().0@,
                    description: d.1,
                    suggested_action: d.2,
                    auto_fixable: d.3,
                }
            },
        )
    }
}

} // verus!
