//! The command-line version detector: tag filtering and ordering for a
//! scope, commit summaries from `git log --oneline`, the release rule on
//! conventional-commit prefixes, and the next version.
use vstd::prelude::*;
use vstd::multiset::Multiset;
use crate::contract::opt_view;
use crate::detect::opt_str_view;
use crate::text::{
    chars_of, decimal, has_char, has_char_exec, lemma_lex_lt_irreflexive, lemma_lex_lt_total,
    lemma_lex_lt_transitive, lex_lt, lex_lt_chars, lines, lines_chars, parse_uint, parse_uint_chars,
    push_char, push_decimal, rsplit_once, rsplit_once_chars, slice_of, split_once, split_once_chars,
    starts_with, starts_with_chars, str_is, string_of, lemma_decimal_digits, lemma_digits_lack,
    lemma_parse_uint_decimal, lemma_split_once_parts,
};

verus! {

// ───────────────────────────── decisions ─────────────────────────────

/// What to do for a scope: `action` is `release` or `skip`, `increment` is
/// `minor` or `patch`, `prerelease` is `rc` or absent.
#[derive(Debug)]
pub struct Decision {
    pub action: String,
    pub increment: Option<String>,
    pub prerelease: Option<String>,
}

pub struct DecisionView {
    pub action: Seq<char>,
    pub increment: Option<Seq<char>>,
    pub prerelease: Option<Seq<char>>,
}

impl View for Decision {
    type V = DecisionView;

    open spec fn view(&self) -> DecisionView {
        DecisionView {
            action: self.action@,
            increment: opt_view(self.increment),
            prerelease: opt_view(self.prerelease),
        }
    }
}

pub open spec fn is_feat(m: Seq<char>) -> bool {
    starts_with(m, "feat:"@)
}

pub open spec fn is_fix(m: Seq<char>) -> bool {
    starts_with(m, "fix:"@) || starts_with(m, "refactor:"@)
}

pub open spec fn is_chore(m: Seq<char>) -> bool {
    starts_with(m, "chore:"@) || starts_with(m, "docs:"@) || starts_with(m, "typo:"@)
}

pub open spec fn skip_view() -> DecisionView {
    DecisionView { action: "skip"@, increment: None, prerelease: None }
}

/// Chores only (or nothing) are skipped; a `feat:` makes a `minor` release
/// that starts an `rc` series; a `fix:` or `refactor:` makes a `patch`
/// release; anything else is skipped.
pub open spec fn fallback_spec(ms: Seq<Seq<char>>) -> DecisionView {
    if forall|i: int| 0 <= i < ms.len() ==> is_chore(#[trigger] ms[i]) {
        skip_view()
    } else if exists|i: int| 0 <= i < ms.len() && is_feat(#[trigger] ms[i]) {
        DecisionView { action: "release"@, increment: Some("minor"@), prerelease: Some("rc"@) }
    } else if exists|i: int| 0 <= i < ms.len() && is_fix(#[trigger] ms[i]) {
        DecisionView { action: "release"@, increment: Some("patch"@), prerelease: None }
    } else {
        skip_view()
    }
}

/// The release rule on commit prefixes; it never fails.
pub fn fallback_heuristic(commits: &[String], _latest_tag: &Option<String>) -> (r: Result<
    Decision,
    String,
>)
    ensures
        r matches Ok(d) && d@ == fallback_spec(commits.deep_view()),
{
    let ghost ms = commits.deep_view();
    let k_feat = chars_of("feat:");
    let k_fix = chars_of("fix:");
    let k_refactor = chars_of("refactor:");
    let k_chore = chars_of("chore:");
    let k_docs = chars_of("docs:");
    let k_typo = chars_of("typo:");
    let mut has_feat = false;
    let mut has_fix = false;
    let mut only_chore = true;
    let mut i: usize = 0;
    while i < commits.len()
        invariant
            i <= commits.len(),
            ms == commits.deep_view(),
            k_feat@ == "feat:"@,
            k_fix@ == "fix:"@,
            k_refactor@ == "refactor:"@,
            k_chore@ == "chore:"@,
            k_docs@ == "docs:"@,
            k_typo@ == "typo:"@,
            has_feat == exists|j: int| 0 <= j < i && is_feat(#[trigger] ms[j]),
            has_fix == exists|j: int| 0 <= j < i && is_fix(#[trigger] ms[j]),
            only_chore == forall|j: int| 0 <= j < i ==> is_chore(#[trigger] ms[j]),
        decreases commits.len() - i,
    {
        let m = chars_of(commits[i].as_str());
        assert(m@ == ms[i as int]);
        if starts_with_chars(&m, &k_feat) {
            has_feat = true;
        }
        if starts_with_chars(&m, &k_fix) || starts_with_chars(&m, &k_refactor) {
            has_fix = true;
        }
        if !(starts_with_chars(&m, &k_chore) || starts_with_chars(&m, &k_docs)
            || starts_with_chars(&m, &k_typo)) {
            only_chore = false;
        }
        i += 1;
    }
    if only_chore || commits.len() == 0 {
        Ok(
            Decision {
                action: String::from_str("skip"),
                increment: None,
                prerelease: None,
            },
        )
    } else if has_feat {
        Ok(
            Decision {
                action: String::from_str("release"),
                increment: Some(String::from_str("minor")),
                prerelease: Some(String::from_str("rc")),
            },
        )
    } else if has_fix {
        Ok(
            Decision {
                action: String::from_str("release"),
                increment: Some(String::from_str("patch")),
                prerelease: None,
            },
        )
    } else {
        Ok(
            Decision {
                action: String::from_str("skip"),
                increment: None,
                prerelease: None,
            },
        )
    }
}

// ───────────────────────────── versions ─────────────────────────────

pub open spec fn u64_max() -> nat {
    0xffff_ffff_ffff_ffff
}

/// `str::splitn(3, '.')`: at most three pieces, the last holding the rest.
pub open spec fn splitn3(s: Seq<char>) -> Seq<Seq<char>> {
    match split_once(s, '.') {
        None => seq![s],
        Some((a, rest)) => match split_once(rest, '.') {
            None => seq![a, rest],
            Some((b, c)) => seq![a, b, c],
        },
    }
}

pub type CliVersion = (nat, nat, nat, Option<Seq<char>>);

/// `X.Y[.Z[-pre]]` after one optional `v`, as `u64`s; a missing patch is 0.
pub open spec fn parse_version_spec(s: Seq<char>) -> Option<CliVersion> {
    let v = if s.len() > 0 && s[0] == 'v' {
        s.drop_first()
    } else {
        s
    };
    let parts = splitn3(v);
    if parts.len() < 2 {
        None
    } else if parse_uint(parts[0], u64_max()) is None || parse_uint(parts[1], u64_max()) is None {
        None
    } else if parts.len() < 3 {
        Some((parse_uint(parts[0], u64_max()).unwrap(), parse_uint(parts[1], u64_max()).unwrap(), 0, None))
    } else {
        match split_once(parts[2], '-') {
            Some((num, pre)) => match parse_uint(num, u64_max()) {
                Some(n) => Some(
                    (
                        parse_uint(parts[0], u64_max()).unwrap(),
                        parse_uint(parts[1], u64_max()).unwrap(),
                        n,
                        Some(pre),
                    ),
                ),
                None => None,
            },
            None => match parse_uint(parts[2], u64_max()) {
                Some(n) => Some(
                    (
                        parse_uint(parts[0], u64_max()).unwrap(),
                        parse_uint(parts[1], u64_max()).unwrap(),
                        n,
                        None,
                    ),
                ),
                None => None,
            },
        }
    }
}

pub open spec fn cli_view(o: Option<(u64, u64, u64, Option<String>)>) -> Option<CliVersion> {
    match o {
        Some(p) => Some((p.0 as nat, p.1 as nat, p.2 as nat, opt_view(p.3))),
        None => None,
    }
}

fn splitn3_chars(s: &[char]) -> (r: Vec<Vec<char>>)
    ensures
        r.deep_view() == splitn3(s@),
{
    let mut r: Vec<Vec<char>> = Vec::new();
    match split_once_chars(s, '.') {
        None => {
            let w = slice_of(s, 0, s.len());
            assert(w@ =~= s@);
            r.push(w);
            assert(r@[0].deep_view() =~= r@[0]@);
            assert(r.deep_view() =~= seq![s@]);
        },
        Some((a, rest)) => match split_once_chars(&rest, '.') {
            None => {
                r.push(a);
                r.push(rest);
                assert(r@[0].deep_view() =~= r@[0]@);
                assert(r@[1].deep_view() =~= r@[1]@);
                assert(r.deep_view() =~= splitn3(s@));
            },
            Some((b, c)) => {
                r.push(a);
                r.push(b);
                r.push(c);
                assert(r@[0].deep_view() =~= r@[0]@);
                assert(r@[1].deep_view() =~= r@[1]@);
                assert(r@[2].deep_view() =~= r@[2]@);
                assert(r.deep_view() =~= splitn3(s@));
            },
        },
    }
    r
}

/// Parses a version or a tag without scope.
pub fn parse_version(version_str: &str) -> (r: Option<(u64, u64, u64, Option<String>)>)
    ensures
        cli_view(r) == parse_version_spec(version_str@),
{
    let all = chars_of(version_str);
    let v = if all.len() > 0 && all[0] == 'v' {
        slice_of(&all, 1, all.len())
    } else {
        all
    };
    assert(v@ =~= (if version_str@.len() > 0 && version_str@[0] == 'v' {
        version_str@.drop_first()
    } else {
        version_str@
    }));
    let parts = splitn3_chars(&v);
    if parts.len() < 2 {
        return None;
    }
    proof {
        assert(parts@[0].deep_view() =~= parts@[0]@);
        assert(parts@[1].deep_view() =~= parts@[1]@);
    }
    let major = match parse_uint_chars(&parts[0], 0xffff_ffff_ffff_ffff) {
        Some(x) => x,
        None => {
            return None;
        },
    };
    let minor = match parse_uint_chars(&parts[1], 0xffff_ffff_ffff_ffff) {
        Some(x) => x,
        None => {
            return None;
        },
    };
    if parts.len() < 3 {
        return Some((major, minor, 0, None));
    }
    proof {
        assert(parts@[2].deep_view() =~= parts@[2]@);
    }
    match split_once_chars(&parts[2], '-') {
        Some((num, pre)) => match parse_uint_chars(&num, 0xffff_ffff_ffff_ffff) {
            Some(n) => Some((major, minor, n, Some(string_of(&pre)))),
            None => None,
        },
        None => match parse_uint_chars(&parts[2], 0xffff_ffff_ffff_ffff) {
            Some(n) => Some((major, minor, n, None)),
            None => None,
        },
    }
}

/// The baseline of a scope: its latest tag's version, `0.0.0` without one
/// (or when it does not parse).
pub open spec fn baseline_spec(latest: Option<Seq<char>>) -> CliVersion {
    match latest {
        Some(t) => match parse_version_spec(t) {
            Some(p) => p,
            None => (0, 0, 0, None),
        },
        None => (0, 0, 0, None),
    }
}

/// The pre-release series of a version (`rc.1` gives `rc` and 1): split at
/// the last `.`; `rc` and 0 when there is none, 0 when the number does not
/// parse as a `usize`.
pub open spec fn series_spec(pre: Seq<char>) -> (Seq<char>, nat) {
    match rsplit_once(pre, '.') {
        Some((base, num)) => (
            base,
            match parse_uint(num, usize::MAX as nat) {
                Some(n) => n,
                None => 0,
            },
        ),
        None => ("rc"@, 0),
    }
}

pub open spec fn cli_version_text(major: nat, minor: nat, patch: nat) -> Seq<char> {
    seq!['v'] + decimal(major) + seq!['.'] + decimal(minor) + seq!['.'] + decimal(patch)
}

/// The next version: see `build_version`.
pub open spec fn build_version_spec(latest: Option<Seq<char>>, d: DecisionView) -> Result<
    Seq<char>,
    Seq<char>,
> {
    let b = baseline_spec(latest);
    if d.action == "skip"@ {
        Err("无需发版"@)
    } else if d.increment == Some("minor"@) {
        Ok(
            match d.prerelease {
                Some(_) => cli_version_text(b.0, b.1 + 1, 0) + "-rc.1"@,
                None => cli_version_text(b.0, b.1 + 1, 0),
            },
        )
    } else if d.increment == Some("patch"@) {
        Ok(
            match b.3 {
                Some(pre) => cli_version_text(b.0, b.1, b.2 + 1) + seq!['-'] + series_spec(pre).0
                    + seq!['.'] + decimal(series_spec(pre).1 + 1),
                None => cli_version_text(b.0, b.1, b.2 + 1),
            },
        )
    } else {
        Err("无效增量类型"@)
    }
}

/// The numbers that `build_version_spec` raises fit in their types.
pub open spec fn build_version_fits(latest: Option<Seq<char>>, d: DecisionView) -> bool {
    let b = baseline_spec(latest);
    d.action != "skip"@ ==> (d.increment == Some("minor"@) ==> b.1 < u64_max()) && (d.increment
        == Some("patch"@) ==> b.2 < u64_max() && (b.3 matches Some(pre) ==> series_spec(pre).1
        < usize::MAX))
}

fn push_cli_version(s: &mut String, major: u64, minor: u64, patch: u64)
    ensures
        final(s)@ == old(s)@ + cli_version_text(major as nat, minor as nat, patch as nat),
{
    push_char(s, 'v');
    push_decimal(s, major);
    push_char(s, '.');
    push_decimal(s, minor);
    push_char(s, '.');
    push_decimal(s, patch);
    assert(final(s)@ =~= old(s)@ + cli_version_text(major as nat, minor as nat, patch as nat));
}

fn push_decimal_usize(s: &mut String, n: usize)
    ensures
        final(s)@ == old(s)@ + decimal(n as nat),
{
    push_decimal(s, n as u64);
}

/// The next version after the scope's latest tag, by the decision.
pub fn build_version(
    latest_tag: &Option<String>,
    decision: &Decision,
    commits: &[String],
) -> (r: Result<String, String>)
    requires
        build_version_fits(opt_view(*latest_tag), decision@),
    ensures
        match r {
            Ok(v) => build_version_spec(opt_view(*latest_tag), decision@) == Ok::<
                Seq<char>,
                Seq<char>,
            >(v@),
            Err(e) => build_version_spec(opt_view(*latest_tag), decision@) == Err::<
                Seq<char>,
                Seq<char>,
            >(e@),
        },
{
    if str_is(decision.action.as_str(), "skip") {
        return Err(String::from_str("无需发版"));
    }
    let parsed = match latest_tag {
        Some(t) => parse_version(t.as_str()),
        None => None,
    };
    let (major, minor, patch, prerelease) = match parsed {
        Some(p) => p,
        None => (0, 0, 0, None),
    };
    assert(baseline_spec(opt_view(*latest_tag)) == (
        major as nat,
        minor as nat,
        patch as nat,
        opt_view(prerelease),
    ));
    let mut s = String::new();
    if crate::text::opt_is(&decision.increment, "minor") {
        push_cli_version(&mut s, major, minor + 1, 0);
        if decision.prerelease.is_some() {
            s.append("-rc.1");
        }
        return Ok(s);
    }
    if crate::text::opt_is(&decision.increment, "patch") {
        push_cli_version(&mut s, major, minor, patch + 1);
        match &prerelease {
            Some(p) => {
                let pc = chars_of(p.as_str());
                let (base, n): (Vec<char>, usize) = match rsplit_once_chars(&pc, '.') {
                    Some((b, num)) => {
                        let n: usize = match parse_uint_chars(&num, usize::MAX as u64) {
                            Some(x) => x as usize,
                            None => 0,
                        };
                        (b, n)
                    },
                    None => (chars_of("rc"), 0),
                };
                assert(series_spec(p@) == (base@, n as nat));
                push_char(&mut s, '-');
                crate::text::append_chars(&mut s, &base);
                push_char(&mut s, '.');
                push_decimal_usize(&mut s, n + 1);
                assert(s@ =~= cli_version_text(major as nat, minor as nat, (patch + 1) as nat) + seq!['-']
                    + base@ + seq!['.'] + decimal((n + 1) as nat));
            },
            None => {},
        }
        return Ok(s);
    }
    Err(String::from_str("无效增量类型"))
}

/// The version that `build_version_spec` names: the baseline bumped, and
/// the pre-release it carries (`rc.1` for a new series, the series with its
/// number raised inside one).
pub open spec fn built_view(latest: Option<Seq<char>>, d: DecisionView) -> CliVersion {
    let b = baseline_spec(latest);
    if d.increment == Some("minor"@) {
        (b.0, b.1 + 1, 0, if d.prerelease is Some { Some("rc.1"@) } else { None })
    } else {
        (
            b.0,
            b.1,
            b.2 + 1,
            match b.3 {
                Some(pre) => Some(series_spec(pre).0 + seq!['.'] + decimal(series_spec(pre).1 + 1)),
                None => None,
            },
        )
    }
}

proof fn lemma_baseline_fits(latest: Option<Seq<char>>)
    ensures
        baseline_spec(latest).0 <= u64_max(),
        baseline_spec(latest).1 <= u64_max(),
        baseline_spec(latest).2 <= u64_max(),
{
}

/// `vX.Y.Z` followed by `tail` splits, after its `v`, into `X`, `Y` and
/// `Z` with the tail.
proof fn lemma_cli_pieces(a: nat, b: nat, c: nat, tail: Seq<char>)
    ensures
        splitn3((cli_version_text(a, b, c) + tail).drop_first()) == seq![
            decimal(a),
            decimal(b),
            decimal(c) + tail,
        ],
        (cli_version_text(a, b, c) + tail)[0] == 'v',
{
    lemma_decimal_digits(a);
    lemma_decimal_digits(b);
    lemma_digits_lack(decimal(a), '.');
    lemma_digits_lack(decimal(b), '.');
    let v = (cli_version_text(a, b, c) + tail).drop_first();
    let rest = decimal(b) + seq!['.'] + decimal(c) + tail;
    let last = decimal(c) + tail;
    assert(v =~= decimal(a) + seq!['.'] + rest);
    lemma_split_once_parts(decimal(a), rest, '.');
    assert(rest =~= decimal(b) + seq!['.'] + last);
    lemma_split_once_parts(decimal(b), last, '.');
}

/// What the parser makes of `vX.Y.Z` followed by nothing or by `-pre`.
proof fn lemma_cli_parse(a: nat, b: nat, c: nat, pre: Option<Seq<char>>)
    requires
        a <= u64_max(),
        b <= u64_max(),
        c <= u64_max(),
    ensures
        parse_version_spec(
            cli_version_text(a, b, c) + match pre {
                Some(p) => seq!['-'] + p,
                None => Seq::<char>::empty(),
            },
        ) == Some::<CliVersion>((a, b, c, pre)),
{
    let tail = match pre {
        Some(p) => seq!['-'] + p,
        None => Seq::<char>::empty(),
    };
    lemma_cli_pieces(a, b, c, tail);
    lemma_parse_uint_decimal(a, u64_max());
    lemma_parse_uint_decimal(b, u64_max());
    lemma_parse_uint_decimal(c, u64_max());
    lemma_decimal_digits(c);
    lemma_digits_lack(decimal(c), '-');
    match pre {
        Some(p) => {
            assert(decimal(c) + tail =~= decimal(c) + seq!['-'] + p);
            lemma_split_once_parts(decimal(c), p, '-');
        },
        None => {
            assert(decimal(c) + tail =~= decimal(c));
            lemma_split_once_parts(decimal(c), Seq::empty(), '-');
        },
    }
}

/// A version that the command-line detection builds reads back, through
/// its parser, as the version it names: the baseline's numbers with the
/// bump, and the pre-release it carries.
pub proof fn built_version_parses_back(latest: Option<Seq<char>>, d: DecisionView)
    requires
        build_version_fits(latest, d),
        build_version_spec(latest, d) is Ok,
    ensures
        parse_version_spec(build_version_spec(latest, d)->Ok_0) == Some(built_view(latest, d)),
{
    let b = baseline_spec(latest);
    lemma_baseline_fits(latest);
    if d.increment == Some("minor"@) {
        match d.prerelease {
            Some(_) => {
                reveal_strlit("-rc.1");
                reveal_strlit("rc.1");
                assert("-rc.1"@ =~= seq!['-'] + "rc.1"@);
                lemma_cli_parse(b.0, b.1 + 1, 0, Some("rc.1"@));
            },
            None => {
                lemma_cli_parse(b.0, b.1 + 1, 0, None);
                assert(cli_version_text(b.0, b.1 + 1, 0) + Seq::<char>::empty() =~= cli_version_text(
                    b.0,
                    b.1 + 1,
                    0,
                ));
            },
        }
    } else {
        match b.3 {
            Some(pre) => {
                let p = series_spec(pre).0 + seq!['.'] + decimal(series_spec(pre).1 + 1);
                lemma_cli_parse(b.0, b.1, b.2 + 1, Some(p));
                assert(cli_version_text(b.0, b.1, b.2 + 1) + seq!['-'] + series_spec(pre).0 + seq![
                    '.',
                ] + decimal(series_spec(pre).1 + 1) =~= cli_version_text(b.0, b.1, b.2 + 1) + (seq![
                    '-',
                ] + p));
            },
            None => {
                lemma_cli_parse(b.0, b.1, b.2 + 1, None);
                assert(cli_version_text(b.0, b.1, b.2 + 1) + Seq::<char>::empty() =~= cli_version_text(
                    b.0,
                    b.1,
                    b.2 + 1,
                ));
            },
        }
    }
}

// ───────────────────────────── scopes and tags ─────────────────────────────

/// The scopes of the contract, or the single scope `root` in `.` when it
/// names none.
pub fn detect_scopes(scopes: Vec<(String, String)>) -> (r: Vec<(String, String)>)
    ensures
        scopes.len() > 0 ==> r@ == scopes@,
        scopes.len() == 0 ==> r.len() == 1 && r@[0].0@ == "root"@ && r@[0].1@ == "."@,
{
    if scopes.len() > 0 {
        return scopes;
    }
    let mut r: Vec<(String, String)> = Vec::new();
    r.push((String::from_str("root"), String::from_str(".")));
    r
}

/// A tag of the scope (it starts with `scope/`) or an unscoped tag.
pub open spec fn tag_in_scope(t: Seq<char>, scope: Seq<char>) -> bool {
    starts_with(t, scope.push('/')) || !has_char(t, '/')
}

/// `t` put into `s` behind every tag that does not sort below it.
pub open spec fn insert_lex_desc(s: Seq<Seq<char>>, t: Seq<char>) -> Seq<Seq<char>>
    decreases s.len(),
{
    if s.len() == 0 {
        seq![t]
    } else if lex_lt(s.last(), t) {
        insert_lex_desc(s.drop_last(), t).push(s.last())
    } else {
        s.push(t)
    }
}

/// The scope's tags, in descending string order.
pub open spec fn scope_tags(ts: Seq<Seq<char>>, scope: Seq<char>) -> Seq<Seq<char>>
    decreases ts.len(),
{
    if ts.len() == 0 {
        Seq::empty()
    } else {
        let g = scope_tags(ts.drop_last(), scope);
        if tag_in_scope(ts.last(), scope) {
            insert_lex_desc(g, ts.last())
        } else {
            g
        }
    }
}

pub open spec fn lex_sorted_desc(s: Seq<Seq<char>>) -> bool {
    forall|i: int, j: int| 0 <= i < j < s.len() ==> !lex_lt(#[trigger] s[i], #[trigger] s[j])
}

proof fn lemma_insert_lex_desc(s: Seq<Seq<char>>, t: Seq<char>)
    requires
        lex_sorted_desc(s),
    ensures
        insert_lex_desc(s, t).to_multiset() =~= s.to_multiset().insert(t),
        forall|x: Seq<char>| #[trigger] insert_lex_desc(s, t).contains(x) <==> (s.contains(x) || x == t),
        lex_sorted_desc(insert_lex_desc(s, t)),
    decreases s.len(),
{
    broadcast use vstd::seq_lib::group_to_multiset_ensures;
    broadcast use vstd::multiset::group_multiset_axioms;

    let r = insert_lex_desc(s, t);
    if s.len() == 0 {
        assert(r =~= Seq::<Seq<char>>::empty().push(t));
        assert(s.to_multiset() =~= Multiset::<Seq<char>>::empty());
    } else if lex_lt(s.last(), t) {
        let d = s.drop_last();
        let l = s.last();
        assert forall|i: int, j: int| 0 <= i < j < d.len() implies !lex_lt(#[trigger] d[i], #[trigger] d[j]) by {
            assert(d[i] == s[i] && d[j] == s[j]);
        }
        lemma_insert_lex_desc(d, t);
        assert(s =~= d.push(l));
        let inner = insert_lex_desc(d, t);
        assert(inner.push(l).to_multiset() =~= inner.to_multiset().insert(l));
        assert(s.to_multiset() =~= d.to_multiset().insert(l));
        assert forall|i: int, j: int| 0 <= i < j < r.len() implies !lex_lt(#[trigger] r[i], #[trigger] r[j]) by {
            if j < inner.len() {
                assert(r[i] == inner[i] && r[j] == inner[j]);
            } else {
                assert(r[j] == l);
                assert(r[i] == inner[i]);
                assert(inner.contains(inner[i]));
                if d.contains(inner[i]) {
                    let m = choose|m: int| 0 <= m < d.len() && d[m] == inner[i];
                    assert(s[m] == inner[i]);
                    assert(!lex_lt(s[m], s[s.len() - 1]));
                } else {
                    assert(inner[i] == t);
                    lemma_lex_lt_total(l, t);
                }
            }
        }
    } else {
        assert forall|i: int, j: int| 0 <= i < j < r.len() implies !lex_lt(#[trigger] r[i], #[trigger] r[j]) by {
            assert(r[i] == s[i]);
            if j < s.len() {
                assert(r[j] == s[j]);
            } else {
                assert(r[j] == t);
                if i < s.len() - 1 {
                    assert(!lex_lt(s[i], s[s.len() - 1]));
                    lemma_lex_lt_total(s[i], s[s.len() - 1]);
                    lemma_lex_lt_total(s[s.len() - 1], t);
                    if lex_lt(s[i], t) {
                        if s[i] == s[s.len() - 1] {
                        } else {
                            lemma_lex_lt_transitive(s[s.len() - 1], s[i], t);
                        }
                    }
                }
            }
        }
    }
    assert forall|x: Seq<char>| #[trigger] r.contains(x) <==> (s.contains(x) || x == t) by {
        assert(r.to_multiset().count(x) == s.to_multiset().insert(t).count(x));
    }
}

/// A scope's tags come out in descending string order, and they are exactly
/// the tags of the scope and the unscoped tags, each as often as it occurs.
pub proof fn scope_tags_sorted_permutation(ts: Seq<Seq<char>>, scope: Seq<char>)
    ensures
        lex_sorted_desc(scope_tags(ts, scope)),
        scope_tags(ts, scope).to_multiset() == ts.filter(|t: Seq<char>| tag_in_scope(t, scope)).to_multiset(),
    decreases ts.len(),
{
    broadcast use vstd::seq_lib::group_to_multiset_ensures;

    let p = |t: Seq<char>| tag_in_scope(t, scope);
    if ts.len() == 0 {
        reveal(Seq::filter);
        assert(ts.filter(p) =~= Seq::<Seq<char>>::empty());
    } else {
        let d = ts.drop_last();
        scope_tags_sorted_permutation(d, scope);
        assert(ts =~= d.push(ts.last()));
        d.lemma_filter_push(ts.last(), p);
        if tag_in_scope(ts.last(), scope) {
            lemma_insert_lex_desc(scope_tags(d, scope), ts.last());
        }
    }
}

fn insert_tag_desc(r: &mut Vec<String>, t: String)
    ensures
        final(r).deep_view() == insert_lex_desc(old(r).deep_view(), t@),
{
    let ghost s = r.deep_view();
    let tc = chars_of(t.as_str());
    let mut p: usize = r.len();
    while p > 0 && lex_lt_chars(&chars_of(r[p - 1].as_str()), &tc)
        invariant
            p <= r.len(),
            r@ == old(r)@,
            s == r.deep_view(),
            tc@ == t@,
            forall|q: int| p <= q < s.len() ==> lex_lt(#[trigger] s[q], t@),
        decreases p,
    {
        assert(s[p - 1] == r@[p - 1]@);
        p -= 1;
    }
    proof {
        if p > 0 {
            assert(s[p - 1] == r@[p - 1]@);
        }
        lemma_insert_lex_desc_at(s, t@, p as int);
    }
    let ghost tv = t@;
    r.insert(p, t);
    assert(r.deep_view() =~= s.insert(p as int, tv));
}

proof fn lemma_insert_lex_desc_at(s: Seq<Seq<char>>, t: Seq<char>, p: int)
    requires
        0 <= p <= s.len(),
        forall|q: int| p <= q < s.len() ==> lex_lt(#[trigger] s[q], t),
        p == 0 || !lex_lt(s[p - 1], t),
    ensures
        insert_lex_desc(s, t) =~= s.insert(p, t),
    decreases s.len(),
{
    if s.len() == 0 {
    } else if p == s.len() {
        assert(!lex_lt(s.last(), t));
    } else {
        assert(lex_lt(s[s.len() - 1], t));
        let d = s.drop_last();
        assert forall|q: int| p <= q < d.len() implies lex_lt(#[trigger] d[q], t) by {
            assert(d[q] == s[q]);
        }
        if p > 0 {
            assert(d[p - 1] == s[p - 1]);
        }
        lemma_insert_lex_desc_at(d, t, p);
        assert(d.insert(p, t).push(s.last()) =~= s.insert(p, t));
    }
}

/// The tags of a scope and the unscoped tags, in descending string order.
pub fn collect_tags_with_scope(tags: &[String], scope_name: &str) -> (r: Vec<String>)
    ensures
        r.deep_view() == scope_tags(tags.deep_view(), scope_name@),
{
    let ghost ts = tags.deep_view();
    let mut prefix = chars_of(scope_name);
    prefix.push('/');
    let mut r: Vec<String> = Vec::new();
    let mut i: usize = 0;
    assert(ts.take(0) =~= Seq::<Seq<char>>::empty());
    while i < tags.len()
        invariant
            i <= tags.len(),
            ts == tags.deep_view(),
            prefix@ == scope_name@.push('/'),
            r.deep_view() == scope_tags(ts.take(i as int), scope_name@),
        decreases tags.len() - i,
    {
        proof {
            assert(ts.take(i + 1).drop_last() =~= ts.take(i as int));
            assert(ts.take(i + 1).last() == ts[i as int]);
        }
        let t = chars_of(tags[i].as_str());
        assert(t@ == ts[i as int]);
        if starts_with_chars(&t, &prefix) || !has_char_exec(&t, '/') {
            insert_tag_desc(&mut r, tags[i].clone());
        }
        i += 1;
    }
    assert(ts.take(i as int) =~= ts);
    r
}

// ───────────────────────────── commits ─────────────────────────────

/// The messages of `git log --oneline` lines: the text after the first
/// space of each line that has one.
pub open spec fn log_messages(ls: Seq<Seq<char>>) -> Seq<Seq<char>>
    decreases ls.len(),
{
    if ls.len() == 0 {
        Seq::empty()
    } else {
        let rest = log_messages(ls.drop_last());
        match split_once(ls.last(), ' ') {
            Some((_, msg)) => rest.push(msg),
            None => rest,
        }
    }
}

/// The commits since a scope's latest tag: a first release is announced as
/// one `feat:`; a failed `git log` as an unknown `feat:`; otherwise the
/// messages of its output.
pub open spec fn commits_spec(has_tag: bool, log_success: bool, stdout: Seq<char>) -> Seq<
    Seq<char>,
> {
    if !has_tag {
        seq!["feat: 初始版本"@]
    } else if !log_success {
        seq!["feat: 未知变更"@]
    } else {
        log_messages(lines(stdout))
    }
}

/// The commits since `latest_tag`, from the status and output of
/// `git log <tag>..HEAD --oneline` (not consulted without a tag).
pub fn get_commits_since_tag(latest_tag: &Option<String>, log_success: bool, log_stdout: &str) -> (r:
    Vec<String>)
    ensures
        r.deep_view() == commits_spec(latest_tag is Some, log_success, log_stdout@),
{
    let mut r: Vec<String> = Vec::new();
    if latest_tag.is_none() {
        r.push(String::from_str("feat: 初始版本"));
        assert(r.deep_view() =~= seq!["feat: 初始版本"@]);
        return r;
    }
    if !log_success {
        r.push(String::from_str("feat: 未知变更"));
        assert(r.deep_view() =~= seq!["feat: 未知变更"@]);
        return r;
    }
    let text = chars_of(log_stdout);
    let ls = lines_chars(&text);
    let ghost all = ls.deep_view();
    let mut i: usize = 0;
    while i < ls.len()
        invariant
            i <= ls.len(),
            all == ls.deep_view(),
            all == lines(log_stdout@),
            r.deep_view() == log_messages(all.take(i as int)),
        decreases ls.len() - i,
    {
        proof {
            assert(all.take(i + 1).drop_last() =~= all.take(i as int));
            assert(ls@[i as int].deep_view() =~= ls@[i as int]@);
            assert(all.take(i + 1).last() == ls@[i as int]@);
        }
        match split_once_chars(&ls[i], ' ') {
            Some((_, msg)) => {
                r.push(string_of(&msg));
                assert(r.deep_view() =~= log_messages(all.take(i as int)).push(msg@));
            },
            None => {},
        }
        i += 1;
    }
    assert(all.take(i as int) =~= all);
    r
}

// ───────────────────────────── one scope ─────────────────────────────

pub open spec fn first_of(s: Seq<Seq<char>>) -> Option<Seq<char>> {
    if s.len() > 0 {
        Some(s[0])
    } else {
        None
    }
}

/// One scope: its latest tag is the first of its tags; no commits means no
/// release; otherwise the rule decides and the next version is built.
pub open spec fn scope_version_spec(
    tags: Seq<Seq<char>>,
    scope: Seq<char>,
    commits: Seq<Seq<char>>,
) -> Result<Option<Seq<char>>, Seq<char>> {
    let latest = first_of(scope_tags(tags, scope));
    if commits.len() == 0 {
        Ok(None)
    } else {
        match build_version_spec(latest, fallback_spec(commits)) {
            Ok(v) => Ok(Some(v)),
            Err(e) => Err(e),
        }
    }
}

/// Infers the next version of a scope from all tag names and the commits
/// since its latest tag.
pub fn detect_version_for_scope(tags: &[String], scope_name: &str, commits: &[String]) -> (r:
    Result<Option<String>, String>)
    requires
        commits.len() > 0 ==> build_version_fits(
            first_of(scope_tags(tags.deep_view(), scope_name@)),
            fallback_spec(commits.deep_view()),
        ),
    ensures
        match r {
            Ok(v) => scope_version_spec(tags.deep_view(), scope_name@, commits.deep_view()) == Ok::<
                Option<Seq<char>>,
                Seq<char>,
            >(opt_view(v)),
            Err(e) => scope_version_spec(tags.deep_view(), scope_name@, commits.deep_view())
                == Err::<Option<Seq<char>>, Seq<char>>(e@),
        },
{
    let ts = collect_tags_with_scope(tags, scope_name);
    let latest: Option<String> = if ts.len() > 0 {
        Some(ts[0].clone())
    } else {
        None
    };
    assert(opt_view(latest) == first_of(ts.deep_view()));
    if commits.len() == 0 {
        return Ok(None);
    }
    let decision = match fallback_heuristic(commits, &latest) {
        Ok(d) => d,
        Err(e) => {
            return Err(e);
        },
    };
    match build_version(&latest, &decision, commits) {
        Ok(v) => Ok(Some(v)),
        Err(e) => Err(e),
    }
}

} // verus!
