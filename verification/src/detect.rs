//! Version inference for release scopes: tag names, version strings,
//! the heuristic used when no language model is configured, the next
//! version of a scope, and the ordering of a scope's tags.
use vstd::prelude::*;
use vstd::multiset::Multiset;
use crate::contract::opt_view;
use crate::text::{
    append_chars, chars_of, contains, contains_chars, copy, decimal, find_char_from, has_char,
    has_char_exec, lemma_find_from, lowercase, parse_uint, parse_uint_chars, push_char,
    push_decimal, slice_of, split, split_chars, split_once, split_once_chars, starts_with,
    starts_with_chars, str_is, string_of, to_lowercase, trim_start_matches,
    trim_start_matches_chars, lex_lt, lex_lt_chars, lemma_lex_lt_total, lemma_lex_lt_transitive, lemma_lex_lt_irreflexive,
    lemma_concat_lacks, lemma_decimal_digits, lemma_digits_lack, lemma_parse_uint_decimal,
    lemma_split_once_parts, lemma_split_three, lemma_split_two, is_digit,
};

verus! {

// ───────────────────────────── tags and versions ─────────────────────────────

/// `tag` split at its first `/`: the scope before it and the version after it;
/// a tag without `/` has no scope.
pub open spec fn parse_tag_spec(tag: Seq<char>) -> (Option<Seq<char>>, Seq<char>) {
    match split_once(tag, '/') {
        Some((scope, ver)) => (Some(scope), ver),
        None => (None, tag),
    }
}

/// Splits a tag into its scope and its version text.
pub fn parse_tag(tag: &str) -> (r: (Option<String>, &str))
    ensures
        (opt_view(r.0), r.1@) == parse_tag_spec(tag@),
{
    let cs = chars_of(tag);
    match find_char_from(&cs, '/', 0) {
        Some(i) => {
            proof {
                lemma_find_from(cs@, '/', 0);
            }
            assert(i < cs.len());
            let scope = slice_of(&cs, 0, i);
            let ver = tag.substring_char(i + 1, cs.len());
            assert(scope@ =~= tag@.take(i as int));
            assert(ver@ =~= tag@.skip(i + 1));
            (Some(string_of(&scope)), ver)
        },
        None => (None, tag),
    }
}

/// One leading `v` removed.
pub open spec fn strip_v(s: Seq<char>) -> Seq<char> {
    if s.len() > 0 && s[0] == 'v' {
        s.drop_first()
    } else {
        s
    }
}

/// The numeric part and the pre-release part of a version (split at the
/// first `-`; the pre-release part is empty when there is none).
pub open spec fn core_and_pre(s: Seq<char>) -> (Seq<char>, Seq<char>) {
    match split_once(s, '-') {
        Some(p) => p,
        None => (s, Seq::empty()),
    }
}

pub open spec fn u32_max() -> nat {
    0xffff_ffff
}

/// The view of a parsed version: major, minor, patch, pre-release stage and
/// pre-release number.
pub type VersionParts = (nat, nat, nat, Option<Seq<char>>, Option<nat>);

/// What `parse_version` gives for `s`: `X.Y.Z` (after one optional `v`) as
/// three `u32`s, then, after a `-`, a stage and an optional number, separated
/// by `.`.
pub open spec fn parse_version_spec(s: Seq<char>) -> Result<VersionParts, Seq<char>> {
    let t = strip_v(s);
    let ver = core_and_pre(t).0;
    let pre = core_and_pre(t).1;
    let parts = split(ver, '.');
    if parts.len() != 3 {
        Err("版本号格式错误: "@ + t + "，需要 X.Y.Z"@)
    } else if parse_uint(parts[0], u32_max()) is None {
        Err("major 不是数字"@)
    } else if parse_uint(parts[1], u32_max()) is None {
        Err("minor 不是数字"@)
    } else if parse_uint(parts[2], u32_max()) is None {
        Err("patch 不是数字"@)
    } else {
        let sp = split(pre, '.');
        Ok(
            (
                parse_uint(parts[0], u32_max()).unwrap(),
                parse_uint(parts[1], u32_max()).unwrap(),
                parse_uint(parts[2], u32_max()).unwrap(),
                if pre.len() == 0 {
                    None
                } else {
                    Some(sp[0])
                },
                if pre.len() == 0 || sp.len() < 2 {
                    None
                } else {
                    parse_uint(sp[1], u32_max())
                },
            ),
        )
    }
}

pub open spec fn opt_u32(o: Option<u32>) -> Option<nat> {
    match o {
        Some(n) => Some(n as nat),
        None => None,
    }
}

pub open spec fn parts_view(p: (u32, u32, u32, Option<String>, Option<u32>)) -> VersionParts {
    (p.0 as nat, p.1 as nat, p.2 as nat, opt_view(p.3), opt_u32(p.4))
}

fn parse_u32(s: &[char]) -> (r: Option<u32>)
    ensures
        opt_u32(r) == parse_uint(s@, u32_max()),
{
    match parse_uint_chars(s, 0xffff_ffff) {
        Some(v) => Some(v as u32),
        None => None,
    }
}

/// Parses `X.Y.Z[-stage[.n]]`, with or without a leading `v`.
pub fn parse_version(s: &str) -> (r: Result<(u32, u32, u32, Option<String>, Option<u32>), String>)
    ensures
        match r {
            Ok(p) => parse_version_spec(s@) == Ok::<VersionParts, Seq<char>>(parts_view(p)),
            Err(e) => parse_version_spec(s@) == Err::<VersionParts, Seq<char>>(e@),
        },
{
    let all = chars_of(s);
    let t = if all.len() > 0 && all[0] == 'v' {
        slice_of(&all, 1, all.len())
    } else {
        all
    };
    assert(t@ =~= strip_v(s@));
    let (ver, pre) = match split_once_chars(&t, '-') {
        Some((a, b)) => (a, b),
        None => (copy(&t), Vec::new()),
    };
    assert(ver@ == core_and_pre(t@).0 && pre@ =~= core_and_pre(t@).1);
    let parts = split_chars(&ver, '.');
    if parts.len() != 3 {
        let mut e = String::from_str("版本号格式错误: ");
        append_chars(&mut e, &t);
        e.append("，需要 X.Y.Z");
        return Err(e);
    }
    proof {
        assert(parts@[0].deep_view() =~= parts@[0]@);
        assert(parts@[1].deep_view() =~= parts@[1]@);
        assert(parts@[2].deep_view() =~= parts@[2]@);
    }
    let major = match parse_u32(&parts[0]) {
        Some(v) => v,
        None => {
            return Err(String::from_str("major 不是数字"));
        },
    };
    let minor = match parse_u32(&parts[1]) {
        Some(v) => v,
        None => {
            return Err(String::from_str("minor 不是数字"));
        },
    };
    let patch = match parse_u32(&parts[2]) {
        Some(v) => v,
        None => {
            return Err(String::from_str("patch 不是数字"));
        },
    };
    if pre.len() == 0 {
        return Ok((major, minor, patch, None, None));
    }
    let sp = split_chars(&pre, '.');
    proof {
        assert(sp@[0].deep_view() =~= sp@[0]@);
    }
    let stage = string_of(&sp[0]);
    let num = if sp.len() >= 2 {
        proof {
            assert(sp@[1].deep_view() =~= sp@[1]@);
        }
        parse_u32(&sp[1])
    } else {
        None
    };
    Ok((major, minor, patch, Some(stage), num))
}

// ───────────────────────────── next version ─────────────────────────────

/// `vX.Y.Z`.
pub open spec fn version_text(major: nat, minor: nat, patch: nat) -> Seq<char> {
    seq!['v'] + decimal(major) + seq!['.'] + decimal(minor) + seq!['.'] + decimal(patch)
}

pub open spec fn unwrap_or_zero(o: Option<nat>) -> nat {
    match o {
        Some(n) => n,
        None => 0,
    }
}

/// The next version: inside a pre-release series the series number goes up
/// by one; otherwise a `minor` increment starts `X.(Y+1).0` (as the first of
/// a pre-release series when one is asked for) and anything else bumps the
/// patch.
pub open spec fn build_version_spec(
    major: nat,
    minor: nat,
    patch: nat,
    pre_stage: Option<Seq<char>>,
    pre_num: Option<nat>,
    increment: Seq<char>,
    prerelease: Option<Seq<char>>,
) -> Seq<char> {
    match pre_stage {
        Some(stage) => version_text(major, minor, patch) + seq!['-'] + stage + seq!['.'] + decimal(
            unwrap_or_zero(pre_num) + 1,
        ),
        None => if increment == "minor"@ {
            match prerelease {
                Some(pr) => version_text(major, minor + 1, 0) + seq!['-'] + pr + ".1"@,
                None => version_text(major, minor + 1, 0),
            }
        } else {
            version_text(major, minor, patch + 1)
        },
    }
}

/// The number that `build_version_spec` raises fits in a `u32`.
pub open spec fn build_version_fits(
    minor: nat,
    patch: nat,
    pre_stage: Option<Seq<char>>,
    pre_num: Option<nat>,
    increment: Seq<char>,
) -> bool {
    match pre_stage {
        Some(_) => unwrap_or_zero(pre_num) < u32_max(),
        None => if increment == "minor"@ {
            minor < u32_max()
        } else {
            patch < u32_max()
        },
    }
}

pub open spec fn opt_str_view(o: Option<&str>) -> Option<Seq<char>> {
    match o {
        Some(s) => Some(s@),
        None => None,
    }
}

fn push_version_text(s: &mut String, major: u32, minor: u32, patch: u32)
    ensures
        final(s)@ == old(s)@ + version_text(major as nat, minor as nat, patch as nat),
{
    push_char(s, 'v');
    push_decimal(s, major as u64);
    push_char(s, '.');
    push_decimal(s, minor as u64);
    push_char(s, '.');
    push_decimal(s, patch as u64);
    assert(final(s)@ =~= old(s)@ + version_text(major as nat, minor as nat, patch as nat));
}

/// Builds the next version string (without a scope prefix).
pub fn build_version(
    major: u32,
    minor: u32,
    patch: u32,
    pre_stage: Option<&str>,
    pre_num: Option<u32>,
    increment: &str,
    prerelease: Option<&str>,
) -> (r: String)
    requires
        build_version_fits(
            minor as nat,
            patch as nat,
            opt_str_view(pre_stage),
            opt_u32(pre_num),
            increment@,
        ),
    ensures
        r@ == build_version_spec(
            major as nat,
            minor as nat,
            patch as nat,
            opt_str_view(pre_stage),
            opt_u32(pre_num),
            increment@,
            opt_str_view(prerelease),
        ),
{
    let mut s = String::new();
    if let Some(stage) = pre_stage {
        let n: u32 = match pre_num {
            Some(n) => n,
            None => 0,
        };
        push_version_text(&mut s, major, minor, patch);
        push_char(&mut s, '-');
        s.append(stage);
        push_char(&mut s, '.');
        push_decimal(&mut s, (n + 1) as u64);
        assert(s@ =~= build_version_spec(
            major as nat,
            minor as nat,
            patch as nat,
            opt_str_view(pre_stage),
            opt_u32(pre_num),
            increment@,
            opt_str_view(prerelease),
        ));
        return s;
    }
    if str_is(increment, "minor") {
        push_version_text(&mut s, major, minor + 1, 0);
        if let Some(pr) = prerelease {
            push_char(&mut s, '-');
            s.append(pr);
            s.append(".1");
        }
    } else {
        push_version_text(&mut s, major, minor, patch + 1);
    }
    assert(s@ =~= build_version_spec(
        major as nat,
        minor as nat,
        patch as nat,
        opt_str_view(pre_stage),
        opt_u32(pre_num),
        increment@,
        opt_str_view(prerelease),
    ));
    s
}

/// The numbers and pre-release that `build_version_spec` gives the next
/// version.
pub open spec fn built_parts(
    major: nat,
    minor: nat,
    patch: nat,
    pre_stage: Option<Seq<char>>,
    pre_num: Option<nat>,
    increment: Seq<char>,
    prerelease: Option<Seq<char>>,
) -> VersionParts {
    match pre_stage {
        Some(stage) => (major, minor, patch, Some(stage), Some(unwrap_or_zero(pre_num) + 1)),
        None => if increment == "minor"@ {
            match prerelease {
                Some(pr) => (major, minor + 1, 0, Some(pr), Some(1)),
                None => (major, minor + 1, 0, None, None),
            }
        } else {
            (major, minor, patch + 1, None, None)
        },
    }
}

/// `X.Y.Z` without the `v`.
pub open spec fn core_text(a: nat, b: nat, c: nat) -> Seq<char> {
    decimal(a) + seq!['.'] + decimal(b) + seq!['.'] + decimal(c)
}

proof fn lemma_core_text(a: nat, b: nat, c: nat)
    requires
        a <= u32_max(),
        b <= u32_max(),
        c <= u32_max(),
    ensures
        !core_text(a, b, c).contains('-'),
        split(core_text(a, b, c), '.') == seq![decimal(a), decimal(b), decimal(c)],
        parse_uint(decimal(a), u32_max()) == Some(a),
        parse_uint(decimal(b), u32_max()) == Some(b),
        parse_uint(decimal(c), u32_max()) == Some(c),
        version_text(a, b, c) == seq!['v'] + core_text(a, b, c),
{
    lemma_decimal_digits(a);
    lemma_decimal_digits(b);
    lemma_decimal_digits(c);
    lemma_parse_uint_decimal(a, u32_max());
    lemma_parse_uint_decimal(b, u32_max());
    lemma_parse_uint_decimal(c, u32_max());
    lemma_digits_lack(decimal(a), '-');
    lemma_digits_lack(decimal(b), '-');
    lemma_digits_lack(decimal(c), '-');
    lemma_digits_lack(decimal(a), '.');
    lemma_digits_lack(decimal(b), '.');
    lemma_digits_lack(decimal(c), '.');
    let dot = seq!['.'];
    assert(!dot.contains('-')) by {
        if dot.contains('-') {
            let i = choose|i: int| 0 <= i < dot.len() && dot[i] == '-';
            assert(dot[i] == '.');
        }
    }
    lemma_concat_lacks(decimal(a), dot, '-');
    lemma_concat_lacks(decimal(a) + dot, decimal(b), '-');
    lemma_concat_lacks(decimal(a) + dot + decimal(b), dot, '-');
    lemma_concat_lacks(decimal(a) + dot + decimal(b) + dot, decimal(c), '-');
    lemma_split_three(decimal(a), decimal(b), decimal(c), '.');
    assert(version_text(a, b, c) =~= seq!['v'] + core_text(a, b, c));
}

/// The pre-release part `stage.n` reads back as its stage and number.
proof fn lemma_pre_text(stage: Seq<char>, n: nat)
    requires
        !stage.contains('.'),
        n <= u32_max(),
    ensures
        split(stage + seq!['.'] + decimal(n), '.') == seq![stage, decimal(n)],
        parse_uint(decimal(n), u32_max()) == Some(n),
        (stage + seq!['.'] + decimal(n)).len() > 0,
{
    lemma_decimal_digits(n);
    lemma_parse_uint_decimal(n, u32_max());
    lemma_digits_lack(decimal(n), '.');
    lemma_split_two(stage, decimal(n), '.');
}

/// What the parser makes of `vX.Y.Z-stage.n`.
proof fn lemma_parse_pre(a: nat, b: nat, c: nat, stage: Seq<char>, n: nat)
    requires
        a <= u32_max(),
        b <= u32_max(),
        c <= u32_max(),
        n <= u32_max(),
        !stage.contains('.'),
    ensures
        parse_version_spec(version_text(a, b, c) + seq!['-'] + stage + seq!['.'] + decimal(n))
            == Ok::<VersionParts, Seq<char>>((a, b, c, Some(stage), Some(n))),
{
    lemma_core_text(a, b, c);
    lemma_pre_text(stage, n);
    let core = core_text(a, b, c);
    let pre = stage + seq!['.'] + decimal(n);
    let s = version_text(a, b, c) + seq!['-'] + stage + seq!['.'] + decimal(n);
    assert(strip_v(s) =~= core + seq!['-'] + pre);
    lemma_split_once_parts(core, pre, '-');
}

/// What the parser makes of `vX.Y.Z`.
proof fn lemma_parse_plain(a: nat, b: nat, c: nat)
    requires
        a <= u32_max(),
        b <= u32_max(),
        c <= u32_max(),
    ensures
        parse_version_spec(version_text(a, b, c)) == Ok::<VersionParts, Seq<char>>(
            (a, b, c, None, None),
        ),
{
    lemma_core_text(a, b, c);
    let core = core_text(a, b, c);
    assert(strip_v(version_text(a, b, c)) =~= core);
    lemma_split_once_parts(core, Seq::empty(), '-');
}

/// `X.Y.Z`, with a leading `v` or not, followed by `-stage.n` when a
/// pre-release is given.
pub open spec fn written_version(
    a: nat,
    b: nat,
    c: nat,
    pre: Option<(Seq<char>, nat)>,
    with_v: bool,
) -> Seq<char> {
    (if with_v {
        seq!['v']
    } else {
        Seq::empty()
    }) + core_text(a, b, c) + match pre {
        Some((st, n)) => seq!['-'] + st + seq!['.'] + decimal(n),
        None => Seq::empty(),
    }
}

/// Every version written `X.Y.Z` (with or without a leading `v`), plain or
/// followed by `-stage.n` with a stage that holds no `.`, parses back to the
/// numbers, stage and pre-release number it was written from.
pub proof fn version_text_parses_back(
    a: nat,
    b: nat,
    c: nat,
    pre: Option<(Seq<char>, nat)>,
    with_v: bool,
)
    requires
        a <= u32_max(),
        b <= u32_max(),
        c <= u32_max(),
        pre matches Some((st, n)) ==> !st.contains('.') && n <= u32_max(),
    ensures
        parse_version_spec(written_version(a, b, c, pre, with_v)) == Ok::<
            VersionParts,
            Seq<char>,
        >(
            (
                a,
                b,
                c,
                match pre {
                    Some((st, _)) => Some(st),
                    None => None,
                },
                match pre {
                    Some((_, n)) => Some(n),
                    None => None,
                },
            ),
        ),
{
    lemma_core_text(a, b, c);
    lemma_decimal_digits(a);
    let core = core_text(a, b, c);
    let tail = match pre {
        Some((st, n)) => seq!['-'] + st + seq!['.'] + decimal(n),
        None => Seq::<char>::empty(),
    };
    let s = written_version(a, b, c, pre, with_v);
    if with_v {
        assert(strip_v(s) =~= core + tail);
    } else {
        assert(s =~= core + tail);
        assert(s[0] == decimal(a)[0]);
        assert(is_digit(decimal(a)[0]));
        assert(strip_v(s) == core + tail);
    }
    match pre {
        Some((st, n)) => {
            lemma_pre_text(st, n);
            let p = st + seq!['.'] + decimal(n);
            assert(core + tail =~= core + seq!['-'] + p);
            lemma_split_once_parts(core, p, '-');
        },
        None => {
            assert(core + tail =~= core);
            lemma_split_once_parts(core, Seq::empty(), '-');
        },
    }
}

/// A version that detection builds reads back, through the parser, as the
/// version it names: the bumped numbers, and the pre-release stage with its
/// number when it carries one (a stage holds no `.`).
pub proof fn built_version_parses_back(
    major: nat,
    minor: nat,
    patch: nat,
    pre_stage: Option<Seq<char>>,
    pre_num: Option<nat>,
    increment: Seq<char>,
    prerelease: Option<Seq<char>>,
)
    requires
        major <= u32_max(),
        minor <= u32_max(),
        patch <= u32_max(),
        build_version_fits(minor, patch, pre_stage, pre_num, increment),
        pre_stage matches Some(st) ==> !st.contains('.'),
        prerelease matches Some(pr) ==> !pr.contains('.'),
    ensures
        parse_version_spec(
            build_version_spec(major, minor, patch, pre_stage, pre_num, increment, prerelease),
        ) == Ok::<VersionParts, Seq<char>>(
            built_parts(major, minor, patch, pre_stage, pre_num, increment, prerelease),
        ),
{
    match pre_stage {
        Some(stage) => {
            lemma_parse_pre(major, minor, patch, stage, unwrap_or_zero(pre_num) + 1);
        },
        None => {
            if increment == "minor"@ {
                match prerelease {
                    Some(pr) => {
                        reveal_strlit(".1");
                        assert(decimal(1) == seq!['1']);
                        assert(".1"@ =~= seq!['.'] + decimal(1));
                        lemma_parse_pre(major, minor + 1, 0, pr, 1);
                        assert(version_text(major, minor + 1, 0) + seq!['-'] + pr + ".1"@
                            =~= version_text(major, minor + 1, 0) + seq!['-'] + pr + seq!['.']
                            + decimal(1));
                    },
                    None => {
                        lemma_parse_plain(major, minor + 1, 0);
                    },
                }
            } else {
                lemma_parse_plain(major, minor, patch + 1);
            }
        },
    }
}

/// A version with its scope in front (`scope/version`), except for the
/// root scope, written `(root)` or empty.
pub open spec fn prefix_version_spec(scope: Seq<char>, version: Seq<char>) -> Seq<char> {
    if scope.len() == 0 || scope == "(root)"@ {
        version
    } else {
        scope + seq!['/'] + version
    }
}

pub fn prefix_version(scope: &str, version: &str) -> (r: String)
    ensures
        r@ == prefix_version_spec(scope@, version@),
{
    if scope.unicode_len() == 0 || str_is(scope, "(root)") {
        String::from_str(version)
    } else {
        let mut s = String::from_str(scope);
        push_char(&mut s, '/');
        s.append(version);
        s
    }
}

// ───────────────────────────── decisions ─────────────────────────────

/// A decision on the next release of a scope: `action` is `release`, `skip`
/// or `human`; `increment` is `minor` or `patch`; `prerelease` names a stage.
#[derive(Debug)]
pub struct LlmDecision {
    pub action: String,
    pub increment: Option<String>,
    pub prerelease: Option<String>,
    pub reason: String,
}

pub struct DecisionView {
    pub action: Seq<char>,
    pub increment: Option<Seq<char>>,
    pub prerelease: Option<Seq<char>>,
    pub reason: Seq<char>,
}

impl View for LlmDecision {
    type V = DecisionView;

    open spec fn view(&self) -> DecisionView {
        DecisionView {
            action: self.action@,
            increment: opt_view(self.increment),
            prerelease: opt_view(self.prerelease),
            reason: self.reason@,
        }
    }
}

/// A commit message that announces a breaking change.
pub open spec fn is_breaking(m: Seq<char>) -> bool {
    contains(lowercase(m), "breaking"@) || (has_char(m, '!') && starts_with(lowercase(m), "feat"@))
}

/// A commit message that adds a feature.
pub open spec fn is_feature(m: Seq<char>) -> bool {
    starts_with(lowercase(m), "feat"@) || contains(m, "Added"@)
}

/// A commit message that changes content or logic without adding a feature.
pub open spec fn is_other_change(m: Seq<char>) -> bool {
    starts_with(lowercase(m), "fix"@) || starts_with(lowercase(m), "docs"@) || starts_with(
        lowercase(m),
        "refactor"@,
    ) || starts_with(lowercase(m), "test"@) || contains(m, "Fixed"@) || contains(m, "Changed"@)
}

/// Some message announces a breaking change.
pub open spec fn any_breaking(ms: Seq<Seq<char>>) -> bool {
    exists|i: int| 0 <= i < ms.len() && is_breaking(ms[i])
}

/// Some message that is not breaking adds a feature.
pub open spec fn any_feature(ms: Seq<Seq<char>>) -> bool {
    exists|i: int| 0 <= i < ms.len() && !is_breaking(ms[i]) && is_feature(ms[i])
}

/// Some message changes logic or content.
pub open spec fn any_change(ms: Seq<Seq<char>>) -> bool {
    exists|i: int|
        0 <= i < ms.len() && (is_breaking(ms[i]) || is_feature(ms[i]) || is_other_change(ms[i]))
}

pub open spec fn decision(
    action: Seq<char>,
    increment: Option<Seq<char>>,
    reason: Seq<char>,
) -> DecisionView {
    DecisionView { action, increment, prerelease: None, reason }
}

/// The rule used without a language model: nothing but chores is skipped, a
/// breaking change goes to a human, a feature is a `minor` release, anything
/// else a `patch` release; never a pre-release.
pub open spec fn fallback_spec(ms: Seq<Seq<char>>) -> DecisionView {
    if !any_change(ms) {
        decision("skip"@, None, "仅有 chore/typo/CI 改动，无需发版"@)
    } else if any_breaking(ms) {
        decision("human"@, None, "包含 breaking change，请人类指定 major 版本号"@)
    } else if any_feature(ms) {
        decision("release"@, Some("minor"@), "包含 feat，minor 增量直发正式"@)
    } else {
        decision("release"@, Some("patch"@), "包含 docs/fix/refactor，patch 增量直发正式"@)
    }
}

/// Without a language model, maintenance work is released as a patch: when
/// no message mentions a breaking change (`breaking` in any case, or `feat`
/// with `!`) or a feature (`feat` in any case at the start, or `Added`), and
/// some message starts, in any case, with `fix`, `docs`, `refactor` or
/// `test`, the decision is to release with a `patch` increment.
pub proof fn maintenance_commits_release_a_patch(ms: Seq<Seq<char>>, k: int)
    requires
        0 <= k < ms.len(),
        starts_with(lowercase(ms[k]), "fix"@) || starts_with(lowercase(ms[k]), "docs"@)
            || starts_with(lowercase(ms[k]), "refactor"@) || starts_with(lowercase(ms[k]), "test"@),
        forall|i: int|
            0 <= i < ms.len() ==> !contains(lowercase(#[trigger] ms[i]), "breaking"@) && !(has_char(
                ms[i],
                '!',
            ) && starts_with(lowercase(ms[i]), "feat"@)),
        forall|i: int|
            0 <= i < ms.len() ==> !starts_with(lowercase(#[trigger] ms[i]), "feat"@) && !contains(
                ms[i],
                "Added"@,
            ),
    ensures
        fallback_spec(ms).action == "release"@,
        fallback_spec(ms).increment == Some("patch"@),
{
    assert(is_other_change(ms[k]));
    assert(any_change(ms));
    assert(!any_breaking(ms)) by {
        if any_breaking(ms) {
            let i = choose|i: int| 0 <= i < ms.len() && is_breaking(ms[i]);
            assert(!contains(lowercase(ms[i]), "breaking"@));
        }
    }
    assert(!any_feature(ms)) by {
        if any_feature(ms) {
            let i = choose|i: int| 0 <= i < ms.len() && !is_breaking(ms[i]) && is_feature(ms[i]);
            assert(!starts_with(lowercase(ms[i]), "feat"@));
        }
    }
}

/// Without a language model, a release is skipped only when no message
/// changes anything: none mentions a breaking change or a feature, none
/// starts, in any case, with `fix`, `docs`, `refactor` or `test`, and none
/// contains `Fixed` or `Changed`.
pub proof fn skip_only_without_changes(ms: Seq<Seq<char>>)
    requires
        fallback_spec(ms).action == "skip"@,
    ensures
        forall|i: int|
            0 <= i < ms.len() ==> {
                let l = lowercase(#[trigger] ms[i]);
                &&& !contains(l, "breaking"@)
                &&& !starts_with(l, "feat"@)
                &&& !contains(ms[i], "Added"@)
                &&& !starts_with(l, "fix"@)
                &&& !starts_with(l, "docs"@)
                &&& !starts_with(l, "refactor"@)
                &&& !starts_with(l, "test"@)
                &&& !contains(ms[i], "Fixed"@)
                &&& !contains(ms[i], "Changed"@)
            },
{
    assert(!any_change(ms)) by {
        reveal_strlit("skip");
        reveal_strlit("human");
        reveal_strlit("release");
        if any_change(ms) {
            assert(fallback_spec(ms).action == "human"@ || fallback_spec(ms).action == "release"@);
            assert("human"@ != "skip"@) by {
                assert("human"@[0] != "skip"@[0]);
            }
            assert("release"@ != "skip"@) by {
                assert("release"@[0] != "skip"@[0]);
            }
        }
    }
    assert forall|i: int| 0 <= i < ms.len() implies !is_breaking(#[trigger] ms[i]) && !is_feature(
        ms[i],
    ) && !is_other_change(ms[i]) by {
        if is_breaking(ms[i]) || is_feature(ms[i]) || is_other_change(ms[i]) {
            assert(any_change(ms));
        }
    }
}

fn make_decision(action: &str, increment: Option<&str>, reason: &str) -> (r: LlmDecision)
    ensures
        r@ == decision(action@, opt_str_view(increment), reason@),
{
    LlmDecision {
        action: String::from_str(action),
        increment: match increment {
            Some(i) => Some(String::from_str(i)),
            None => None,
        },
        prerelease: None,
        reason: String::from_str(reason),
    }
}

/// The heuristic decision for a list of commit messages.
pub fn fallback_heuristic(commits: &[String]) -> (r: LlmDecision)
    ensures
        r@ == fallback_spec(commits.deep_view()),
{
    let ghost ms = commits.deep_view();
    let mut has_feat = false;
    let mut has_breaking = false;
    let mut has_logic_change = false;
    let mut i: usize = 0;
    let k_breaking = chars_of("breaking");
    let k_feat = chars_of("feat");
    let k_added = chars_of("Added");
    let k_fix = chars_of("fix");
    let k_docs = chars_of("docs");
    let k_refactor = chars_of("refactor");
    let k_test = chars_of("test");
    let k_fixed = chars_of("Fixed");
    let k_changed = chars_of("Changed");
    while i < commits.len()
        invariant
            i <= commits.len(),
            ms == commits.deep_view(),
            k_breaking@ == "breaking"@,
            k_feat@ == "feat"@,
            k_added@ == "Added"@,
            k_fix@ == "fix"@,
            k_docs@ == "docs"@,
            k_refactor@ == "refactor"@,
            k_test@ == "test"@,
            k_fixed@ == "Fixed"@,
            k_changed@ == "Changed"@,
            has_breaking == any_breaking(ms.take(i as int)),
            has_feat == any_feature(ms.take(i as int)),
            has_logic_change == any_change(ms.take(i as int)),
        decreases commits.len() - i,
    {
        let msg = chars_of(commits[i].as_str());
        let lower = chars_of(to_lowercase(commits[i].as_str()).as_str());
        let ghost m = ms[i as int];
        assert(msg@ == m);
        let b = contains_chars(&lower, &k_breaking) || (has_char_exec(&msg, '!')
            && starts_with_chars(&lower, &k_feat));
        let f = starts_with_chars(&lower, &k_feat) || contains_chars(&msg, &k_added);
        let o = starts_with_chars(&lower, &k_fix) || starts_with_chars(&lower, &k_docs)
            || starts_with_chars(&lower, &k_refactor) || starts_with_chars(&lower, &k_test)
            || contains_chars(&msg, &k_fixed) || contains_chars(&msg, &k_changed);
        assert(b == is_breaking(m));
        assert(f == is_feature(m));
        assert(o == is_other_change(m));
        let ghost prev = ms.take(i as int);
        let ghost next = ms.take(i + 1);
        assert(next =~= prev.push(m));
        if b {
            has_breaking = true;
            has_logic_change = true;
        } else if f {
            has_feat = true;
            has_logic_change = true;
        } else if o {
            has_logic_change = true;
        }
        proof {
            assert(next[i as int] == m);
            if any_breaking(next) && !b {
                let j = choose|j: int| 0 <= j < next.len() && is_breaking(next[j]);
                assert(prev[j] == next[j]);
            }
            if any_feature(next) && !(!b && f) {
                let j = choose|j: int| 0 <= j < next.len() && !is_breaking(next[j]) && is_feature(next[j]);
                assert(prev[j] == next[j]);
            }
            if any_change(next) && !(b || f || o) {
                let j = choose|j: int|
                    0 <= j < next.len() && (is_breaking(next[j]) || is_feature(next[j])
                        || is_other_change(next[j]));
                assert(prev[j] == next[j]);
            }
            if any_breaking(prev) {
                let j = choose|j: int| 0 <= j < prev.len() && is_breaking(prev[j]);
                assert(next[j] == prev[j]);
            }
            if any_feature(prev) {
                let j = choose|j: int| 0 <= j < prev.len() && !is_breaking(prev[j]) && is_feature(prev[j]);
                assert(next[j] == prev[j]);
            }
            if any_change(prev) {
                let j = choose|j: int|
                    0 <= j < prev.len() && (is_breaking(prev[j]) || is_feature(prev[j])
                        || is_other_change(prev[j]));
                assert(next[j] == prev[j]);
            }
        }
        i += 1;
    }
    assert(ms.take(i as int) =~= ms);
    if !has_logic_change {
        make_decision("skip", None, "仅有 chore/typo/CI 改动，无需发版")
    } else if has_breaking {
        make_decision("human", None, "包含 breaking change，请人类指定 major 版本号")
    } else if has_feat {
        make_decision("release", Some("minor"), "包含 feat，minor 增量直发正式")
    } else {
        make_decision("release", Some("patch"), "包含 docs/fix/refactor，patch 增量直发正式")
    }
}

// ───────────────────────────── one scope ─────────────────────────────

/// The version a scope starts from: that of its latest tag, or `0.1.0` for a
/// scope without tags.
pub open spec fn baseline_spec(latest: Option<Seq<char>>) -> Result<VersionParts, Seq<char>> {
    match latest {
        Some(t) => parse_version_spec(parse_tag_spec(t).1),
        None => Ok((0, 1, 0, None, None)),
    }
}

/// The outcome of a decision for a scope whose baseline is `p`; `first` says
/// that the scope has no tag yet.  A first release is always `v0.1.0` (or the
/// first of its pre-release series), even when the decision was to skip.
pub open spec fn decide_spec(first: bool, p: VersionParts, d: DecisionView) -> Result<
    Option<Seq<char>>,
    Seq<char>,
> {
    if d.action == "skip"@ && !first {
        Ok(None)
    } else if d.action == "human"@ {
        Err("需要人类判断: "@ + d.reason)
    } else if first {
        Ok(
            Some(
                match d.prerelease {
                    Some(pr) => "v0.1.0-"@ + pr + ".1"@,
                    None => "v0.1.0"@,
                },
            ),
        )
    } else {
        Ok(
            Some(
                build_version_spec(
                    p.0,
                    p.1,
                    p.2,
                    p.3,
                    p.4,
                    match d.increment {
                        Some(i) => i,
                        None => "patch"@,
                    },
                    d.prerelease,
                ),
            ),
        )
    }
}

/// The whole inference for one scope: the latest tag must parse, HEAD must
/// have moved past it, there must be commits, and then the decision applies.
pub open spec fn scope_version_spec(
    latest: Option<Seq<char>>,
    head_is_tag: bool,
    n_commits: nat,
    d: DecisionView,
) -> Result<Option<Seq<char>>, Seq<char>> {
    match baseline_spec(latest) {
        Err(e) => Err(e),
        Ok(p) => if latest is Some && head_is_tag {
            Err("上次标签后没有新提交"@)
        } else if n_commits == 0 {
            Err("没有提交记录"@)
        } else {
            decide_spec(latest is None, p, d)
        },
    }
}

/// The version number that the decision raises fits in a `u32`, where a
/// version is built from the latest tag: HEAD has moved past it, there are
/// commits, and the decision is to release.
pub open spec fn scope_version_fits(
    latest: Option<Seq<char>>,
    head_is_tag: bool,
    n_commits: nat,
    d: DecisionView,
) -> bool {
    match baseline_spec(latest) {
        Ok(p) => (latest is Some && !head_is_tag && n_commits > 0 && d.action != "skip"@
            && d.action != "human"@) ==> build_version_fits(
            p.1,
            p.2,
            p.3,
            p.4,
            match d.increment {
                Some(i) => i,
                None => "patch"@,
            },
        ),
        Err(_) => true,
    }
}

/// The parsed version of a scope's latest tag (`0.1.0` without one).
pub fn scope_baseline(latest_tag: Option<&str>) -> (r: Result<
    (u32, u32, u32, Option<String>, Option<u32>),
    String,
>)
    ensures
        match r {
            Ok(p) => baseline_spec(opt_str_view(latest_tag)) == Ok::<VersionParts, Seq<char>>(
                parts_view(p),
            ),
            Err(e) => baseline_spec(opt_str_view(latest_tag)) == Err::<VersionParts, Seq<char>>(
                e@,
            ),
        },
{
    match latest_tag {
        Some(tag) => {
            let (_, ver) = parse_tag(tag);
            parse_version(ver)
        },
        None => Ok((0, 1, 0, None, None)),
    }
}

/// Infers the next version of one scope.  `latest_tag` is its latest tag,
/// `head_is_tag` says that HEAD is the commit of that tag, `commits` are the
/// commit summaries since it, and `decision` is what was decided for them.
pub fn detect_version_for_scope(
    latest_tag: Option<&str>,
    head_is_tag: bool,
    commits: &[String],
    decision: &LlmDecision,
) -> (r: Result<Option<String>, String>)
    requires
        scope_version_fits(opt_str_view(latest_tag), head_is_tag, commits.len() as nat, decision@),
    ensures
        match r {
            Ok(v) => scope_version_spec(
                opt_str_view(latest_tag),
                head_is_tag,
                commits.len() as nat,
                decision@,
            ) == Ok::<Option<Seq<char>>, Seq<char>>(opt_view(v)),
            Err(e) => scope_version_spec(
                opt_str_view(latest_tag),
                head_is_tag,
                commits.len() as nat,
                decision@,
            ) == Err::<Option<Seq<char>>, Seq<char>>(e@),
        },
{
    let (major, minor, patch, pre_stage, pre_num) = match scope_baseline(latest_tag) {
        Ok(p) => p,
        Err(e) => {
            return Err(e);
        },
    };
    let first = latest_tag.is_none();
    if !first && head_is_tag {
        return Err(String::from_str("上次标签后没有新提交"));
    }
    if commits.len() == 0 {
        return Err(String::from_str("没有提交记录"));
    }
    let action = decision.action.as_str();
    if str_is(action, "skip") && !first {
        return Ok(None);
    }
    if str_is(action, "human") {
        let mut e = String::from_str("需要人类判断: ");
        e.append(decision.reason.as_str());
        return Err(e);
    }
    if first {
        let v = match &decision.prerelease {
            Some(pr) => {
                let mut v = String::from_str("v0.1.0-");
                v.append(pr.as_str());
                v.append(".1");
                v
            },
            None => String::from_str("v0.1.0"),
        };
        return Ok(Some(v));
    }
    let increment: &str = match &decision.increment {
        Some(i) => i.as_str(),
        None => "patch",
    };
    let stage: Option<&str> = match &pre_stage {
        Some(st) => Some(st.as_str()),
        None => None,
    };
    let prerelease: Option<&str> = match &decision.prerelease {
        Some(p) => Some(p.as_str()),
        None => None,
    };
    let v = build_version(major, minor, patch, stage, pre_num, increment, prerelease);
    Ok(Some(v))
}

// ───────────────────────────── tag order ─────────────────────────────

/// The order key of a version tag: major, minor, patch, the rank of its
/// pre-release stage, and its pre-release number.
pub type TagKey = (nat, nat, nat, nat, nat);

/// Rank of a version's pre-release stage: a release (no pre-release part)
/// ranks above all of its pre-releases, `-rc` above `-beta` above
/// `-alpha`, and any other pre-release lowest: release 4, `-rc` 3, `-beta`
/// 2, `-alpha` 1, other 0.
pub open spec fn stage_rank(v: Seq<char>, is_release: bool) -> nat {
    if is_release {
        4
    } else if contains(v, "-alpha"@) {
        1
    } else if contains(v, "-beta"@) {
        2
    } else if contains(v, "-rc"@) {
        3
    } else {
        0
    }
}

/// The order key of a tag, `None` when its version does not parse.
pub open spec fn tag_key_of(t: Seq<char>) -> Option<TagKey> {
    let ver = parse_tag_spec(t).1;
    match parse_version_spec(ver) {
        Ok(p) => Some((p.0, p.1, p.2, stage_rank(ver, p.3 is None), unwrap_or_zero(p.4))),
        Err(_) => None,
    }
}

/// Lexicographic order on keys.
pub open spec fn key_lt(a: TagKey, b: TagKey) -> bool {
    a.0 < b.0 || (a.0 == b.0 && (a.1 < b.1 || (a.1 == b.1 && (a.2 < b.2 || (a.2 == b.2 && (a.3
        < b.3 || (a.3 == b.3 && a.4 < b.4)))))))
}

/// Tag `a` comes before tag `b` in version order.
pub open spec fn tag_lt(a: Seq<char>, b: Seq<char>) -> bool {
    key_lt(tag_key_of(a).unwrap(), tag_key_of(b).unwrap())
}

/// The scope a tag belongs to: its prefix, or `(root)`.
pub open spec fn scope_name(t: Seq<char>) -> Seq<char> {
    match parse_tag_spec(t).0 {
        Some(s) => s,
        None => "(root)"@,
    }
}

/// A tag of scope `k` whose version parses.
pub open spec fn in_scope(t: Seq<char>, k: Seq<char>) -> bool {
    tag_key_of(t) is Some && scope_name(t) == k
}

/// The parts of a tag's version (zeros when it does not parse).
pub open spec fn tag_parts(t: Seq<char>) -> VersionParts {
    match parse_version_spec(parse_tag_spec(t).1) {
        Ok(p) => p,
        Err(_) => (0, 0, 0, None, None),
    }
}

/// A scope's tags, as `collect_tags_with_scope` groups them, run from the
/// newest version down: every tag's version parses; of two tags the earlier
/// one's major, minor and patch numbers are, in that order, not below the
/// later one's; and of two tags with the same numbers a release never comes
/// after a pre-release.  So the first tag, the scope's latest, has the
/// largest major number of its tags.
pub proof fn scope_tags_newest_first(ts: Seq<Seq<char>>, k: Seq<char>)
    ensures
        forall|i: int|
            0 <= i < scope_tags(ts, k).len() ==> parse_version_spec(
                parse_tag_spec(#[trigger] scope_tags(ts, k)[i]).1,
            ) is Ok,
        forall|i: int, j: int|
            0 <= i < j < scope_tags(ts, k).len() ==> {
                let p = tag_parts(#[trigger] scope_tags(ts, k)[i]);
                let q = tag_parts(#[trigger] scope_tags(ts, k)[j]);
                &&& p.0 > q.0 || (p.0 == q.0 && (p.1 > q.1 || (p.1 == q.1 && p.2 >= q.2)))
                &&& (p.0 == q.0 && p.1 == q.1 && p.2 == q.2 && q.3 is None) ==> p.3 is None
            },
        forall|j: int|
            0 <= j < scope_tags(ts, k).len() ==> tag_parts(scope_tags(ts, k)[0]).0 >= tag_parts(
                #[trigger] scope_tags(ts, k)[j],
            ).0,
{
    scope_tags_sorted_permutation(ts, k);
    let g = scope_tags(ts, k);
    assert forall|i: int| 0 <= i < g.len() implies parse_version_spec(
        parse_tag_spec(#[trigger] g[i]).1,
    ) is Ok by {
        assert(tag_key_of(g[i]) is Some);
    }
    assert forall|i: int, j: int| 0 <= i < j < g.len() implies {
        let p = tag_parts(#[trigger] g[i]);
        let q = tag_parts(#[trigger] g[j]);
        &&& p.0 > q.0 || (p.0 == q.0 && (p.1 > q.1 || (p.1 == q.1 && p.2 >= q.2)))
        &&& (p.0 == q.0 && p.1 == q.1 && p.2 == q.2 && q.3 is None) ==> p.3 is None
    } by {
        assert(tag_key_of(g[i]) is Some);
        assert(tag_key_of(g[j]) is Some);
        assert(!tag_lt(g[i], g[j]));
    }
    assert forall|j: int| 0 <= j < g.len() implies tag_parts(g[0]).0 >= tag_parts(
        #[trigger] g[j],
    ).0 by {
        if j > 0 {
            assert(tag_key_of(g[0]) is Some);
            assert(tag_key_of(g[j]) is Some);
            assert(!tag_lt(g[0], g[j]));
        }
    }
}

/// `t` put into `s` behind every tag that is not below it (a stable
/// insertion into a list sorted from the highest version down).
pub open spec fn insert_desc(s: Seq<Seq<char>>, t: Seq<char>) -> Seq<Seq<char>>
    decreases s.len(),
{
    if s.len() == 0 {
        seq![t]
    } else if tag_lt(s.last(), t) {
        insert_desc(s.drop_last(), t).push(s.last())
    } else {
        s.push(t)
    }
}

/// The tags of scope `k` among `ts`, from the highest version down; tags with
/// equal keys keep the order of `ts`.
pub open spec fn scope_tags(ts: Seq<Seq<char>>, k: Seq<char>) -> Seq<Seq<char>>
    decreases ts.len(),
{
    if ts.len() == 0 {
        Seq::empty()
    } else {
        let g = scope_tags(ts.drop_last(), k);
        if in_scope(ts.last(), k) {
            insert_desc(g, ts.last())
        } else {
            g
        }
    }
}

/// Sorted from the highest version down.
pub open spec fn sorted_desc(s: Seq<Seq<char>>) -> bool {
    forall|i: int, j: int| 0 <= i < j < s.len() ==> !tag_lt(#[trigger] s[i], #[trigger] s[j])
}

pub open spec fn all_keyed(s: Seq<Seq<char>>) -> bool {
    forall|i: int| 0 <= i < s.len() ==> (#[trigger] tag_key_of(s[i])) is Some
}

proof fn lemma_insert_desc_elems(s: Seq<Seq<char>>, t: Seq<char>)
    ensures
        insert_desc(s, t).len() == s.len() + 1,
        insert_desc(s, t).to_multiset() =~= s.to_multiset().insert(t),
        forall|x: Seq<char>| #[trigger] insert_desc(s, t).contains(x) <==> (s.contains(x) || x == t),
    decreases s.len(),
{
    broadcast use vstd::seq_lib::group_to_multiset_ensures;
    broadcast use vstd::multiset::group_multiset_axioms;

    if s.len() == 0 {
        assert(insert_desc(s, t) =~= Seq::<Seq<char>>::empty().push(t));
        assert(s.to_multiset() =~= Multiset::<Seq<char>>::empty());
    } else if tag_lt(s.last(), t) {
        let d = s.drop_last();
        lemma_insert_desc_elems(d, t);
        assert(s =~= d.push(s.last()));
        let r = insert_desc(d, t);
        assert(r.push(s.last()).to_multiset() =~= r.to_multiset().insert(s.last()));
        assert(s.to_multiset() =~= d.to_multiset().insert(s.last()));
    }
    assert forall|x: Seq<char>| #[trigger] insert_desc(s, t).contains(x) <==> (s.contains(x) || x == t) by {
        assert(insert_desc(s, t).to_multiset().count(x) == s.to_multiset().insert(t).count(x));
    }
}

proof fn lemma_key_order(a: TagKey, b: TagKey, c: TagKey)
    ensures
        !key_lt(a, a),
        key_lt(a, b) ==> !key_lt(b, a),
        !key_lt(a, b) && !key_lt(b, c) ==> !key_lt(a, c),
{
}

proof fn lemma_insert_desc_sorted(s: Seq<Seq<char>>, t: Seq<char>)
    requires
        sorted_desc(s),
        all_keyed(s),
        tag_key_of(t) is Some,
    ensures
        sorted_desc(insert_desc(s, t)),
        all_keyed(insert_desc(s, t)),
    decreases s.len(),
{
    lemma_insert_desc_elems(s, t);
    let r = insert_desc(s, t);
    if s.len() == 0 {
        assert(r =~= seq![t]);
    } else if tag_lt(s.last(), t) {
        let d = s.drop_last();
        let l = s.last();
        lemma_insert_desc_sorted(d, t);
        lemma_insert_desc_elems(d, t);
        let inner = insert_desc(d, t);
        assert(r == inner.push(l));
        assert forall|i: int| 0 <= i < r.len() implies (#[trigger] tag_key_of(r[i])) is Some by {
            if i < inner.len() {
                assert(r[i] == inner[i]);
            } else {
                assert(r[i] == s[s.len() - 1]);
            }
        }
        assert forall|i: int, j: int| 0 <= i < j < r.len() implies !tag_lt(
            #[trigger] r[i],
            #[trigger] r[j],
        ) by {
            if j < inner.len() {
                assert(r[i] == inner[i] && r[j] == inner[j]);
            } else {
                assert(r[j] == l);
                assert(r[i] == inner[i]);
                assert(inner.contains(inner[i]));
                if d.contains(inner[i]) {
                    let m = choose|m: int| 0 <= m < d.len() && d[m] == inner[i];
                    assert(s[m] == inner[i]);
                    assert(s[s.len() - 1] == l);
                } else {
                    assert(inner[i] == t);
                    lemma_key_order(tag_key_of(l).unwrap(), tag_key_of(t).unwrap(), tag_key_of(t).unwrap());
                }
            }
        }
    } else {
        let l = s.last();
        assert(r == s.push(t));
        assert forall|i: int| 0 <= i < r.len() implies (#[trigger] tag_key_of(r[i])) is Some by {
            if i < s.len() {
                assert(r[i] == s[i]);
            }
        }
        assert forall|i: int, j: int| 0 <= i < j < r.len() implies !tag_lt(
            #[trigger] r[i],
            #[trigger] r[j],
        ) by {
            assert(r[i] == s[i]);
            if j < s.len() {
                assert(r[j] == s[j]);
            } else {
                assert(r[j] == t);
                if i < s.len() - 1 {
                    assert(!tag_lt(s[i], s[s.len() - 1]));
                }
                lemma_key_order(
                    tag_key_of(s[i]).unwrap(),
                    tag_key_of(l).unwrap(),
                    tag_key_of(t).unwrap(),
                );
            }
        }
    }
}

/// The tags of a scope come out sorted from the highest version down, and
/// they are exactly the scope's tags whose version parses, each as often as
/// it occurs.
pub proof fn scope_tags_sorted_permutation(ts: Seq<Seq<char>>, k: Seq<char>)
    ensures
        sorted_desc(scope_tags(ts, k)),
        all_keyed(scope_tags(ts, k)),
        scope_tags(ts, k).to_multiset() == ts.filter(|t: Seq<char>| in_scope(t, k)).to_multiset(),
    decreases ts.len(),
{
    broadcast use vstd::seq_lib::group_to_multiset_ensures;

    let p = |t: Seq<char>| in_scope(t, k);
    if ts.len() == 0 {
        reveal(Seq::filter);
        assert(ts.filter(p) =~= Seq::<Seq<char>>::empty());
        assert(scope_tags(ts, k) =~= Seq::<Seq<char>>::empty());
    } else {
        let d = ts.drop_last();
        scope_tags_sorted_permutation(d, k);
        assert(ts =~= d.push(ts.last()));
        d.lemma_filter_push(ts.last(), p);
        let g = scope_tags(d, k);
        if in_scope(ts.last(), k) {
            lemma_insert_desc_sorted(g, ts.last());
            lemma_insert_desc_elems(g, ts.last());
        }
    }
}

// ───────────────────────────── grouping tags ─────────────────────────────

pub open spec fn key_view(k: (u32, u32, u32, u32, u32)) -> TagKey {
    (k.0 as nat, k.1 as nat, k.2 as nat, k.3 as nat, k.4 as nat)
}

pub open spec fn opt_key(o: Option<(u32, u32, u32, u32, u32)>) -> Option<TagKey> {
    match o {
        Some(k) => Some(key_view(k)),
        None => None,
    }
}

/// The order key of a tag.
fn tag_key(tag: &str) -> (r: Option<(u32, u32, u32, u32, u32)>)
    ensures
        opt_key(r) == tag_key_of(tag@),
{
    let (_, ver) = parse_tag(tag);
    match parse_version(ver) {
        Ok((a, b, c, stage, n)) => {
            let vc = chars_of(ver);
            let rank: u32 = if stage.is_none() {
                4
            } else if contains_chars(&vc, &chars_of("-alpha")) {
                1
            } else if contains_chars(&vc, &chars_of("-beta")) {
                2
            } else if contains_chars(&vc, &chars_of("-rc")) {
                3
            } else {
                0
            };
            let num: u32 = match n {
                Some(x) => x,
                None => 0,
            };
            Some((a, b, c, rank, num))
        },
        Err(_) => None,
    }
}

fn key_less(a: (u32, u32, u32, u32, u32), b: (u32, u32, u32, u32, u32)) -> (r: bool)
    ensures
        r == key_lt(key_view(a), key_view(b)),
{
    a.0 < b.0 || (a.0 == b.0 && (a.1 < b.1 || (a.1 == b.1 && (a.2 < b.2 || (a.2 == b.2 && (a.3
        < b.3 || (a.3 == b.3 && a.4 < b.4)))))))
}

pub open spec fn entry_tags(v: Seq<((u32, u32, u32, u32, u32), String)>) -> Seq<Seq<char>> {
    Seq::new(v.len(), |i: int| v[i].1@)
}

pub open spec fn entries_keyed(v: Seq<((u32, u32, u32, u32, u32), String)>) -> bool {
    forall|i: int|
        0 <= i < v.len() ==> tag_key_of(#[trigger] v[i].1@) == Some(key_view(v[i].0))
}

#[verifier::spinoff_prover]
#[verifier::rlimit(30)]
proof fn lemma_insert_desc_at(s: Seq<Seq<char>>, t: Seq<char>, p: int)
    requires
        0 <= p <= s.len(),
        forall|q: int| p <= q < s.len() ==> tag_lt(#[trigger] s[q], t),
        p == 0 || !tag_lt(s[p - 1], t),
    ensures
        insert_desc(s, t) =~= s.insert(p, t),
    decreases s.len(),
{
    if s.len() == 0 {
    } else if p == s.len() {
        assert(!tag_lt(s.last(), t));
    } else {
        assert(tag_lt(s[s.len() - 1], t));
        let d = s.drop_last();
        assert forall|q: int| p <= q < d.len() implies tag_lt(#[trigger] d[q], t) by {
            assert(d[q] == s[q]);
        }
        if p > 0 {
            assert(d[p - 1] == s[p - 1]);
        }
        lemma_insert_desc_at(d, t, p);
        assert(d.insert(p, t).push(s.last()) =~= s.insert(p, t));
    }
}

/// Puts `tag` with key `k` into `entries`, keeping them in version order.
fn insert_by_key(
    entries: &mut Vec<((u32, u32, u32, u32, u32), String)>,
    k: (u32, u32, u32, u32, u32),
    tag: String,
)
    requires
        entries_keyed(old(entries)@),
        tag_key_of(tag@) == Some(key_view(k)),
    ensures
        entries_keyed(final(entries)@),
        entry_tags(final(entries)@) == insert_desc(entry_tags(old(entries)@), tag@),
{
    let ghost s = entry_tags(entries@);
    let mut p: usize = entries.len();
    while p > 0 && key_less(entries[p - 1].0, k)
        invariant
            p <= entries.len(),
            entries@ == old(entries)@,
            s == entry_tags(entries@),
            entries_keyed(entries@),
            tag_key_of(tag@) == Some(key_view(k)),
            forall|q: int| p <= q < s.len() ==> tag_lt(#[trigger] s[q], tag@),
        decreases p,
    {
        proof {
            assert(s[p - 1] == entries@[p - 1].1@);
            assert(tag_key_of(entries@[p - 1].1@) == Some(key_view(entries@[p - 1].0)));
        }
        p -= 1;
    }
    proof {
        if p > 0 {
            assert(s[p - 1] == entries@[p - 1].1@);
            assert(tag_key_of(entries@[p - 1].1@) == Some(key_view(entries@[p - 1].0)));
        }
        lemma_insert_desc_at(s, tag@, p as int);
    }
    let ghost tv = tag@;
    entries.insert(p, (k, tag));
    proof {
        assert(entries@[p as int].0 == k);
        assert(entries@[p as int].1@ == tv);
        assert(entry_tags(entries@) =~= s.insert(p as int, tag@));
        assert forall|i: int| 0 <= i < entries@.len() implies tag_key_of(#[trigger] entries@[i].1@)
            == Some(key_view(entries@[i].0)) by {
            if i < p {
                assert(entries@[i] == old(entries)@[i]);
                assert(tag_key_of(old(entries)@[i].1@) == Some(key_view(old(entries)@[i].0)));
            } else if i > p {
                assert(entries@[i] == old(entries)@[i - 1]);
                assert(tag_key_of(old(entries)@[i - 1].1@) == Some(key_view(old(entries)@[i - 1].0)));
            }
        }
    }
}

/// The scope names and keys of `ts`, one per tag.
pub open spec fn tag_facts(
    ts: Seq<Seq<char>>,
    names: Seq<String>,
    keys: Seq<Option<(u32, u32, u32, u32, u32)>>,
) -> bool {
    &&& names.len() == ts.len()
    &&& keys.len() == ts.len()
    &&& forall|m: int| 0 <= m < ts.len() ==> #[trigger] names[m]@ == scope_name(ts[m])
    &&& forall|m: int| 0 <= m < ts.len() ==> opt_key(#[trigger] keys[m]) == tag_key_of(ts[m])
}

/// The tags of scope `k`, from the highest version down.
fn group_for(
    tag_names: &[String],
    names: &Vec<String>,
    keys: &Vec<Option<(u32, u32, u32, u32, u32)>>,
    k: &str,
) -> (r: Vec<String>)
    requires
        tag_facts(tag_names.deep_view(), names@, keys@),
    ensures
        r.deep_view() == scope_tags(tag_names.deep_view(), k@),
{
    let ghost ts = tag_names.deep_view();
    let mut entries: Vec<((u32, u32, u32, u32, u32), String)> = Vec::new();
    let mut i: usize = 0;
    assert(entry_tags(entries@) =~= scope_tags(ts.take(0), k@));
    while i < tag_names.len()
        invariant
            i <= tag_names.len(),
            ts == tag_names.deep_view(),
            tag_facts(ts, names@, keys@),
            entries_keyed(entries@),
            entry_tags(entries@) == scope_tags(ts.take(i as int), k@),
        decreases tag_names.len() - i,
    {
        proof {
            assert(ts.take(i + 1).drop_last() =~= ts.take(i as int));
            assert(ts.take(i + 1).last() == ts[i as int]);
            assert(names@[i as int]@ == scope_name(ts[i as int]));
            assert(opt_key(keys@[i as int]) == tag_key_of(ts[i as int]));
            assert(tag_names@[i as int]@ == ts[i as int]);
        }
        match keys[i] {
            Some(kk) => {
                if str_is(names[i].as_str(), k) {
                    insert_by_key(&mut entries, kk, tag_names[i].clone());
                }
            },
            None => {},
        }
        i += 1;
    }
    assert(ts.take(i as int) =~= ts);
    let mut out: Vec<String> = Vec::new();
    let mut j: usize = 0;
    while j < entries.len()
        invariant
            j <= entries.len(),
            out.len() == j,
            out.deep_view() =~= entry_tags(entries@).take(j as int),
        decreases entries.len() - j,
    {
        let c = entries[j].1.clone();
        assert(c == entries@[j as int].1);
        out.push(c);
        proof {
            assert(out@[j as int]@ == entry_tags(entries@)[j as int]);
            assert(out.deep_view() =~= entry_tags(entries@).take(j + 1));
        }
        j += 1;
    }
    assert(entry_tags(entries@).take(j as int) =~= entry_tags(entries@));
    out
}

/// Some tag of `ts` belongs to scope `k`.
pub open spec fn has_scope_tag(ts: Seq<Seq<char>>, k: Seq<char>) -> bool {
    exists|m: int| 0 <= m < ts.len() && in_scope(ts[m], k)
}

pub open spec fn group_names(r: Seq<(String, Vec<String>)>) -> Seq<Seq<char>> {
    Seq::new(r.len(), |i: int| r[i].0@)
}

fn name_present(out: &Vec<(String, Vec<String>)>, name: &str) -> (b: bool)
    ensures
        b == group_names(out@).contains(name@),
{
    let mut j: usize = 0;
    while j < out.len()
        invariant
            j <= out.len(),
            forall|q: int| 0 <= q < j ==> out@[q].0@ != name@,
        decreases out.len() - j,
    {
        if str_is(out[j].0.as_str(), name) {
            assert(group_names(out@)[j as int] == name@);
            return true;
        }
        j += 1;
    }
    proof {
        if group_names(out@).contains(name@) {
            let q = choose|q: int| 0 <= q < group_names(out@).len() && group_names(out@)[q] == name@;
            assert(out@[q].0@ == name@);
        }
    }
    false
}

/// The tags grouped by scope (`(root)` for tags without one), each group from
/// the highest version down; tags whose version does not parse are left out.
/// Each scope has one group, in the order in which scopes first occur.
#[verifier::rlimit(40)]
pub fn collect_tags_with_scope(tag_names: &[String]) -> (r: Vec<(String, Vec<String>)>)
    ensures
        forall|i: int, j: int| 0 <= i < j < r.len() ==> r[i].0@ != r[j].0@,
        forall|i: int|
            0 <= i < r.len() ==> (#[trigger] r[i]).1.deep_view() == scope_tags(
                tag_names.deep_view(),
                r[i].0@,
            ),
        forall|i: int|
            0 <= i < r.len() ==> has_scope_tag(tag_names.deep_view(), (#[trigger] r[i]).0@),
        forall|m: int|
            0 <= m < tag_names.len() && #[trigger] tag_key_of(tag_names.deep_view()[m]) is Some
                ==> group_names(r@).contains(scope_name(tag_names.deep_view()[m])),
{
    let ghost ts = tag_names.deep_view();
    let mut names: Vec<String> = Vec::new();
    let mut keys: Vec<Option<(u32, u32, u32, u32, u32)>> = Vec::new();
    let mut i: usize = 0;
    while i < tag_names.len()
        invariant
            i <= tag_names.len(),
            ts == tag_names.deep_view(),
            tag_facts(ts.take(i as int), names@, keys@),
        decreases tag_names.len() - i,
    {
        let tag = tag_names[i].as_str();
        assert(tag@ == ts[i as int]);
        let (scope, _) = parse_tag(tag);
        let name = match scope {
            Some(s) => s,
            None => String::from_str("(root)"),
        };
        names.push(name);
        keys.push(tag_key(tag));
        proof {
            assert forall|m: int| 0 <= m < i + 1 implies #[trigger] names@[m]@ == scope_name(
                ts.take(i + 1)[m],
            ) by {
                if m < i {
                    assert(ts.take(i + 1)[m] == ts.take(i as int)[m]);
                }
            }
            assert forall|m: int| 0 <= m < i + 1 implies opt_key(#[trigger] keys@[m]) == tag_key_of(
                ts.take(i + 1)[m],
            ) by {
                if m < i {
                    assert(ts.take(i + 1)[m] == ts.take(i as int)[m]);
                }
            }
        }
        i += 1;
    }
    assert(ts.take(i as int) =~= ts);
    let mut out: Vec<(String, Vec<String>)> = Vec::new();
    let mut i: usize = 0;
    while i < tag_names.len()
        invariant
            i <= tag_names.len(),
            ts == tag_names.deep_view(),
            tag_facts(ts, names@, keys@),
            forall|a: int, b: int| 0 <= a < b < out.len() ==> out@[a].0@ != out@[b].0@,
            forall|a: int|
                0 <= a < out.len() ==> (#[trigger] out@[a]).1.deep_view() == scope_tags(
                    ts,
                    out@[a].0@,
                ),
            forall|a: int| 0 <= a < out.len() ==> has_scope_tag(ts, (#[trigger] out@[a]).0@),
            forall|m: int|
                0 <= m < i && #[trigger] tag_key_of(ts[m]) is Some ==> group_names(
                    out@,
                ).contains(scope_name(ts[m])),
        decreases tag_names.len() - i,
    {
        proof {
            assert(names@[i as int]@ == scope_name(ts[i as int]));
            assert(opt_key(keys@[i as int]) == tag_key_of(ts[i as int]));
        }
        if keys[i].is_some() && !name_present(&out, names[i].as_str()) {
            let g = group_for(tag_names, &names, &keys, names[i].as_str());
            let ghost before = out@;
            out.push((names[i].clone(), g));
            proof {
                assert(in_scope(ts[i as int], names@[i as int]@));
                assert forall|a: int, b: int| 0 <= a < b < out.len() implies out@[a].0@
                    != out@[b].0@ by {
                    if b == out.len() - 1 {
                        assert(group_names(before)[a] == before[a].0@);
                    }
                }
                assert forall|m: int|
                    0 <= m < i + 1 && #[trigger] tag_key_of(ts[m]) is Some implies group_names(
                    out@,
                ).contains(scope_name(ts[m])) by {
                    if m < i {
                        let q = choose|q: int|
                            0 <= q < group_names(before).len() && group_names(before)[q]
                                == scope_name(ts[m]);
                        assert(group_names(out@)[q] == scope_name(ts[m]));
                    } else {
                        assert(group_names(out@)[out.len() - 1] == scope_name(ts[m]));
                    }
                }
                assert forall|a: int|
                    0 <= a < out.len() implies has_scope_tag(ts, (#[trigger] out@[a]).0@) by {
                    if a == out.len() - 1 {
                        assert(in_scope(ts[i as int], out@[a].0@));
                    } else {
                        assert(out@[a] == before[a]);
                    }
                }
            }
        }
        i += 1;
    }
    out
}

// ───────────────────────────── scopes ─────────────────────────────

/// The latest tag of a scope (`None` means the root scope): the first tag of
/// the first group with that name.
pub open spec fn latest_tag_spec(groups: Seq<(String, Vec<String>)>, k: Seq<char>) -> Option<
    Seq<char>,
> {
    first_group_from(groups, k, 0)
}

pub open spec fn first_group_from(groups: Seq<(String, Vec<String>)>, k: Seq<char>, i: int) -> Option<
    Seq<char>,
>
    decreases groups.len() - i,
{
    if i < 0 || i >= groups.len() {
        None
    } else if groups[i].0@ == k {
        if groups[i].1.len() > 0 {
            Some(groups[i].1[0]@)
        } else {
            None
        }
    } else {
        first_group_from(groups, k, i + 1)
    }
}

/// The latest tag of a scope, `scope` being `None` for the root scope.
pub fn get_latest_tag_for_scope(groups: &[(String, Vec<String>)], scope: Option<&str>) -> (r:
    Option<String>)
    ensures
        opt_view(r) == latest_tag_spec(
            groups@,
            match scope {
                Some(s) => s@,
                None => "(root)"@,
            },
        ),
{
    let key: &str = match scope {
        Some(s) => s,
        None => "(root)",
    };
    let ghost k = match scope {
        Some(s) => s@,
        None => "(root)"@,
    };
    assert(key@ == k);
    let mut i: usize = 0;
    while i < groups.len()
        invariant
            i <= groups.len(),
            key@ == k,
            k == match scope {
                Some(s) => s@,
                None => "(root)"@,
            },
            latest_tag_spec(groups@, k) == first_group_from(groups@, k, i as int),
        decreases groups.len() - i,
    {
        if str_is(groups[i].0.as_str(), key) {
            assert(groups@[i as int].0@ == k);
            if groups[i].1.len() > 0 {
                let t = groups[i].1[0].clone();
                assert(t@ == groups@[i as int].1@[0]@);
                assert(first_group_from(groups@, k, i as int) == Some(t@));
                assert(opt_view(Some(t)) == Some(t@));
                return Some(t);
            } else {
                assert(first_group_from(groups@, k, i as int) is None);
                return None;
            }
        }
        i += 1;
    }
    None
}

/// The tag that changed paths are measured from: the latest tag of the first
/// scoped group that has one, else the latest root tag.
pub open spec fn base_tag_spec(groups: Seq<(String, Vec<String>)>) -> Option<Seq<char>> {
    match first_scoped_from(groups, 0) {
        Some(t) => Some(t),
        None => latest_tag_spec(groups, "(root)"@),
    }
}

pub open spec fn first_scoped_from(groups: Seq<(String, Vec<String>)>, i: int) -> Option<Seq<char>>
    decreases groups.len() - i,
{
    if i < 0 || i >= groups.len() {
        None
    } else if groups[i].0@ != "(root)"@ && groups[i].1.len() > 0 {
        Some(groups[i].1[0]@)
    } else {
        first_scoped_from(groups, i + 1)
    }
}

pub fn base_tag_for_diff(groups: &[(String, Vec<String>)]) -> (r: Option<String>)
    ensures
        opt_view(r) == base_tag_spec(groups@),
{
    let mut i: usize = 0;
    while i < groups.len()
        invariant
            i <= groups.len(),
            first_scoped_from(groups@, 0) == first_scoped_from(groups@, i as int),
        decreases groups.len() - i,
    {
        if !str_is(groups[i].0.as_str(), "(root)") && groups[i].1.len() > 0 {
            return Some(groups[i].1[0].clone());
        }
        i += 1;
    }
    get_latest_tag_for_scope(groups, None)
}

/// A changed path lies in a scope's directory: it starts with the directory
/// (leading `/` removed) or contains it.
pub open spec fn path_hits(path: Seq<char>, dir: Seq<char>) -> bool {
    starts_with(path, trim_start_matches(dir, "/"@)) || contains(path, dir)
}

pub open spec fn scope_is_hit(paths: Seq<Seq<char>>, dir: Seq<char>) -> bool {
    exists|k: int| 0 <= k < paths.len() && path_hits(paths[k], dir)
}

/// The names of the scopes in which some path changed.
pub open spec fn hit_names(paths: Seq<Seq<char>>, scopes: Seq<(String, String)>) -> Set<Seq<char>> {
    Set::new(
        |n: Seq<char>|
            exists|i: int| 0 <= i < scopes.len() && scopes[i].0@ == n && scope_is_hit(paths, scopes[i].1@),
    )
}

/// In ascending order, without repetition.
pub open spec fn strictly_sorted(s: Seq<Seq<char>>) -> bool {
    forall|i: int, j: int| 0 <= i < j < s.len() ==> lex_lt(#[trigger] s[i], #[trigger] s[j])
}

fn insert_sorted_unique(r: &mut Vec<String>, x: String)
    requires
        strictly_sorted(old(r).deep_view()),
    ensures
        strictly_sorted(final(r).deep_view()),
        forall|n: Seq<char>| #[trigger] final(r).deep_view().contains(n) <==> (old(r).deep_view().contains(n) || n == x@),
{
    let ghost s = r.deep_view();
    let xc = chars_of(x.as_str());
    let mut p: usize = 0;
    while p < r.len() && lex_lt_chars(&chars_of(r[p].as_str()), &xc)
        invariant
            p <= r.len(),
            r.deep_view() == s,
            r@ == old(r)@,
            xc@ == x@,
            strictly_sorted(s),
            forall|q: int| 0 <= q < p ==> lex_lt(#[trigger] s[q], x@),
        decreases r.len() - p,
    {
        assert(s[p as int] == r@[p as int]@);
        p += 1;
    }
    if p < r.len() && str_is(r[p].as_str(), x.as_str()) {
        proof {
            assert(s[p as int] == x@);
            assert forall|n: Seq<char>| #[trigger] s.contains(n) <==> (s.contains(n) || n == x@) by {
                if n == x@ {
                    assert(s[p as int] == n);
                }
            }
        }
        return;
    }
    proof {
        if p < s.len() {
            assert(s[p as int] == r@[p as int]@);
            assert(!lex_lt(s[p as int], x@));
            assert(s[p as int] != x@);
            lemma_lex_lt_total(s[p as int], x@);
        }
    }
    let ghost xv = x@;
    r.insert(p, x);
    proof {
        let t = r.deep_view();
        assert(t =~= s.insert(p as int, xv));
        assert forall|i: int, j: int| 0 <= i < j < t.len() implies lex_lt(#[trigger] t[i], #[trigger] t[j]) by {
            if j < p {
                assert(t[i] == s[i] && t[j] == s[j]);
            } else if j == p {
                assert(t[i] == s[i]);
            } else if i < p {
                assert(t[i] == s[i] && t[j] == s[j - 1]);
                if j - 1 > p {
                    assert(lex_lt(s[p as int], s[j - 1]));
                    lemma_lex_lt_transitive(xv, s[p as int], s[j - 1]);
                }
                lemma_lex_lt_transitive(s[i], xv, s[j - 1]);
            } else if i == p {
                assert(t[j] == s[j - 1]);
                if j - 1 > p {
                    assert(lex_lt(s[p as int], s[j - 1]));
                    lemma_lex_lt_transitive(xv, s[p as int], s[j - 1]);
                }
            } else {
                assert(t[i] == s[i - 1] && t[j] == s[j - 1]);
            }
        }
        assert forall|n: Seq<char>| #[trigger] t.contains(n) <==> (s.contains(n) || n == xv) by {
            if t.contains(n) {
                let i = choose|i: int| 0 <= i < t.len() && t[i] == n;
                if i < p {
                    assert(s[i] == n);
                } else if i > p {
                    assert(s[i - 1] == n);
                }
            }
            if s.contains(n) {
                let i = choose|i: int| 0 <= i < s.len() && s[i] == n;
                if i < p {
                    assert(t[i] == n);
                } else {
                    assert(t[i + 1] == n);
                }
            }
            if n == xv {
                assert(t[p as int] == n);
            }
        }
    }
}

fn scope_hit_exec(paths: &[String], dir: &str) -> (b: bool)
    ensures
        b == scope_is_hit(paths.deep_view(), dir@),
{
    let d = chars_of(dir);
    let slash = chars_of("/");
    let trimmed = trim_start_matches_chars(&d, &slash);
    let mut k: usize = 0;
    while k < paths.len()
        invariant
            k <= paths.len(),
            d@ == dir@,
            trimmed@ == trim_start_matches(dir@, "/"@),
            forall|q: int| 0 <= q < k ==> !path_hits(#[trigger] paths.deep_view()[q], dir@),
        decreases paths.len() - k,
    {
        let p = chars_of(paths[k].as_str());
        assert(p@ == paths.deep_view()[k as int]);
        if starts_with_chars(&p, &trimmed) || contains_chars(&p, &d) {
            return true;
        }
        k += 1;
    }
    false
}

/// The names of the scopes that some changed path falls in, in ascending
/// order, each once.
pub fn matched_scopes(changed_paths: &[String], scopes: &[(String, String)]) -> (r: Vec<String>)
    ensures
        strictly_sorted(r.deep_view()),
        forall|n: Seq<char>|
            #[trigger] r.deep_view().contains(n) <==> hit_names(changed_paths.deep_view(), scopes@).contains(n),
{
    let ghost ps = changed_paths.deep_view();
    let mut r: Vec<String> = Vec::new();
    let mut i: usize = 0;
    while i < scopes.len()
        invariant
            i <= scopes.len(),
            ps == changed_paths.deep_view(),
            strictly_sorted(r.deep_view()),
            forall|n: Seq<char>|
                #[trigger] r.deep_view().contains(n) <==> exists|j: int|
                    0 <= j < i && scopes@[j].0@ == n && scope_is_hit(ps, scopes@[j].1@),
        decreases scopes.len() - i,
    {
        let ghost before = r.deep_view();
        let hit = scope_hit_exec(changed_paths, scopes[i].1.as_str());
        if hit {
            insert_sorted_unique(&mut r, scopes[i].0.clone());
        }
        proof {
            assert forall|n: Seq<char>|
                #[trigger] r.deep_view().contains(n) <==> exists|j: int|
                    0 <= j < i + 1 && scopes@[j].0@ == n && scope_is_hit(ps, scopes@[j].1@) by {
                if r.deep_view().contains(n) {
                    if before.contains(n) {
                        let j = choose|j: int| 0 <= j < i && scopes@[j].0@ == n && scope_is_hit(ps, scopes@[j].1@);
                    } else {
                        assert(scopes@[i as int].0@ == n);
                    }
                }
                if exists|j: int| 0 <= j < i + 1 && scopes@[j].0@ == n && scope_is_hit(ps, scopes@[j].1@) {
                    let j = choose|j: int| 0 <= j < i + 1 && scopes@[j].0@ == n && scope_is_hit(ps, scopes@[j].1@);
                    if j < i {
                        assert(before.contains(n));
                    }
                }
            }
        }
        i += 1;
    }
    r
}

pub open spec fn is_sorted_hits(
    h: Seq<Seq<char>>,
    paths: Seq<Seq<char>>,
    scopes: Seq<(String, String)>,
) -> bool {
    strictly_sorted(h) && forall|n: Seq<char>| #[trigger] h.contains(n) <==> hit_names(paths, scopes).contains(n)
}

/// The names of the hit scopes in ascending order, each once.
pub open spec fn sorted_hits(paths: Seq<Seq<char>>, scopes: Seq<(String, String)>) -> Seq<Seq<char>> {
    choose|h: Seq<Seq<char>>| is_sorted_hits(h, paths, scopes)
}

/// Two sequences in ascending order without repetition that hold the same
/// elements are equal.
pub proof fn lemma_strictly_sorted_unique(a: Seq<Seq<char>>, b: Seq<Seq<char>>)
    requires
        strictly_sorted(a),
        strictly_sorted(b),
        forall|n: Seq<char>| #[trigger] a.contains(n) <==> b.contains(n),
    ensures
        a == b,
    decreases a.len(),
{
    if a.len() == 0 {
        if b.len() > 0 {
            assert(b.contains(b[0]));
            assert(a.contains(b[0]) == b.contains(b[0]));
        }
        assert(a =~= b);
    } else {
        assert(a.contains(a[0]));
        assert(a.contains(a[0]) == b.contains(a[0]));
        assert(b.len() > 0);
        assert(b.contains(b[0]));
        assert(a.contains(b[0]) == b.contains(b[0]));
        let k = choose|k: int| 0 <= k < a.len() && a[k] == b[0];
        let m = choose|m: int| 0 <= m < b.len() && b[m] == a[0];
        if k > 0 && m > 0 {
            assert(lex_lt(a[0], a[k]));
            assert(lex_lt(b[0], b[m]));
            lemma_lex_lt_total(a[0], b[0]);
        }
        assert(a[0] == b[0]) by {
            if k > 0 && m == 0 {
                assert(lex_lt(a[0], a[k]));
                lemma_lex_lt_irreflexive(a[0]);
            }
            if m > 0 && k == 0 {
                assert(lex_lt(b[0], b[m]));
                lemma_lex_lt_irreflexive(b[0]);
            }
        }
        let ta = a.drop_first();
        let tb = b.drop_first();
        assert forall|n: Seq<char>| #[trigger] ta.contains(n) <==> tb.contains(n) by {
            if ta.contains(n) {
                let i = choose|i: int| 0 <= i < ta.len() && ta[i] == n;
                assert(a[i + 1] == n);
                assert(lex_lt(a[0], a[i + 1]));
                lemma_lex_lt_irreflexive(n);
                assert(a.contains(n));
                assert(a.contains(n) == b.contains(n));
                let j = choose|j: int| 0 <= j < b.len() && b[j] == n;
                assert(j != 0);
                assert(tb[j - 1] == n);
            }
            if tb.contains(n) {
                let i = choose|i: int| 0 <= i < tb.len() && tb[i] == n;
                assert(b[i + 1] == n);
                assert(lex_lt(b[0], b[i + 1]));
                lemma_lex_lt_irreflexive(n);
                assert(b.contains(n));
                assert(a.contains(n) == b.contains(n));
                let j = choose|j: int| 0 <= j < a.len() && a[j] == n;
                assert(j != 0);
                assert(ta[j - 1] == n);
            }
        }
        assert forall|i: int, j: int| 0 <= i < j < ta.len() implies lex_lt(#[trigger] ta[i], #[trigger] ta[j]) by {
            assert(ta[i] == a[i + 1] && ta[j] == a[j + 1]);
        }
        assert forall|i: int, j: int| 0 <= i < j < tb.len() implies lex_lt(#[trigger] tb[i], #[trigger] tb[j]) by {
            assert(tb[i] == b[i + 1] && tb[j] == b[j + 1]);
        }
        lemma_strictly_sorted_unique(ta, tb);
        assert(a =~= b) by {
            assert forall|i: int| 0 <= i < a.len() implies a[i] == b[i] by {
                if i > 0 {
                    assert(a[i] == ta[i - 1] && b[i] == tb[i - 1]);
                }
            }
        }
    }
}

/// The scopes to infer versions for: those in which some path changed (in
/// ascending order), else the scopes that have tags, else the root scope.
pub open spec fn detect_scopes_spec(
    hits: Seq<Seq<char>>,
    groups: Seq<(String, Vec<String>)>,
) -> Seq<Seq<char>> {
    if hits.len() > 0 {
        hits
    } else if scoped_names(groups).len() > 0 {
        scoped_names(groups)
    } else {
        seq!["(root)"@]
    }
}

/// The names of the groups other than `(root)`, in order.
pub open spec fn scoped_names(groups: Seq<(String, Vec<String>)>) -> Seq<Seq<char>>
    decreases groups.len(),
{
    if groups.len() == 0 {
        Seq::empty()
    } else {
        let rest = scoped_names(groups.drop_last());
        if groups.last().0@ != "(root)"@ {
            rest.push(groups.last().0@)
        } else {
            rest
        }
    }
}

/// The scopes that changed since the last tag: see `detect_scopes_spec`.
pub fn detect_scopes(
    changed_paths: &[String],
    scopes: &[(String, String)],
    groups: &[(String, Vec<String>)],
) -> (r: Vec<String>)
    ensures
        r.deep_view() == detect_scopes_spec(
            sorted_hits(changed_paths.deep_view(), scopes@),
            groups@,
        ),
{
    let hits = matched_scopes(changed_paths, scopes);
    proof {
        let ps = changed_paths.deep_view();
        let h = sorted_hits(ps, scopes@);
        assert(is_sorted_hits(hits.deep_view(), ps, scopes@));
        assert(is_sorted_hits(h, ps, scopes@));
        lemma_strictly_sorted_unique(hits.deep_view(), h);
    }
    if hits.len() > 0 {
        return hits;
    }
    let mut r: Vec<String> = Vec::new();
    let mut i: usize = 0;
    while i < groups.len()
        invariant
            i <= groups.len(),
            r.deep_view() == scoped_names(groups@.take(i as int)),
        decreases groups.len() - i,
    {
        proof {
            assert(groups@.take(i + 1).drop_last() =~= groups@.take(i as int));
        }
        if !str_is(groups[i].0.as_str(), "(root)") {
            r.push(groups[i].0.clone());
            proof {
                assert(r.deep_view() =~= scoped_names(groups@.take(i as int)).push(groups@[i as int].0@));
            }
        }
        i += 1;
    }
    assert(groups@.take(i as int) =~= groups@);
    if r.len() > 0 {
        return r;
    }
    let mut root: Vec<String> = Vec::new();
    root.push(String::from_str("(root)"));
    assert(root.deep_view() =~= seq!["(root)"@]);
    root
}

// ───────────────────────────── project type ─────────────────────────────

/// `code` when any code indicator is present at the root of the working tree
/// (`src/`, `Cargo.toml`, `package.json`, `pyproject.toml`, `setup.py`,
/// `go.mod`, `packages/`, `apps/`), `docs` otherwise, `unknown` for a
/// repository without a working tree.
pub open spec fn project_type_spec(has_workdir: bool, indicators: Seq<bool>) -> Seq<char> {
    if !has_workdir {
        "unknown"@
    } else if exists|i: int| 0 <= i < indicators.len() && indicators[i] {
        "code"@
    } else {
        "docs"@
    }
}

pub fn detect_project_type(has_workdir: bool, indicators: &[bool]) -> (r: &'static str)
    ensures
        r@ == project_type_spec(has_workdir, indicators@),
{
    if !has_workdir {
        return "unknown";
    }
    let mut any = false;
    let mut i: usize = 0;
    while i < indicators.len()
        invariant
            i <= indicators.len(),
            any == exists|j: int| 0 <= j < i && indicators@[j],
        decreases indicators.len() - i,
    {
        if indicators[i] {
            any = true;
        }
        i += 1;
    }
    if any {
        "code"
    } else {
        "docs"
    }
}

// ───────────────────────────── prompt ─────────────────────────────

/// The fixed opening of the prompt: the rules the model decides by.
pub open spec fn prompt_head() -> Seq<char> {
    "你是一个版本号推断专家。根据以下信息，决定下一个版本号策略。\n\n## 约束\n- 不做 major bump（breaking change 交给人类）\n- 仅 chore/typo/CI 配置 → skip\n- `docs:` 是内容变更（文档项目的交付物），不是非逻辑改动\n- patch 级别修复 → 直发正式版\n- minor 级别新功能 → 代码项目走预发布（rc），文档项目直发正式\n- 大版本早期未完成功能 → alpha\n- 功能基本完成 → beta\n- 功能冻结只修 bug → rc\n- 已在预发布系列 → 同阶段递增序号（除非有理由晋级下一阶段）\n\n### 如何判断 minor vs patch\n\n**代码项目：**\n- `feat:` → minor（追加新能力）\n- `fix: / refactor: / test:` → patch（修问题）\n\n**内容/文档项目：**\n- **绝大多数变更都是 patch**。新增文档、更新内容、格式规范化、目录结构调整都是日常工作。\n- minor 仅限全新内容品类上线的程度（例如从零搭建了一整套新手册），极少发生。\n- 不确定时就 patch。\n\n## 当前版本\n项目类型: "@
}

/// The fixed closing of the prompt: the answer format.
pub open spec fn prompt_tail() -> Seq<char> {
    "\n\n## 输出格式（仅 JSON）\n{\"action\": \"release\"|\"skip\"|\"human\", \"increment\": \"minor\"|\"patch\"|null, \"prerelease\": \"alpha\"|\"beta\"|\"rc\"|null, \"reason\": \"判断理由\"}\n"@
}

fn prompt_head_text() -> (r: &'static str)
    ensures
        r@ == prompt_head(),
{
    "你是一个版本号推断专家。根据以下信息，决定下一个版本号策略。\n\n## 约束\n- 不做 major bump（breaking change 交给人类）\n- 仅 chore/typo/CI 配置 → skip\n- `docs:` 是内容变更（文档项目的交付物），不是非逻辑改动\n- patch 级别修复 → 直发正式版\n- minor 级别新功能 → 代码项目走预发布（rc），文档项目直发正式\n- 大版本早期未完成功能 → alpha\n- 功能基本完成 → beta\n- 功能冻结只修 bug → rc\n- 已在预发布系列 → 同阶段递增序号（除非有理由晋级下一阶段）\n\n### 如何判断 minor vs patch\n\n**代码项目：**\n- `feat:` → minor（追加新能力）\n- `fix: / refactor: / test:` → patch（修问题）\n\n**内容/文档项目：**\n- **绝大多数变更都是 patch**。新增文档、更新内容、格式规范化、目录结构调整都是日常工作。\n- minor 仅限全新内容品类上线的程度（例如从零搭建了一整套新手册），极少发生。\n- 不确定时就 patch。\n\n## 当前版本\n项目类型: "
}

fn prompt_tail_text() -> (r: &'static str)
    ensures
        r@ == prompt_tail(),
{
    "\n\n## 输出格式（仅 JSON）\n{\"action\": \"release\"|\"skip\"|\"human\", \"increment\": \"minor\"|\"patch\"|null, \"prerelease\": \"alpha\"|\"beta\"|\"rc\"|null, \"reason\": \"判断理由\"}\n"
}

/// The commits numbered from 1 (`1. message`), one per line.
pub open spec fn numbered_commits(cs: Seq<Seq<char>>) -> Seq<char>
    decreases cs.len(),
{
    if cs.len() == 0 {
        Seq::empty()
    } else if cs.len() == 1 {
        decimal(1) + ". "@ + cs[0]
    } else {
        numbered_commits(cs.drop_last()) + seq!['\n'] + decimal(cs.len() as nat) + ". "@ + cs.last()
    }
}

/// The prompt that asks a language model for the decision on a scope.
pub open spec fn prompt_spec(
    commits: Seq<Seq<char>>,
    latest_tag: Seq<char>,
    project_type: Seq<char>,
    scope: Seq<char>,
) -> Seq<char> {
    prompt_head() + project_type + "\n最新 tag: "@ + latest_tag + "\nscope: "@ + scope
        + "\n\n## 提交记录（tag→HEAD）\n"@ + numbered_commits(commits) + prompt_tail()
}

/// Builds the prompt for a scope's commits.
pub fn llm_prompt(commits: &[String], latest_tag: &str, project_type: &str, scope: &str) -> (r:
    String)
    ensures
        r@ == prompt_spec(commits.deep_view(), latest_tag@, project_type@, scope@),
{
    let ghost cs = commits.deep_view();
    let mut text = String::new();
    let mut i: usize = 0;
    assert(text@ =~= numbered_commits(cs.take(0)));
    while i < commits.len()
        invariant
            i <= commits.len(),
            cs == commits.deep_view(),
            text@ == numbered_commits(cs.take(i as int)),
        decreases commits.len() - i,
    {
        let ghost before = text@;
        if i > 0 {
            push_char(&mut text, '\n');
        }
        push_decimal(&mut text, (i + 1) as u64);
        text.append(". ");
        text.append(commits[i].as_str());
        proof {
            assert(cs.take(i + 1).drop_last() =~= cs.take(i as int));
            assert(cs.take(i + 1).last() == cs[i as int]);
            if i == 0 {
                assert(text@ =~= decimal(1) + ". "@ + cs[0]);
            } else {
                assert(text@ =~= before + seq!['\n'] + decimal((i + 1) as nat) + ". "@ + cs[i as int]);
            }
        }
        i += 1;
    }
    assert(cs.take(i as int) =~= cs);
    let mut p = String::from_str(prompt_head_text());
    p.append(project_type);
    p.append("\n最新 tag: ");
    p.append(latest_tag);
    p.append("\nscope: ");
    p.append(scope);
    p.append("\n\n## 提交记录（tag→HEAD）\n");
    p.append(text.as_str());
    p.append(prompt_tail_text());
    assert(p@ =~= prompt_spec(cs, latest_tag@, project_type@, scope@));
    p
}

} // verus!
