//! The build status of a scope: the version line, the summary of its last CI
//! run, and the syntax check of its language.  Commands are run by the
//! caller; these functions decide what to run and what to show.
use vstd::prelude::*;
use crate::contract::Language;
use crate::text::{
    chars_of, find_char_from, find_from, lemma_find_from, matches_at, occurs_at, slice_of,
    string_of,
};

verus! {

// ───────────────────────────── version line ─────────────────────────────

pub open spec fn opt_text(o: Option<&str>) -> Option<Seq<char>> {
    match o {
        Some(s) => Some(s@),
        None => None,
    }
}

/// How the tag version and the configured version compare.
pub open spec fn version_line_spec(tag: Option<Seq<char>>, config: Option<Seq<char>>) -> Seq<char> {
    match (tag, config) {
        (Some(t), Some(c)) => if t == c {
            "✅ "@ + t + "（一致）"@
        } else {
            "⚠ tag "@ + t + " ≠ 配置 "@ + c
        },
        (Some(t), None) => "tag "@ + t + "（无配置文件）"@,
        (None, Some(c)) => "配置 "@ + c + "（无 tag）"@,
        (None, None) => "暂无发布"@,
    }
}

pub fn version_line(tag: Option<&str>, config: Option<&str>) -> (r: String)
    ensures
        r@ == version_line_spec(opt_text(tag), opt_text(config)),
{
    match (tag, config) {
        (Some(t), Some(c)) => {
            if crate::text::str_is(t, c) {
                let mut s = String::from_str("✅ ");
                s.append(t);
                s.append("（一致）");
                s
            } else {
                let mut s = String::from_str("⚠ tag ");
                s.append(t);
                s.append(" ≠ 配置 ");
                s.append(c);
                s
            }
        },
        (Some(t), None) => {
            let mut s = String::from_str("tag ");
            s.append(t);
            s.append("（无配置文件）");
            s
        },
        (None, Some(c)) => {
            let mut s = String::from_str("配置 ");
            s.append(c);
            s.append("（无 tag）");
            s
        },
        (None, None) => String::from_str("暂无发布"),
    }
}

// ───────────────────────────── CI run ─────────────────────────────

/// Index of the first occurrence of `p` in `s` at or after `k`.
pub open spec fn find_str_from(s: Seq<char>, p: Seq<char>, k: int) -> Option<int>
    decreases s.len() + 1 - k,
{
    if k < 0 || k + p.len() > s.len() {
        None
    } else if occurs_at(s, p, k) {
        Some(k)
    } else {
        find_str_from(s, p, k + 1)
    }
}

/// The second piece of `s` split at `p` (`s.split(p).nth(1)`): the text
/// after the first `p` up to the next one, if `p` occurs.
pub open spec fn second_piece(s: Seq<char>, p: Seq<char>) -> Option<Seq<char>> {
    match find_str_from(s, p, 0) {
        Some(i) => {
            let rest = s.skip(i + p.len());
            match find_str_from(rest, p, 0) {
                Some(j) => Some(rest.take(j)),
                None => Some(rest),
            }
        },
        None => None,
    }
}

/// The text between the first and second `"` of `s` (to the end when there
/// is no second one).
pub open spec fn quoted(s: Seq<char>) -> Option<Seq<char>> {
    match find_from(s, '"', 0) {
        Some(i) => {
            let rest = s.skip(i + 1);
            match find_from(rest, '"', 0) {
                Some(j) => Some(rest.take(j)),
                None => Some(rest),
            }
        },
        None => None,
    }
}

/// The text of `s` before its first `,`.
pub open spec fn before_comma(s: Seq<char>) -> Seq<char> {
    match find_from(s, ',', 0) {
        Some(j) => s.take(j),
        None => s,
    }
}

/// The string value of a JSON field in the output of `gh run list --json`,
/// found by text search (`d` when absent).
pub open spec fn field_text(out: Seq<char>, key: Seq<char>, d: Seq<char>) -> Seq<char> {
    match second_piece(out, key) {
        Some(p) => match quoted(p) {
            Some(v) => v,
            None => d,
        },
        None => d,
    }
}

/// The `number` field: the text after `"number":` up to the next comma.
pub open spec fn number_text(out: Seq<char>) -> Seq<char> {
    match second_piece(out, "\"number\":"@) {
        Some(p) => before_comma(p),
        None => "?"@,
    }
}

/// The CI line of a scope: `run` is `None` when `gh` could not be started,
/// `Some(false)` when it failed; otherwise the last run is summarized by its
/// conclusion.
pub open spec fn ci_summary_spec(run: Option<bool>, out: Seq<char>) -> Seq<char> {
    let conclusion = field_text(out, "\"conclusion\":"@, Seq::empty());
    let title = field_text(out, "\"displayTitle\":"@, Seq::empty());
    let branch = field_text(out, "\"headBranch\":"@, "?"@);
    let number = number_text(out);
    match run {
        None => "⚠ gh CLI 未安装"@,
        Some(false) => "⚠ 无 CI 运行记录"@,
        Some(true) => if conclusion.len() == 0 {
            "⚠ 无 CI 运行记录"@
        } else if conclusion == "success"@ {
            "✅ "@ + title + " ("@ + branch + " #"@ + number + ")"@
        } else if conclusion == "failure"@ {
            "❌ "@ + title + " ("@ + branch + " #"@ + number + ")"@
        } else if conclusion == "cancelled"@ {
            "🔶 "@ + title + " 已取消"@
        } else {
            "⏳ "@ + title + " ("@ + branch + ") - "@ + conclusion
        },
    }
}

fn find_str_exec(s: &[char], p: &[char], k: usize) -> (r: Option<usize>)
    requires
        k <= s.len(),
        p.len() > 0,
    ensures
        match r {
            Some(i) => find_str_from(s@, p@, k as int) == Some(i as int) && i + p.len() <= s.len(),
            None => find_str_from(s@, p@, k as int) is None,
        },
{
    let mut i: usize = k;
    while i < s.len() && p.len() <= s.len() - i
        invariant
            k <= i <= s.len(),
            p.len() > 0,
            find_str_from(s@, p@, k as int) == find_str_from(s@, p@, i as int),
        decreases s.len() + 1 - i,
    {
        if matches_at(s, p, i) {
            return Some(i);
        }
        i += 1;
    }
    None
}

fn second_piece_exec(s: &[char], p: &[char]) -> (r: Option<Vec<char>>)
    requires
        p.len() > 0,
    ensures
        match r {
            Some(v) => second_piece(s@, p@) == Some(v@),
            None => second_piece(s@, p@) is None,
        },
{
    match find_str_exec(s, p, 0) {
        Some(i) => {
            let rest = slice_of(s, i + p.len(), s.len());
            assert(rest@ =~= s@.skip(i + p.len()));
            match find_str_exec(&rest, p, 0) {
                Some(j) => {
                    let piece = slice_of(&rest, 0, j);
                    assert(piece@ =~= rest@.take(j as int));
                    Some(piece)
                },
                None => Some(rest),
            }
        },
        None => None,
    }
}

fn quoted_exec(s: &[char]) -> (r: Option<Vec<char>>)
    ensures
        match r {
            Some(v) => quoted(s@) == Some(v@),
            None => quoted(s@) is None,
        },
{
    match find_char_from(s, '"', 0) {
        Some(i) => {
            proof {
                lemma_find_from(s@, '"', 0);
            }
            assert(i < s.len());
            let rest = slice_of(s, i + 1, s.len());
            assert(rest@ =~= s@.skip(i + 1));
            match find_char_from(&rest, '"', 0) {
                Some(j) => {
                    proof {
                        lemma_find_from(rest@, '"', 0);
                    }
                    let piece = slice_of(&rest, 0, j);
                    assert(piece@ =~= rest@.take(j as int));
                    Some(piece)
                },
                None => Some(rest),
            }
        },
        None => None,
    }
}

fn field_exec(out: &[char], key: &str, d: &str) -> (r: Vec<char>)
    requires
        key@.len() > 0,
    ensures
        r@ == field_text(out@, key@, d@),
{
    match second_piece_exec(out, &chars_of(key)) {
        Some(p) => match quoted_exec(&p) {
            Some(v) => v,
            None => chars_of(d),
        },
        None => chars_of(d),
    }
}

fn number_exec(out: &[char]) -> (r: Vec<char>)
    ensures
        r@ == number_text(out@),
{
    proof {
        reveal_strlit("\"number\":");
    }
    match second_piece_exec(out, &chars_of("\"number\":")) {
        Some(p) => match find_char_from(&p, ',', 0) {
            Some(j) => {
                proof {
                    lemma_find_from(p@, ',', 0);
                }
                let v = slice_of(&p, 0, j);
                assert(v@ =~= p@.take(j as int));
                v
            },
            None => p,
        },
        None => chars_of("?"),
    }
}

/// Summarizes the last CI run of a scope from `gh run list` (`run` tells
/// whether it could be started and whether it succeeded).
pub fn ci_summary(run: Option<bool>, stdout: &str) -> (r: String)
    ensures
        r@ == ci_summary_spec(run, stdout@),
{
    match run {
        None => {
            return String::from_str("⚠ gh CLI 未安装");
        },
        Some(false) => {
            return String::from_str("⚠ 无 CI 运行记录");
        },
        Some(true) => {},
    }
    let out = chars_of(stdout);
    proof {
        reveal_strlit("\"conclusion\":");
        reveal_strlit("\"displayTitle\":");
        reveal_strlit("\"headBranch\":");
        reveal_strlit("");
    }
    let conclusion = field_exec(&out, "\"conclusion\":", "");
    let title = field_exec(&out, "\"displayTitle\":", "");
    let branch = field_exec(&out, "\"headBranch\":", "?");
    let number = number_exec(&out);
    if conclusion.len() == 0 {
        return String::from_str("⚠ 无 CI 运行记录");
    }
    let t = string_of(&title);
    let b = string_of(&branch);
    let n = string_of(&number);
    let mut s: String;
    if crate::text::eq(&conclusion, &chars_of("success")) {
        s = String::from_str("✅ ");
        s.append(t.as_str());
        s.append(" (");
        s.append(b.as_str());
        s.append(" #");
        s.append(n.as_str());
        s.append(")");
    } else if crate::text::eq(&conclusion, &chars_of("failure")) {
        s = String::from_str("❌ ");
        s.append(t.as_str());
        s.append(" (");
        s.append(b.as_str());
        s.append(" #");
        s.append(n.as_str());
        s.append(")");
    } else if crate::text::eq(&conclusion, &chars_of("cancelled")) {
        s = String::from_str("🔶 ");
        s.append(t.as_str());
        s.append(" 已取消");
    } else {
        s = String::from_str("⏳ ");
        s.append(t.as_str());
        s.append(" (");
        s.append(b.as_str());
        s.append(") - ");
        crate::text::append_chars(&mut s, &conclusion);
    }
    s
}

// ───────────────────────────── syntax check ─────────────────────────────

/// The command that checks a language's syntax: program, arguments, label,
/// and the project file whose absence skips the check.
pub struct SyntaxCheck {
    pub program: String,
    pub args: Vec<String>,
    pub label: String,
    pub marker: String,
}

pub open spec fn strs(v: Seq<String>) -> Seq<Seq<char>> {
    Seq::new(v.len(), |i: int| v[i]@)
}

/// The syntax check of each known language (`cargo check` on the given
/// manifest, `uv check`, `go vet ./...`, `dart analyze`, `tsc --noEmit`);
/// none for an unknown language.
pub open spec fn syntax_check_spec(lang: Language, manifest: Seq<char>) -> Option<
    (Seq<char>, Seq<Seq<char>>, Seq<char>, Seq<char>),
> {
    match lang {
        Language::Rust => Some(
            ("cargo"@, seq!["check"@, "--manifest-path"@, manifest], "cargo check"@, "Cargo.toml"@),
        ),
        Language::Python => Some(("uv"@, seq!["check"@], "uv check"@, "pyproject.toml"@)),
        Language::Go => Some(("go"@, seq!["vet"@, "./..."@], "go vet"@, "go.mod"@)),
        Language::Dart => Some(("dart"@, seq!["analyze"@], "dart analyze"@, "pubspec.yaml"@)),
        Language::TypeScript => Some(
            ("npx"@, seq!["tsc"@, "--noEmit"@], "tsc --noEmit"@, "package.json"@),
        ),
        Language::Unknown(_) => None,
    }
}

pub open spec fn check_view(c: SyntaxCheck) -> (Seq<char>, Seq<Seq<char>>, Seq<char>, Seq<char>) {
    (c.program@, strs(c.args@), c.label@, c.marker@)
}

fn make_check(program: &str, args: Vec<String>, label: &str, marker: &str) -> (r: SyntaxCheck)
    ensures
        check_view(r) == (program@, strs(args@), label@, marker@),
{
    SyntaxCheck {
        program: String::from_str(program),
        args,
        label: String::from_str(label),
        marker: String::from_str(marker),
    }
}

/// The syntax check for a language; `manifest` is the path of the scope's
/// `Cargo.toml`, used by the Rust check.
pub fn syntax_check(lang: &Language, manifest: &str) -> (r: Option<SyntaxCheck>)
    ensures
        match r {
            Some(c) => syntax_check_spec(*lang, manifest@) == Some(check_view(c)),
            None => syntax_check_spec(*lang, manifest@) is None,
        },
{
    let mut args: Vec<String> = Vec::new();
    match lang {
        Language::Rust => {
            args.push(String::from_str("check"));
            args.push(String::from_str("--manifest-path"));
            args.push(String::from_str(manifest));
            assert(strs(args@) =~= seq!["check"@, "--manifest-path"@, manifest@]);
            Some(make_check("cargo", args, "cargo check", "Cargo.toml"))
        },
        Language::Python => {
            args.push(String::from_str("check"));
            assert(strs(args@) =~= seq!["check"@]);
            Some(make_check("uv", args, "uv check", "pyproject.toml"))
        },
        Language::Go => {
            args.push(String::from_str("vet"));
            args.push(String::from_str("./..."));
            assert(strs(args@) =~= seq!["vet"@, "./..."@]);
            Some(make_check("go", args, "go vet", "go.mod"))
        },
        Language::Dart => {
            args.push(String::from_str("analyze"));
            assert(strs(args@) =~= seq!["analyze"@]);
            Some(make_check("dart", args, "dart analyze", "pubspec.yaml"))
        },
        Language::TypeScript => {
            args.push(String::from_str("tsc"));
            args.push(String::from_str("--noEmit"));
            assert(strs(args@) =~= seq!["tsc"@, "--noEmit"@]);
            Some(make_check("npx", args, "tsc --noEmit", "package.json"))
        },
        Language::Unknown(_) => None,
    }
}

/// The build line of a scope: an unknown language is skipped; a missing
/// project file shows `—`; otherwise the check's outcome (`run` is `None`
/// when the program could not be started).
pub open spec fn syntax_line_spec(
    check: Option<(Seq<char>, Seq<Seq<char>>, Seq<char>, Seq<char>)>,
    marker_exists: bool,
    run: Option<bool>,
) -> Seq<char> {
    match check {
        None => "⚠ 语言未知，跳过语法校验"@,
        Some(c) => if !marker_exists {
            "—"@
        } else {
            match run {
                Some(true) => "✅ "@ + c.2 + " 通过"@,
                Some(false) => "❌ "@ + c.2 + " 失败"@,
                None => "⚠ "@ + c.0 + " 未安装"@,
            }
        },
    }
}

pub fn syntax_line(check: &Option<SyntaxCheck>, marker_exists: bool, run: Option<bool>) -> (r:
    String)
    ensures
        r@ == syntax_line_spec(
            match check {
                Some(c) => Some(check_view(*c)),
                None => None,
            },
            marker_exists,
            run,
        ),
{
    match check {
        None => String::from_str("⚠ 语言未知，跳过语法校验"),
        Some(c) => {
            if !marker_exists {
                return String::from_str("—");
            }
            match run {
                Some(true) => {
                    let mut s = String::from_str("✅ ");
                    s.append(c.label.as_str());
                    s.append(" 通过");
                    s
                },
                Some(false) => {
                    let mut s = String::from_str("❌ ");
                    s.append(c.label.as_str());
                    s.append(" 失败");
                    s
                },
                None => {
                    let mut s = String::from_str("⚠ ");
                    s.append(c.program.as_str());
                    s.append(" 未安装");
                    s
                },
            }
        },
    }
}

} // verus!
