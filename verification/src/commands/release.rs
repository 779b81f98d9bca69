//! Release command helpers: version tags, changelog checks, release notes
//! and the GitHub repository of a remote.
use vstd::prelude::*;
use crate::text::{
    chars_of, contains, contains_chars, lines, lines_chars, lowercase, starts_with,
    starts_with_chars, str_is, string_of, to_lowercase, trim, trim_chars, trimmed,
};

verus! {

/// What the `regex` crate answers when `pattern` is compiled
/// (`Regex::new`) and tested against `text` (`is_match`): `None` when the
/// pattern does not compile.
pub uninterp spec fn regex_is_match_result(pattern: Seq<char>, text: Seq<char>) -> Option<bool>;

/// What the `regex` crate gives for capture group 1 of the first match of
/// `pattern` in `text` (`Regex::new`, `captures`, `get(1)`): `None` when the
/// pattern does not compile, nothing matches, or the group took no part.
pub uninterp spec fn regex_capture1_result(pattern: Seq<char>, text: Seq<char>) -> Option<Seq<char>>;

/// Compiles `pattern` with `regex::Regex::new` and tests `text` with
/// `Regex::is_match`.  The result is named, not described.
#[verifier::external_body]
fn regex_is_match(pattern: &str, text: &str) -> (r: Option<bool>)
    ensures
        r == regex_is_match_result(pattern@, text@),
{
    regex::Regex::new(pattern).ok().map(|re| re.is_match(text))
}

/// Compiles `pattern` with `regex::Regex::new` and returns capture group 1
/// of its first match in `text` (`Regex::captures`, `Captures::get`).  The
/// result is named, not described.
#[verifier::external_body]
fn regex_capture1(pattern: &str, text: &str) -> (r: Option<String>)
    ensures
        match r {
            Some(s) => regex_capture1_result(pattern@, text@) == Some(s@),
            None => regex_capture1_result(pattern@, text@) is None,
        },
{
    let re = regex::Regex::new(pattern).ok()?;
    let caps = re.captures(text)?;
    caps.get(1).map(|m| m.as_str().to_string())
}

/// The pattern of a release tag: `vX.Y.Z` or `name/vX.Y.Z`, optionally
/// followed by `-` and a pre-release label.
pub open spec fn version_pattern() -> Seq<char> {
    "^(v[0-9]+\\.[0-9]+\\.[0-9]+(-[a-zA-Z0-9.]+)?|[a-zA-Z0-9_.-]+/v[0-9]+\\.[0-9]+\\.[0-9]+(-[a-zA-Z0-9.]+)?)$"@
}

/// The pattern of a GitHub remote: `owner/repo` after `github.com/` or
/// `github.com:`, without a trailing `.git`.
pub open spec fn github_pattern() -> Seq<char> {
    "github\\.com[/:]([^/]+/[^/]+?)(?:\\.git)?$"@
}

/// Whether `version` is a well-formed release tag.
pub fn validate_version(version: &str) -> (r: bool)
    ensures
        r == (regex_is_match_result(version_pattern(), version@) == Some(true)),
{
    let m = regex_is_match(
        "^(v[0-9]+\\.[0-9]+\\.[0-9]+(-[a-zA-Z0-9.]+)?|[a-zA-Z0-9_.-]+/v[0-9]+\\.[0-9]+\\.[0-9]+(-[a-zA-Z0-9.]+)?)$",
        version,
    );
    match m {
        Some(b) => b,
        None => false,
    }
}

/// Whether publishing is confirmed: by `yes` on the command line, or by an
/// answer to the prompt that, trimmed and lowercased, is `y` or `yes`.
pub fn release_confirmed(yes: bool, answer: &str) -> (r: bool)
    ensures
        r == (yes || lowercase(trim(answer@)) == "y"@ || lowercase(trim(answer@)) == "yes"@),
{
    if yes {
        return true;
    }
    let t = string_of(&trimmed(answer));
    let l = to_lowercase(t.as_str());
    str_is(l.as_str(), "y") || str_is(l.as_str(), "yes")
}

/// The `owner/repo` of a GitHub remote URL.
pub fn parse_github_repo(url: &str) -> (r: Option<String>)
    ensures
        match r {
            Some(s) => regex_capture1_result(github_pattern(), url@) == Some(s@),
            None => regex_capture1_result(github_pattern(), url@) is None,
        },
{
    regex_capture1("github\\.com[/:]([^/]+/[^/]+?)(?:\\.git)?$", url)
}

/// Index of the last `/v` in `s`, if any.
pub open spec fn last_slash_v(s: Seq<char>, e: int) -> Option<int>
    decreases e,
{
    if e < 2 || e > s.len() {
        None
    } else if s[e - 2] == '/' && s[e - 1] == 'v' {
        Some(e - 2)
    } else {
        last_slash_v(s, e - 1)
    }
}

/// A tag without its leading `v` and its `name/v` prefix: one leading `v`
/// removed, then the text after the last `/v`.
pub open spec fn normalize_version_spec(version: Seq<char>) -> Seq<char> {
    let s = if version.len() > 0 && version[0] == 'v' {
        version.drop_first()
    } else {
        version
    };
    match last_slash_v(s, s.len() as int) {
        Some(i) => s.skip(i + 2),
        None => s,
    }
}

pub fn normalize_version(version: &str) -> (r: String)
    ensures
        r@ == normalize_version_spec(version@),
{
    let v = chars_of(version);
    let s = if v.len() > 0 && v[0] == 'v' {
        crate::text::slice_of(&v, 1, v.len())
    } else {
        v
    };
    assert(s@ =~= (if version@.len() > 0 && version@[0] == 'v' {
        version@.drop_first()
    } else {
        version@
    }));
    let mut e: usize = s.len();
    while e >= 2 && !(s[e - 2] == '/' && s[e - 1] == 'v')
        invariant
            e <= s.len(),
            last_slash_v(s@, s@.len() as int) == last_slash_v(s@, e as int),
        decreases e,
    {
        e -= 1;
    }
    if e >= 2 {
        let t = crate::text::slice_of(&s, e, s.len());
        assert(t@ =~= s@.skip(e as int));
        string_of(&t)
    } else {
        string_of(&s)
    }
}

/// The changelog heading of a version: `## [` + normalized version + `]`.
pub open spec fn heading(version: Seq<char>) -> Seq<char> {
    "## ["@ + normalize_version_spec(version) + "]"@
}

fn heading_chars(version: &str) -> (r: Vec<char>)
    ensures
        r@ == heading(version@),
{
    let mut s = String::from_str("## [");
    s.append(normalize_version(version).as_str());
    s.append("]");
    chars_of(s.as_str())
}

/// The problems found before a release: a malformed tag, and a changelog
/// that is missing (`content` is `None`) or has no heading for the version.
pub open spec fn precheck_errors(
    version: Seq<char>,
    path: Seq<char>,
    content: Option<Seq<char>>,
) -> Seq<Seq<char>> {
    let format = if regex_is_match_result(version_pattern(), version) == Some(true) {
        Seq::empty()
    } else {
        seq!["版本号格式错误: "@ + version]
    };
    format + match content {
        Some(c) => if contains(c, heading(version)) {
            Seq::empty()
        } else {
            seq!["CHANGELOG.md 未找到 "@ + normalize_version_spec(version) + " 版本记录"@]
        },
        None => seq!["CHANGELOG.md 不存在: "@ + path],
    }
}

/// Checks a version tag and its changelog entry.  `changelog_path` is the
/// changelog's path as shown to users; `content` is its text, `None` when
/// it does not exist.
pub fn precheck_version_changelog(
    version: &str,
    changelog_path: &str,
    content: Option<&str>,
) -> (r: Vec<String>)
    ensures
        r.deep_view() == precheck_errors(
            version@,
            changelog_path@,
            match content {
                Some(c) => Some(c@),
                None => None,
            },
        ),
{
    let mut errors: Vec<String> = Vec::new();
    let ghost e0 = errors.deep_view();
    assert(e0 =~= Seq::<Seq<char>>::empty());
    if !validate_version(version) {
        let mut m = String::from_str("版本号格式错误: ");
        m.append(version);
        errors.push(m);
    }
    let ghost e1 = errors.deep_view();
    match content {
        Some(c) => {
            let text = chars_of(c);
            let marker = heading_chars(version);
            if !contains_chars(&text, &marker) {
                let mut m = String::from_str("CHANGELOG.md 未找到 ");
                m.append(normalize_version(version).as_str());
                m.append(" 版本记录");
                errors.push(m);
            }
        },
        None => {
            let mut m = String::from_str("CHANGELOG.md 不存在: ");
            m.append(changelog_path);
            errors.push(m);
        },
    }
    proof {
        let c = match content {
            Some(c) => Some(c@),
            None => None,
        };
        let p = precheck_errors(version@, changelog_path@, c);
        assert(errors.deep_view() =~= p);
    }
    errors
}

/// The lines of a version's section: after the first line whose trimmed
/// text starts with the heading, up to the next line starting with `## [`.
pub open spec fn section_lines(ls: Seq<Seq<char>>, marker: Seq<char>) -> Seq<Seq<char>> {
    notes_from(ls, marker, 0, false)
}

pub open spec fn notes_from(ls: Seq<Seq<char>>, marker: Seq<char>, k: int, capture: bool) -> Seq<
    Seq<char>,
>
    decreases ls.len() - k,
{
    if k < 0 || k >= ls.len() {
        Seq::empty()
    } else if starts_with(trim(ls[k]), marker) {
        notes_from(ls, marker, k + 1, true)
    } else if capture {
        if starts_with(ls[k], "## ["@) {
            Seq::empty()
        } else {
            seq![ls[k]] + notes_from(ls, marker, k + 1, true)
        }
    } else {
        notes_from(ls, marker, k + 1, false)
    }
}

/// Lines joined with `\n`.
pub open spec fn join_lines(ls: Seq<Seq<char>>) -> Seq<char>
    decreases ls.len(),
{
    if ls.len() == 0 {
        Seq::empty()
    } else if ls.len() == 1 {
        ls[0]
    } else {
        join_lines(ls.drop_last()) + seq!['\n'] + ls.last()
    }
}

/// The release notes of a version in a changelog text: its section joined
/// and trimmed, `None` when empty or when the changelog could not be read.
pub open spec fn notes_spec(version: Seq<char>, content: Option<Seq<char>>) -> Option<Seq<char>> {
    match content {
        Some(c) => {
            let t = trim(join_lines(section_lines(lines(c), heading(version))));
            if t.len() == 0 {
                None
            } else {
                Some(t)
            }
        },
        None => None,
    }
}

/// Extracts a version's release notes from the changelog text (`None` when
/// the changelog could not be read).
pub fn extract_notes(version: &str, content: Option<&str>) -> (r: Option<String>)
    ensures
        match r {
            Some(s) => notes_spec(
                version@,
                match content {
                    Some(c) => Some(c@),
                    None => None,
                },
            ) == Some(s@),
            None => notes_spec(
                version@,
                match content {
                    Some(c) => Some(c@),
                    None => None,
                },
            ) is None,
        },
{
    let c = match content {
        Some(c) => c,
        None => {
            return None;
        },
    };
    let text = chars_of(c);
    let ls = lines_chars(&text);
    let marker = heading_chars(version);
    let hdr = chars_of("## [");
    let mut capture = false;
    let mut joined: Vec<char> = Vec::new();
    let mut count: usize = 0;
    let mut i: usize = 0;
    let ghost all = ls.deep_view();
    let ghost mk = heading(version@);
    let ghost mut taken: Seq<Seq<char>> = Seq::empty();
    while i < ls.len()
        invariant
            i <= ls.len(),
            all == ls.deep_view(),
            all == lines(c@),
            marker@ == mk,
            mk == heading(version@),
            content == Some(c),
            hdr@ == "## ["@,
            taken + notes_from(all, mk, i as int, capture) == section_lines(all, mk),
            joined@ == join_lines(taken),
            count == taken.len(),
            count <= i,
        decreases ls.len() - i,
    {
        proof {
            assert(ls@[i as int].deep_view() =~= ls@[i as int]@);
            assert(all[i as int] == ls@[i as int]@);
        }
        let t = trim_chars(&ls[i]);
        if starts_with_chars(&t, &marker) {
            capture = true;
            i += 1;
            continue;
        }
        if capture {
            if starts_with_chars(&ls[i], &hdr) {
                proof {
                    assert(notes_from(all, mk, i as int, true) =~= Seq::<Seq<char>>::empty());
                    assert(taken + Seq::<Seq<char>>::empty() =~= taken);
                }
                let ghost done = taken;
                proof {
                    assert(done == section_lines(all, mk));
                    assert(all == lines(c@));
                    assert(mk == heading(version@));
                    assert(done == section_lines(lines(c@), heading(version@)));
                }
                return finish_notes(joined, Ghost(done), Ghost(version@), Ghost(c@));
            }
            let ghost before = taken;
            if count > 0 {
                joined.push('\n');
            }
            crate::text::extend_chars(&mut joined, &ls[i]);
            proof {
                taken = before.push(ls@[i as int]@);
                assert(taken.drop_last() =~= before);
                if before.len() == 0 {
                    assert(joined@ =~= join_lines(taken));
                } else {
                    assert(joined@ =~= join_lines(before) + seq!['\n'] + ls@[i as int]@);
                }
                assert(before + (seq![all[i as int]] + notes_from(all, mk, i + 1, true)) =~= taken
                    + notes_from(all, mk, i + 1, true));
            }
            count += 1;
        }
        i += 1;
    }
    proof {
        assert(taken + Seq::<Seq<char>>::empty() =~= taken);
    }
    finish_notes(joined, Ghost(taken), Ghost(version@), Ghost(c@))
}

fn finish_notes(
    joined: Vec<char>,
    Ghost(taken): Ghost<Seq<Seq<char>>>,
    Ghost(version): Ghost<Seq<char>>,
    Ghost(content): Ghost<Seq<char>>,
) -> (r: Option<String>)
    requires
        taken == section_lines(lines(content), heading(version)),
        joined@ == join_lines(taken),
    ensures
        match r {
            Some(s) => notes_spec(version, Some(content)) == Some(s@),
            None => notes_spec(version, Some(content)) is None,
        },
{
    let t = trim_chars(&joined);
    if t.len() == 0 {
        None
    } else {
        Some(string_of(&t))
    }
}

} // verus!
