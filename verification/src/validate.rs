//! CI checks: a changelog entry for the released version, and agreement
//! between the tag's version and the version in `Cargo.toml` and
//! `pyproject.toml`.  Files are read by the caller; these functions take
//! their text (`None` for a file that does not exist).
use vstd::prelude::*;
use crate::commands::release::{precheck_errors, precheck_version_changelog, regex_is_match_result, version_pattern};
use crate::text::{
    chars_of, eq, find_char_from, find_from, lemma_find_from, lines, lines_chars, slice_of, split,
    split_chars, starts_with, string_of, strip_prefix_chars, trim, trim_chars, lemma_split_one,
    lemma_split_two,
};

verus! {

pub open spec fn opt_text(o: Option<&str>) -> Option<Seq<char>> {
    match o {
        Some(s) => Some(s@),
        None => None,
    }
}

/// Checks that the changelog has an entry for `version`; `content` is the
/// changelog's text, `None` when it does not exist.  The problems found are
/// those of `precheck_version_changelog`.
pub fn validate_changelog(version: &str, changelog_path: &str, content: Option<&str>) -> (r: Result<
    (),
    Vec<String>,
>)
    ensures
        match r {
            Ok(()) => precheck_errors(version@, changelog_path@, opt_text(content)).len() == 0,
            Err(es) => es.deep_view() == precheck_errors(version@, changelog_path@, opt_text(content))
                && es.len() > 0,
        },
{
    let errors = precheck_version_changelog(version, changelog_path, content);
    if errors.len() == 0 {
        Ok(())
    } else {
        Err(errors)
    }
}

/// The value of a `version = "..."` line: after the prefix (on the trimmed
/// line), up to the next `"`.
pub open spec fn version_of_line(l: Seq<char>) -> Option<Seq<char>> {
    let t = trim(l);
    let p = "version = \""@;
    if starts_with(t, p) {
        let v = t.skip(p.len() as int);
        match find_from(v, '"', 0) {
            Some(e) => Some(v.take(e)),
            None => None,
        }
    } else {
        None
    }
}

/// The first version line from line `k` on.
pub open spec fn first_version(ls: Seq<Seq<char>>, k: int) -> Option<Seq<char>>
    decreases ls.len() - k,
{
    if k < 0 || k >= ls.len() {
        None
    } else {
        match version_of_line(ls[k]) {
            Some(v) => Some(v),
            None => first_version(ls, k + 1),
        }
    }
}

/// The version a manifest text declares: its first `version = "..."` line.
pub open spec fn manifest_version(content: Seq<char>) -> Option<Seq<char>> {
    first_version(lines(content), 0)
}

fn version_of_line_exec(l: &[char]) -> (r: Option<Vec<char>>)
    ensures
        match r {
            Some(v) => version_of_line(l@) == Some(v@),
            None => version_of_line(l@) is None,
        },
{
    let t = trim_chars(l);
    let p = chars_of("version = \"");
    match strip_prefix_chars(&t, &p) {
        Some(v) => match find_char_from(&v, '"', 0) {
            Some(e) => {
                proof {
                    lemma_find_from(v@, '"', 0);
                }
                let r = slice_of(&v, 0, e);
                assert(r@ =~= v@.take(e as int));
                Some(r)
            },
            None => None,
        },
        None => None,
    }
}

/// The version declared by a manifest text (`Cargo.toml` or
/// `pyproject.toml`): the first `version = "..."` line.
pub fn read_cargo_version(content: &str) -> (r: Option<String>)
    ensures
        match r {
            Some(v) => manifest_version(content@) == Some(v@),
            None => manifest_version(content@) is None,
        },
{
    let text = chars_of(content);
    let ls = lines_chars(&text);
    let ghost all = ls.deep_view();
    let mut i: usize = 0;
    while i < ls.len()
        invariant
            i <= ls.len(),
            all == ls.deep_view(),
            all == lines(content@),
            first_version(all, 0) == first_version(all, i as int),
        decreases ls.len() - i,
    {
        proof {
            assert(ls@[i as int].deep_view() =~= ls@[i as int]@);
        }
        match version_of_line_exec(&ls[i]) {
            Some(v) => {
                return Some(string_of(&v));
            },
            None => {},
        }
        i += 1;
    }
    None
}

/// One leading `v` removed.
pub open spec fn strip_one_v(s: Seq<char>) -> Seq<char> {
    if s.len() > 0 && s[0] == 'v' {
        s.drop_first()
    } else {
        s
    }
}

pub open spec fn pyproject_check(tv: Seq<char>, py: Option<Seq<char>>) -> Result<
    Seq<char>,
    Seq<char>,
> {
    let expected = strip_one_v(tv);
    match py {
        Some(p) => match manifest_version(p) {
            Some(pv) => if pv != expected {
                Err("版本不匹配: tag="@ + tv + " pyproject.toml="@ + pv)
            } else {
                Ok(expected)
            },
            None => Ok(expected),
        },
        None => Ok(expected),
    }
}

/// The check of a tag against the manifests: the tag's last `/`-separated
/// part must be a well-formed version; `Cargo.toml`, when present, must
/// declare it (without its `v`); `pyproject.toml`, when present and
/// declaring a version, must agree.  The result is the version without `v`.
pub open spec fn validate_version_spec(
    tag: Seq<char>,
    cargo: Option<Seq<char>>,
    py: Option<Seq<char>>,
) -> Result<Seq<char>, Seq<char>> {
    let tv = split(tag, '/').last();
    let expected = strip_one_v(tv);
    if regex_is_match_result(version_pattern(), tv) != Some(true) {
        Err("版本号格式错误: "@ + tv)
    } else {
        match cargo {
            Some(c) => match manifest_version(c) {
                None => Err("无法读取 Cargo.toml 版本号"@),
                Some(cv) => if cv != expected {
                    Err("版本不匹配: tag="@ + tv + " Cargo.toml="@ + cv)
                } else {
                    pyproject_check(tv, py)
                },
            },
            None => pyproject_check(tv, py),
        }
    }
}

/// `v` and a version, with a scope and `/` in front when one is given.
pub open spec fn scoped_tag(scope: Option<Seq<char>>, ver: Seq<char>) -> Seq<char> {
    match scope {
        Some(s) => s + seq!['/'] + (seq!['v'] + ver),
        None => seq!['v'] + ver,
    }
}

proof fn lemma_tag_version(scope: Option<Seq<char>>, ver: Seq<char>)
    requires
        !ver.contains('/'),
        scope matches Some(s) ==> !s.contains('/'),
    ensures
        split(scoped_tag(scope, ver), '/').last() == seq!['v'] + ver,
        strip_one_v(seq!['v'] + ver) == ver,
{
    let tv = seq!['v'] + ver;
    assert(!tv.contains('/')) by {
        if tv.contains('/') {
            let i = choose|i: int| 0 <= i < tv.len() && tv[i] == '/';
            if i > 0 {
                assert(ver[i - 1] == '/');
            }
        }
    }
    match scope {
        Some(s) => {
            lemma_split_two(s, tv, '/');
        },
        None => {
            lemma_split_one(tv, '/');
        },
    }
    assert(tv.drop_first() =~= ver);
}

/// A tag is checked against `pyproject.toml` whether or not `Cargo.toml` is
/// there: for a well-formed tag `vX` (scoped or not), with `Cargo.toml`
/// absent or declaring `X`, a `pyproject.toml` that declares another
/// version makes the check fail, naming `pyproject.toml` and its version.
/// When every manifest present declares `X` (or `pyproject.toml` declares
/// none), the check passes with `X`.
pub proof fn pyproject_checked_too(
    scope: Option<Seq<char>>,
    ver: Seq<char>,
    cargo: Option<Seq<char>>,
    py: Option<Seq<char>>,
)
    requires
        !ver.contains('/'),
        scope matches Some(s) ==> !s.contains('/'),
        regex_is_match_result(version_pattern(), seq!['v'] + ver) == Some(true),
        cargo matches Some(c) ==> manifest_version(c) == Some(ver),
    ensures
        match py {
            Some(p) => match manifest_version(p) {
                Some(pv) => if pv != ver {
                    validate_version_spec(scoped_tag(scope, ver), cargo, py) == Err::<
                        Seq<char>,
                        Seq<char>,
                    >("版本不匹配: tag="@ + (seq!['v'] + ver) + " pyproject.toml="@ + pv)
                } else {
                    validate_version_spec(scoped_tag(scope, ver), cargo, py) == Ok::<
                        Seq<char>,
                        Seq<char>,
                    >(ver)
                },
                None => validate_version_spec(scoped_tag(scope, ver), cargo, py) == Ok::<
                    Seq<char>,
                    Seq<char>,
                >(ver),
            },
            None => validate_version_spec(scoped_tag(scope, ver), cargo, py) == Ok::<
                Seq<char>,
                Seq<char>,
            >(ver),
        },
{
    lemma_tag_version(scope, ver);
}

/// Checks a tag (`v0.3.0` or `scope/v0.3.0`) against the manifests' texts
/// (`None` for a manifest that does not exist).
pub fn validate_version(tag_ref: &str, cargo_toml: Option<&str>, pyproject_toml: Option<&str>) -> (r:
    Result<String, String>)
    ensures
        match r {
            Ok(v) => validate_version_spec(tag_ref@, opt_text(cargo_toml), opt_text(pyproject_toml))
                == Ok::<Seq<char>, Seq<char>>(v@),
            Err(e) => validate_version_spec(
                tag_ref@,
                opt_text(cargo_toml),
                opt_text(pyproject_toml),
            ) == Err::<Seq<char>, Seq<char>>(e@),
        },
{
    let all = chars_of(tag_ref);
    let parts = split_chars(&all, '/');
    proof {
        assert(parts@[parts.len() - 1].deep_view() =~= parts@[parts.len() - 1]@);
    }
    let tv = string_of(&parts[parts.len() - 1]);
    assert(tv@ == split(tag_ref@, '/').last());
    if !crate::commands::release::validate_version(tv.as_str()) {
        let mut e = String::from_str("版本号格式错误: ");
        e.append(tv.as_str());
        return Err(e);
    }
    let tvc = chars_of(tv.as_str());
    let expected = if tvc.len() > 0 && tvc[0] == 'v' {
        slice_of(&tvc, 1, tvc.len())
    } else {
        tvc
    };
    assert(expected@ =~= strip_one_v(tv@));
    match cargo_toml {
        Some(c) => match read_cargo_version(c) {
            None => {
                return Err(String::from_str("无法读取 Cargo.toml 版本号"));
            },
            Some(cv) => {
                if !eq(&chars_of(cv.as_str()), &expected) {
                    let mut e = String::from_str("版本不匹配: tag=");
                    e.append(tv.as_str());
                    e.append(" Cargo.toml=");
                    e.append(cv.as_str());
                    return Err(e);
                }
            },
        },
        None => {},
    }
    match pyproject_toml {
        Some(p) => match read_cargo_version(p) {
            Some(pv) => {
                if !eq(&chars_of(pv.as_str()), &expected) {
                    let mut e = String::from_str("版本不匹配: tag=");
                    e.append(tv.as_str());
                    e.append(" pyproject.toml=");
                    e.append(pv.as_str());
                    return Err(e);
                }
            },
            None => {},
        },
        None => {},
    }
    Ok(string_of(&expected))
}

} // verus!
