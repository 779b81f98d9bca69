//! Checks run before a release: build, test and publish dry run.  The
//! commands are run by the caller; the library decides what their outcomes
//! mean.
use vstd::prelude::*;
use crate::text::{chars_of, contains, contains_chars, lines, lines_chars, string_of, trim, trim_chars};

verus! {

/// The outcome of the checks before a release.
#[derive(Debug)]
pub struct PreflightResult {
    pub build_ok: bool,
    pub test_ok: bool,
    pub dry_run_ok: bool,
    pub version: String,
}

impl PreflightResult {
    /// All three checks passed.
    pub fn all_pass(&self) -> (r: bool)
        ensures
            r == (self.build_ok && self.test_ok && self.dry_run_ok),
    {
        self.build_ok && self.test_ok && self.dry_run_ok
    }
}

/// Whether a check step passes: a project without `Cargo.toml` skips it
/// (and passes); otherwise the command must have run (`run` is `None` when
/// `cargo` could not be started) and succeeded.
pub fn step_ok(has_cargo_toml: bool, run: Option<bool>) -> (r: bool)
    ensures
        r == (!has_cargo_toml || run == Some(true)),
{
    if !has_cargo_toml {
        return true;
    }
    match run {
        Some(success) => success,
        None => false,
    }
}

/// The first line of `cargo test` output that holds `test result:`.
pub open spec fn result_line_from(ls: Seq<Seq<char>>, k: int) -> Option<Seq<char>>
    decreases ls.len() - k,
{
    if k < 0 || k >= ls.len() {
        None
    } else if contains(ls[k], "test result:"@) {
        Some(ls[k])
    } else {
        result_line_from(ls, k + 1)
    }
}

/// The summary line of `cargo test` output, trimmed, if it has one.
pub fn test_result_line(output: &str) -> (r: Option<String>)
    ensures
        match r {
            Some(l) => result_line_from(lines(output@), 0) matches Some(x) && l@ == trim(x),
            None => result_line_from(lines(output@), 0) is None,
        },
{
    let text = chars_of(output);
    let ls = lines_chars(&text);
    let ghost all = ls.deep_view();
    let marker = chars_of("test result:");
    let mut i: usize = 0;
    while i < ls.len()
        invariant
            i <= ls.len(),
            all == ls.deep_view(),
            all == lines(output@),
            marker@ == "test result:"@,
            result_line_from(all, 0) == result_line_from(all, i as int),
        decreases ls.len() - i,
    {
        proof {
            assert(ls@[i as int].deep_view() =~= ls@[i as int]@);
        }
        if contains_chars(&ls[i], &marker) {
            return Some(string_of(&trim_chars(&ls[i])));
        }
        i += 1;
    }
    None
}

} // verus!
