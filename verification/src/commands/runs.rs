//! What the plan, test and build commands compute from their inputs: the
//! checklist counts of a planning file, the outcome of a `cargo test` run,
//! and the elapsed time of a build.
use vstd::prelude::*;
use crate::text::{
    chars_of, contains, contains_chars, decimal, lines, lines_chars, push_char, push_decimal,
    starts_with, starts_with_chars, string_of, trim, trim_chars,
};

verus! {

/// How many lines of `ls`, trimmed, start with `p`.
pub open spec fn count_prefixed(ls: Seq<Seq<char>>, p: Seq<char>) -> nat
    decreases ls.len(),
{
    if ls.len() == 0 {
        0
    } else {
        count_prefixed(ls.drop_last(), p) + if starts_with(trim(ls.last()), p) {
            1nat
        } else {
            0nat
        }
    }
}

proof fn lemma_count_prefixed_le(ls: Seq<Seq<char>>, p: Seq<char>)
    ensures
        count_prefixed(ls, p) <= ls.len(),
    decreases ls.len(),
{
    if ls.len() > 0 {
        lemma_count_prefixed_le(ls.drop_last(), p);
    }
}

/// The summary of one planning file: its line count, its open items
/// (`- [ ]`) and its finished items (`- [x]`).
pub fn plan_file_summary(content: &str) -> (r: (usize, usize, usize))
    ensures
        r.0 == lines(content@).len(),
        r.1 == count_prefixed(lines(content@), "- [ ]"@),
        r.2 == count_prefixed(lines(content@), "- [x]"@),
{
    let text = chars_of(content);
    let ls = lines_chars(&text);
    let ghost all = ls.deep_view();
    let open_mark = chars_of("- [ ]");
    let done_mark = chars_of("- [x]");
    let mut todo: usize = 0;
    let mut done: usize = 0;
    let mut i: usize = 0;
    while i < ls.len()
        invariant
            i <= ls.len(),
            all == ls.deep_view(),
            open_mark@ == "- [ ]"@,
            done_mark@ == "- [x]"@,
            todo == count_prefixed(all.take(i as int), "- [ ]"@),
            done == count_prefixed(all.take(i as int), "- [x]"@),
        decreases ls.len() - i,
    {
        proof {
            assert(all.take(i + 1).drop_last() =~= all.take(i as int));
            assert(ls@[i as int].deep_view() =~= ls@[i as int]@);
            assert(all.take(i + 1).last() == ls@[i as int]@);
            lemma_count_prefixed_le(all.take(i as int), "- [ ]"@);
            lemma_count_prefixed_le(all.take(i as int), "- [x]"@);
        }
        let t = trim_chars(&ls[i]);
        if starts_with_chars(&t, &open_mark) {
            todo += 1;
        }
        if starts_with_chars(&t, &done_mark) {
            done += 1;
        }
        i += 1;
    }
    assert(all.take(i as int) =~= all);
    (ls.len(), todo, done)
}

/// The name of a failed test in a `name ... FAILED` line: the text before
/// the first `...`, trimmed.
pub open spec fn test_name(l: Seq<char>) -> Seq<char> {
    trim(before_dots(l, 0))
}

/// `l` up to its first `...` at or after `k` (all of it when there is none).
pub open spec fn before_dots(l: Seq<char>, k: int) -> Seq<char>
    decreases l.len() - k,
{
    if k < 0 || k + 3 > l.len() {
        l
    } else if l[k] == '.' && l[k + 1] == '.' && l[k + 2] == '.' {
        l.take(k)
    } else {
        before_dots(l, k + 1)
    }
}

/// The passed tests (lines holding `... ok`) and the failed ones (lines
/// holding `... FAILED`, by name) of a `cargo test` output.
pub open spec fn run_outcome(ls: Seq<Seq<char>>) -> (nat, Seq<Seq<char>>)
    decreases ls.len(),
{
    if ls.len() == 0 {
        (0, Seq::empty())
    } else {
        let r = run_outcome(ls.drop_last());
        let l = ls.last();
        (
            r.0 + if contains(l, "... ok"@) {
                1nat
            } else {
                0nat
            },
            if contains(l, "... FAILED"@) {
                r.1.push(test_name(l))
            } else {
                r.1
            },
        )
    }
}

proof fn lemma_run_outcome_le(ls: Seq<Seq<char>>)
    ensures
        run_outcome(ls).0 <= ls.len(),
    decreases ls.len(),
{
    if ls.len() > 0 {
        lemma_run_outcome_le(ls.drop_last());
    }
}

fn before_dots_exec(l: &[char]) -> (r: Vec<char>)
    ensures
        r@ == before_dots(l@, 0),
{
    let mut k: usize = 0;
    while k < l.len() && 3 <= l.len() - k && !(l[k] == '.' && l[k + 1] == '.' && l[k + 2] == '.')
        invariant
            k <= l.len(),
            before_dots(l@, 0) == before_dots(l@, k as int),
        decreases l.len() - k,
    {
        k += 1;
    }
    if k < l.len() && 3 <= l.len() - k {
        crate::text::slice_of(l, 0, k)
    } else {
        crate::text::copy(l)
    }
}

/// Counts the passed tests and names the failed ones in the output of a
/// `cargo test` run.
pub fn test_run_outcome(output: &str) -> (r: (usize, Vec<String>))
    ensures
        r.0 == run_outcome(lines(output@)).0,
        r.1.deep_view() == run_outcome(lines(output@)).1,
{
    let text = chars_of(output);
    let ls = lines_chars(&text);
    let ghost all = ls.deep_view();
    let ok_mark = chars_of("... ok");
    let failed_mark = chars_of("... FAILED");
    let mut passed: usize = 0;
    let mut failed: Vec<String> = Vec::new();
    let mut i: usize = 0;
    while i < ls.len()
        invariant
            i <= ls.len(),
            all == ls.deep_view(),
            ok_mark@ == "... ok"@,
            failed_mark@ == "... FAILED"@,
            passed == run_outcome(all.take(i as int)).0,
            failed.deep_view() == run_outcome(all.take(i as int)).1,
        decreases ls.len() - i,
    {
        proof {
            assert(all.take(i + 1).drop_last() =~= all.take(i as int));
            assert(ls@[i as int].deep_view() =~= ls@[i as int]@);
            assert(all.take(i + 1).last() == ls@[i as int]@);
            lemma_run_outcome_le(all.take(i as int));
        }
        if contains_chars(&ls[i], &ok_mark) {
            passed += 1;
        }
        if contains_chars(&ls[i], &failed_mark) {
            let ghost before = failed.deep_view();
            let name = trim_chars(&before_dots_exec(&ls[i]));
            failed.push(string_of(&name));
            assert(failed.deep_view() =~= before.push(test_name(all[i as int])));
        }
        i += 1;
    }
    assert(all.take(i as int) =~= all);
    (passed, failed)
}

/// The elapsed time of a build: `S.mmms` from one second on, else `Nms`.
pub open spec fn elapsed_spec(secs: nat, millis: nat) -> Seq<char> {
    if secs > 0 {
        decimal(secs) + seq!['.'] + padded3(millis) + seq!['s']
    } else {
        decimal(millis) + "ms"@
    }
}

/// `n` in decimal, padded with zeros on the left to three digits.
pub open spec fn padded3(n: nat) -> Seq<char> {
    if decimal(n).len() >= 3 {
        decimal(n)
    } else {
        Seq::new((3 - decimal(n).len()) as nat, |i: int| '0') + decimal(n)
    }
}

pub fn elapsed_text(secs: u64, millis: u32) -> (r: String)
    ensures
        r@ == elapsed_spec(secs as nat, millis as nat),
{
    let mut s = String::new();
    if secs > 0 {
        push_decimal(&mut s, secs);
        push_char(&mut s, '.');
        let d = crate::text::decimal_string(millis as u64);
        let dc = chars_of(d.as_str());
        let mut pad: usize = 0;
        let ghost start = s@;
        let need: usize = if dc.len() >= 3 {
            0
        } else {
            3 - dc.len()
        };
        while pad < need
            invariant
                pad <= need,
                s@ == start + Seq::new(pad as nat, |i: int| '0'),
            decreases need - pad,
        {
            push_char(&mut s, '0');
            assert(s@ =~= start + Seq::new((pad + 1) as nat, |i: int| '0'));
            pad += 1;
        }
        s.append(d.as_str());
        push_char(&mut s, 's');
        proof {
            if dc.len() >= 3 {
                assert(Seq::new(0nat, |i: int| '0') =~= Seq::<char>::empty());
            }
        }
        assert(s@ =~= elapsed_spec(secs as nat, millis as nat));
    } else {
        push_decimal(&mut s, millis as u64);
        s.append("ms");
        assert(s@ =~= elapsed_spec(secs as nat, millis as nat));
    }
    s
}

} // verus!
