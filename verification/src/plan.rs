//! ROADMAP.md management: progress per version, removal of finished items
//! (with the headings left empty by it), and format checks.  Reading and
//! writing the file stay outside the library; these functions work on its
//! text.
use vstd::prelude::*;
use crate::text::{
    chars_of, contains, contains_chars, decimal, ends_with, ends_with_chars, eq,
    eq_ignore_ascii_case, eq_ignore_ascii_case_chars, lines, lines_chars, lowercase, push_char,
    starts_with, starts_with_chars, string_of, to_lowercase, trim, trim_chars, trim_end_matches,
    trim_end_matches_chars, trim_start_matches, trim_start_matches_chars, is_ws, lemma_trim_indent,
};

verus! {

// ───────────────────────────── line kinds ─────────────────────────────

/// The category headings a version may have.
pub open spec fn categories() -> Seq<Seq<char>> {
    seq![
        "### Added"@,
        "### Changed"@,
        "### Fixed"@,
        "### Removed"@,
        "### Deprecated"@,
        "### Security"@,
    ]
}

fn category_list() -> (r: Vec<&'static str>)
    ensures
        r@.len() == categories().len(),
        forall|i: int| 0 <= i < r@.len() ==> (#[trigger] r@[i])@ == categories()[i],
{
    let r = vec!["### Added", "### Changed", "### Fixed", "### Removed", "### Deprecated", "### Security"];
    r
}

/// A trimmed line of the form `## [...]`.
pub open spec fn version_header_text(t: Seq<char>) -> bool {
    starts_with(t, "## ["@) && ends_with(t, "]"@)
}

/// A finished checklist item: `- [x]` or `- [X]` after trimming.
pub open spec fn done_spec(line: Seq<char>) -> bool {
    starts_with(trim(line), "- [x]"@) || starts_with(trim(line), "- [X]"@)
}

/// A category heading, in any ASCII case.
pub open spec fn category_spec(line: Seq<char>) -> bool {
    exists|i: int|
        0 <= i < categories().len() && (trim(line) == categories()[i] || eq_ignore_ascii_case(
            trim(line),
            #[trigger] categories()[i],
        ))
}

/// A version heading.
pub open spec fn version_spec(line: Seq<char>) -> bool {
    version_header_text(trim(line))
}

fn done_chars(line: &[char]) -> (r: bool)
    ensures
        r == done_spec(line@),
{
    let t = trim_chars(line);
    starts_with_chars(&t, &chars_of("- [x]")) || starts_with_chars(&t, &chars_of("- [X]"))
}

fn category_chars(line: &[char]) -> (r: bool)
    ensures
        r == category_spec(line@),
{
    let t = trim_chars(line);
    let cats = category_list();
    let mut i: usize = 0;
    while i < cats.len()
        invariant
            i <= cats.len(),
            t@ == trim(line@),
            cats@.len() == categories().len(),
            forall|k: int| 0 <= k < cats@.len() ==> (#[trigger] cats@[k])@ == categories()[k],
            forall|k: int|
                0 <= k < i ==> !(trim(line@) == categories()[k] || eq_ignore_ascii_case(
                    trim(line@),
                    #[trigger] categories()[k],
                )),
        decreases cats.len() - i,
    {
        let c = chars_of(cats[i]);
        assert(c@ == categories()[i as int]);
        if eq(&t, &c) || eq_ignore_ascii_case_chars(&t, &c) {
            return true;
        }
        i += 1;
    }
    false
}

fn version_chars(line: &[char]) -> (r: bool)
    ensures
        r == version_spec(line@),
{
    let t = trim_chars(line);
    starts_with_chars(&t, &chars_of("## [")) && ends_with_chars(&t, &chars_of("]"))
}

/// Whether a line is a finished checklist item.
pub fn is_done_item(line: &str) -> (r: bool)
    ensures
        r == done_spec(line@),
{
    done_chars(&chars_of(line))
}

/// Whether a line is a category heading (`### Added`, `### Changed`,
/// `### Fixed`, `### Removed`, `### Deprecated`, `### Security`, in any
/// ASCII case).
pub fn is_category_header(line: &str) -> (r: bool)
    ensures
        r == category_spec(line@),
{
    category_chars(&chars_of(line))
}

/// Whether a line is a version heading `## [...]`.
pub fn is_version_header(line: &str) -> (r: bool)
    ensures
        r == version_spec(line@),
{
    version_chars(&chars_of(line))
}

// ───────────────────────────── progress ─────────────────────────────

/// The planning progress of one version.
#[derive(Debug)]
pub struct VersionProgress {
    pub version: String,
    pub done: usize,
    pub total: usize,
}

pub type ProgressView = (Seq<char>, nat, nat);

pub open spec fn progress_view(v: VersionProgress) -> ProgressView {
    (v.version@, v.done as nat, v.total as nat)
}

/// The version named in a heading: inside `## [` and `]`, trimmed, without
/// leading `v`s.
pub open spec fn header_version(t: Seq<char>) -> Seq<char> {
    trim_start_matches(trim(trim_end_matches(trim_start_matches(t, "## ["@), "]"@)), "v"@)
}

pub struct ProgressState {
    pub versions: Seq<ProgressView>,
    pub current: Option<Seq<char>>,
    pub done: nat,
    pub total: nat,
}

pub open spec fn progress_step(st: ProgressState, line: Seq<char>) -> ProgressState {
    let t = trim(line);
    if version_header_text(t) {
        ProgressState {
            versions: match st.current {
                Some(v) => st.versions.push((v, st.done, st.total)),
                None => st.versions,
            },
            current: Some(header_version(t)),
            done: 0,
            total: 0,
        }
    } else if starts_with(t, "- [x]"@) || starts_with(t, "- [X]"@) {
        ProgressState { done: st.done + 1, total: st.total + 1, ..st }
    } else if starts_with(t, "- [ ]"@) {
        ProgressState { total: st.total + 1, ..st }
    } else {
        st
    }
}

pub open spec fn progress_run(ls: Seq<Seq<char>>) -> ProgressState
    decreases ls.len(),
{
    if ls.len() == 0 {
        ProgressState { versions: Seq::empty(), current: None, done: 0, total: 0 }
    } else {
        progress_step(progress_run(ls.drop_last()), ls.last())
    }
}

/// The versions of a roadmap, in order, with their finished and total
/// checklist items (items before the first heading count for nothing).
pub open spec fn roadmap_spec(content: Seq<char>) -> Seq<ProgressView> {
    let st = progress_run(lines(content));
    match st.current {
        Some(v) => st.versions.push((v, st.done, st.total)),
        None => st.versions,
    }
}

proof fn lemma_step_by_trim(st: ProgressState, a: Seq<char>, b: Seq<char>)
    requires
        trim(a) == trim(b),
    ensures
        progress_step(st, a) == progress_step(st, b),
{
}

proof fn lemma_run_by_trim(ls: Seq<Seq<char>>, i: int, l: Seq<char>)
    requires
        0 <= i < ls.len(),
        trim(l) == trim(ls[i]),
    ensures
        progress_run(ls.update(i, l)) == progress_run(ls),
    decreases ls.len(),
{
    let u = ls.update(i, l);
    if i == ls.len() - 1 {
        assert(u.drop_last() =~= ls.drop_last());
        lemma_step_by_trim(progress_run(ls.drop_last()), l, ls.last());
    } else {
        assert(u.drop_last() =~= ls.drop_last().update(i, l));
        lemma_run_by_trim(ls.drop_last(), i, l);
    }
}

proof fn lemma_no_heading_no_versions(ls: Seq<Seq<char>>)
    ensures
        progress_run(ls).current is None ==> progress_run(ls).versions.len() == 0,
    decreases ls.len(),
{
    if ls.len() > 0 {
        lemma_no_heading_no_versions(ls.drop_last());
    }
}

/// Indenting a line of a roadmap does not change the progress reported:
/// nested checklist items count like any other.
pub proof fn roadmap_ignores_indentation(c1: Seq<char>, c2: Seq<char>, i: int, w: Seq<char>)
    requires
        0 <= i < lines(c1).len(),
        forall|j: int| 0 <= j < w.len() ==> is_ws(#[trigger] w[j]),
        lines(c2) == lines(c1).update(i, w + lines(c1)[i]),
    ensures
        roadmap_spec(c2) == roadmap_spec(c1),
{
    lemma_trim_indent(w, lines(c1)[i]);
    lemma_run_by_trim(lines(c1), i, w + lines(c1)[i]);
}

/// Every checklist item under a version's heading counts for that version:
/// a line after it that trims to `- [x] ...` or `- [X] ...` adds one finished
/// item and one item, and one that trims to `- [ ] ...` adds one item.
pub proof fn roadmap_counts_items(c1: Seq<char>, c2: Seq<char>, l: Seq<char>)
    requires
        lines(c2) == lines(c1).push(l),
        roadmap_spec(c1).len() > 0,
    ensures
        ({
            let r1 = roadmap_spec(c1);
            let n = r1.len() - 1;
            &&& (starts_with(trim(l), "- [x]"@) || starts_with(trim(l), "- [X]"@))
                ==> roadmap_spec(c2) == r1.update(n, (r1[n].0, r1[n].1 + 1, r1[n].2 + 1))
            &&& starts_with(trim(l), "- [ ]"@) ==> roadmap_spec(c2) == r1.update(
                n,
                (r1[n].0, r1[n].1, r1[n].2 + 1),
            )
        }),
{
    let ls = lines(c1);
    lemma_no_heading_no_versions(ls);
    assert(lines(c2).drop_last() =~= ls);
    let t = trim(l);
    reveal_strlit("## [");
    reveal_strlit("- [x]");
    reveal_strlit("- [X]");
    reveal_strlit("- [ ]");
    if starts_with(t, "- [x]"@) || starts_with(t, "- [X]"@) || starts_with(t, "- [ ]"@) {
        let p5 = if starts_with(t, "- [x]"@) {
            "- [x]"@
        } else if starts_with(t, "- [X]"@) {
            "- [X]"@
        } else {
            "- [ ]"@
        };
        assert(t.take(5) == p5);
        assert(t.take(5)[0] == '-');
        assert(t[0] == '-');
        if starts_with(t, "## ["@) {
            assert(t.take(4) == "## ["@);
            assert(t.take(4)[0] == '#');
        }
        assert(!version_header_text(t));
    }
    let r1 = roadmap_spec(c1);
    let st = progress_run(ls);
    assert(st.current is Some);
    if starts_with(t, "- [x]"@) || starts_with(t, "- [X]"@) {
        assert(roadmap_spec(c2) =~= r1.update(r1.len() - 1, (r1[r1.len() - 1].0, r1[r1.len() - 1].1 + 1, r1[r1.len() - 1].2 + 1)));
    }
    if starts_with(t, "- [ ]"@) {
        assert(t.take(5) == "- [ ]"@);
        assert(t.take(5)[3] == ' ');
        if starts_with(t, "- [x]"@) {
            assert(t.take(5) == "- [x]"@);
        }
        if starts_with(t, "- [X]"@) {
            assert(t.take(5) == "- [X]"@);
        }
        assert(roadmap_spec(c2) =~= r1.update(r1.len() - 1, (r1[r1.len() - 1].0, r1[r1.len() - 1].1, r1[r1.len() - 1].2 + 1)));
    }
}

/// No version holds more finished items than items.
pub open spec fn progress_ok(st: ProgressState) -> bool {
    &&& st.done <= st.total
    &&& forall|i: int| 0 <= i < st.versions.len() ==> (#[trigger] st.versions[i]).1 <= st.versions[i].2
}

proof fn lemma_progress_run_ok(ls: Seq<Seq<char>>)
    ensures
        progress_ok(progress_run(ls)),
    decreases ls.len(),
{
    if ls.len() > 0 {
        lemma_progress_run_ok(ls.drop_last());
    }
}

/// In every version of a roadmap, the finished items are at most all of
/// its items, so its completion rate never passes 100%.
pub proof fn roadmap_done_within_total(content: Seq<char>)
    ensures
        forall|i: int|
            0 <= i < roadmap_spec(content).len() ==> (#[trigger] roadmap_spec(content)[i]).1
                <= roadmap_spec(content)[i].2,
{
    lemma_progress_run_ok(lines(content));
}

fn header_version_chars(t: &[char]) -> (r: Vec<char>)
    ensures
        r@ == header_version(t@),
{
    let a = trim_start_matches_chars(t, &chars_of("## ["));
    let b = trim_end_matches_chars(&a, &chars_of("]"));
    let c = trim_chars(&b);
    trim_start_matches_chars(&c, &chars_of("v"))
}

pub open spec fn progress_views(v: Seq<VersionProgress>) -> Seq<ProgressView> {
    Seq::new(v.len(), |i: int| progress_view(v[i]))
}

/// The progress of each version of a roadmap text.
pub fn parse_roadmap(content: &str) -> (r: Vec<VersionProgress>)
    ensures
        progress_views(r@) == roadmap_spec(content@),
{
    let text = chars_of(content);
    let ls = lines_chars(&text);
    let ghost all = ls.deep_view();
    let mut versions: Vec<VersionProgress> = Vec::new();
    let mut current: Option<Vec<char>> = None;
    let mut done: usize = 0;
    let mut total: usize = 0;
    let mut i: usize = 0;
    assert(all.take(0) =~= Seq::<Seq<char>>::empty());
    assert(progress_views(versions@) =~= Seq::<ProgressView>::empty());
    while i < ls.len()
        invariant
            i <= ls.len(),
            all == ls.deep_view(),
            all == lines(content@),
            done <= total <= i,
            ({
                let st = progress_run(all.take(i as int));
                &&& st.versions == progress_views(versions@)
                &&& st.current == match current {
                    Some(v) => Some(v@),
                    None => None::<Seq<char>>,
                }
                &&& st.done == done
                &&& st.total == total
            }),
        decreases ls.len() - i,
    {
        proof {
            assert(all.take(i + 1).drop_last() =~= all.take(i as int));
            assert(ls@[i as int].deep_view() =~= ls@[i as int]@);
            assert(all.take(i + 1).last() == ls@[i as int]@);
        }
        let t = trim_chars(&ls[i]);
        if starts_with_chars(&t, &chars_of("## [")) && ends_with_chars(&t, &chars_of("]")) {
            match current {
                Some(v) => {
                    let ghost before = versions@;
                    let p = VersionProgress { version: string_of(&v), done, total };
                    versions.push(p);
                    assert(progress_views(versions@) =~= progress_views(before).push(
                        progress_view(p),
                    ));
                },
                None => {},
            }
            current = Some(header_version_chars(&t));
            done = 0;
            total = 0;
        } else if starts_with_chars(&t, &chars_of("- [x]")) || starts_with_chars(&t, &chars_of("- [X]")) {
            total += 1;
            done += 1;
        } else if starts_with_chars(&t, &chars_of("- [ ]")) {
            total += 1;
        }
        i += 1;
    }
    assert(all.take(i as int) =~= all);
    match current {
        Some(v) => {
            let ghost before = versions@;
            let p = VersionProgress { version: string_of(&v), done, total };
            versions.push(p);
            assert(progress_views(versions@) =~= progress_views(before).push(progress_view(p)));
        },
        None => {},
    }
    versions
}

// ───────────────────────────── clean ─────────────────────────────

/// The lines without finished items.
pub open spec fn remove_done(ls: Seq<Seq<char>>) -> Seq<Seq<char>> {
    ls.filter(|l: Seq<char>| !done_spec(l))
}

/// What follows a category heading that leaves it empty: a blank line or
/// another heading.
pub open spec fn ends_category(next: Seq<char>) -> bool {
    let t = trim(next);
    t.len() == 0 || category_spec(t) || version_spec(t)
}

/// What follows a version heading that leaves it empty: a blank line or
/// another version heading.
pub open spec fn ends_version(next: Seq<char>) -> bool {
    let t = trim(next);
    t.len() == 0 || version_spec(t)
}

/// From position `i` on, each category heading followed by what leaves it
/// empty is removed (what moves up is looked at again).
pub open spec fn drop_categories(ls: Seq<Seq<char>>, i: int) -> Seq<Seq<char>>
    decreases ls.len() - i,
{
    if i < 0 || i + 1 >= ls.len() {
        ls
    } else if category_spec(ls[i]) && ends_category(ls[i + 1]) {
        drop_categories(ls.remove(i), i)
    } else {
        drop_categories(ls, i + 1)
    }
}

/// As `drop_categories`, for version headings.
pub open spec fn drop_versions(ls: Seq<Seq<char>>, i: int) -> Seq<Seq<char>>
    decreases ls.len() - i,
{
    if i < 0 || i + 1 >= ls.len() {
        ls
    } else if version_spec(ls[i]) && ends_version(ls[i + 1]) {
        drop_versions(ls.remove(i), i)
    } else {
        drop_versions(ls, i + 1)
    }
}

/// Blank lines at the end removed.
pub open spec fn drop_trailing_blank(ls: Seq<Seq<char>>) -> Seq<Seq<char>>
    decreases ls.len(),
{
    if ls.len() > 0 && trim(ls.last()).len() == 0 {
        drop_trailing_blank(ls.drop_last())
    } else {
        ls
    }
}

/// The roadmap lines after cleaning: finished items removed, then empty
/// categories (a last one too), then empty versions (a last one too), then
/// blank lines at the end.
pub open spec fn clean_spec(ls: Seq<Seq<char>>) -> Seq<Seq<char>> {
    let a = remove_done(ls);
    let b = drop_categories(a, 0);
    let c = if b.len() > 0 && category_spec(b.last()) {
        b.drop_last()
    } else {
        b
    };
    let d = drop_versions(c, 0);
    let e = if d.len() > 0 && version_spec(d.last()) {
        d.drop_last()
    } else {
        d
    };
    drop_trailing_blank(e)
}

fn ends_category_chars(next: &[char]) -> (r: bool)
    ensures
        r == ends_category(next@),
{
    let t = trim_chars(next);
    t.len() == 0 || category_chars(&t) || version_chars(&t)
}

fn ends_version_chars(next: &[char]) -> (r: bool)
    ensures
        r == ends_version(next@),
{
    let t = trim_chars(next);
    t.len() == 0 || version_chars(&t)
}

fn remove_at(v: &mut Vec<Vec<char>>, i: usize)
    requires
        i < old(v).len(),
    ensures
        final(v).deep_view() == old(v).deep_view().remove(i as int),
        final(v).len() == old(v).len() - 1,
{
    let ghost before = v.deep_view();
    let _ = v.remove(i);
    assert(v.deep_view() =~= before.remove(i as int));
}

fn pop_last(v: &mut Vec<Vec<char>>)
    requires
        old(v).len() > 0,
    ensures
        final(v).deep_view() == old(v).deep_view().drop_last(),
        final(v).len() == old(v).len() - 1,
{
    let ghost before = v.deep_view();
    let _ = v.pop();
    assert(v.deep_view() =~= before.drop_last());
}

/// The lines of a roadmap text with every finished item and the headings
/// they leave empty removed: the roadmap as it is to be written back, one
/// line each (no line at all when nothing is left).
pub fn clean_roadmap(content: &str) -> (r: Vec<String>)
    ensures
        r.deep_view() == clean_spec(lines(content@)),
{
    let text = chars_of(content);
    let all = lines_chars(&text);
    let ghost ls = all.deep_view();
    // finished items
    let mut v: Vec<Vec<char>> = Vec::new();
    let mut k: usize = 0;
    assert(ls.take(0).filter(|l: Seq<char>| !done_spec(l)) =~= Seq::<Seq<char>>::empty()) by {
        reveal(Seq::filter);
    }
    while k < all.len()
        invariant
            k <= all.len(),
            ls == all.deep_view(),
            v.deep_view() == ls.take(k as int).filter(|l: Seq<char>| !done_spec(l)),
        decreases all.len() - k,
    {
        proof {
            assert(ls.take(k + 1) =~= ls.take(k as int).push(ls[k as int]));
            ls.take(k as int).lemma_filter_push(ls[k as int], |l: Seq<char>| !done_spec(l));
            assert(all@[k as int].deep_view() =~= all@[k as int]@);
        }
        if !done_chars(&all[k]) {
            let ghost before = v.deep_view();
            let line = crate::text::copy(&all[k]);
            v.push(line);
            assert(v.deep_view() =~= before.push(ls[k as int]));
        }
        k += 1;
    }
    assert(ls.take(k as int) =~= ls);
    let ghost a = v.deep_view();
    // empty categories
    let mut i: usize = 0;
    while v.len() > 0 && i < v.len() - 1
        invariant
            i <= v.len(),
            drop_categories(v.deep_view(), i as int) == drop_categories(a, 0),
        decreases v.len() - i,
    {
        proof {
            assert(v@[i as int].deep_view() =~= v@[i as int]@);
            assert(v@[i + 1].deep_view() =~= v@[i + 1]@);
        }
        if category_chars(&v[i]) && ends_category_chars(&v[i + 1]) {
            remove_at(&mut v, i);
            continue;
        }
        i += 1;
    }
    assert(drop_categories(v.deep_view(), i as int) == v.deep_view());
    let ghost b = v.deep_view();
    if v.len() > 0 {
        proof {
            assert(v@[v.len() - 1].deep_view() =~= v@[v.len() - 1]@);
        }
        if category_chars(&v[v.len() - 1]) {
            pop_last(&mut v);
        }
    }
    let ghost c = v.deep_view();
    assert(c == (if b.len() > 0 && category_spec(b.last()) {
        b.drop_last()
    } else {
        b
    }));
    // empty versions
    let mut i: usize = 0;
    while v.len() > 0 && i < v.len() - 1
        invariant
            i <= v.len(),
            drop_versions(v.deep_view(), i as int) == drop_versions(c, 0),
        decreases v.len() - i,
    {
        proof {
            assert(v@[i as int].deep_view() =~= v@[i as int]@);
            assert(v@[i + 1].deep_view() =~= v@[i + 1]@);
        }
        if version_chars(&v[i]) && ends_version_chars(&v[i + 1]) {
            remove_at(&mut v, i);
            continue;
        }
        i += 1;
    }
    assert(drop_versions(v.deep_view(), i as int) == v.deep_view());
    let ghost d = v.deep_view();
    if v.len() > 0 {
        proof {
            assert(v@[v.len() - 1].deep_view() =~= v@[v.len() - 1]@);
        }
        if version_chars(&v[v.len() - 1]) {
            pop_last(&mut v);
        }
    }
    let ghost e = v.deep_view();
    assert(e == (if d.len() > 0 && version_spec(d.last()) {
        d.drop_last()
    } else {
        d
    }));
    // trailing blank lines
    let mut more = true;
    while more
        invariant
            drop_trailing_blank(v.deep_view()) == drop_trailing_blank(e),
            !more ==> drop_trailing_blank(v.deep_view()) == v.deep_view(),
        decreases v.len() + if more { 1int } else { 0int },
    {
        if v.len() == 0 {
            more = false;
        } else {
            proof {
                assert(v@[v.len() - 1].deep_view() =~= v@[v.len() - 1]@);
            }
            let t = trim_chars(&v[v.len() - 1]);
            if t.len() == 0 {
                pop_last(&mut v);
            } else {
                more = false;
            }
        }
    }
    assert(drop_trailing_blank(v.deep_view()) == v.deep_view());
    let mut out: Vec<String> = Vec::new();
    let mut j: usize = 0;
    while j < v.len()
        invariant
            j <= v.len(),
            out.len() == j,
            out.deep_view() == v.deep_view().take(j as int),
        decreases v.len() - j,
    {
        let ghost before = out.deep_view();
        out.push(string_of(&v[j]));
        proof {
            assert(v@[j as int].deep_view() =~= v@[j as int]@);
            assert(out.deep_view() =~= v.deep_view().take(j + 1));
        }
        j += 1;
    }
    assert(v.deep_view().take(j as int) =~= v.deep_view());
    out
}

// ───────────────────────────── laws of clean ─────────────────────────────

/// A line that cleaning must keep: not a finished item, not a heading, not
/// blank.
pub open spec fn kept(l: Seq<char>) -> bool {
    !done_spec(l) && !category_spec(l) && !version_spec(l) && trim(l).len() > 0
}

/// Everything in `b` is in `a`.
pub open spec fn within(b: Seq<Seq<char>>, a: Seq<Seq<char>>) -> bool {
    forall|y: Seq<char>| #[trigger] b.contains(y) ==> a.contains(y)
}

proof fn lemma_remove_unkept(ls: Seq<Seq<char>>, i: int)
    requires
        0 <= i < ls.len(),
        !kept(ls[i]),
    ensures
        ls.remove(i).filter(|l: Seq<char>| kept(l)) == ls.filter(|l: Seq<char>| kept(l)),
        within(ls.remove(i), ls),
{
    let p = |l: Seq<char>| kept(l);
    let a = ls.take(i);
    let x = seq![ls[i]];
    let b = ls.skip(i + 1);
    assert(ls =~= a + x + b);
    assert(ls.remove(i) =~= a + b);
    Seq::<Seq<char>>::empty().lemma_filter_push(ls[i], p);
    assert(Seq::<Seq<char>>::empty().filter(p) =~= Seq::<Seq<char>>::empty()) by {
        reveal(Seq::filter);
    }
    assert(x =~= Seq::<Seq<char>>::empty().push(ls[i]));
    Seq::filter_distributes_over_add(a + x, b, p);
    Seq::filter_distributes_over_add(a, x, p);
    Seq::filter_distributes_over_add(a, b, p);
    assert(x.filter(p) =~= Seq::<Seq<char>>::empty());
    assert((a + x + b).filter(p) =~= (a + b).filter(p));
    assert forall|y: Seq<char>| #[trigger] ls.remove(i).contains(y) implies ls.contains(y) by {
        let j = choose|j: int| 0 <= j < ls.remove(i).len() && ls.remove(i)[j] == y;
        if j < i {
            assert(ls[j] == y);
        } else {
            assert(ls[j + 1] == y);
        }
    }
}

proof fn lemma_drop_last_unkept(ls: Seq<Seq<char>>)
    requires
        ls.len() > 0,
        !kept(ls.last()),
    ensures
        ls.drop_last().filter(|l: Seq<char>| kept(l)) == ls.filter(|l: Seq<char>| kept(l)),
        within(ls.drop_last(), ls),
{
    lemma_remove_unkept(ls, ls.len() - 1);
    assert(ls.remove(ls.len() - 1) =~= ls.drop_last());
}

proof fn lemma_drop_categories(ls: Seq<Seq<char>>, i: int)
    ensures
        drop_categories(ls, i).filter(|l: Seq<char>| kept(l)) == ls.filter(|l: Seq<char>| kept(l)),
        within(drop_categories(ls, i), ls),
    decreases ls.len() - i,
{
    if i < 0 || i + 1 >= ls.len() {
    } else if category_spec(ls[i]) && ends_category(ls[i + 1]) {
        lemma_remove_unkept(ls, i);
        lemma_drop_categories(ls.remove(i), i);
    } else {
        lemma_drop_categories(ls, i + 1);
    }
}

proof fn lemma_drop_versions(ls: Seq<Seq<char>>, i: int)
    ensures
        drop_versions(ls, i).filter(|l: Seq<char>| kept(l)) == ls.filter(|l: Seq<char>| kept(l)),
        within(drop_versions(ls, i), ls),
    decreases ls.len() - i,
{
    if i < 0 || i + 1 >= ls.len() {
    } else if version_spec(ls[i]) && ends_version(ls[i + 1]) {
        lemma_remove_unkept(ls, i);
        lemma_drop_versions(ls.remove(i), i);
    } else {
        lemma_drop_versions(ls, i + 1);
    }
}

proof fn lemma_drop_trailing_blank(ls: Seq<Seq<char>>)
    ensures
        drop_trailing_blank(ls).filter(|l: Seq<char>| kept(l)) == ls.filter(|l: Seq<char>| kept(l)),
        within(drop_trailing_blank(ls), ls),
    decreases ls.len(),
{
    if ls.len() > 0 && trim(ls.last()).len() == 0 {
        lemma_drop_last_unkept(ls);
        lemma_drop_trailing_blank(ls.drop_last());
    }
}

proof fn lemma_remove_done(ls: Seq<Seq<char>>)
    ensures
        remove_done(ls).filter(|l: Seq<char>| kept(l)) == ls.filter(|l: Seq<char>| kept(l)),
        forall|y: Seq<char>| #[trigger] remove_done(ls).contains(y) ==> !done_spec(y),
    decreases ls.len(),
{
    broadcast use vstd::seq_lib::group_filter_ensures;

    let p = |l: Seq<char>| kept(l);
    let q = |l: Seq<char>| !done_spec(l);
    if ls.len() == 0 {
        assert(ls.filter(q) =~= ls) by {
            reveal(Seq::filter);
        }
    } else {
        let d = ls.drop_last();
        lemma_remove_done(d);
        assert(ls =~= d.push(ls.last()));
        d.lemma_filter_push(ls.last(), q);
        d.lemma_filter_push(ls.last(), p);
        d.filter(q).lemma_filter_push(ls.last(), p);
    }
    assert forall|y: Seq<char>| #[trigger] remove_done(ls).contains(y) implies !done_spec(y) by {
        let j = choose|j: int| 0 <= j < ls.filter(q).len() && ls.filter(q)[j] == y;
        ls.lemma_filter_pred(q, j);
    }
}

/// Cleaning a roadmap leaves no finished item, and keeps every other item
/// and text line, in order: only finished items, headings and blank lines
/// go.
pub proof fn clean_keeps_open_items(ls: Seq<Seq<char>>)
    ensures
        forall|i: int| 0 <= i < clean_spec(ls).len() ==> !done_spec(#[trigger] clean_spec(ls)[i]),
        clean_spec(ls).filter(|l: Seq<char>| kept(l)) == ls.filter(|l: Seq<char>| kept(l)),
{
    let a = remove_done(ls);
    let b = drop_categories(a, 0);
    let c = if b.len() > 0 && category_spec(b.last()) {
        b.drop_last()
    } else {
        b
    };
    let d = drop_versions(c, 0);
    let e = if d.len() > 0 && version_spec(d.last()) {
        d.drop_last()
    } else {
        d
    };
    lemma_remove_done(ls);
    lemma_drop_categories(a, 0);
    if b.len() > 0 && category_spec(b.last()) {
        lemma_drop_last_unkept(b);
    }
    lemma_drop_versions(c, 0);
    if d.len() > 0 && version_spec(d.last()) {
        lemma_drop_last_unkept(d);
    }
    lemma_drop_trailing_blank(e);
    let r = clean_spec(ls);
    assert forall|i: int| 0 <= i < r.len() implies !done_spec(#[trigger] r[i]) by {
        assert(r.contains(r[i]));
        assert(e.contains(r[i]));
        assert(d.contains(r[i]));
        assert(c.contains(r[i]));
        assert(b.contains(r[i]));
        assert(a.contains(r[i]));
    }
}

// ───────────────────────────── doctor ─────────────────────────────

/// A format problem found on a line (numbered from 1).
#[derive(Debug)]
pub struct FixNote {
    pub line: usize,
    pub issue: String,
}

pub type NoteView = (nat, Seq<char>);

pub open spec fn note_view(f: FixNote) -> NoteView {
    (f.line as nat, f.issue@)
}

pub open spec fn note_views(v: Seq<FixNote>) -> Seq<NoteView> {
    Seq::new(v.len(), |i: int| note_view(v[i]))
}

/// The first category whose (Unicode) lowercase form is `low`, from `i` on.
pub open spec fn category_matching(low: Seq<char>, i: int) -> Option<Seq<char>>
    decreases categories().len() - i,
{
    if i < 0 || i >= categories().len() {
        None
    } else if lowercase(categories()[i]) == low {
        Some(categories()[i])
    } else {
        category_matching(low, i + 1)
    }
}

/// The version text of a heading line, as the doctor reads it.
pub open spec fn heading_text(t: Seq<char>) -> Seq<char> {
    trim(trim_end_matches(trim_start_matches(t, "## ["@), "]"@))
}

/// The problems of one line: a version with a `v` prefix, a known category
/// in the wrong case, a checkbox in a non-standard form.
pub open spec fn line_notes(n: nat, line: Seq<char>) -> Seq<NoteView> {
    let t = trim(line);
    let v_notes = if version_header_text(t) && starts_with(heading_text(t), "v"@) {
        seq![(n, "版本号不应有 v 前缀: "@ + heading_text(t))]
    } else {
        Seq::empty()
    };
    let c_notes = if starts_with(t, "### "@) {
        match category_matching(lowercase(t), 0) {
            Some(c) => if t != c {
                seq![(n, "分类标题大小写: 应为 '"@ + c + "'，当前 '"@ + t + "'"@)]
            } else {
                Seq::empty()
            },
            None => Seq::empty(),
        }
    } else {
        Seq::empty()
    };
    let b_notes = if (contains(t, "[x]"@) || contains(t, "[X]"@) || contains(t, "[ ]"@)) && !(
    starts_with(t, "- [x] "@) || starts_with(t, "- [X] "@) || starts_with(t, "- [ ] "@)) {
        seq![(n, "checkbox 格式异常: "@ + t)]
    } else {
        Seq::empty()
    };
    v_notes + c_notes + b_notes
}

/// The problems of all lines, in line order.
pub open spec fn doctor_run(ls: Seq<Seq<char>>) -> Seq<NoteView>
    decreases ls.len(),
{
    if ls.len() == 0 {
        Seq::empty()
    } else {
        doctor_run(ls.drop_last()) + line_notes(ls.len() as nat, ls.last())
    }
}

fn category_matching_exec(low: &[char]) -> (r: Option<&'static str>)
    ensures
        match r {
            Some(c) => category_matching(low@, 0) == Some(c@),
            None => category_matching(low@, 0) is None,
        },
{
    let cats = category_list();
    let mut i: usize = 0;
    while i < cats.len()
        invariant
            i <= cats.len(),
            cats@.len() == categories().len(),
            forall|k: int| 0 <= k < cats@.len() ==> (#[trigger] cats@[k])@ == categories()[k],
            category_matching(low@, 0) == category_matching(low@, i as int),
        decreases cats.len() - i,
    {
        let c = cats[i];
        assert(c@ == categories()[i as int]);
        let cl = chars_of(to_lowercase(c).as_str());
        if eq(&cl, low) {
            return Some(c);
        }
        i += 1;
    }
    None
}

fn push_note(notes: &mut Vec<FixNote>, n: usize, issue: String)
    ensures
        note_views(final(notes)@) == note_views(old(notes)@).push((n as nat, issue@)),
{
    let ghost before = notes@;
    let f = FixNote { line: n, issue };
    notes.push(f);
    assert(note_views(notes@) =~= note_views(before).push(note_view(f)));
}

/// Checks the format of a roadmap text and lists the problems; it changes
/// nothing.
pub fn doctor_roadmap(content: &str) -> (r: Vec<FixNote>)
    ensures
        note_views(r@) == doctor_run(lines(content@)),
{
    let text = chars_of(content);
    let ls = lines_chars(&text);
    let ghost all = ls.deep_view();
    let mut notes: Vec<FixNote> = Vec::new();
    let mut idx: usize = 0;
    assert(note_views(notes@) =~= doctor_run(all.take(0)));
    while idx < ls.len()
        invariant
            idx <= ls.len(),
            all == ls.deep_view(),
            note_views(notes@) == doctor_run(all.take(idx as int)),
        decreases ls.len() - idx,
    {
        proof {
            assert(all.take(idx + 1).drop_last() =~= all.take(idx as int));
            assert(ls@[idx as int].deep_view() =~= ls@[idx as int]@);
            assert(all.take(idx + 1).last() == ls@[idx as int]@);
        }
        let line_num = idx + 1;
        let t = trim_chars(&ls[idx]);
        let ghost start = note_views(notes@);
        let ghost tv = t@;
        // version prefix
        if starts_with_chars(&t, &chars_of("## [")) && ends_with_chars(&t, &chars_of("]")) {
            let a = trim_start_matches_chars(&t, &chars_of("## ["));
            let b = trim_end_matches_chars(&a, &chars_of("]"));
            let ver = trim_chars(&b);
            if starts_with_chars(&ver, &chars_of("v")) {
                let mut m = String::from_str("版本号不应有 v 前缀: ");
                crate::text::append_chars(&mut m, &ver);
                push_note(&mut notes, line_num, m);
            }
        }
        let ghost after_v = note_views(notes@);
        // category case
        if starts_with_chars(&t, &chars_of("### ")) {
            let ts = string_of(&t);
            let low = chars_of(to_lowercase(ts.as_str()).as_str());
            match category_matching_exec(&low) {
                Some(c) => {
                    if !eq(&t, &chars_of(c)) {
                        let mut m = String::from_str("分类标题大小写: 应为 '");
                        m.append(c);
                        m.append("'，当前 '");
                        crate::text::append_chars(&mut m, &t);
                        m.append("'");
                        push_note(&mut notes, line_num, m);
                    }
                },
                None => {},
            }
        }
        // checkbox form
        let has_any_box = contains_chars(&t, &chars_of("[x]")) || contains_chars(&t, &chars_of("[X]"))
            || contains_chars(&t, &chars_of("[ ]"));
        let is_standard = starts_with_chars(&t, &chars_of("- [x] ")) || starts_with_chars(
            &t,
            &chars_of("- [X] "),
        ) || starts_with_chars(&t, &chars_of("- [ ] "));
        if has_any_box && !is_standard {
            let mut m = String::from_str("checkbox 格式异常: ");
            crate::text::append_chars(&mut m, &t);
            push_note(&mut notes, line_num, m);
        }
        proof {
            let n = (idx + 1) as nat;
            let l = all[idx as int];
            let v_notes = if version_header_text(tv) && starts_with(heading_text(tv), "v"@) {
                seq![(n, "版本号不应有 v 前缀: "@ + heading_text(tv))]
            } else {
                Seq::empty()
            };
            assert(after_v =~= start + v_notes);
            assert(note_views(notes@) =~= start + line_notes(n, l));
            assert(all.take(idx + 1).len() == n);
        }
        idx += 1;
    }
    assert(all.take(idx as int) =~= all);
    notes
}

/// The place where a language model would repair the listed problems; it
/// proposes no repair and leaves the roadmap to a human.
#[allow(unused_variables)]
pub fn doctor_llm(content: &str, issues: &[FixNote]) -> (r: Option<String>)
    ensures
        r is None,
{
    None
}

} // verus!
