//! The in-process submodule scan: `.gitmodules` parsing, the status of a
//! submodule from what was observed, and the summary of a scan ordered by
//! submodule name.  The repository access itself stays outside the library.
use vstd::prelude::*;
pub use crate::model::{CommitHash, RepoState, Submodule, SubmoduleStatus};
use crate::model::{attention_names, count_status, statuses};
use crate::text::{
    chars_of, ends_with, lemma_lex_lt_total, lemma_lex_lt_transitive, lex_lt, lex_lt_chars, lines, lines_chars, slice_of, starts_with,
    strip_prefix_chars, string_of, trim, trim_chars,
};

verus! {

// ───────────────────────────── .gitmodules ─────────────────────────────

/// One `.gitmodules` entry: name, path, url and branch.
pub type IniEntry = (Seq<char>, Seq<char>, Seq<char>, Seq<char>);

/// The parser's state between lines.
pub struct IniState {
    pub entries: Seq<IniEntry>,
    pub name: Seq<char>,
    pub path: Seq<char>,
    pub url: Seq<char>,
    pub branch: Seq<char>,
    pub in_submodule: bool,
}

pub open spec fn ini_start() -> IniState {
    IniState {
        entries: Seq::empty(),
        name: Seq::empty(),
        path: Seq::empty(),
        url: Seq::empty(),
        branch: "main"@,
        in_submodule: false,
    }
}

/// The name in a `[submodule "name"]` header.
pub open spec fn section_name(t: Seq<char>) -> Option<Seq<char>> {
    let p = "[submodule \""@;
    if starts_with(t, p) && ends_with(t.skip(p.len() as int), "\"]"@) {
        let rest = t.skip(p.len() as int);
        Some(rest.take(rest.len() - 2))
    } else {
        None
    }
}

/// `t` without prefix `p`, when it has it.
pub open spec fn after_prefix(t: Seq<char>, p: Seq<char>) -> Option<Seq<char>> {
    if starts_with(t, p) {
        Some(t.skip(p.len() as int))
    } else {
        None
    }
}

/// One line: a header closes the open entry (whose fields then start empty)
/// and opens a new one; inside an entry, `path = `, `url = ` and `branch = `
/// lines set fields; anything else is ignored.
pub open spec fn ini_step(st: IniState, line: Seq<char>) -> IniState {
    let t = trim(line);
    match section_name(t) {
        Some(n) => if st.in_submodule {
            IniState {
                entries: st.entries.push((st.name, st.path, st.url, st.branch)),
                name: n,
                path: Seq::empty(),
                url: Seq::empty(),
                branch: Seq::empty(),
                in_submodule: true,
            }
        } else {
            IniState { name: n, in_submodule: true, ..st }
        },
        None => if !st.in_submodule {
            st
        } else if after_prefix(t, "path = "@) is Some {
            IniState { path: after_prefix(t, "path = "@).unwrap(), ..st }
        } else if after_prefix(t, "url = "@) is Some {
            IniState { url: after_prefix(t, "url = "@).unwrap(), ..st }
        } else if after_prefix(t, "branch = "@) is Some {
            IniState { branch: after_prefix(t, "branch = "@).unwrap(), ..st }
        } else {
            st
        },
    }
}

pub open spec fn ini_run(ls: Seq<Seq<char>>) -> IniState
    decreases ls.len(),
{
    if ls.len() == 0 {
        ini_start()
    } else {
        ini_step(ini_run(ls.drop_last()), ls.last())
    }
}

/// The entries of a `.gitmodules` text, the last one closed at the end.
pub open spec fn gitmodules_spec(content: Seq<char>) -> Seq<IniEntry> {
    let st = ini_run(lines(content));
    if st.in_submodule {
        st.entries.push((st.name, st.path, st.url, st.branch))
    } else {
        st.entries
    }
}

pub open spec fn entry_view(e: (String, String, String, String)) -> IniEntry {
    (e.0@, e.1@, e.2@, e.3@)
}

pub open spec fn entries_view(v: Seq<(String, String, String, String)>) -> Seq<IniEntry> {
    Seq::new(v.len(), |i: int| entry_view(v[i]))
}

fn section_name_exec(t: &[char]) -> (r: Option<Vec<char>>)
    ensures
        match r {
            Some(n) => section_name(t@) == Some(n@),
            None => section_name(t@) is None,
        },
{
    let p = chars_of("[submodule \"");
    let q = chars_of("\"]");
    match strip_prefix_chars(t, &p) {
        Some(rest) => {
            if crate::text::ends_with_chars(&rest, &q) {
                proof {
                    reveal_strlit("\"]");
                }
                Some(slice_of(&rest, 0, rest.len() - 2))
            } else {
                None
            }
        },
        None => None,
    }
}

fn after_prefix_exec(t: &[char], p: &str) -> (r: Option<String>)
    ensures
        match r {
            Some(s) => after_prefix(t@, p@) == Some(s@),
            None => after_prefix(t@, p@) is None,
        },
{
    let pc = chars_of(p);
    match strip_prefix_chars(t, &pc) {
        Some(rest) => Some(string_of(&rest)),
        None => None,
    }
}

/// Parses `.gitmodules` text into `(name, path, url, branch)` entries; the
/// first entry's branch defaults to `main`, later ones to the empty string.
pub fn parse_gitmodules_ini(content: &str) -> (r: Vec<(String, String, String, String)>)
    ensures
        entries_view(r@) == gitmodules_spec(content@),
{
    let text = chars_of(content);
    let ls = lines_chars(&text);
    let ghost all = ls.deep_view();
    let mut entries: Vec<(String, String, String, String)> = Vec::new();
    let mut name = String::new();
    let mut path = String::new();
    let mut url = String::new();
    let mut branch = String::from_str("main");
    let mut in_submodule = false;
    let mut i: usize = 0;
    assert(all.take(0) =~= Seq::<Seq<char>>::empty());
    assert(entries_view(entries@) =~= Seq::<IniEntry>::empty());
    while i < ls.len()
        invariant
            i <= ls.len(),
            all == ls.deep_view(),
            all == lines(content@),
            ({
                let st = ini_run(all.take(i as int));
                &&& st.entries == entries_view(entries@)
                &&& st.name == name@
                &&& st.path == path@
                &&& st.url == url@
                &&& st.branch == branch@
                &&& st.in_submodule == in_submodule
            }),
        decreases ls.len() - i,
    {
        proof {
            assert(all.take(i + 1).drop_last() =~= all.take(i as int));
            assert(ls@[i as int].deep_view() =~= ls@[i as int]@);
            assert(all.take(i + 1).last() == ls@[i as int]@);
        }
        let t = trim_chars(&ls[i]);
        match section_name_exec(&t) {
            Some(n) => {
                if in_submodule {
                    let ghost before = entries@;
                    let e = (name, path, url, branch);
                    entries.push(e);
                    assert(entries_view(entries@) =~= entries_view(before).push(entry_view(e)));
                    path = String::new();
                    url = String::new();
                    branch = String::new();
                }
                name = string_of(&n);
                in_submodule = true;
            },
            None => {
                if in_submodule {
                    match after_prefix_exec(&t, "path = ") {
                        Some(p) => {
                            path = p;
                        },
                        None => match after_prefix_exec(&t, "url = ") {
                            Some(u) => {
                                url = u;
                            },
                            None => match after_prefix_exec(&t, "branch = ") {
                                Some(b) => {
                                    branch = b;
                                },
                                None => {},
                            },
                        },
                    }
                }
            },
        }
        i += 1;
    }
    assert(all.take(i as int) =~= all);
    if in_submodule {
        let ghost before = entries@;
        let e = (name, path, url, branch);
        entries.push(e);
        assert(entries_view(entries@) =~= entries_view(before).push(entry_view(e)));
    }
    entries
}

// ───────────────────────────── status ─────────────────────────────

/// What a scan reports for a submodule that is missing or cannot be opened:
/// zero hashes, no counts, uninitialized.
pub fn default_submodule_state() -> (r: (
    CommitHash,
    CommitHash,
    bool,
    usize,
    usize,
    bool,
    bool,
    bool,
    bool,
))
    ensures
        r.0.0@ == CommitHash::zero_view(),
        r.1.0@ == CommitHash::zero_view(),
        !r.2 && r.3 == 0 && r.4 == 0 && !r.5 && !r.6 && r.7 && !r.8,
{
    (CommitHash::default(), CommitHash::default(), false, 0, 0, false, false, true, false)
}

/// The status ladder of the in-process scan: as the command-line scan, except
/// that an unreachable remote with a local HEAD away from the parent's
/// pointer also counts as ahead of the parent.
pub open spec fn status_spec(
    is_uninitialized: bool,
    is_dirty: bool,
    is_detached: bool,
    is_orphaned: bool,
    remote_unreachable: bool,
    ahead_count: nat,
    behind_count: nat,
    heads_differ: bool,
) -> SubmoduleStatus {
    if is_uninitialized {
        SubmoduleStatus::Uninitialized
    } else if is_dirty {
        SubmoduleStatus::Dirty
    } else if is_detached {
        SubmoduleStatus::Detached
    } else if is_orphaned && !remote_unreachable {
        SubmoduleStatus::Orphaned
    } else if (remote_unreachable && heads_differ) || (ahead_count > 0 && behind_count == 0) {
        SubmoduleStatus::AheadOfParent
    } else if behind_count > 0 && !remote_unreachable {
        SubmoduleStatus::BehindRemote
    } else {
        SubmoduleStatus::Clean
    }
}

/// Decides a submodule's status from what the scan observed.
pub fn determine_submodule_status(
    is_uninitialized: bool,
    is_dirty: bool,
    is_detached: bool,
    is_orphaned: bool,
    remote_unreachable: bool,
    ahead_count: usize,
    behind_count: usize,
    local_head: &CommitHash,
    parent_pointer: &CommitHash,
) -> (r: SubmoduleStatus)
    ensures
        r == status_spec(
            is_uninitialized,
            is_dirty,
            is_detached,
            is_orphaned,
            remote_unreachable,
            ahead_count as nat,
            behind_count as nat,
            local_head.0@ != parent_pointer.0@,
        ),
{
    if is_uninitialized {
        return SubmoduleStatus::Uninitialized;
    }
    if is_dirty {
        return SubmoduleStatus::Dirty;
    }
    if is_detached {
        return SubmoduleStatus::Detached;
    }
    if is_orphaned && !remote_unreachable {
        return SubmoduleStatus::Orphaned;
    }
    if (remote_unreachable && !local_head.same(parent_pointer)) || (ahead_count > 0 && behind_count
        == 0) {
        return SubmoduleStatus::AheadOfParent;
    }
    if behind_count > 0 && !remote_unreachable {
        return SubmoduleStatus::BehindRemote;
    }
    SubmoduleStatus::Clean
}

/// What the in-process scan reads in a submodule's own repository: its
/// HEAD (the zero hash when it has none), whether HEAD is detached, the
/// first remote-tracking head (`None` when there is none), and whether the
/// working tree has changes.
#[derive(Debug)]
pub struct GixObserved {
    pub local_head: CommitHash,
    pub is_detached: bool,
    pub remote_head: Option<CommitHash>,
    pub is_dirty: bool,
}

/// The record of one submodule from the in-process scan.  A submodule whose
/// repository is missing or cannot be read (`None`) has the default state.
/// This scan counts no commits ahead or behind and never tests for an
/// orphaned pointer; the tracked branch is always `main`.
pub fn gix_scanned_submodule(
    name: String,
    path: String,
    url: String,
    parent_pointer: CommitHash,
    observed: Option<GixObserved>,
) -> (r: Submodule)
    ensures
        r.name@ == name@,
        r.path@ == path@,
        r.url@ == url@,
        r.tracked_branch@ == "main"@,
        r.parent_pointer.0@ == parent_pointer.0@,
        r.ahead_count == 0,
        r.behind_count == 0,
        match observed {
            None => {
                &&& r.local_head.0@ == CommitHash::zero_view()
                &&& r.remote_head.0@ == CommitHash::zero_view()
                &&& !r.remote_unreachable
                &&& r.status == SubmoduleStatus::Uninitialized
            },
            Some(o) => {
                &&& r.local_head.0@ == o.local_head.0@
                &&& r.remote_head.0@ == match o.remote_head {
                    Some(h) => h.0@,
                    None => CommitHash::zero_view(),
                }
                &&& r.remote_unreachable == o.remote_head is None
                &&& r.status == status_spec(
                    false,
                    o.is_dirty,
                    o.is_detached,
                    false,
                    o.remote_head is None,
                    0,
                    0,
                    o.local_head.0@ != parent_pointer.0@,
                )
            },
        },
        r.status != SubmoduleStatus::Orphaned,
        r.status != SubmoduleStatus::BehindRemote,
{
    let (local_head, remote_head, is_detached, ahead, behind, orphaned, unreachable, uninit, dirty) =
        match observed {
        None => default_submodule_state(),
        Some(o) => {
            let unreachable = o.remote_head.is_none();
            let remote = match o.remote_head {
                Some(h) => h,
                None => CommitHash::default(),
            };
            (o.local_head, remote, o.is_detached, 0, 0, false, unreachable, false, o.is_dirty)
        },
    };
    let status = determine_submodule_status(
        uninit,
        dirty,
        is_detached,
        orphaned,
        unreachable,
        ahead,
        behind,
        &local_head,
        &parent_pointer,
    );
    Submodule {
        name,
        path,
        url,
        tracked_branch: String::from_str("main"),
        parent_pointer,
        local_head,
        remote_head,
        status,
        ahead_count: ahead,
        behind_count: behind,
        remote_unreachable: unreachable,
    }
}

// ───────────────────────────── summary ─────────────────────────────

/// `x` put into `s` behind every submodule whose name does not sort after
/// its own (a stable insertion by name).
pub open spec fn insert_by_name(s: Seq<Submodule>, x: Submodule) -> Seq<Submodule>
    decreases s.len(),
{
    if s.len() == 0 {
        seq![x]
    } else if lex_lt(x.name@, s.last().name@) {
        insert_by_name(s.drop_last(), x).push(s.last())
    } else {
        s.push(x)
    }
}

/// The submodules ordered by name; equal names keep their order.
pub open spec fn sort_by_name(s: Seq<Submodule>) -> Seq<Submodule>
    decreases s.len(),
{
    if s.len() == 0 {
        Seq::empty()
    } else {
        insert_by_name(sort_by_name(s.drop_last()), s.last())
    }
}

proof fn lemma_insert_by_name_at(s: Seq<Submodule>, x: Submodule, p: int)
    requires
        0 <= p <= s.len(),
        forall|q: int| p <= q < s.len() ==> lex_lt(x.name@, (#[trigger] s[q]).name@),
        p == 0 || !lex_lt(x.name@, s[p - 1].name@),
    ensures
        insert_by_name(s, x) =~= s.insert(p, x),
    decreases s.len(),
{
    if s.len() == 0 {
    } else if p == s.len() {
        assert(!lex_lt(x.name@, s.last().name@));
    } else {
        assert(lex_lt(x.name@, s[s.len() - 1].name@));
        let d = s.drop_last();
        assert forall|q: int| p <= q < d.len() implies lex_lt(x.name@, (#[trigger] d[q]).name@) by {
            assert(d[q] == s[q]);
        }
        if p > 0 {
            assert(d[p - 1] == s[p - 1]);
        }
        lemma_insert_by_name_at(d, x, p);
        assert(d.insert(p, x).push(s.last()) =~= s.insert(p, x));
    }
}

/// Names never decrease along `s`.
pub open spec fn names_sorted(s: Seq<Submodule>) -> bool {
    forall|i: int, j: int| 0 <= i < j < s.len() ==> !lex_lt(#[trigger] s[j].name@, #[trigger] s[i].name@)
}

/// Where `insert_by_name` puts `x`: behind every name that does not sort
/// after its own, in front of every one that does.
proof fn lemma_insert_position(s: Seq<Submodule>, x: Submodule) -> (p: int)
    ensures
        0 <= p <= s.len(),
        insert_by_name(s, x) == s.insert(p, x),
        forall|q: int| p <= q < s.len() ==> lex_lt(x.name@, (#[trigger] s[q]).name@),
        p == 0 || !lex_lt(x.name@, s[p - 1].name@),
    decreases s.len(),
{
    if s.len() == 0 {
        assert(seq![x] =~= s.insert(0, x));
        0
    } else if lex_lt(x.name@, s.last().name@) {
        let d = s.drop_last();
        let p = lemma_insert_position(d, x);
        assert(d.insert(p, x).push(s.last()) =~= s.insert(p, x));
        assert forall|q: int| p <= q < s.len() implies lex_lt(x.name@, (#[trigger] s[q]).name@) by {
            if q < d.len() {
                assert(s[q] == d[q]);
            }
        }
        if p > 0 {
            assert(s[p - 1] == d[p - 1]);
        }
        p
    } else {
        assert(s.push(x) =~= s.insert(s.len() as int, x));
        s.len() as int
    }
}

proof fn lemma_insert_sorted(s: Seq<Submodule>, x: Submodule)
    requires
        names_sorted(s),
    ensures
        names_sorted(insert_by_name(s, x)),
        insert_by_name(s, x).to_multiset() == s.to_multiset().insert(x),
{
    broadcast use vstd::seq_lib::to_multiset_insert;

    let p = lemma_insert_position(s, x);
    let r = s.insert(p, x);
    assert forall|i: int, j: int| 0 <= i < j < r.len() implies !lex_lt(
        #[trigger] r[j].name@,
        #[trigger] r[i].name@,
    ) by {
        if j < p {
            assert(r[i] == s[i] && r[j] == s[j]);
        } else if i > p {
            assert(r[i] == s[i - 1] && r[j] == s[j - 1]);
        } else if i < p && j > p {
            assert(r[i] == s[i] && r[j] == s[j - 1]);
        } else if i == p {
            assert(r[j] == s[j - 1]);
            lemma_lex_lt_total(x.name@, s[j - 1].name@);
        } else {
            assert(j == p && r[i] == s[i]);
            lemma_lex_lt_total(x.name@, s[i].name@);
            lemma_lex_lt_total(s[p - 1].name@, s[i].name@);
            if lex_lt(x.name@, s[i].name@) && i < p - 1 {
                if lex_lt(s[i].name@, s[p - 1].name@) {
                    lemma_lex_lt_transitive(x.name@, s[i].name@, s[p - 1].name@);
                }
            }
        }
    }
}

/// A scan's submodules come out ordered by name (a stable sort): names
/// never decrease, and each submodule handed in appears exactly as often
/// as it was handed in.
pub proof fn scan_order_sorted_permutation(s: Seq<Submodule>)
    ensures
        names_sorted(sort_by_name(s)),
        sort_by_name(s).to_multiset() == s.to_multiset(),
    decreases s.len(),
{
    broadcast use vstd::seq_lib::to_multiset_build;

    if s.len() == 0 {
        assert(sort_by_name(s).to_multiset() =~= s.to_multiset()) by {
            broadcast use vstd::seq_lib::group_to_multiset_ensures;

        }
    } else {
        scan_order_sorted_permutation(s.drop_last());
        lemma_insert_sorted(sort_by_name(s.drop_last()), s.last());
        assert(s.drop_last().push(s.last()) =~= s);
    }
}

/// A submodule record as the in-process scan makes it: `main` tracked, no
/// counts, never orphaned or behind its remote.
pub open spec fn gix_record(m: Submodule) -> bool {
    &&& m.tracked_branch@ == "main"@
    &&& m.ahead_count == 0
    &&& m.behind_count == 0
    &&& m.status != SubmoduleStatus::Orphaned
    &&& m.status != SubmoduleStatus::BehindRemote
}

/// The state of an in-process scan: its submodules, made by
/// `gix_scanned_submodule`, come out ordered by name, all of them and only
/// them, and each is still such a record.
pub proof fn gix_scan_state(s: Seq<Submodule>)
    requires
        forall|i: int| 0 <= i < s.len() ==> gix_record(#[trigger] s[i]),
    ensures
        names_sorted(sort_by_name(s)),
        sort_by_name(s).to_multiset() == s.to_multiset(),
        forall|i: int| 0 <= i < sort_by_name(s).len() ==> gix_record(#[trigger] sort_by_name(s)[i]),
{
    broadcast use vstd::seq_lib::group_to_multiset_ensures;

    scan_order_sorted_permutation(s);
    let t = sort_by_name(s);
    assert forall|i: int| 0 <= i < t.len() implies gix_record(#[trigger] t[i]) by {
        assert(t.contains(t[i]));
        assert(t.to_multiset().count(t[i]) > 0);
        assert(s.contains(t[i]));
    }
}

fn insert_named(out: &mut Vec<Submodule>, x: Submodule)
    ensures
        final(out)@ == insert_by_name(old(out)@, x),
{
    let ghost s = out@;
    let xn = chars_of(x.name.as_str());
    let mut p: usize = out.len();
    while p > 0 && lex_lt_chars(&xn, &chars_of(out[p - 1].name.as_str()))
        invariant
            p <= out.len(),
            out@ == s,
            s == old(out)@,
            xn@ == x.name@,
            forall|q: int| p <= q < s.len() ==> lex_lt(x.name@, (#[trigger] s[q]).name@),
        decreases p,
    {
        p -= 1;
    }
    proof {
        lemma_insert_by_name_at(s, x, p as int);
    }
    out.insert(p, x);
}

/// The state of a scan: the submodules ordered by name, then counted.
pub fn summarize_by_name(root_path: String, submodules: Vec<Submodule>) -> (r: RepoState)
    ensures
        r.root_path@ == root_path@,
        r.submodules@ == sort_by_name(submodules@),
        r.summarizes(),
{
    let ghost all = submodules@;
    let mut rest = submodules;
    let mut out: Vec<Submodule> = Vec::new();
    let mut i: usize = 0;
    let n = rest.len();
    assert(all.take(0) =~= Seq::<Submodule>::empty());
    while rest.len() > 0
        invariant
            n == all.len(),
            i + rest.len() == n,
            rest@ == all.skip(i as int),
            out@ == sort_by_name(all.take(i as int)),
        decreases rest.len(),
    {
        let x = rest.remove(0);
        proof {
            assert(x == all[i as int]);
            assert(all.take(i + 1).drop_last() =~= all.take(i as int));
            assert(all.take(i + 1).last() == all[i as int]);
            assert(rest@ =~= all.skip(i + 1));
        }
        insert_named(&mut out, x);
        i += 1;
    }
    assert(all.take(i as int) =~= all);
    RepoState::summarize(root_path, out)
}

} // verus!
