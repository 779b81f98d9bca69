//! Submodule state model: commit pointers, the seven-way status, and the
//! summaries computed over a scanned repository.
use vstd::prelude::*;
use vstd::utf8::*;
use vstd::string::StringSliceAdditionalSpecFns;

pub mod release;

verus! {

/// A commit id as hex text.
#[derive(Debug, Clone)]
pub struct CommitHash(pub String);

impl PartialEq for CommitHash {
    fn eq(&self, other: &CommitHash) -> (r: bool) {
        self.0 == other.0
    }
}

impl vstd::std_specs::cmp::PartialEqSpecImpl for CommitHash {
    open spec fn obeys_eq_spec() -> bool {
        true
    }

    open spec fn eq_spec(&self, other: &CommitHash) -> bool {
        self.0@ == other.0@
    }
}

impl Eq for CommitHash {
}

/// Length, in bytes, of the short form of a hash.
pub open spec fn short_len(h: Seq<char>) -> int {
    let n = encode_utf8(h).len() as int;
    if n < 7 {
        n
    } else {
        7
    }
}

impl CommitHash {
    /// The all-zero hash used where no commit is known.
    pub open spec fn zero_view() -> Seq<char> {
        "0000000000000000000000000000000000000000"@
    }

    /// The short form shown to users: the first seven bytes of the hash
    /// (the whole hash when it is shorter).
    pub fn to_string(&self) -> (r: String)
        requires
            encode_utf8(self.0@).len() <= usize::MAX,
            is_char_boundary(encode_utf8(self.0@), short_len(self.0@)),
        ensures
            encode_utf8(r@) == encode_utf8(self.0@).take(short_len(self.0@)),
    {
        let s: &str = self.0.as_str();
        proof {
            encode_utf8_valid_utf8(self.0@);
        }
        let n: usize = if s.len() < 7 {
            s.len()
        } else {
            7
        };
        let (head, _tail) = s.split_at(n);
        let r = head.to_owned();
        proof {
            assert(head.spec_bytes() =~= encode_utf8(self.0@).take(short_len(self.0@)));
        }
        r
    }

    /// A copy with the same text.
    pub fn duplicate(&self) -> (r: CommitHash)
        ensures
            r.0@ == self.0@,
    {
        CommitHash(self.0.clone())
    }

    /// Whether two hashes hold the same text.
    pub fn same(&self, other: &CommitHash) -> (r: bool)
        ensures
            r == (self.0@ == other.0@),
    {
        self.0 == other.0
    }
}

impl Default for CommitHash {
    fn default() -> (r: CommitHash)
        ensures
            r.0@ == CommitHash::zero_view(),
    {
        CommitHash(String::from_str("0000000000000000000000000000000000000000"))
    }
}

/// The seven states a submodule can be in relative to its parent and remote.
#[derive(Debug, Clone, Copy, PartialEq, Eq, Structural)]
pub enum SubmoduleStatus {
    Clean,
    AheadOfParent,
    BehindRemote,
    Detached,
    Dirty,
    Orphaned,
    Uninitialized,
}

/// Urgency of a status: the smaller, the more urgent.
pub open spec fn priority_of(s: SubmoduleStatus) -> u8 {
    match s {
        SubmoduleStatus::Dirty => 0,
        SubmoduleStatus::Orphaned => 1,
        SubmoduleStatus::Detached => 2,
        SubmoduleStatus::Uninitialized => 3,
        SubmoduleStatus::BehindRemote => 4,
        SubmoduleStatus::AheadOfParent => 5,
        SubmoduleStatus::Clean => 6,
    }
}

impl SubmoduleStatus {
    pub fn priority(&self) -> (r: u8)
        ensures
            r == priority_of(*self),
    {
        match self {
            SubmoduleStatus::Dirty => 0,
            SubmoduleStatus::Orphaned => 1,
            SubmoduleStatus::Detached => 2,
            SubmoduleStatus::Uninitialized => 3,
            SubmoduleStatus::BehindRemote => 4,
            SubmoduleStatus::AheadOfParent => 5,
            SubmoduleStatus::Clean => 6,
        }
    }
}

/// Distinct statuses have distinct priorities, and `Clean` is the least urgent.
pub proof fn priority_is_a_strict_ranking(a: SubmoduleStatus, b: SubmoduleStatus)
    ensures
        a != b ==> priority_of(a) != priority_of(b),
        a != SubmoduleStatus::Clean ==> priority_of(a) < priority_of(SubmoduleStatus::Clean),
{
}

/// One submodule as seen by a scan.
#[derive(Debug)]
pub struct Submodule {
    pub name: String,
    pub path: String,
    pub url: String,
    pub tracked_branch: String,
    pub parent_pointer: CommitHash,
    pub local_head: CommitHash,
    pub remote_head: CommitHash,
    pub status: SubmoduleStatus,
    pub ahead_count: usize,
    pub behind_count: usize,
    pub remote_unreachable: bool,
}

/// The result of scanning a repository's submodules.
#[derive(Debug)]
pub struct RepoState {
    pub root_path: String,
    pub submodules: Vec<Submodule>,
    pub total: usize,
    pub clean_count: usize,
    pub needs_attention: Vec<String>,
}

/// The status ladder of a scan: the first condition that holds decides.
pub open spec fn classify_spec(
    is_uninitialized: bool,
    is_dirty: bool,
    is_detached: bool,
    is_orphaned: bool,
    remote_unreachable: bool,
    ahead_count: nat,
    behind_count: nat,
) -> SubmoduleStatus {
    if is_uninitialized {
        SubmoduleStatus::Uninitialized
    } else if is_dirty {
        SubmoduleStatus::Dirty
    } else if is_detached {
        SubmoduleStatus::Detached
    } else if is_orphaned && !remote_unreachable {
        SubmoduleStatus::Orphaned
    } else if ahead_count > 0 && behind_count == 0 {
        SubmoduleStatus::AheadOfParent
    } else if behind_count > 0 && !remote_unreachable {
        SubmoduleStatus::BehindRemote
    } else {
        SubmoduleStatus::Clean
    }
}

/// Decides a submodule's status from what a scan observed.
pub fn classify(
    is_uninitialized: bool,
    is_dirty: bool,
    is_detached: bool,
    is_orphaned: bool,
    remote_unreachable: bool,
    ahead_count: usize,
    behind_count: usize,
) -> (r: SubmoduleStatus)
    ensures
        r == classify_spec(
            is_uninitialized,
            is_dirty,
            is_detached,
            is_orphaned,
            remote_unreachable,
            ahead_count as nat,
            behind_count as nat,
        ),
{
    if is_uninitialized {
        SubmoduleStatus::Uninitialized
    } else if is_dirty {
        SubmoduleStatus::Dirty
    } else if is_detached {
        SubmoduleStatus::Detached
    } else if is_orphaned && !remote_unreachable {
        SubmoduleStatus::Orphaned
    } else if ahead_count > 0 && behind_count == 0 {
        SubmoduleStatus::AheadOfParent
    } else if behind_count > 0 && !remote_unreachable {
        SubmoduleStatus::BehindRemote
    } else {
        SubmoduleStatus::Clean
    }
}

/// Whether a scan goes on to test if the parent's pointer was dropped from
/// the remote history: the remote is reachable, known, and differs from it.
pub fn orphan_check_applies(
    remote_unreachable: bool,
    remote_head: &CommitHash,
    parent_pointer: &CommitHash,
) -> (r: bool)
    ensures
        r == (!remote_unreachable && remote_head.0@ != CommitHash::zero_view()
            && parent_pointer.0@ != remote_head.0@),
{
    let zero = CommitHash::default();
    !remote_unreachable && !remote_head.same(&zero) && !parent_pointer.same(remote_head)
}

/// What a scan read in a submodule's own repository.
#[derive(Debug)]
pub struct Observed {
    /// The submodule's HEAD.
    pub local_head: CommitHash,
    pub is_detached: bool,
    /// The remote-tracking head of the tracked branch; `None` when there is
    /// none, that is, the remote is unreachable.
    pub remote_head: Option<CommitHash>,
    /// Commits from the parent's pointer to the local HEAD.
    pub ahead: usize,
    /// Commits from the local HEAD to the remote head.
    pub behind: usize,
    /// Whether the parent's pointer is not an ancestor of the remote head.
    pub pointer_left_remote: bool,
}

/// The fields a scan records for a submodule: local head, remote head,
/// detached, ahead, behind, orphaned, remote unreachable.  An uninitialized
/// submodule, or one whose repository could not be opened (`None`), gets
/// zero hashes, no counts and a reachable remote.  Without a remote-tracking
/// head the remote is unreachable and nothing is counted against it; the
/// orphan test counts only when the remote is known and differs from the
/// parent's pointer.
pub open spec fn scan_fields(uninit: bool, parent: Seq<char>, o: Option<Observed>) -> (
    Seq<char>,
    Seq<char>,
    bool,
    nat,
    nat,
    bool,
    bool,
) {
    let zero = CommitHash::zero_view();
    if uninit {
        (zero, zero, false, 0, 0, false, false)
    } else {
        match o {
            None => (zero, zero, false, 0, 0, false, false),
            Some(x) => {
                let unreachable = x.remote_head is None;
                let remote = match x.remote_head {
                    Some(h) => h.0@,
                    None => zero,
                };
                let applies = !unreachable && remote != zero && parent != remote;
                (
                    x.local_head.0@,
                    remote,
                    x.is_detached,
                    if unreachable {
                        0
                    } else {
                        x.ahead as nat
                    },
                    if unreachable {
                        0
                    } else {
                        x.behind as nat
                    },
                    applies && x.pointer_left_remote,
                    unreachable,
                )
            },
        }
    }
}

/// The record of one scanned submodule: its identity as `.gitmodules` and
/// the parent give it, the fields of `scan_fields`, and the status they
/// classify to.
pub fn scanned_submodule(
    name: String,
    path: String,
    url: String,
    branch: String,
    parent_pointer: CommitHash,
    is_uninitialized: bool,
    is_dirty: bool,
    observed: Option<Observed>,
) -> (r: Submodule)
    ensures
        ({
            let f = scan_fields(is_uninitialized, parent_pointer.0@, observed);
            &&& r.name@ == name@
            &&& r.path@ == path@
            &&& r.url@ == url@
            &&& r.tracked_branch@ == branch@
            &&& r.parent_pointer.0@ == parent_pointer.0@
            &&& r.local_head.0@ == f.0
            &&& r.remote_head.0@ == f.1
            &&& r.ahead_count == f.3
            &&& r.behind_count == f.4
            &&& r.remote_unreachable == f.6
            &&& r.status == classify_spec(is_uninitialized, is_dirty, f.2, f.5, f.6, f.3, f.4)
        }),
{
    let ghost f = scan_fields(is_uninitialized, parent_pointer.0@, observed);
    let (local_head, remote_head, is_detached, ahead, behind, orphaned, unreachable) = if is_uninitialized {
        (CommitHash::default(), CommitHash::default(), false, 0, 0, false, false)
    } else {
        match observed {
            None => (CommitHash::default(), CommitHash::default(), false, 0, 0, false, false),
            Some(x) => {
                let unreachable = x.remote_head.is_none();
                let remote = match x.remote_head {
                    Some(h) => h,
                    None => CommitHash::default(),
                };
                let applies = orphan_check_applies(unreachable, &remote, &parent_pointer);
                let ahead: usize = if unreachable {
                    0
                } else {
                    x.ahead
                };
                let behind: usize = if unreachable {
                    0
                } else {
                    x.behind
                };
                (x.local_head, remote, x.is_detached, ahead, behind, applies && x.pointer_left_remote, unreachable)
            },
        }
    };
    let status = classify(is_uninitialized, is_dirty, is_detached, orphaned, unreachable, ahead, behind);
    Submodule {
        name,
        path,
        url,
        tracked_branch: branch,
        parent_pointer,
        local_head,
        remote_head,
        status,
        ahead_count: ahead,
        behind_count: behind,
        remote_unreachable: unreachable,
    }
}

/// A scan counts nothing ahead or behind for a submodule that is
/// uninitialized or whose remote is unreachable, and an uninitialized
/// submodule never has an unreachable remote.
pub proof fn unobserved_counts_are_zero(uninit: bool, parent: Seq<char>, o: Option<Observed>)
    ensures
        (uninit || scan_fields(uninit, parent, o).6) ==> scan_fields(uninit, parent, o).3 == 0
            && scan_fields(uninit, parent, o).4 == 0,
        uninit ==> !scan_fields(uninit, parent, o).6,
{
}

/// The statuses of a list of submodules.
pub open spec fn statuses(s: Seq<Submodule>) -> Seq<SubmoduleStatus> {
    s.map_values(|m: Submodule| m.status)
}

/// How many entries of `s` equal `st`.
pub open spec fn count_status(s: Seq<SubmoduleStatus>, st: SubmoduleStatus) -> nat
    decreases s.len(),
{
    if s.len() == 0 {
        0
    } else {
        count_status(s.drop_last(), st) + if s.last() == st {
            1nat
        } else {
            0nat
        }
    }
}

/// The names of the submodules that are not clean, in scan order.
pub open spec fn attention_names(s: Seq<Submodule>) -> Seq<Seq<char>>
    decreases s.len(),
{
    if s.len() == 0 {
        Seq::empty()
    } else if s.last().status != SubmoduleStatus::Clean {
        attention_names(s.drop_last()).push(s.last().name@)
    } else {
        attention_names(s.drop_last())
    }
}

/// Per-status counts of a scan.
#[derive(Debug, Clone, Copy, Default)]
pub struct AggregateStatus {
    pub total: usize,
    pub clean: usize,
    pub ahead_of_parent: usize,
    pub behind_remote: usize,
    pub detached: usize,
    pub dirty: usize,
    pub orphaned: usize,
    pub uninitialized: usize,
}

impl AggregateStatus {
    /// Whether the counts are those of `s`.
    pub open spec fn counts(&self, s: Seq<SubmoduleStatus>) -> bool {
        &&& self.total == s.len()
        &&& self.clean == count_status(s, SubmoduleStatus::Clean)
        &&& self.ahead_of_parent == count_status(s, SubmoduleStatus::AheadOfParent)
        &&& self.behind_remote == count_status(s, SubmoduleStatus::BehindRemote)
        &&& self.detached == count_status(s, SubmoduleStatus::Detached)
        &&& self.dirty == count_status(s, SubmoduleStatus::Dirty)
        &&& self.orphaned == count_status(s, SubmoduleStatus::Orphaned)
        &&& self.uninitialized == count_status(s, SubmoduleStatus::Uninitialized)
    }

    pub fn from_submodules(submodules: &[Submodule]) -> (r: AggregateStatus)
        ensures
            r.counts(statuses(submodules@)),
    {
        let mut clean: usize = 0;
        let mut ahead: usize = 0;
        let mut behind: usize = 0;
        let mut detached: usize = 0;
        let mut dirty: usize = 0;
        let mut orphaned: usize = 0;
        let mut uninit: usize = 0;
        let mut i: usize = 0;
        while i < submodules.len()
            invariant
                i <= submodules.len(),
                ({
                    let p = statuses(submodules@.take(i as int));
                    &&& clean == count_status(p, SubmoduleStatus::Clean)
                    &&& ahead == count_status(p, SubmoduleStatus::AheadOfParent)
                    &&& behind == count_status(p, SubmoduleStatus::BehindRemote)
                    &&& detached == count_status(p, SubmoduleStatus::Detached)
                    &&& dirty == count_status(p, SubmoduleStatus::Dirty)
                    &&& orphaned == count_status(p, SubmoduleStatus::Orphaned)
                    &&& uninit == count_status(p, SubmoduleStatus::Uninitialized)
                }),
            decreases submodules.len() - i,
        {
            let ghost p = statuses(submodules@.take(i as int));
            let ghost q = statuses(submodules@.take(i + 1));
            proof {
                assert(q.drop_last() =~= p);
                assert(q.last() == submodules@[i as int].status);
                lemma_count_le_len(p, SubmoduleStatus::Clean);
                lemma_count_le_len(p, SubmoduleStatus::AheadOfParent);
                lemma_count_le_len(p, SubmoduleStatus::BehindRemote);
                lemma_count_le_len(p, SubmoduleStatus::Detached);
                lemma_count_le_len(p, SubmoduleStatus::Dirty);
                lemma_count_le_len(p, SubmoduleStatus::Orphaned);
                lemma_count_le_len(p, SubmoduleStatus::Uninitialized);
            }
            match submodules[i].status {
                SubmoduleStatus::Clean => clean += 1,
                SubmoduleStatus::AheadOfParent => ahead += 1,
                SubmoduleStatus::BehindRemote => behind += 1,
                SubmoduleStatus::Detached => detached += 1,
                SubmoduleStatus::Dirty => dirty += 1,
                SubmoduleStatus::Orphaned => orphaned += 1,
                SubmoduleStatus::Uninitialized => uninit += 1,
            }
            i += 1;
        }
        proof {
            assert(submodules@.take(i as int) =~= submodules@);
        }
        AggregateStatus {
            total: submodules.len(),
            clean,
            ahead_of_parent: ahead,
            behind_remote: behind,
            detached,
            dirty,
            orphaned,
            uninitialized: uninit,
        }
    }
}

pub proof fn lemma_count_le_len(s: Seq<SubmoduleStatus>, st: SubmoduleStatus)
    ensures
        count_status(s, st) <= s.len(),
    decreases s.len(),
{
    if s.len() > 0 {
        lemma_count_le_len(s.drop_last(), st);
    }
}

/// The seven per-status counts of any list add up to its length.
pub proof fn lemma_counts_partition(s: Seq<SubmoduleStatus>)
    ensures
        count_status(s, SubmoduleStatus::Clean) + count_status(s, SubmoduleStatus::AheadOfParent)
            + count_status(s, SubmoduleStatus::BehindRemote) + count_status(
            s,
            SubmoduleStatus::Detached,
        ) + count_status(s, SubmoduleStatus::Dirty) + count_status(s, SubmoduleStatus::Orphaned)
            + count_status(s, SubmoduleStatus::Uninitialized) == s.len(),
    decreases s.len(),
{
    if s.len() > 0 {
        lemma_counts_partition(s.drop_last());
    }
}

/// The aggregate of a scan accounts for every submodule exactly once: its
/// seven counts add up to the total.
pub proof fn aggregate_counts_sum_to_total(a: AggregateStatus, s: Seq<SubmoduleStatus>)
    requires
        a.counts(s),
    ensures
        a.clean + a.ahead_of_parent + a.behind_remote + a.detached + a.dirty + a.orphaned
            + a.uninitialized == a.total,
{
    lemma_counts_partition(s);
}

pub proof fn lemma_attention_len(s: Seq<Submodule>)
    ensures
        attention_names(s).len() + count_status(statuses(s), SubmoduleStatus::Clean) == s.len(),
    decreases s.len(),
{
    if s.len() > 0 {
        lemma_attention_len(s.drop_last());
        assert(statuses(s).drop_last() =~= statuses(s.drop_last()));
    }
}

impl RepoState {
    /// Whether the counters and the attention list are those of the submodules.
    pub open spec fn summarizes(&self) -> bool {
        &&& self.total == self.submodules@.len()
        &&& self.clean_count == count_status(statuses(self.submodules@), SubmoduleStatus::Clean)
        &&& self.needs_attention.deep_view() == attention_names(self.submodules@)
    }

    /// The state of a repository with the given scanned submodules, in the
    /// order given: totals, clean count and the names needing attention.
    pub fn summarize(root_path: String, submodules: Vec<Submodule>) -> (r: RepoState)
        ensures
            r.root_path@ == root_path@,
            r.submodules@ == submodules@,
            r.summarizes(),
    {
        let mut clean: usize = 0;
        let mut names: Vec<String> = Vec::new();
        let mut i: usize = 0;
        while i < submodules.len()
            invariant
                i <= submodules.len(),
                clean == count_status(statuses(submodules@.take(i as int)), SubmoduleStatus::Clean),
                names.deep_view() == attention_names(submodules@.take(i as int)),
            decreases submodules.len() - i,
        {
            let ghost p = submodules@.take(i as int);
            let ghost q = submodules@.take(i + 1);
            proof {
                assert(q.drop_last() =~= p);
                assert(statuses(q).drop_last() =~= statuses(p));
                lemma_count_le_len(statuses(p), SubmoduleStatus::Clean);
            }
            if submodules[i].status == SubmoduleStatus::Clean {
                clean += 1;
            } else {
                let ghost before = names.deep_view();
                names.push(submodules[i].name.clone());
                proof {
                    assert(names.deep_view() =~= before.push(submodules@[i as int].name@));
                }
            }
            i += 1;
        }
        proof {
            assert(submodules@.take(i as int) =~= submodules@);
        }
        let total = submodules.len();
        RepoState { root_path, submodules, total, clean_count: clean, needs_attention: names }
    }

    /// The submodules of a scanned repository with their counts per status.
    pub fn scan_all(state: RepoState) -> (r: (Vec<Submodule>, AggregateStatus))
        ensures
            r.0@ == state.submodules@,
            r.1.counts(statuses(state.submodules@)),
    {
        let agg = AggregateStatus::from_submodules(&state.submodules);
        (state.submodules, agg)
    }
}

/// Every submodule of a summarized scan is either counted clean or named as
/// needing attention, never both.
pub proof fn clean_and_attention_partition_total(r: RepoState)
    requires
        r.summarizes(),
    ensures
        r.clean_count + r.needs_attention@.len() == r.total,
{
    lemma_attention_len(r.submodules@);
    assert(r.needs_attention@.len() == r.needs_attention.deep_view().len());
}

} // verus!
