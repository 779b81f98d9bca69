//! Release lifecycle: statuses, allowed transitions, and the journal of
//! release events from which the current records are replayed.
use vstd::prelude::*;
use crate::text::{decimal, decimal_string, push_char};

verus! {

/// Where a release attempt stands.
#[derive(Debug, Clone, Copy, PartialEq, Eq, Structural)]
pub enum ReleaseStatus {
    Staged,
    Published,
    Cancelled,
    Retired,
}

/// The name of a status as `Debug` prints it.
pub open spec fn status_name(s: ReleaseStatus) -> Seq<char> {
    match s {
        ReleaseStatus::Staged => "Staged"@,
        ReleaseStatus::Published => "Published"@,
        ReleaseStatus::Cancelled => "Cancelled"@,
        ReleaseStatus::Retired => "Retired"@,
    }
}

pub fn status_name_string(s: ReleaseStatus) -> (r: String)
    ensures
        r@ == status_name(s),
{
    match s {
        ReleaseStatus::Staged => String::from_str("Staged"),
        ReleaseStatus::Published => String::from_str("Published"),
        ReleaseStatus::Cancelled => String::from_str("Cancelled"),
        ReleaseStatus::Retired => String::from_str("Retired"),
    }
}

/// One line of the journal: an immutable event.
#[derive(Debug)]
pub struct ReleaseEntry {
    pub id: String,
    pub version: String,
    pub status: ReleaseStatus,
    pub created_at: String,
}

/// The current state of one version, projected from the journal.
#[derive(Debug)]
pub struct ReleaseRecord {
    pub id: String,
    pub version: String,
    pub status: ReleaseStatus,
    pub created_at: String,
    pub updated_at: String,
}

pub struct EntryView {
    pub id: Seq<char>,
    pub version: Seq<char>,
    pub status: ReleaseStatus,
    pub created_at: Seq<char>,
}

pub struct RecordView {
    pub id: Seq<char>,
    pub version: Seq<char>,
    pub status: ReleaseStatus,
    pub created_at: Seq<char>,
    pub updated_at: Seq<char>,
}

impl View for ReleaseEntry {
    type V = EntryView;

    open spec fn view(&self) -> EntryView {
        EntryView {
            id: self.id@,
            version: self.version@,
            status: self.status,
            created_at: self.created_at@,
        }
    }
}

impl View for ReleaseRecord {
    type V = RecordView;

    open spec fn view(&self) -> RecordView {
        RecordView {
            id: self.id@,
            version: self.version@,
            status: self.status,
            created_at: self.created_at@,
            updated_at: self.updated_at@,
        }
    }
}

/// The hyphenated lowercase text of a UUID: 36 characters, `-` at 8, 13,
/// 18 and 23, lowercase hexadecimal digits elsewhere.
pub open spec fn uuid_text(s: Seq<char>) -> bool {
    &&& s.len() == 36
    &&& forall|i: int|
        0 <= i < 36 ==> if i == 8 || i == 13 || i == 18 || i == 23 {
            #[trigger] s[i] == '-'
        } else {
            ('0' <= s[i] && s[i] <= '9') || ('a' <= s[i] && s[i] <= 'f')
        }
}

/// Returns a fresh random (version 4) UUID in its hyphenated text form
/// (`uuid::Uuid::new_v4().to_string()`, which `Display` writes as the
/// 36-character lowercase hyphenated form).  Only that form is claimed: the
/// digits are random, so nothing ties them to anything.
#[verifier::external_body]
fn new_uuid_v4() -> (r: String)
    ensures
        uuid_text(r@),
{
    uuid::Uuid::new_v4().to_string()
}

impl ReleaseRecord {
    /// A newly staged attempt for `version` at time `now_secs` (seconds since
    /// the Unix epoch), with a fresh random id.
    pub fn new_staged(version: &str, now_secs: u64) -> (r: ReleaseRecord)
        ensures
            uuid_text(r.id@),
            r.version@ == version@,
            r.status == ReleaseStatus::Staged,
            r.created_at@ == decimal(now_secs as nat),
            r.updated_at@ == decimal(now_secs as nat),
    {
        let now = decimal_string(now_secs);
        ReleaseRecord {
            id: new_uuid_v4(),
            version: String::from_str(version),
            status: ReleaseStatus::Staged,
            created_at: now.clone(),
            updated_at: now,
        }
    }

    /// A copy with the same contents.
    pub fn duplicate(&self) -> (r: ReleaseRecord)
        ensures
            r@ == self@,
    {
        ReleaseRecord {
            id: self.id.clone(),
            version: self.version.clone(),
            status: self.status,
            created_at: self.created_at.clone(),
            updated_at: self.updated_at.clone(),
        }
    }

    /// The journal line that records this state: its `created_at` is the
    /// record's `updated_at`, the moment of the event.
    pub fn to_entry(&self) -> (e: ReleaseEntry)
        ensures
            e@ == entry_of(self@),
    {
        ReleaseEntry {
            id: self.id.clone(),
            version: self.version.clone(),
            status: self.status,
            created_at: self.updated_at.clone(),
        }
    }
}

pub open spec fn entry_of(r: RecordView) -> EntryView {
    EntryView { id: r.id, version: r.version, status: r.status, created_at: r.updated_at }
}

// ───────────────────────────── transitions ─────────────────────────────

/// Errors of the release lifecycle.
#[derive(Debug)]
pub enum TransitionError {
    AlreadyPublished(String),
    NotStaged(String),
    NotPublished(String),
    InvalidTransition { from: ReleaseStatus, to: ReleaseStatus },
}

/// The transitions the lifecycle allows.
pub open spec fn allowed(from: ReleaseStatus, to: ReleaseStatus) -> bool {
    ||| (from == ReleaseStatus::Staged && to == ReleaseStatus::Published)
    ||| (from == ReleaseStatus::Staged && to == ReleaseStatus::Cancelled)
    ||| (from == ReleaseStatus::Cancelled && to == ReleaseStatus::Staged)
    ||| (from == ReleaseStatus::Published && to == ReleaseStatus::Retired)
}

pub fn validate_transition(from: &ReleaseStatus, to: &ReleaseStatus) -> (r: Result<
    (),
    TransitionError,
>)
    ensures
        r is Ok <==> allowed(*from, *to),
        r matches Err(e) ==> e matches TransitionError::InvalidTransition { from: f, to: t } && f
            == *from && t == *to,
{
    match (from, to) {
        (ReleaseStatus::Staged, ReleaseStatus::Published) => Ok(()),
        (ReleaseStatus::Staged, ReleaseStatus::Cancelled) => Ok(()),
        (ReleaseStatus::Cancelled, ReleaseStatus::Staged) => Ok(()),
        (ReleaseStatus::Published, ReleaseStatus::Retired) => Ok(()),
        _ => Err(TransitionError::InvalidTransition { from: *from, to: *to }),
    }
}

/// A retired release is final, no status moves to itself, and a published
/// release can only be retired.
pub proof fn lifecycle_shape(from: ReleaseStatus, to: ReleaseStatus)
    ensures
        !allowed(ReleaseStatus::Retired, to),
        !allowed(from, from),
        allowed(ReleaseStatus::Published, to) <==> to == ReleaseStatus::Retired,
        allowed(from, ReleaseStatus::Published) <==> from == ReleaseStatus::Staged,
{
}

/// The message of each error.
pub open spec fn transition_message(e: TransitionError) -> Seq<char> {
    match e {
        TransitionError::AlreadyPublished(v) => "版本 "@ + v@ + " 已发布，不可重复 stage"@,
        TransitionError::NotStaged(v) => "版本 "@ + v@ + " 不处于 Staged 状态"@,
        TransitionError::NotPublished(v) => "版本 "@ + v@ + " 不处于 Published 状态"@,
        TransitionError::InvalidTransition { from, to } => "不允许从 "@ + status_name(from)
            + " 转换到 "@ + status_name(to),
    }
}

impl TransitionError {
    /// The message shown to users.
    pub fn to_string(&self) -> (r: String)
        ensures
            r@ == transition_message(*self),
    {
        match self {
            TransitionError::AlreadyPublished(v) => {
                let mut s = String::from_str("版本 ");
                s.append(v.as_str());
                s.append(" 已发布，不可重复 stage");
                s
            },
            TransitionError::NotStaged(v) => {
                let mut s = String::from_str("版本 ");
                s.append(v.as_str());
                s.append(" 不处于 Staged 状态");
                s
            },
            TransitionError::NotPublished(v) => {
                let mut s = String::from_str("版本 ");
                s.append(v.as_str());
                s.append(" 不处于 Published 状态");
                s
            },
            TransitionError::InvalidTransition { from, to } => {
                let mut s = String::from_str("不允许从 ");
                s.append(status_name_string(*from).as_str());
                s.append(" 转换到 ");
                s.append(status_name_string(*to).as_str());
                s
            },
        }
    }
}


// ─────────────────────────────── journal ───────────────────────────────

/// Index of the first record for `v` at or after `k`.
pub open spec fn find_version_from(s: Seq<RecordView>, v: Seq<char>, k: int) -> Option<int>
    decreases s.len() - k,
{
    if k < 0 || k >= s.len() {
        None
    } else if s[k].version == v {
        Some(k)
    } else {
        find_version_from(s, v, k + 1)
    }
}

pub open spec fn find_version(s: Seq<RecordView>, v: Seq<char>) -> Option<int> {
    find_version_from(s, v, 0)
}

/// No two records are for the same version.
pub open spec fn versions_distinct(s: Seq<RecordView>) -> bool {
    forall|i: int, j: int|
        0 <= i < s.len() && 0 <= j < s.len() && i != j ==> s[i].version != s[j].version
}

/// Saving a record: it replaces the record of its version, or is appended.
pub open spec fn upsert(s: Seq<RecordView>, r: RecordView) -> Seq<RecordView> {
    match find_version(s, r.version) {
        Some(i) => s.update(i, r),
        None => s.push(r),
    }
}

/// Replaying one journal entry: the first `created_at` of a version is kept,
/// everything else comes from the entry.
pub open spec fn apply_entry(s: Seq<RecordView>, e: EntryView) -> Seq<RecordView> {
    match find_version(s, e.version) {
        Some(i) => s.update(
            i,
            RecordView {
                id: e.id,
                version: e.version,
                status: e.status,
                created_at: s[i].created_at,
                updated_at: e.created_at,
            },
        ),
        None => s.push(
            RecordView {
                id: e.id,
                version: e.version,
                status: e.status,
                created_at: e.created_at,
                updated_at: e.created_at,
            },
        ),
    }
}

/// The records that a journal projects to, in order of first appearance.
pub open spec fn replay(es: Seq<EntryView>) -> Seq<RecordView>
    decreases es.len(),
{
    if es.len() == 0 {
        Seq::empty()
    } else {
        apply_entry(replay(es.drop_last()), es.last())
    }
}

pub proof fn lemma_find_version(s: Seq<RecordView>, v: Seq<char>, k: int)
    requires
        0 <= k <= s.len(),
    ensures
        match find_version_from(s, v, k) {
            Some(j) => k <= j < s.len() && s[j].version == v && forall|m: int|
                k <= m < j ==> s[m].version != v,
            None => forall|m: int| k <= m < s.len() ==> s[m].version != v,
        },
    decreases s.len() - k,
{
    if k < s.len() && s[k].version != v {
        lemma_find_version(s, v, k + 1);
    }
}

pub proof fn lemma_upsert_distinct(s: Seq<RecordView>, r: RecordView)
    requires
        versions_distinct(s),
    ensures
        versions_distinct(upsert(s, r)),
        find_version(upsert(s, r), r.version) matches Some(i) && upsert(s, r)[i] == r,
{
    lemma_find_version(s, r.version, 0);
    let t = upsert(s, r);
    lemma_find_version(t, r.version, 0);
    let k: int = match find_version(s, r.version) {
        Some(i) => i,
        None => s.len() as int,
    };
    assert(t[k] == r);
    assert forall|m: int| 0 <= m < k implies t[m].version != r.version by {
        assert(t[m] == s[m]);
    }
    match find_version(t, r.version) {
        Some(j) => {
            assert(j == k);
        },
        None => {
            assert(t[k].version == r.version);
        },
    }
}

pub proof fn lemma_apply_distinct(s: Seq<RecordView>, e: EntryView)
    requires
        versions_distinct(s),
    ensures
        versions_distinct(apply_entry(s, e)),
{
    lemma_find_version(s, e.version, 0);
}

/// A replayed journal never holds two records for one version.
pub proof fn replay_versions_distinct(es: Seq<EntryView>)
    ensures
        versions_distinct(replay(es)),
    decreases es.len(),
{
    if es.len() > 0 {
        replay_versions_distinct(es.drop_last());
        lemma_apply_distinct(replay(es.drop_last()), es.last());
    }
}

/// What a read gives back of a write: after saving `r`, looking up its
/// version finds exactly `r`, and versions stay distinct.
pub proof fn read_after_save(s: Seq<RecordView>, r: RecordView)
    requires
        versions_distinct(s),
    ensures
        versions_distinct(upsert(s, r)),
        find_version(upsert(s, r), r.version) matches Some(i) && upsert(s, r)[i] == r,
{
    lemma_upsert_distinct(s, r);
}

/// Saving adds one record for a version the store did not hold, and
/// replaces the record of a version it held, so the count of records grows
/// only for a new version.
pub proof fn save_grows_only_for_new_versions(s: Seq<RecordView>, r: RecordView)
    ensures
        upsert(s, r).len() == s.len() + if find_version(s, r.version) is None {
            1int
        } else {
            0int
        },
{
    lemma_find_version(s, r.version, 0);
}

/// Saving leaves the records of every other version as they were.
pub proof fn save_keeps_other_versions(s: Seq<RecordView>, r: RecordView, v: Seq<char>)
    requires
        versions_distinct(s),
        v != r.version,
    ensures
        match find_version(s, v) {
            Some(i) => find_version(upsert(s, r), v) matches Some(j) && upsert(s, r)[j] == s[i],
            None => find_version(upsert(s, r), v) is None,
        },
{
    lemma_find_version(s, v, 0);
    lemma_find_version(s, r.version, 0);
    lemma_upsert_distinct(s, r);
    let t = upsert(s, r);
    lemma_find_version(t, v, 0);
    assert forall|m: int| 0 <= m < s.len() && t[m].version == v implies t[m] == s[m] by {
        assert(t[m] != r);
    }
    match find_version(s, v) {
        Some(i) => {
            assert(t[i] == s[i]);
            match find_version(t, v) {
                Some(j) => {
                    if j < i {
                        assert(t[j] == s[j]);
                    }
                    assert(j == i);
                },
                None => {
                    assert(t[i].version == v);
                },
            }
        },
        None => {
            match find_version(t, v) {
                Some(j) => {
                    if j < s.len() {
                        assert(t[j] == s[j]);
                    } else {
                        assert(t[j] == r);
                    }
                },
                None => {},
            }
        },
    }
}

/// Whether saving `r` onto `s` keeps the `created_at` that replaying would
/// keep: the stored one for a known version, the event time for a new one.
pub open spec fn keeps_first_created(s: Seq<RecordView>, r: RecordView) -> bool {
    match find_version(s, r.version) {
        Some(i) => r.created_at == s[i].created_at,
        None => r.created_at == r.updated_at,
    }
}

/// The journal is a faithful persistence of the store: when the records are
/// the replay of a journal, saving a record yields the replay of that journal
/// with the record's entry appended (provided the record keeps the first
/// `created_at`, as every record obtained from the store does).
pub proof fn save_agrees_with_replay(journal: Seq<EntryView>, r: RecordView)
    requires
        keeps_first_created(replay(journal), r),
    ensures
        upsert(replay(journal), r) == replay(journal.push(entry_of(r))),
{
    let j2 = journal.push(entry_of(r));
    assert(j2.drop_last() =~= journal);
    let s = replay(journal);
    match find_version(s, r.version) {
        Some(i) => {
            assert(s.update(i, r) =~= apply_entry(s, entry_of(r)));
        },
        None => {
            assert(s.push(r) =~= apply_entry(s, entry_of(r)));
        },
    }
}

/// The journal file of a repository rooted at `base`
/// (`base` joined with `.quanttide/devops/release-journal.jsonl`).
pub open spec fn journal_path(base: Seq<char>) -> Seq<char> {
    join_path(base, ".quanttide/devops/release-journal.jsonl"@)
}

/// `Path::join` of a relative path onto `base`.
pub open spec fn join_path(base: Seq<char>, rel: Seq<char>) -> Seq<char> {
    if base.len() == 0 || base.last() == '/' {
        base + rel
    } else {
        base.push('/') + rel
    }
}

pub fn join_path_string(base: &str, rel: &str) -> (r: String)
    ensures
        r@ == join_path(base@, rel@),
{
    let mut s = String::from_str(base);
    let b = crate::text::chars_of(base);
    if b.len() > 0 && b[b.len() - 1] != '/' {
        push_char(&mut s, '/');
    }
    s.append(rel);
    s
}

/// Storage of release records.
pub trait Storage {
    /// Records `record` (replacing the record of its version) and returns the
    /// journal entry that persists the change.
    fn save(&mut self, record: &ReleaseRecord) -> ReleaseEntry;

    /// The record of `version`, if any.
    fn load(&self, version: &str) -> Option<ReleaseRecord>;

    /// All records.
    fn list(&self) -> Vec<ReleaseRecord>;
}

/// Release records backed by an append-only journal file.
pub struct FileStorage {
    events_path: String,
    records: Vec<ReleaseRecord>,
}

pub open spec fn views_of(v: Seq<ReleaseRecord>) -> Seq<RecordView> {
    v.map_values(|r: ReleaseRecord| r@)
}

pub open spec fn entry_views(v: Seq<ReleaseEntry>) -> Seq<EntryView> {
    v.map_values(|e: ReleaseEntry| e@)
}

impl FileStorage {
    #[verifier::type_invariant]
    spec fn inv(self) -> bool {
        versions_distinct(views_of(self.records@))
    }

    /// The records held.
    pub closed spec fn stored(&self) -> Seq<RecordView> {
        views_of(self.records@)
    }

    /// The journal file.
    pub closed spec fn path(&self) -> Seq<char> {
        self.events_path@
    }

    /// Opens the store of the repository at `base_path`, whose journal holds
    /// `journal` (the entries that could be read from it, in order).
    pub fn new(base_path: &str, journal: &[ReleaseEntry]) -> (r: FileStorage)
        ensures
            r.path() == journal_path(base_path@),
            r.stored() == replay(entry_views(journal@)),
            versions_distinct(r.stored()),
    {
        let events_path = join_path_string(base_path, ".quanttide/devops/release-journal.jsonl");
        let records = replay_events(journal);
        proof {
            replay_versions_distinct(entry_views(journal@));
        }
        FileStorage { events_path, records }
    }

    /// The journal file.
    pub fn events_path(&self) -> (r: &str)
        ensures
            r@ == self.path(),
    {
        self.events_path.as_str()
    }

    /// Index of the record for `version`, if any.
    fn position(&self, version: &String) -> (r: Option<usize>)
        ensures
            match r {
                Some(i) => find_version(self.stored(), version@) == Some(i as int) && i
                    < self.records.len(),
                None => find_version(self.stored(), version@) is None,
            },
    {
        position_of(&self.records, version)
    }

    /// Records `record` and returns the journal entry to append.
    pub fn save(&mut self, record: &ReleaseRecord) -> (e: ReleaseEntry)
        ensures
            final(self).stored() == upsert(old(self).stored(), record@),
            final(self).path() == old(self).path(),
            e@ == entry_of(record@),
            versions_distinct(final(self).stored()),
    {
        proof {
            use_type_invariant(&*self);
            lemma_upsert_distinct(self.stored(), record@);
        }
        let pos = self.position(&record.version);
        let mut records: Vec<ReleaseRecord> = Vec::new();
        std::mem::swap(&mut records, &mut self.records);
        let ghost before = records@;
        match pos {
            Some(i) => {
                records.set(i, record.duplicate());
                proof {
                    assert(views_of(records@) =~= views_of(before).update(i as int, record@));
                }
            },
            None => {
                records.push(record.duplicate());
                proof {
                    assert(views_of(records@) =~= views_of(before).push(record@));
                }
            },
        }
        self.records = records;
        record.to_entry()
    }

    /// The record of `version`, if any.
    pub fn load(&self, version: &str) -> (r: Option<ReleaseRecord>)
        ensures
            match find_version(self.stored(), version@) {
                Some(i) => r matches Some(x) && x@ == self.stored()[i],
                None => r is None,
            },
    {
        let v = String::from_str(version);
        match self.position(&v) {
            Some(i) => {
                proof {
                    lemma_find_version(self.stored(), version@, 0);
                }
                Some(self.records[i].duplicate())
            },
            None => None,
        }
    }

    /// All records, in order of first appearance.
    pub fn list(&self) -> (r: Vec<ReleaseRecord>)
        ensures
            views_of(r@) == self.stored(),
    {
        let mut out: Vec<ReleaseRecord> = Vec::new();
        let mut i: usize = 0;
        while i < self.records.len()
            invariant
                i <= self.records.len(),
                views_of(out@) == self.stored().take(i as int),
            decreases self.records.len() - i,
        {
            out.push(self.records[i].duplicate());
            proof {
                assert(self.stored().take(i + 1) =~= self.stored().take(i as int).push(
                    self.records@[i as int]@,
                ));
                assert(views_of(out@) =~= self.stored().take(i + 1));
            }
            i += 1;
        }
        proof {
            assert(self.stored().take(i as int) =~= self.stored());
        }
        out
    }
}

impl Storage for FileStorage {
    fn save(&mut self, record: &ReleaseRecord) -> (e: ReleaseEntry)
        ensures
            final(self).stored() == upsert(old(self).stored(), record@),
            final(self).path() == old(self).path(),
            e@ == entry_of(record@),
            versions_distinct(final(self).stored()),
    {
        FileStorage::save(self, record)
    }

    fn load(&self, version: &str) -> (r: Option<ReleaseRecord>)
        ensures
            match find_version(self.stored(), version@) {
                Some(i) => r matches Some(x) && x@ == self.stored()[i],
                None => r is None,
            },
    {
        FileStorage::load(self, version)
    }

    fn list(&self) -> (r: Vec<ReleaseRecord>)
        ensures
            views_of(r@) == self.stored(),
    {
        FileStorage::list(self)
    }
}

/// Index of the first record for `version`, if any.
fn position_of(records: &Vec<ReleaseRecord>, version: &String) -> (r: Option<usize>)
    ensures
        match r {
            Some(i) => find_version(views_of(records@), version@) == Some(i as int) && i
                < records.len(),
            None => find_version(views_of(records@), version@) is None,
        },
{
    let mut i: usize = 0;
    while i < records.len()
        invariant
            i <= records.len(),
            find_version(views_of(records@), version@) == find_version_from(
                views_of(records@),
                version@,
                i as int,
            ),
        decreases records.len() - i,
    {
        if records[i].version == *version {
            return Some(i);
        }
        i += 1;
    }
    None
}

/// Projects journal entries to records: one record per version, in order of
/// first appearance, keeping the first `created_at` and taking everything
/// else from the latest entry.
pub fn replay_events(journal: &[ReleaseEntry]) -> (r: Vec<ReleaseRecord>)
    ensures
        views_of(r@) == replay(entry_views(journal@)),
{
    let mut records: Vec<ReleaseRecord> = Vec::new();
    let mut k: usize = 0;
    while k < journal.len()
        invariant
            k <= journal.len(),
            views_of(records@) == replay(entry_views(journal@.take(k as int))),
        decreases journal.len() - k,
    {
        let e = &journal[k];
        let ghost s = views_of(records@);
        proof {
            assert(entry_views(journal@.take(k + 1)).drop_last() =~= entry_views(
                journal@.take(k as int),
            ));
            assert(entry_views(journal@.take(k + 1)).last() == e@);
        }
        let found = position_of(&records, &e.version);
        match found {
            Some(i) => {
                let first_created = records[i].created_at.clone();
                let rec = ReleaseRecord {
                    id: e.id.clone(),
                    version: e.version.clone(),
                    status: e.status,
                    created_at: first_created,
                    updated_at: e.created_at.clone(),
                };
                records.set(i, rec);
                proof {
                    assert(views_of(records@) =~= apply_entry(s, e@));
                }
            },
            None => {
                let rec = ReleaseRecord {
                    id: e.id.clone(),
                    version: e.version.clone(),
                    status: e.status,
                    created_at: e.created_at.clone(),
                    updated_at: e.created_at.clone(),
                };
                records.push(rec);
                proof {
                    assert(views_of(records@) =~= apply_entry(s, e@));
                }
            },
        }
        k += 1;
    }
    proof {
        assert(journal@.take(k as int) =~= journal@);
    }
    records
}

} // verus!
