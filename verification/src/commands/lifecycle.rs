//! The release commands' decisions on the record store: staging a version,
//! and choosing and completing the attempt that is published or cancelled.
//! Tags, the remote release and the journal file are handled by the caller
//! around these steps.
use vstd::prelude::*;
use crate::commands::release::{regex_is_match_result, version_pattern};
use crate::model::release::{
    entry_of, find_version, status_name, status_name_string, upsert, FileStorage, RecordView,
    ReleaseEntry, ReleaseRecord, ReleaseStatus, TransitionError, allowed, transition_message, uuid_text,
};
use crate::text::{decimal, decimal_string};

verus! {

/// The record that staging `version` at `now` writes, when it writes one:
/// a staged attempt is refreshed (its `updated_at` set), a cancelled one or
/// a new version gets a new staged attempt.
pub open spec fn staged_record_ok(
    old_stored: Seq<RecordView>,
    version: Seq<char>,
    now: nat,
    rec: RecordView,
) -> bool {
    match find_version(old_stored, version) {
        Some(i) if old_stored[i].status == ReleaseStatus::Staged => rec == RecordView {
            updated_at: decimal(now),
            ..old_stored[i]
        },
        _ => uuid_text(rec.id) && rec.version == version && rec.status == ReleaseStatus::Staged
            && rec.created_at == decimal(now) && rec.updated_at == decimal(now),
    }
}

/// Why staging `version` is refused, if it is: a malformed version, or a
/// version already published or retired.
pub open spec fn stage_refusal(old_stored: Seq<RecordView>, version: Seq<char>) -> Option<Seq<char>> {
    if regex_is_match_result(version_pattern(), version) != Some(true) {
        Some("版本号格式错误: "@ + version)
    } else {
        match find_version(old_stored, version) {
            Some(i) => if old_stored[i].status == ReleaseStatus::Published {
                Some("版本 "@ + version + " 已发布，不可重复 stage"@)
            } else if old_stored[i].status == ReleaseStatus::Retired {
                Some("版本 "@ + version + " 已退役，不可重复 stage"@)
            } else {
                None
            },
            None => None,
        }
    }
}

/// Stages `version` at `now_secs`: returns the attempt's id and the journal
/// entry to append, or why staging is refused (the store is then unchanged).
pub fn stage_release(storage: &mut FileStorage, version: &str, now_secs: u64) -> (r: Result<
    (String, ReleaseEntry),
    String,
>)
    ensures
        match r {
            Ok((id, e)) => stage_refusal(old(storage).stored(), version@) is None && exists|
                rec: RecordView,
            |
                staged_record_ok(old(storage).stored(), version@, now_secs as nat, rec) && rec.id
                    == id@ && final(storage).stored() == upsert(old(storage).stored(), rec) && e@
                    == entry_of(rec),
            Err(msg) => stage_refusal(old(storage).stored(), version@) == Some(msg@)
                && final(storage).stored() == old(storage).stored(),
        },
        final(storage).path() == old(storage).path(),
{
    if !crate::commands::release::validate_version(version) {
        let mut m = String::from_str("版本号格式错误: ");
        m.append(version);
        return Err(m);
    }
    match storage.load(version) {
        Some(existing) => {
            match existing.status {
                ReleaseStatus::Published => {
                    let mut m = String::from_str("版本 ");
                    m.append(version);
                    m.append(" 已发布，不可重复 stage");
                    return Err(m);
                },
                ReleaseStatus::Staged => {
                    let mut updated = existing.duplicate();
                    updated.updated_at = decimal_string(now_secs);
                    let e = storage.save(&updated);
                    let id = updated.id;
                    return Ok((id, e));
                },
                ReleaseStatus::Cancelled => {},
                ReleaseStatus::Retired => {
                    let mut m = String::from_str("版本 ");
                    m.append(version);
                    m.append(" 已退役，不可重复 stage");
                    return Err(m);
                },
            }
        },
        None => {},
    }
    let record = ReleaseRecord::new_staged(version, now_secs);
    let e = storage.save(&record);
    Ok((record.id, e))
}

/// Why an attempt cannot be published, if it cannot: the version has no
/// record, or its record is not staged.
pub open spec fn publish_refusal(stored: Seq<RecordView>, version: Seq<char>) -> Option<Seq<char>> {
    match find_version(stored, version) {
        None => Some("版本 "@ + version + " 不存在，请先执行 stage"@),
        Some(i) => if stored[i].status != ReleaseStatus::Staged {
            Some("版本 "@ + version + " 不处于 Staged 状态 (当前: "@ + status_name(stored[i].status)
                + ")"@)
        } else {
            None
        },
    }
}

/// The staged attempt of `version` that publishing works on.
pub fn publish_target(storage: &FileStorage, version: &str) -> (r: Result<ReleaseRecord, String>)
    ensures
        match r {
            Ok(rec) => publish_refusal(storage.stored(), version@) is None && (find_version(
                storage.stored(),
                version@,
            ) matches Some(i) && rec@ == storage.stored()[i]),
            Err(m) => publish_refusal(storage.stored(), version@) == Some(m@),
        },
{
    match storage.load(version) {
        None => {
            let mut m = String::from_str("版本 ");
            m.append(version);
            m.append(" 不存在，请先执行 stage");
            Err(m)
        },
        Some(rec) => {
            if rec.status != ReleaseStatus::Staged {
                let mut m = String::from_str("版本 ");
                m.append(version);
                m.append(" 不处于 Staged 状态 (当前: ");
                m.append(status_name_string(rec.status).as_str());
                m.append(")");
                Err(m)
            } else {
                Ok(rec)
            }
        },
    }
}

/// Why an attempt cannot be cancelled, if it cannot: the version has no
/// record, or its record is not staged.
pub open spec fn cancel_refusal(stored: Seq<RecordView>, version: Seq<char>) -> Option<Seq<char>> {
    match find_version(stored, version) {
        None => Some("版本 "@ + version + " 不存在"@),
        Some(i) => if stored[i].status != ReleaseStatus::Staged {
            Some("版本 "@ + version + " 不处于 Staged 状态"@)
        } else {
            None
        },
    }
}

/// The staged attempt of `version` that cancelling works on.
pub fn cancel_target(storage: &FileStorage, version: &str) -> (r: Result<ReleaseRecord, String>)
    ensures
        match r {
            Ok(rec) => cancel_refusal(storage.stored(), version@) is None && (find_version(
                storage.stored(),
                version@,
            ) matches Some(i) && rec@ == storage.stored()[i]),
            Err(m) => cancel_refusal(storage.stored(), version@) == Some(m@),
        },
{
    match storage.load(version) {
        None => {
            let mut m = String::from_str("版本 ");
            m.append(version);
            m.append(" 不存在");
            Err(m)
        },
        Some(rec) => {
            if rec.status != ReleaseStatus::Staged {
                let e = TransitionError::NotStaged(String::from_str(version));
                Err(e.to_string())
            } else {
                Ok(rec)
            }
        },
    }
}

/// Moves an attempt to `to` at `now_secs` and stores it; returns its id and
/// the journal entry to append.
pub fn complete_transition(
    storage: &mut FileStorage,
    record: ReleaseRecord,
    to: ReleaseStatus,
    now_secs: u64,
) -> (r: (String, ReleaseEntry))
    requires
        allowed(record.status, to),
    ensures
        ({
            let rec = RecordView { status: to, updated_at: decimal(now_secs as nat), ..record@ };
            &&& final(storage).stored() == upsert(old(storage).stored(), rec)
            &&& r.0@ == record.id@
            &&& r.1@ == entry_of(rec)
        }),
        final(storage).path() == old(storage).path(),
{
    let mut rec = record;
    rec.status = to;
    rec.updated_at = decimal_string(now_secs);
    let e = storage.save(&rec);
    (rec.id, e)
}

} // verus!
