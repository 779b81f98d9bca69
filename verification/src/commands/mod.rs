//! Submodule commands: health descriptions, CI script export, the history
//! query, and the release command helpers.
use vstd::prelude::*;
use crate::model::{RepoState, Submodule, SubmoduleStatus};

pub mod editor;
pub mod export;
pub mod history;
pub mod lifecycle;
pub mod runs;
pub mod release;

verus! {

/// A submodule that needs attention, with what to do about it.
#[derive(Debug)]
pub struct HealthIssue {
    pub submodule_name: String,
    pub status: SubmoduleStatus,
    pub description: String,
    pub suggested_action: String,
}

/// Description and suggested action for a status that needs attention.
pub open spec fn issue_text(s: SubmoduleStatus) -> (Seq<char>, Seq<char>) {
    match s {
        SubmoduleStatus::AheadOfParent => ("本地领先于父仓库记录"@, "运行 sync_to_parent 更新父仓库指针"@),
        SubmoduleStatus::BehindRemote => ("远程有更新，本地落后"@, "运行 update 获取最新代码"@),
        SubmoduleStatus::Detached => ("处于游离 HEAD 状态"@, "运行 checkout_branch 切换到跟踪分支"@),
        SubmoduleStatus::Dirty => ("有未提交的修改"@, "提交或 stash 当前修改"@),
        SubmoduleStatus::Orphaned => ("父仓库记录的 commit 在远程已不存在"@, "需手动干预"@),
        SubmoduleStatus::Uninitialized => ("尚未初始化"@, "运行 init 初始化子模块"@),
        SubmoduleStatus::Clean => (Seq::empty(), Seq::empty()),
    }
}

/// Describes a status that needs attention (any but `Clean`).
pub fn describe_issue(status: &SubmoduleStatus) -> (r: (String, String))
    requires
        *status != SubmoduleStatus::Clean,
    ensures
        (r.0@, r.1@) == issue_text(*status),
{
    match status {
        SubmoduleStatus::AheadOfParent => (
            String::from_str("本地领先于父仓库记录"),
            String::from_str("运行 sync_to_parent 更新父仓库指针"),
        ),
        SubmoduleStatus::BehindRemote => (
            String::from_str("远程有更新，本地落后"),
            String::from_str("运行 update 获取最新代码"),
        ),
        SubmoduleStatus::Detached => (
            String::from_str("处于游离 HEAD 状态"),
            String::from_str("运行 checkout_branch 切换到跟踪分支"),
        ),
        SubmoduleStatus::Dirty => (
            String::from_str("有未提交的修改"),
            String::from_str("提交或 stash 当前修改"),
        ),
        SubmoduleStatus::Orphaned => (
            String::from_str("父仓库记录的 commit 在远程已不存在"),
            String::from_str("需手动干预"),
        ),
        SubmoduleStatus::Uninitialized => (
            String::from_str("尚未初始化"),
            String::from_str("运行 init 初始化子模块"),
        ),
        SubmoduleStatus::Clean => (String::new(), String::new()),
    }
}

pub struct HealthView {
    pub submodule_name: Seq<char>,
    pub status: SubmoduleStatus,
    pub description: Seq<char>,
    pub suggested_action: Seq<char>,
}

impl View for HealthIssue {
    type V = HealthView;

    open spec fn view(&self) -> HealthView {
        HealthView {
            submodule_name: self.submodule_name@,
            status: self.status,
            description: self.description@,
            suggested_action: self.suggested_action@,
        }
    }
}

/// The issues of a scan: one per submodule that is not clean, in order.
pub open spec fn issues_of(s: Seq<Submodule>) -> Seq<HealthView>
    decreases s.len(),
{
    if s.len() == 0 {
        Seq::empty()
    } else if s.last().status != SubmoduleStatus::Clean {
        issues_of(s.drop_last()).push(
            HealthView {
                submodule_name: s.last().name@,
                status: s.last().status,
                description: issue_text(s.last().status).0,
                suggested_action: issue_text(s.last().status).1,
            },
        )
    } else {
        issues_of(s.drop_last())
    }
}

/// The health check of a scanned repository.
pub fn health_issues(state: &RepoState) -> (r: Vec<HealthIssue>)
    ensures
        r@.map_values(|i: HealthIssue| i@) == issues_of(state.submodules@),
{
    let subs = &state.submodules;
    let mut out: Vec<HealthIssue> = Vec::new();
    let mut i: usize = 0;
    while i < subs.len()
        invariant
            i <= subs.len(),
            out@.map_values(|i: HealthIssue| i@) == issues_of(subs@.take(i as int)),
        decreases subs.len() - i,
    {
        proof {
            assert(subs@.take(i + 1).drop_last() =~= subs@.take(i as int));
        }
        if subs[i].status != SubmoduleStatus::Clean {
            let (description, suggested_action) = describe_issue(&subs[i].status);
            let ghost before = out@.map_values(|i: HealthIssue| i@);
            out.push(
                HealthIssue {
                    submodule_name: subs[i].name.clone(),
                    status: subs[i].status,
                    description,
                    suggested_action,
                },
            );
            proof {
                assert(out@.map_values(|i: HealthIssue| i@) =~= issues_of(subs@.take(i + 1)));
            }
        }
        i += 1;
    }
    proof {
        assert(subs@.take(i as int) =~= subs@);
    }
    out
}

} // verus!
