//! Planning the per-file reconciliation.
//!
//! Once a staged file is in scope, its staged content is piped through the
//! formatter.  What happens next depends only on plain values — the staged
//! bytes, the formatter's exit status and output, and the run's flags — and
//! is decided here: whether the file counts as formatted, unchanged or
//! failed, what (if anything) is written back to the index, and which patch
//! (if any) carries the change onto the working-tree file.  Performing the
//! writes, like running the formatter, is left to the caller.

use vstd::prelude::*;

use crate::patch::Patch;
use crate::patch::PatchModel;
use crate::patch::apply_patch_spec;
use crate::patch::compute_patch;
use crate::patch::compute_patch_spec;
use crate::patch::lemma_patch_roundtrip;
use crate::patch::needle;
use crate::patch::occ_count;
use crate::util::bytes_eq;
use crate::util::push_all;

verus! {

/// Per-file result of a reconciliation attempt.
#[derive(Clone, Copy, PartialEq, Eq, Structural, Debug)]
pub enum Outcome {
    Formatted,
    Unchanged,
    Skipped,
    Failed,
}

/// What the formatter subprocess came back with: whether it exited cleanly,
/// and everything it wrote to its output channel.
pub struct FormatterResponse {
    pub exit_ok: bool,
    pub stdout: Vec<u8>,
}

pub ghost struct FormatterResponseModel {
    pub exit_ok: bool,
    pub stdout: Seq<u8>,
}

impl View for FormatterResponse {
    type V = FormatterResponseModel;

    open spec fn view(&self) -> FormatterResponseModel {
        FormatterResponseModel { exit_ok: self.exit_ok, stdout: self.stdout@ }
    }
}

/// Everything one file's reconciliation decided: the outcome to report, the
/// content to write back to the index (if any), and the patch to carry the
/// change onto the working-tree file (if any).
pub struct ReconcilePlan {
    pub outcome: Outcome,
    pub index_write: Option<Vec<u8>>,
    pub worktree_patch: Option<Patch>,
}

pub ghost struct ReconcilePlanModel {
    pub outcome: Outcome,
    pub index_write: Option<Seq<u8>>,
    pub worktree_patch: Option<PatchModel>,
}

impl View for ReconcilePlan {
    type V = ReconcilePlanModel;

    open spec fn view(&self) -> ReconcilePlanModel {
        ReconcilePlanModel {
            outcome: self.outcome,
            index_write: match self.index_write {
                Some(ref c) => Some(c@),
                Option::None => Option::None,
            },
            worktree_patch: match self.worktree_patch {
                Some(ref p) => Some(p@),
                Option::None => Option::None,
            },
        }
    }
}

/// The whole reconciliation decision for one file.
///
/// A failed formatter fails the file and writes nothing.  Output identical to
/// the staged content is a no-op, whatever the flags.  Otherwise, with writes
/// disabled nothing is written; with writes enabled the output becomes the
/// new index content, and — when working-tree reconciliation is on — the
/// change travels to the working tree as a context patch from the staged to
/// the formatted content.
pub open spec fn plan_spec(
    staged: Seq<u8>,
    response: FormatterResponseModel,
    update_working_tree: bool,
    write: bool,
) -> ReconcilePlanModel {
    if !response.exit_ok {
        ReconcilePlanModel {
            outcome: Outcome::Failed,
            index_write: Option::None,
            worktree_patch: Option::None,
        }
    } else if response.stdout == staged {
        ReconcilePlanModel {
            outcome: Outcome::Unchanged,
            index_write: Option::None,
            worktree_patch: Option::None,
        }
    } else if !write {
        ReconcilePlanModel {
            outcome: Outcome::Formatted,
            index_write: Option::None,
            worktree_patch: Option::None,
        }
    } else {
        ReconcilePlanModel {
            outcome: Outcome::Formatted,
            index_write: Some(response.stdout),
            worktree_patch: if update_working_tree {
                Some(compute_patch_spec(staged, response.stdout))
            } else {
                Option::None
            },
        }
    }
}

/// Decide the reconciliation of one staged file from the formatter's
/// response.
pub fn format_file_in_index(
    staged: &Vec<u8>,
    response: &FormatterResponse,
    update_working_tree: bool,
    write: bool,
) -> (plan: ReconcilePlan)
    ensures
        plan@ == plan_spec(staged@, response@, update_working_tree, write),
{
    if !response.exit_ok {
        ReconcilePlan {
            outcome: Outcome::Failed,
            index_write: Option::None,
            worktree_patch: Option::None,
        }
    } else if bytes_eq(&response.stdout, staged) {
        ReconcilePlan {
            outcome: Outcome::Unchanged,
            index_write: Option::None,
            worktree_patch: Option::None,
        }
    } else if !write {
        ReconcilePlan {
            outcome: Outcome::Formatted,
            index_write: Option::None,
            worktree_patch: Option::None,
        }
    } else {
        let mut formatted: Vec<u8> = Vec::new();
        push_all(&mut formatted, &response.stdout);
        proof {
            assert(formatted@ =~= response@.stdout);
        }
        let worktree_patch = if update_working_tree {
            Some(compute_patch(staged, &response.stdout))
        } else {
            Option::None
        };
        ReconcilePlan { outcome: Outcome::Formatted, index_write: Some(formatted), worktree_patch }
    }
}

/// Reconcile a whole batch: one plan per file, each decided independently, so
/// one file's failure never keeps another file from being processed.
pub fn reconcile_all(
    items: &Vec<(Vec<u8>, FormatterResponse)>,
    update_working_tree: bool,
    write: bool,
) -> (plans: Vec<ReconcilePlan>)
    ensures
        plans@.len() == items@.len(),
        forall|i: int|
            0 <= i < items@.len() ==> #[trigger] plans@[i]@ == plan_spec(
                items@[i].0@,
                items@[i].1@,
                update_working_tree,
                write,
            ),
{
    let mut plans: Vec<ReconcilePlan> = Vec::new();
    let mut i: usize = 0;
    while i < items.len()
        invariant
            i <= items@.len(),
            plans@.len() == i,
            forall|j: int|
                0 <= j < i ==> #[trigger] plans@[j]@ == plan_spec(
                    items@[j].0@,
                    items@[j].1@,
                    update_working_tree,
                    write,
                ),
        decreases items.len() - i,
    {
        let item = &items[i];
        let plan = format_file_in_index(&item.0, &item.1, update_working_tree, write);
        plans.push(plan);
        i = i + 1;
    }
    plans
}

/// A run fails exactly when some file failed; every other outcome leaves the
/// exit code at zero.
pub fn exit_code(outcomes: &Vec<Outcome>) -> (r: i32)
    ensures
        (r == 0) <==> (forall|i: int| 0 <= i < outcomes@.len() ==> outcomes@[i] != Outcome::Failed),
        r == 0 || r == 1,
{
    let mut i: usize = 0;
    while i < outcomes.len()
        invariant
            i <= outcomes@.len(),
            forall|j: int| 0 <= j < i ==> outcomes@[j] != Outcome::Failed,
        decreases outcomes.len() - i,
    {
        if matches!(outcomes[i], Outcome::Failed) {
            return 1;
        }
        i = i + 1;
    }
    0
}

/// Running the reconciler again on content whose formatter is idempotent —
/// the second run's staged content is the first run's formatted output, and
/// the formatter returns it unchanged — is a no-op: outcome Unchanged and no
/// write of any kind, whatever the flags.
pub proof fn lemma_reconcile_idempotent(content: Seq<u8>, update_working_tree: bool, write: bool)
    ensures
        ({
            let p = plan_spec(
                content,
                FormatterResponseModel { exit_ok: true, stdout: content },
                update_working_tree,
                write,
            );
            p.outcome == Outcome::Unchanged && p.index_write is None && p.worktree_patch is None
        }),
{
}

/// With writes disabled nothing is ever written — no index content, no
/// working-tree patch — for any staged content and any formatter response,
/// while a failing formatter still turns the outcome into Failed.
pub proof fn lemma_no_write_never_mutates(
    staged: Seq<u8>,
    response: FormatterResponseModel,
    update_working_tree: bool,
)
    ensures
        plan_spec(staged, response, update_working_tree, false).index_write is None,
        plan_spec(staged, response, update_working_tree, false).worktree_patch is None,
        (plan_spec(staged, response, update_working_tree, false).outcome == Outcome::Failed) <==> !response.exit_ok,
{
}

/// A working tree that still equals the staged content follows the index:
/// provided the planned patch's context is unambiguous in the staged
/// content, applying the patch there yields exactly the formatted content.
pub proof fn lemma_worktree_follows_index(staged: Seq<u8>, formatted: Seq<u8>)
    requires
        formatted != staged,
        occ_count(staged, needle(compute_patch_spec(staged, formatted))) == 1,
    ensures
        ({
            let p = plan_spec(
                staged,
                FormatterResponseModel { exit_ok: true, stdout: formatted },
                true,
                true,
            );
            p.worktree_patch matches Some(pm) && apply_patch_spec(staged, pm) == Some(formatted)
        }),
{
    lemma_patch_roundtrip(staged, formatted);
}

/// A failing formatter never touches anything, whatever the flags.
pub proof fn lemma_failure_never_mutates(
    staged: Seq<u8>,
    stdout: Seq<u8>,
    update_working_tree: bool,
    write: bool,
)
    ensures
        ({
            let p = plan_spec(
                staged,
                FormatterResponseModel { exit_ok: false, stdout },
                update_working_tree,
                write,
            );
            p.outcome == Outcome::Failed && p.index_write is None && p.worktree_patch is None
        }),
{
}

} // verus!
