//! The commit engine: grouping staged edits into per-row update plans,
//! detecting conflicts against re-read rows, and driving the all-or-nothing
//! transaction.
//!
//! The host executes each compiled statement inside one transaction and
//! reports every outcome back; the session decides what happens next.  The
//! session demands a commit only after every statement succeeded, and a
//! rollback as soon as one failed, so no partial write is ever left behind.

use vstd::prelude::*;
use crate::model::{LoadedRow, StagedEdit, row_index_of, row_index_from};
use crate::value::{Value, ValueModel, clone_value, clone_values, value_eq, values_eq, values_view};

verus! {

/// One row's planned update: the key values that address the row, and for
/// each staged column its index, the value originally read, and the value to
/// write.
pub struct RowPlan {
    pub identity: Vec<Value>,
    pub columns: Vec<usize>,
    pub originals: Vec<Value>,
    pub proposed: Vec<Value>,
}

impl RowPlan {
    /// The three slot vectors run in parallel, the plan is non-empty, and no
    /// column is planned twice.
    pub open spec fn wf(self) -> bool {
        &&& 0 < self.columns@.len()
        &&& self.originals@.len() == self.columns@.len()
        &&& self.proposed@.len() == self.columns@.len()
        &&& forall|a: int, b: int|
            0 <= a < b < self.columns@.len() ==> self.columns@[a] != self.columns@[b]
    }
}

/// The plan holds a slot for `(col, orig, prop)` under identity `idv`.
pub open spec fn plan_has_slot(
    p: RowPlan,
    idv: Seq<ValueModel>,
    col: int,
    orig: ValueModel,
    prop: ValueModel,
) -> bool {
    &&& values_view(p.identity@) == idv
    &&& exists|k: int|
        0 <= k < p.columns@.len() && (#[trigger] p.columns@[k]) == col && p.originals@[k]@ == orig
            && p.proposed@[k]@ == prop
}

/// Some plan holds a slot carrying exactly this staged edit.
pub open spec fn plans_contain_edit(plans: Seq<RowPlan>, e: StagedEdit) -> bool {
    exists|g: int|
        0 <= g < plans.len() && plan_has_slot(
            #[trigger] plans[g],
            values_view(e.identity@),
            e.column as int,
            e.original@,
            e.proposed@,
        )
}

/// Some staged edit carries exactly this slot.
pub open spec fn edits_contain_slot(
    edits: Seq<StagedEdit>,
    idv: Seq<ValueModel>,
    col: int,
    orig: ValueModel,
    prop: ValueModel,
) -> bool {
    exists|p: int|
        0 <= p < edits.len() && values_view((#[trigger] edits[p]).identity@) == idv && edits[p].column
            == col && edits[p].original@ == orig && edits[p].proposed@ == prop
}

/// Every slot of every plan comes from some staged edit.
pub open spec fn plans_sound(plans: Seq<RowPlan>, edits: Seq<StagedEdit>) -> bool {
    forall|g: int, k: int|
        0 <= g < plans.len() && 0 <= k < (#[trigger] plans[g]).columns@.len()
            ==> edits_contain_slot(
            edits,
            values_view(plans[g].identity@),
            #[trigger] plans[g].columns@[k] as int,
            plans[g].originals@[k]@,
            plans[g].proposed@[k]@,
        )
}

/// Plan identities are pairwise distinct.
pub open spec fn plans_distinct(plans: Seq<RowPlan>) -> bool {
    forall|g1: int, g2: int|
        0 <= g1 < g2 < plans.len() ==> values_view((#[trigger] plans[g1]).identity@) != values_view(
            (#[trigger] plans[g2]).identity@,
        )
}

fn find_plan(plans: &Vec<RowPlan>, id: &Vec<Value>) -> (r: Option<usize>)
    ensures
        match r {
            Some(g) => g < plans@.len() && values_view(plans@[g as int].identity@) == values_view(
                id@,
            ),
            None => forall|g: int|
                0 <= g < plans@.len() ==> values_view((#[trigger] plans@[g]).identity@)
                    != values_view(id@),
        },
{
    let mut g: usize = 0;
    while g < plans.len()
        invariant
            g <= plans@.len(),
            forall|q: int|
                0 <= q < g ==> values_view((#[trigger] plans@[q]).identity@) != values_view(id@),
        decreases plans@.len() - g,
    {
        if values_eq(&plans[g].identity, id) {
            return Some(g);
        }
        g = g + 1;
    }
    None
}

/// Groups staged edits by row identity into update plans: one plan per
/// distinct row, one slot per staged cell, nothing added and nothing lost.
pub fn group_edits(edits: &Vec<StagedEdit>) -> (plans: Vec<RowPlan>)
    requires
        forall|p: int, q: int|
            0 <= p < q < edits@.len() ==> crate::model::edit_key(#[trigger] edits@[p])
                != crate::model::edit_key(#[trigger] edits@[q]),
    ensures
        forall|p: int| 0 <= p < edits@.len() ==> plans_contain_edit(plans@, #[trigger] edits@[p]),
        plans_sound(plans@, edits@),
        plans_distinct(plans@),
        forall|g: int| 0 <= g < plans@.len() ==> (#[trigger] plans@[g]).wf(),
{
    let mut plans: Vec<RowPlan> = Vec::new();
    let mut p: usize = 0;
    while p < edits.len()
        invariant
            p <= edits@.len(),
            forall|a: int, b: int|
                0 <= a < b < edits@.len() ==> crate::model::edit_key(#[trigger] edits@[a])
                    != crate::model::edit_key(#[trigger] edits@[b]),
            forall|q: int| 0 <= q < p ==> plans_contain_edit(plans@, #[trigger] edits@[q]),
            plans_sound(plans@, edits@.subrange(0, p as int)),
            plans_distinct(plans@),
            forall|g: int| 0 <= g < plans@.len() ==> (#[trigger] plans@[g]).wf(),
        decreases edits@.len() - p,
    {
        let e = &edits[p];
        let ghost pre_plans = plans@;
        let ghost mut removed_at: int = -1;
        match find_plan(&plans, &e.identity) {
            Some(g) => {
                let mut plan = plans.remove(g);
                proof {
                    removed_at = g as int;
                }
                let ghost pre_plan = plan;
                plan.columns.push(e.column);
                plan.originals.push(clone_value(&e.original));
                plan.proposed.push(clone_value(&e.proposed));
                proof {
                    // The new slot must not duplicate a column: a duplicate
                    // would mean two staged edits shared one key.
                    assert forall|a: int|
                        0 <= a < pre_plan.columns@.len() implies pre_plan.columns@[a]
                        != e.column by {
                        if pre_plan.columns@[a] == e.column {
                            assert(edits_contain_slot(
                                edits@.subrange(0, p as int),
                                values_view(pre_plan.identity@),
                                pre_plan.columns@[a] as int,
                                pre_plan.originals@[a]@,
                                pre_plan.proposed@[a]@,
                            ));
                            let q = choose|q: int|
                                0 <= q < edits@.subrange(0, p as int).len() && values_view(
                                    (#[trigger] edits@.subrange(0, p as int)[q]).identity@,
                                ) == values_view(pre_plan.identity@) && edits@.subrange(
                                    0,
                                    p as int,
                                )[q].column == pre_plan.columns@[a] as int && edits@.subrange(
                                    0,
                                    p as int,
                                )[q].original@ == pre_plan.originals@[a]@ && edits@.subrange(
                                    0,
                                    p as int,
                                )[q].proposed@ == pre_plan.proposed@[a]@;
                            assert(crate::model::edit_key(edits@[q]) == crate::model::edit_key(
                                edits@[p as int],
                            ));
                        }
                    }
                }
                plans.push(plan);
            },
            None => {
                let plan = RowPlan {
                    identity: clone_values(&e.identity),
                    columns: vec![e.column],
                    originals: vec![clone_value(&e.original)],
                    proposed: vec![clone_value(&e.proposed)],
                };
                plans.push(plan);
            },
        }
        proof {
            let ep = edits@[p as int];
            let lastp = plans@.last();
            let kw = lastp.columns@.len() - 1;
            assert(lastp.columns@[kw] == ep.column);
            assert(lastp.originals@[kw]@ == ep.original@);
            assert(lastp.proposed@[kw]@ == ep.proposed@);
            assert(plan_has_slot(
                lastp,
                values_view(ep.identity@),
                ep.column as int,
                ep.original@,
                ep.proposed@,
            ));
            assert(plans@[plans@.len() - 1] == lastp);
            assert(plans_contain_edit(plans@, ep));
            // Plans other than the last one are unchanged values.
            assert forall|q: int| 0 <= q < p + 1 implies plans_contain_edit(
                plans@,
                #[trigger] edits@[q],
            ) by {
                if q < p {
                    let g0 = choose|g0: int|
                        0 <= g0 < pre_plans.len() && plan_has_slot(
                            #[trigger] pre_plans[g0],
                            values_view(edits@[q].identity@),
                            edits@[q].column as int,
                            edits@[q].original@,
                            edits@[q].proposed@,
                        );
                    if exists|gg: int|
                        0 <= gg < plans@.len() && #[trigger] plans@[gg] == pre_plans[g0] {
                        let gg = choose|gg: int|
                            0 <= gg < plans@.len() && #[trigger] plans@[gg] == pre_plans[g0];
                        assert(plan_has_slot(
                            plans@[gg],
                            values_view(edits@[q].identity@),
                            edits@[q].column as int,
                            edits@[q].original@,
                            edits@[q].proposed@,
                        ));
                    } else {
                        // The plan that held the slot was extended: it is now
                        // the last plan, and its old slots are still there.
                        if removed_at == -1 {
                            assert(plans@[g0] == pre_plans[g0]);
                            assert(false);
                        }
                        assert(0 <= removed_at < pre_plans.len());
                        assert(g0 == removed_at) by {
                            if g0 < removed_at {
                                assert(plans@[g0] == pre_plans.remove(removed_at)[g0]);
                                assert(plans@[g0] == pre_plans[g0]);
                            } else if g0 > removed_at {
                                assert(plans@[g0 - 1] == pre_plans.remove(removed_at)[g0 - 1]);
                                assert(plans@[g0 - 1] == pre_plans[g0]);
                            }
                        }
                        let old_plan = pre_plans[g0];
                        let k0 = choose|k0: int|
                            0 <= k0 < old_plan.columns@.len() && (#[trigger] old_plan.columns@[k0])
                                == edits@[q].column as int && old_plan.originals@[k0]@
                                == edits@[q].original@ && old_plan.proposed@[k0]@
                                == edits@[q].proposed@;
                        assert(plans@.last().columns@[k0] == old_plan.columns@[k0]);
                        assert(plans@.last().originals@[k0]@ == old_plan.originals@[k0]@);
                        assert(plans@.last().proposed@[k0]@ == old_plan.proposed@[k0]@);
                        assert(plan_has_slot(
                            plans@.last(),
                            values_view(edits@[q].identity@),
                            edits@[q].column as int,
                            edits@[q].original@,
                            edits@[q].proposed@,
                        ));
                        assert(plans@[plans@.len() - 1] == plans@.last());
                    }
                }
            }
            assert(edits@.subrange(0, p + 1).drop_last() =~= edits@.subrange(0, p as int));
            assert forall|g: int, k: int|
                0 <= g < plans@.len() && 0 <= k < (#[trigger] plans@[g]).columns@.len()
                    implies edits_contain_slot(
                edits@.subrange(0, p + 1),
                values_view(plans@[g].identity@),
                #[trigger] plans@[g].columns@[k] as int,
                plans@[g].originals@[k]@,
                plans@[g].proposed@[k]@,
            ) by {
                assert(edits@.subrange(0, p + 1)[p as int] == edits@[p as int]);
                assert forall|q: int|
                    0 <= q < p implies edits@.subrange(0, p + 1)[q] == edits@.subrange(
                    0,
                    p as int,
                )[q] by {}
            }
        }
        p = p + 1;
    }
    proof {
        assert(edits@.subrange(0, edits@.len() as int) =~= edits@);
    }
    plans
}

// ---------------------------------------------------------------------------
// Conflict detection.
// ---------------------------------------------------------------------------

/// A plan conflicts when its row is gone from the re-read page or some
/// planned column's current value differs from the value originally read:
/// another writer changed the row since it was read.
pub open spec fn plan_conflicts(p: RowPlan, current: Seq<LoadedRow>) -> bool {
    let ri = row_index_of(current, values_view(p.identity@));
    ri < 0 || exists|k: int|
        0 <= k < p.columns@.len() && ((#[trigger] p.columns@[k]) >= current[ri].cells@.len()
            || current[ri].cells@[p.columns@[k] as int]@ != p.originals@[k]@)
}

/// The plans that survive conflict checking, in order.
pub open spec fn kept_plans(plans: Seq<RowPlan>, current: Seq<LoadedRow>) -> Seq<RowPlan>
    decreases plans.len(),
{
    if plans.len() == 0 {
        Seq::empty()
    } else if plan_conflicts(plans.last(), current) {
        kept_plans(plans.drop_last(), current)
    } else {
        kept_plans(plans.drop_last(), current).push(plans.last())
    }
}

/// The plans excluded as conflicts, in order.
pub open spec fn conflicting_plans(plans: Seq<RowPlan>, current: Seq<LoadedRow>) -> Seq<RowPlan>
    decreases plans.len(),
{
    if plans.len() == 0 {
        Seq::empty()
    } else if plan_conflicts(plans.last(), current) {
        conflicting_plans(plans.drop_last(), current).push(plans.last())
    } else {
        conflicting_plans(plans.drop_last(), current)
    }
}

fn plan_conflicts_exec(p: &RowPlan, current: &Vec<LoadedRow>) -> (r: bool)
    requires
        p.wf(),
    ensures
        r == plan_conflicts(*p, current@),
{
    let ghost idv = values_view(p.identity@);
    let mut i: usize = 0;
    let mut ri: Option<usize> = Option::None;
    while i < current.len() && ri.is_none()
        invariant
            i <= current@.len(),
            idv == values_view(p.identity@),
            match ri {
                Some(x) => x < current@.len() && x == row_index_of(current@, idv),
                Option::None => row_index_from(current@, idv, 0) == row_index_from(
                    current@,
                    idv,
                    i as int,
                ),
            },
        decreases current@.len() - i + (if ri is None {
            1int
        } else {
            0int
        }),
    {
        if values_eq(&current[i].identity, &p.identity) {
            ri = Option::Some(i);
        } else {
            i = i + 1;
        }
    }
    let row = match ri {
        Some(x) => x,
        Option::None => {
            return true;
        },
    };
    let mut k: usize = 0;
    while k < p.columns.len()
        invariant
            p.wf(),
            k <= p.columns@.len(),
            row < current@.len(),
            row as int == row_index_of(current@, values_view(p.identity@)),
            forall|q: int|
                0 <= q < k ==> (#[trigger] p.columns@[q]) < current@[row as int].cells@.len()
                    && current@[row as int].cells@[p.columns@[q] as int]@ == p.originals@[q]@,
        decreases p.columns@.len() - k,
    {
        let c = p.columns[k];
        if c >= current[row].cells.len() {
            return true;
        }
        if !value_eq(&current[row].cells[c], &p.originals[k]) {
            return true;
        }
        k = k + 1;
    }
    false
}

/// Splits the plans into those safe to apply and those excluded as
/// conflicts, each side in order: a plan conflicts if and only if its row
/// changed since it was read, and a conflict never stops the others.
pub fn reconcile(plans: Vec<RowPlan>, current: &Vec<LoadedRow>) -> (r: (Vec<RowPlan>, Vec<RowPlan>))
    requires
        forall|g: int| 0 <= g < plans@.len() ==> (#[trigger] plans@[g]).wf(),
    ensures
        r.0@ == kept_plans(plans@, current@),
        r.1@ == conflicting_plans(plans@, current@),
{
    let ghost all = plans@;
    let mut rest = plans;
    let total = rest.len();
    let mut applies: Vec<RowPlan> = Vec::new();
    let mut conflicts: Vec<RowPlan> = Vec::new();
    let mut done: usize = 0;
    while rest.len() > 0
        invariant
            total == all.len(),
            done + rest@.len() == all.len(),
            forall|g: int| 0 <= g < all.len() ==> (#[trigger] all[g]).wf(),
            forall|q: int| 0 <= q < rest@.len() ==> rest@[q] == all[done + q],
            applies@ == kept_plans(all.subrange(0, done as int), current@),
            conflicts@ == conflicting_plans(all.subrange(0, done as int), current@),
        decreases rest@.len(),
    {
        let p = rest.remove(0);
        proof {
            assert(all.subrange(0, done + 1).drop_last() =~= all.subrange(0, done as int));
            assert(all.subrange(0, done + 1).last() == all[done as int]);
        }
        if plan_conflicts_exec(&p, current) {
            conflicts.push(p);
        } else {
            applies.push(p);
        }
        done = done + 1;
    }
    proof {
        assert(all.subrange(0, done as int) =~= all);
    }
    (applies, conflicts)
}

// ---------------------------------------------------------------------------
// The transaction session.
// ---------------------------------------------------------------------------

/// Where a commit attempt stands.
#[derive(Clone, Copy, PartialEq, Eq, Structural, Debug)]
pub enum CommitState {
    /// Statements are still being executed inside the open transaction.
    Applying,
    /// Every statement succeeded and the transaction committed.
    Committed,
    /// Something failed and the transaction was rolled back.
    RolledBack,
}

/// What the host must do next.
#[derive(Clone, Copy, PartialEq, Eq, Structural, Debug)]
pub enum CommitAction {
    /// Execute the statement of the plan at this index.
    Execute(usize),
    /// Every statement succeeded: commit the transaction.
    Commit,
    /// The session is over; nothing is left to do.
    Done,
}

/// The ghost model of a session: plan count, progress, state, and which
/// plan's statement failed, if one did.
pub struct SessionModel {
    pub n: int,
    pub next: int,
    pub state: CommitState,
    pub failed: Option<int>,
}

/// One statement outcome applied to the model.
pub open spec fn step_model(m: SessionModel, ok: bool) -> SessionModel {
    if m.state == CommitState::Applying && m.next < m.n {
        if ok {
            SessionModel { next: m.next + 1, ..m }
        } else {
            SessionModel { state: CommitState::RolledBack, failed: Some(m.next), ..m }
        }
    } else {
        m
    }
}

/// A whole run of statement outcomes applied to the model.
pub open spec fn run_model(m: SessionModel, events: Seq<bool>) -> SessionModel
    decreases events.len(),
{
    if events.len() == 0 {
        m
    } else {
        run_model(step_model(m, events[0]), events.drop_first())
    }
}

/// The session that drives one commit attempt over the compiled plans.
pub struct CommitSession {
    pub plans: Vec<RowPlan>,
    pub next: usize,
    pub state: CommitState,
    pub failed: Option<usize>,
}

impl CommitSession {
    /// The ghost model of this session.
    pub open spec fn model(self) -> SessionModel {
        SessionModel {
            n: self.plans@.len() as int,
            next: self.next as int,
            state: self.state,
            failed: match self.failed {
                Some(f) => Some(f as int),
                Option::None => Option::None,
            },
        }
    }

    pub open spec fn wf(self) -> bool {
        self.next <= self.plans@.len()
    }

    /// Opens a session over the non-conflicting plans.
    pub fn new(plans: Vec<RowPlan>) -> (s: CommitSession)
        ensures
            s.wf(),
            s.plans == plans,
            s.model() == (SessionModel {
                n: plans@.len() as int,
                next: 0,
                state: CommitState::Applying,
                failed: Option::None,
            }),
    {
        CommitSession { plans, next: 0, state: CommitState::Applying, failed: Option::None }
    }

    /// What the host must do next: execute the next statement, commit once
    /// all statements succeeded, or nothing once the session is over.
    pub fn next_action(&self) -> (a: CommitAction)
        requires
            self.wf(),
        ensures
            a == (if self.state == CommitState::Applying {
                if self.next < self.plans@.len() {
                    CommitAction::Execute(self.next)
                } else {
                    CommitAction::Commit
                }
            } else {
                CommitAction::Done
            }),
    {
        match self.state {
            CommitState::Applying => {
                if self.next < self.plans.len() {
                    CommitAction::Execute(self.next)
                } else {
                    CommitAction::Commit
                }
            },
            _ => CommitAction::Done,
        }
    }

    /// Records one statement outcome: progress on success, rollback on the
    /// first failure, with the failing plan remembered.
    pub fn statement_done(&mut self, ok: bool)
        requires
            old(self).wf(),
            old(self).state == CommitState::Applying,
            old(self).next < old(self).plans@.len(),
        ensures
            final(self).wf(),
            final(self).plans == old(self).plans,
            final(self).model() == step_model(old(self).model(), ok),
    {
        let n = self.plans.len();
        proof {
            assert(self.next < n);
        }
        if ok {
            self.next = self.next + 1;
        } else {
            self.state = CommitState::RolledBack;
            self.failed = Some(self.next);
        }
    }

    /// Records the outcome of the final commit call itself.
    pub fn commit_done(&mut self, ok: bool)
        requires
            old(self).wf(),
            old(self).state == CommitState::Applying,
            old(self).next == old(self).plans@.len(),
        ensures
            final(self).wf(),
            final(self).plans == old(self).plans,
            final(self).next == old(self).next,
            final(self).failed == old(self).failed,
            final(self).state == if ok {
                CommitState::Committed
            } else {
                CommitState::RolledBack
            },
    {
        if ok {
            self.state = CommitState::Committed;
        } else {
            self.state = CommitState::RolledBack;
        }
    }

    /// On success, how many rows were updated: one per distinct planned row.
    pub fn rows_affected(&self) -> (r: usize)
        requires
            self.state == CommitState::Committed,
        ensures
            r == self.plans@.len(),
    {
        self.plans.len()
    }
}

/// The structured result of one commit attempt, as handed to the
/// presentation layer: either success with the number of updated rows, or a
/// rollback naming the failing plan; the per-row conflicts excluded before
/// the transaction ride along in either case.
pub enum TransactionOutcome {
    /// Every non-conflicting plan was applied and the transaction committed.
    Committed { rows_affected: usize, conflicts: Vec<RowPlan> },
    /// The transaction was rolled back; no staged edit was applied.  The
    /// index names the plan whose statement failed, where one did.
    RolledBack { failed_plan: Option<usize>, conflicts: Vec<RowPlan> },
}

impl CommitSession {
    /// The structured outcome of a finished session, with the conflicts
    /// that were excluded before the transaction began.
    pub fn outcome(&self, conflicts: Vec<RowPlan>) -> (r: TransactionOutcome)
        requires
            self.state != CommitState::Applying,
        ensures
            self.state == CommitState::Committed ==> (r matches TransactionOutcome::Committed {
                rows_affected,
                conflicts: c,
            } && rows_affected == self.plans@.len() && c@ == conflicts@),
            self.state == CommitState::RolledBack ==> (r matches TransactionOutcome::RolledBack {
                failed_plan,
                conflicts: c,
            } && failed_plan == self.failed && c@ == conflicts@),
    {
        match self.state {
            CommitState::Committed => TransactionOutcome::Committed {
                rows_affected: self.plans.len(),
                conflicts,
            },
            _ => TransactionOutcome::RolledBack { failed_plan: self.failed, conflicts },
        }
    }
}

/// A session only ever reaches the commit demand with every statement
/// acknowledged as successful: as long as the model is still applying, every
/// recorded outcome was a success.
pub proof fn lemma_commit_needs_all_ok(m: SessionModel, events: Seq<bool>)
    requires
        m.state == CommitState::Applying,
        m.next == 0,
        m.failed is None,
        events.len() == m.n,
        run_model(m, events).state == CommitState::Applying,
    ensures
        forall|j: int| 0 <= j < events.len() ==> events[j],
        run_model(m, events).next == m.n,
{
    lemma_run_from(m, events);
}

proof fn lemma_run_from(m: SessionModel, events: Seq<bool>)
    requires
        m.state == CommitState::Applying,
        m.next + events.len() == m.n,
        run_model(m, events).state == CommitState::Applying,
    ensures
        forall|j: int| 0 <= j < events.len() ==> events[j],
        run_model(m, events).next == m.n,
    decreases events.len(),
{
    if events.len() > 0 {
        let m2 = step_model(m, events[0]);
        if !events[0] {
            lemma_stuck(m2, events.drop_first());
            assert(run_model(m, events).state == CommitState::RolledBack);
        } else {
            lemma_run_from(m2, events.drop_first());
            assert forall|j: int| 0 <= j < events.len() implies events[j] by {
                if j > 0 {
                    assert(events.drop_first()[j - 1]);
                }
            }
        }
    }
}

/// Once rolled back, a session stays rolled back whatever else is reported,
/// and the failing plan stays on record.
pub proof fn lemma_rollback_is_final(m: SessionModel, events: Seq<bool>)
    requires
        m.state == CommitState::RolledBack,
    ensures
        run_model(m, events) == m,
{
    lemma_stuck(m, events);
}

proof fn lemma_stuck(m: SessionModel, events: Seq<bool>)
    requires
        m.state != CommitState::Applying,
    ensures
        run_model(m, events) == m,
    decreases events.len(),
{
    if events.len() > 0 {
        lemma_stuck(m, events.drop_first());
    }
}

/// The first failed statement rolls the whole attempt back and is the one
/// reported: nothing before it is committed, nothing after it is attempted.
pub proof fn lemma_failure_rolls_back(m: SessionModel, events: Seq<bool>, j: int)
    requires
        m.state == CommitState::Applying,
        m.next == 0,
        m.failed is None,
        events.len() <= m.n,
        0 <= j < events.len(),
        !events[j],
        forall|q: int| 0 <= q < j ==> events[q],
    ensures
        run_model(m, events).state == CommitState::RolledBack,
        run_model(m, events).failed == Some(j),
{
    lemma_fail_from(m, events, j);
}

proof fn lemma_fail_from(m: SessionModel, events: Seq<bool>, j: int)
    requires
        m.state == CommitState::Applying,
        m.next + events.len() <= m.n,
        0 <= j < events.len(),
        !events[j],
        forall|q: int| 0 <= q < j ==> events[q],
    ensures
        run_model(m, events).state == CommitState::RolledBack,
        run_model(m, events).failed == Some(m.next + j),
    decreases events.len(),
{
    let m2 = step_model(m, events[0]);
    if j == 0 {
        lemma_stuck(m2, events.drop_first());
    } else {
        assert forall|q: int| 0 <= q < j - 1 implies events.drop_first()[q] by {
            assert(events[q + 1]);
        }
        assert(!events.drop_first()[j - 1]);
        lemma_fail_from(m2, events.drop_first(), j - 1);
    }
}

} // verus!
