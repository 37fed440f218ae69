//! The order of a store session: which action comes next, given whether the
//! last one succeeded.
//!
//! A session opens the database, begins a transaction, runs every statement
//! of its plan, commits and closes. When a statement fails it rolls the
//! transaction back instead, so that nothing of the plan is kept. A setup
//! session first removes the database that an earlier run left, and fails
//! where that database cannot be removed.

use crate::db::{Statement, StatementView};
use vstd::prelude::*;

verus! {

/// Why a session failed.
#[derive(Clone, Copy, Debug, PartialEq, Eq)]
pub enum StoreError {
    /// What an earlier run left could not be removed, the database could not
    /// be opened, or the schema could not be created.
    Setup,
    /// The records could not be written; nothing of them was committed.
    Persist,
    /// The work was done but the database could not be closed.
    Close,
}

/// What a session is for.
#[derive(Clone, Copy, Debug, PartialEq, Eq)]
pub enum Kind {
    /// Makes an empty database with the schema.
    Setup,
    /// Writes the records in one transaction.
    Persist,
}

/// Where a session stands: the action it waits for, or how it ended.
#[derive(Clone, Copy, Debug, PartialEq, Eq)]
pub enum Step {
    /// Make sure that no database of an earlier run is left.
    RemovePrior,
    /// Open the database.
    Open,
    /// Begin the transaction.
    Begin,
    /// Run the statement at this position of the plan.
    Execute(usize),
    /// Commit the transaction.
    Commit,
    /// Roll the transaction back.
    Rollback,
    /// Close the database.
    Close,
    /// The session is over and all of its work is done.
    Succeeded,
    /// The session is over and failed.
    Failed(StoreError),
}

/// The action a session asks of its caller.
#[derive(Debug)]
pub enum Action<'a> {
    /// Remove the database an earlier run left. The action succeeds when the
    /// database was removed and when there was none; it fails when a
    /// database is there and cannot be removed.
    RemovePrior,
    /// Open the database.
    Open,
    /// Begin a transaction.
    Begin,
    /// Run this statement.
    Execute(&'a Statement),
    /// Commit the transaction.
    Commit,
    /// Roll the transaction back.
    Rollback,
    /// Close the database.
    Close,
    /// Nothing is left to do: this is the session's result.
    Finish(Result<(), StoreError>),
}

/// What an [`Action`] asks for.
pub enum ActionView {
    RemovePrior,
    Open,
    Begin,
    Execute(StatementView),
    Commit,
    Rollback,
    Close,
    Finish(Result<(), StoreError>),
}

impl<'a> View for Action<'a> {
    type V = ActionView;

    open spec fn view(&self) -> ActionView {
        match self {
            Action::RemovePrior => ActionView::RemovePrior,
            Action::Open => ActionView::Open,
            Action::Begin => ActionView::Begin,
            Action::Execute(statement) => ActionView::Execute(statement@),
            Action::Commit => ActionView::Commit,
            Action::Rollback => ActionView::Rollback,
            Action::Close => ActionView::Close,
            Action::Finish(result) => ActionView::Finish(*result),
        }
    }
}

/// The step a session of this kind begins with.
pub open spec fn first_step(kind: Kind) -> Step {
    match kind {
        Kind::Setup => Step::RemovePrior,
        Kind::Persist => Step::Open,
    }
}

/// The error of a session that fails before its work is done.
pub open spec fn failure(kind: Kind) -> StoreError {
    match kind {
        Kind::Setup => StoreError::Setup,
        Kind::Persist => StoreError::Persist,
    }
}

/// The step that follows once `done` statements of a plan of `len` have run:
/// the next statement, or the commit.
pub open spec fn step_from(len: usize, done: int) -> Step {
    if 0 <= done < len {
        Step::Execute(done as usize)
    } else {
        Step::Commit
    }
}

/// The step that follows `step`, given whether its action succeeded.
///
/// A session fails as soon as an action fails: at once, or after the
/// rollback where statements have run. The outcome of the rollback itself is
/// not looked at: the session has failed by then.
pub open spec fn next_step(kind: Kind, len: usize, step: Step, succeeded: bool) -> Step {
    match step {
        Step::RemovePrior => if succeeded {
            Step::Open
        } else {
            Step::Failed(failure(kind))
        },
        Step::Open => if succeeded {
            Step::Begin
        } else {
            Step::Failed(failure(kind))
        },
        Step::Begin => if succeeded {
            step_from(len, 0)
        } else {
            Step::Failed(failure(kind))
        },
        Step::Execute(index) => if succeeded {
            step_from(len, index + 1)
        } else {
            Step::Rollback
        },
        Step::Commit => if succeeded {
            Step::Close
        } else {
            Step::Failed(failure(kind))
        },
        Step::Rollback => Step::Failed(failure(kind)),
        Step::Close => if succeeded {
            Step::Succeeded
        } else {
            Step::Failed(StoreError::Close)
        },
        Step::Succeeded => Step::Succeeded,
        Step::Failed(error) => Step::Failed(error),
    }
}

/// What a [`Session`] holds.
pub struct SessionView {
    pub kind: Kind,
    pub plan: Seq<StatementView>,
    pub step: Step,
}

impl SessionView {
    /// The action that the session asks for.
    pub open spec fn action(self) -> ActionView {
        match self.step {
            Step::RemovePrior => ActionView::RemovePrior,
            Step::Open => ActionView::Open,
            Step::Begin => ActionView::Begin,
            Step::Execute(index) => ActionView::Execute(self.plan[index as int]),
            Step::Commit => ActionView::Commit,
            Step::Rollback => ActionView::Rollback,
            Step::Close => ActionView::Close,
            Step::Succeeded => ActionView::Finish(Ok(())),
            Step::Failed(error) => ActionView::Finish(Err(error)),
        }
    }

    /// The session after its action was performed and succeeded or not.
    pub open spec fn advance(self, succeeded: bool) -> SessionView {
        SessionView {
            kind: self.kind,
            plan: self.plan,
            step: next_step(self.kind, self.plan.len() as usize, self.step, succeeded),
        }
    }
}

/// One run of the store, from its first action to its result.
pub struct Session {
    kind: Kind,
    plan: Vec<Statement>,
    step: Step,
}

impl View for Session {
    type V = SessionView;

    closed spec fn view(&self) -> SessionView {
        SessionView { kind: self.kind, plan: self.plan.deep_view(), step: self.step }
    }
}

impl Session {
    #[verifier::type_invariant]
    spec fn in_plan(self) -> bool {
        self.step matches Step::Execute(index) ==> index < self.plan.len()
    }

    /// A session that sets the database up with the statements of `plan`.
    pub fn setup(plan: Vec<Statement>) -> (session: Session)
        ensures
            session@ == (SessionView {
                kind: Kind::Setup,
                plan: plan.deep_view(),
                step: first_step(Kind::Setup),
            }),
    {
        Session { kind: Kind::Setup, plan, step: Step::RemovePrior }
    }

    /// A session that writes the statements of `plan` in one transaction.
    pub fn persist(plan: Vec<Statement>) -> (session: Session)
        ensures
            session@ == (SessionView {
                kind: Kind::Persist,
                plan: plan.deep_view(),
                step: first_step(Kind::Persist),
            }),
    {
        Session { kind: Kind::Persist, plan, step: Step::Open }
    }

    /// The action to perform now. A finished session keeps giving its result.
    pub fn action(&self) -> (action: Action<'_>)
        ensures
            action@ == self@.action(),
    {
        proof {
            use_type_invariant(self);
        }
        match self.step {
            Step::RemovePrior => Action::RemovePrior,
            Step::Open => Action::Open,
            Step::Begin => Action::Begin,
            Step::Execute(index) => Action::Execute(&self.plan[index]),
            Step::Commit => Action::Commit,
            Step::Rollback => Action::Rollback,
            Step::Close => Action::Close,
            Step::Succeeded => Action::Finish(Ok(())),
            Step::Failed(error) => Action::Finish(Err(error)),
        }
    }

    /// Takes note of whether the action succeeded and moves on to the next.
    /// Removing an earlier database succeeded when it was removed or there was
    /// none. The outcome of rolling back is not looked at; a finished session
    /// stays as it is.
    pub fn advance(&mut self, succeeded: bool)
        ensures
            final(self)@ == old(self)@.advance(succeeded),
    {
        proof {
            use_type_invariant(&*self);
        }
        let failed = Step::Failed(
            match self.kind {
                Kind::Setup => StoreError::Setup,
                Kind::Persist => StoreError::Persist,
            },
        );
        let next = match self.step {
            Step::RemovePrior => if succeeded {
                Step::Open
            } else {
                failed
            },
            Step::Open => if succeeded {
                Step::Begin
            } else {
                failed
            },
            Step::Begin => if succeeded {
                self.step_at(0)
            } else {
                failed
            },
            Step::Execute(index) => if succeeded {
                self.step_at(index + 1)
            } else {
                Step::Rollback
            },
            Step::Commit => if succeeded {
                Step::Close
            } else {
                failed
            },
            Step::Rollback => failed,
            Step::Close => if succeeded {
                Step::Succeeded
            } else {
                Step::Failed(StoreError::Close)
            },
            Step::Succeeded => Step::Succeeded,
            Step::Failed(error) => Step::Failed(error),
        };
        self.step = next;
    }

    /// The step that follows once `done` statements have run.
    fn step_at(&self, done: usize) -> (step: Step)
        ensures
            step == step_from(self.plan.len(), done as int),
            step matches Step::Execute(index) ==> index < self.plan.len(),
    {
        if done < self.plan.len() {
            Step::Execute(done)
        } else {
            Step::Commit
        }
    }

    /// Where the session stands.
    pub fn step(&self) -> (step: Step)
        ensures
            step == self@.step,
    {
        self.step
    }

    /// What the session is for.
    pub fn kind(&self) -> (kind: Kind)
        ensures
            kind == self@.kind,
    {
        self.kind
    }

    /// The statements of the session, in the order they are run.
    pub fn plan(&self) -> (plan: &Vec<Statement>)
        ensures
            plan.deep_view() == self@.plan,
    {
        &self.plan
    }
}

impl StoreError {
    /// A short description of the failure.
    pub fn message(&self) -> (message: &'static str)
        ensures
            message@ == match *self {
                StoreError::Setup => "Could not set up database"@,
                StoreError::Persist => "Could not add filedata to database"@,
                StoreError::Close => "Could not close database"@,
            },
    {
        match self {
            StoreError::Setup => "Could not set up database",
            StoreError::Persist => "Could not add filedata to database",
            StoreError::Close => "Could not close database",
        }
    }
}

/// Where a session stands after its actions had these outcomes, in order.
pub open spec fn step_after(kind: Kind, len: usize, outcomes: Seq<bool>) -> Step
    decreases outcomes.len(),
{
    if outcomes.len() == 0 {
        first_step(kind)
    } else {
        next_step(kind, len, step_after(kind, len, outcomes.drop_last()), outcomes.last())
    }
}

/// The number of actions that come before the first statement of the plan:
/// opening and beginning, and for a setup the removal before them.
pub open spec fn lead(kind: Kind) -> int {
    match kind {
        Kind::Setup => 3,
        Kind::Persist => 2,
    }
}

/// The number of actions of a session in which nothing fails: the lead, the
/// statements, the commit and the close.
pub open spec fn action_count(kind: Kind, len: usize) -> int {
    lead(kind) + len + 2
}

/// Where a session stands after `count` actions of which none failed.
pub open spec fn step_on_course(kind: Kind, len: usize, count: int) -> Step {
    if count == lead(kind) - 3 {
        Step::RemovePrior
    } else if count == lead(kind) - 2 {
        Step::Open
    } else if count == lead(kind) - 1 {
        Step::Begin
    } else if count < lead(kind) + len {
        Step::Execute((count - lead(kind)) as usize)
    } else if count == lead(kind) + len {
        Step::Commit
    } else if count == lead(kind) + len + 1 {
        Step::Close
    } else {
        Step::Succeeded
    }
}

/// Whether every one of `outcomes` is a success.
pub open spec fn all_succeeded(outcomes: Seq<bool>) -> bool {
    forall|i: int| 0 <= i < outcomes.len() ==> outcomes[i]
}

/// Whether a session at `step` has met no failure.
pub open spec fn on_course(step: Step) -> bool {
    step !is Failed && step !is Rollback
}

/// While nothing fails, a session goes through its actions in order: the
/// lead, every statement of the plan in turn, the commit, the close, and
/// success after that.
pub proof fn lemma_steps_on_course(kind: Kind, len: usize, outcomes: Seq<bool>)
    requires
        all_succeeded(outcomes),
    ensures
        step_after(kind, len, outcomes) == step_on_course(kind, len, outcomes.len() as int),
    decreases outcomes.len(),
{
    if outcomes.len() > 0 {
        let before = outcomes.drop_last();
        assert(all_succeeded(before)) by {
            assert forall|i: int| 0 <= i < before.len() implies before[i] by {
                assert(before[i] == outcomes[i]);
            }
        }
        lemma_steps_on_course(kind, len, before);
        assert(outcomes.last());
    }
}

/// A session that has met no failure stands where its count of actions puts
/// it, and every action so far succeeded.
pub proof fn lemma_on_course_only_by_success(kind: Kind, len: usize, outcomes: Seq<bool>)
    requires
        on_course(step_after(kind, len, outcomes)),
    ensures
        step_after(kind, len, outcomes) == step_on_course(kind, len, outcomes.len() as int),
        outcomes.len() <= action_count(kind, len) ==> all_succeeded(outcomes),
        outcomes.len() > action_count(kind, len) ==> all_succeeded(
            outcomes.take(action_count(kind, len)),
        ),
    decreases outcomes.len(),
{
    let total = action_count(kind, len);
    if outcomes.len() > 0 {
        let before = outcomes.drop_last();
        let earlier = step_after(kind, len, before);
        assert(on_course(earlier));
        lemma_on_course_only_by_success(kind, len, before);
        if outcomes.len() <= total {
            assert(all_succeeded(outcomes)) by {
                assert forall|i: int| 0 <= i < outcomes.len() implies outcomes[i] by {
                    if i < before.len() {
                        assert(before[i] == outcomes[i]);
                    }
                }
            }
        } else if before.len() == total {
            assert(outcomes.take(total) =~= before);
        } else {
            assert(outcomes.take(total) =~= before.take(total));
        }
    }
}

/// A session asks for the commit only when every action before it succeeded:
/// the removal where there is one, opening, beginning and every statement of
/// the plan.
pub proof fn lemma_commit_only_after_every_statement(kind: Kind, len: usize, outcomes: Seq<bool>)
    requires
        step_after(kind, len, outcomes) == Step::Commit,
    ensures
        outcomes.len() == lead(kind) + len,
        all_succeeded(outcomes),
{
    lemma_on_course_only_by_success(kind, len, outcomes);
}

/// A session ends in success only when every action of it succeeded.
pub proof fn lemma_success_only_after_every_action(kind: Kind, len: usize, outcomes: Seq<bool>)
    requires
        step_after(kind, len, outcomes) == Step::Succeeded,
    ensures
        outcomes.len() >= action_count(kind, len),
        all_succeeded(outcomes.take(action_count(kind, len))),
{
    lemma_on_course_only_by_success(kind, len, outcomes);
    if outcomes.len() == action_count(kind, len) {
        assert(outcomes.take(action_count(kind, len)) =~= outcomes);
    }
}

/// All or nothing: when the removal, opening, beginning or any statement of a
/// session fails, the session never asks for the commit and never ends in
/// success, whatever the outcomes after the failure.
pub proof fn lemma_failure_commits_nothing(
    kind: Kind,
    len: usize,
    outcomes: Seq<bool>,
    failed: int,
)
    requires
        0 <= failed < lead(kind) + len,
        failed < outcomes.len(),
        !outcomes[failed],
    ensures
        forall|count: int|
            0 <= count <= outcomes.len() ==> {
                let step = #[trigger] step_after(kind, len, outcomes.take(count));
                step != Step::Commit && step != Step::Close && step != Step::Succeeded
            },
{
    assert forall|count: int| 0 <= count <= outcomes.len() implies {
        let step = #[trigger] step_after(kind, len, outcomes.take(count));
        step != Step::Commit && step != Step::Close && step != Step::Succeeded
    } by {
        let run = outcomes.take(count);
        let step = step_after(kind, len, run);
        if step == Step::Commit || step == Step::Close || step == Step::Succeeded {
            lemma_on_course_only_by_success(kind, len, run);
            assert(count >= lead(kind) + len);
            if count <= action_count(kind, len) {
                assert(run[failed] == outcomes[failed]);
            } else {
                assert(run.take(action_count(kind, len))[failed] == outcomes[failed]);
            }
        }
    }
}

/// When the statement at position `index` of the plan is the first action of
/// a session to fail, the session asks for the rollback next and then ends
/// with its error, whether or not the rollback succeeded.
pub proof fn lemma_failed_statement_rolls_back(
    kind: Kind,
    len: usize,
    outcomes: Seq<bool>,
    index: int,
)
    requires
        0 <= index < len,
        outcomes.len() == lead(kind) + index + 1,
        !outcomes.last(),
        all_succeeded(outcomes.drop_last()),
    ensures
        step_after(kind, len, outcomes.drop_last()) == Step::Execute(index as usize),
        step_after(kind, len, outcomes) == Step::Rollback,
        forall|rolled_back: bool|
            step_after(kind, len, #[trigger] outcomes.push(rolled_back)) == Step::Failed(
                failure(kind),
            ),
{
    lemma_steps_on_course(kind, len, outcomes.drop_last());
    assert forall|rolled_back: bool|
        step_after(kind, len, #[trigger] outcomes.push(rolled_back)) == Step::Failed(
            failure(kind),
        ) by {
        assert(outcomes.push(rolled_back).drop_last() =~= outcomes);
    }
}

/// A session that has failed stays failed, with the same error, whatever is
/// reported to it afterwards.
pub proof fn lemma_failure_is_final(
    kind: Kind,
    len: usize,
    outcomes: Seq<bool>,
    later: Seq<bool>,
    error: StoreError,
)
    requires
        step_after(kind, len, outcomes) == Step::Failed(error),
    ensures
        step_after(kind, len, outcomes + later) == Step::Failed(error),
    decreases later.len(),
{
    if later.len() == 0 {
        assert(outcomes + later =~= outcomes);
    } else {
        lemma_failure_is_final(kind, len, outcomes, later.drop_last(), error);
        assert((outcomes + later).drop_last() =~= outcomes + later.drop_last());
        assert((outcomes + later).last() == later.last());
    }
}

/// A setup session begins by removing what an earlier run left, and opens
/// the database only once nothing is left. Where the earlier database cannot
/// be removed, the session fails with the setup error: it opens nothing and
/// creates nothing, whatever is reported to it afterwards.
pub proof fn lemma_setup_starts_afresh(len: usize, outcomes: Seq<bool>)
    requires
        outcomes.len() > 0,
    ensures
        first_step(Kind::Setup) == Step::RemovePrior,
        outcomes[0] ==> step_after(Kind::Setup, len, outcomes.take(1)) == Step::Open,
        !outcomes[0] ==> step_after(Kind::Setup, len, outcomes) == Step::Failed(StoreError::Setup),
{
    let first = outcomes.take(1);
    assert(first.drop_last() =~= Seq::<bool>::empty());
    assert(first.last() == outcomes[0]);
    assert(step_after(Kind::Setup, len, first.drop_last()) == Step::RemovePrior);
    if !outcomes[0] {
        lemma_failure_is_final(Kind::Setup, len, first, outcomes.skip(1), StoreError::Setup);
        assert(first + outcomes.skip(1) =~= outcomes);
    }
}

} // verus!
