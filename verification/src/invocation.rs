//! One invocation as a state machine. The library decides what is to happen
//! next; whoever owns the connection performs it and reports how it went.

use crate::context::{Effect, EffectView};
use vstd::prelude::*;
use vstd::string::*;

verus! {

/// Why an invocation failed.
#[derive(Debug, PartialEq, Eq)]
pub enum HandlerError {
    /// A message could not be sent; the text says why.
    SendFailed(String),
    /// A message could not be deleted; the text says why.
    DeleteFailed(String),
    /// The handler would not work on what it was given; the text says why.
    Rejected(String),
}

/// The mathematical value of a `HandlerError`.
pub enum HandlerErrorView {
    SendFailed(Seq<char>),
    DeleteFailed(Seq<char>),
    Rejected(Seq<char>),
}

impl View for HandlerError {
    type V = HandlerErrorView;

    open spec fn view(&self) -> HandlerErrorView {
        match self {
            HandlerError::SendFailed(detail) => HandlerErrorView::SendFailed(detail@),
            HandlerError::DeleteFailed(detail) => HandlerErrorView::DeleteFailed(detail@),
            HandlerError::Rejected(detail) => HandlerErrorView::Rejected(detail@),
        }
    }
}

/// The mathematical value of what a handler returns.
pub open spec fn verdict_view(verdict: Result<(), HandlerError>) -> Result<(), HandlerErrorView> {
    match verdict {
        Ok(()) => Ok(()),
        Err(error) => Err(error@),
    }
}

impl Clone for HandlerError {
    fn clone(&self) -> (r: HandlerError)
        ensures
            r@ == self@,
    {
        match self {
            HandlerError::SendFailed(detail) => HandlerError::SendFailed(detail.clone()),
            HandlerError::DeleteFailed(detail) => HandlerError::DeleteFailed(detail.clone()),
            HandlerError::Rejected(detail) => HandlerError::Rejected(detail.clone()),
        }
    }
}

/// How the last action went.
#[derive(Debug, PartialEq, Eq)]
pub enum Outcome {
    Succeeded,
    /// It failed; the text says why.
    Failed(String),
}

/// The mathematical value of an `Outcome`.
pub enum OutcomeView {
    Succeeded,
    Failed(Seq<char>),
}

impl DeepView for Outcome {
    type V = OutcomeView;

    open spec fn deep_view(&self) -> OutcomeView {
        match self {
            Outcome::Succeeded => OutcomeView::Succeeded,
            Outcome::Failed(detail) => OutcomeView::Failed(detail@),
        }
    }
}

impl View for Outcome {
    type V = OutcomeView;

    open spec fn view(&self) -> OutcomeView {
        self.deep_view()
    }
}

impl Clone for Outcome {
    fn clone(&self) -> (r: Outcome)
        ensures
            r@ == self@,
    {
        match self {
            Outcome::Succeeded => Outcome::Succeeded,
            Outcome::Failed(detail) => Outcome::Failed(detail.clone()),
        }
    }
}

/// What is to happen next in an invocation.
#[derive(Debug, PartialEq, Eq)]
pub enum Action {
    /// Perform this operation of the outbound sink.
    Perform(Effect),
    /// Hand this text to the diagnostic sink.
    Report(String),
    /// Nothing: the invocation is over.
    Finished,
}

/// The mathematical value of an `Action`.
pub enum ActionView {
    Perform(EffectView),
    Report(Seq<char>),
    Finished,
}

impl DeepView for Action {
    type V = ActionView;

    open spec fn deep_view(&self) -> ActionView {
        match self {
            Action::Perform(effect) => ActionView::Perform(effect@),
            Action::Report(text) => ActionView::Report(text@),
            Action::Finished => ActionView::Finished,
        }
    }
}

impl View for Action {
    type V = ActionView;

    open spec fn view(&self) -> ActionView {
        self.deep_view()
    }
}

/// The error in what a handler returned, if there is one.
pub open spec fn error_in(verdict: Result<(), HandlerErrorView>) -> Option<HandlerErrorView> {
    match verdict {
        Ok(()) => None,
        Err(error) => Some(error),
    }
}

/// The error that the failure of `effect` amounts to.
pub open spec fn error_of(effect: EffectView, detail: Seq<char>) -> HandlerErrorView {
    match effect {
        EffectView::SendMessage { .. } => HandlerErrorView::SendFailed(detail),
        EffectView::DeleteMessage { .. } => HandlerErrorView::DeleteFailed(detail),
    }
}

/// What an error reads like.
pub open spec fn describe(error: HandlerErrorView) -> Seq<char> {
    match error {
        HandlerErrorView::SendFailed(detail) => "could not send a message: "@ + detail,
        HandlerErrorView::DeleteFailed(detail) => "could not delete a message: "@ + detail,
        HandlerErrorView::Rejected(detail) => "rejected: "@ + detail,
    }
}

/// The diagnostic for the failure of a command: the command's name and the
/// cause.
pub open spec fn diagnostic(command: Seq<char>, error: HandlerErrorView) -> Seq<char> {
    "command "@ + command + " failed: "@ + describe(error)
}

/// The state of an invocation.
pub struct InvocationView {
    /// The name of the command that was invoked.
    pub command: Seq<char>,
    /// The side effects that the handler asked for, in their order.
    pub effects: Seq<EffectView>,
    /// What the handler returned.
    pub verdict: Result<(), HandlerErrorView>,
    /// How many of the effects have been performed.
    pub done: int,
    /// Why the invocation failed, once it has: the failure of the effect
    /// that was tried last or, with all of them performed, the error that
    /// the handler returned.
    pub failure: Option<HandlerErrorView>,
    /// Whether that failure has been reported.
    pub reported: bool,
}

impl InvocationView {
    /// The state in which nothing has been performed yet.
    pub open spec fn start(
        command: Seq<char>,
        effects: Seq<EffectView>,
        verdict: Result<(), HandlerErrorView>,
    ) -> InvocationView {
        InvocationView {
            command,
            effects,
            verdict,
            done: 0,
            failure: if effects.len() == 0 {
                error_in(verdict)
            } else {
                None
            },
            reported: false,
        }
    }

    /// What is to happen next. The effects are performed in their order as
    /// long as they succeed; a failure is reported once; then nothing
    /// follows.
    pub open spec fn action(self) -> ActionView {
        match self.failure {
            Some(error) => if self.reported {
                ActionView::Finished
            } else {
                ActionView::Report(diagnostic(self.command, error))
            },
            None => if 0 <= self.done < self.effects.len() {
                ActionView::Perform(self.effects[self.done])
            } else {
                ActionView::Finished
            },
        }
    }

    /// The state after the action was tried and went as `outcome` says. A
    /// failed effect ends the performing and is kept for the report; so is,
    /// behind the last effect, the error that the handler returned. How the
    /// report itself went changes nothing.
    pub open spec fn advance(self, outcome: OutcomeView) -> InvocationView {
        match self.action() {
            ActionView::Perform(effect) => match outcome {
                OutcomeView::Succeeded => InvocationView {
                    done: self.done + 1,
                    failure: if self.done + 1 == self.effects.len() {
                        error_in(self.verdict)
                    } else {
                        None
                    },
                    reported: false,
                    ..self
                },
                OutcomeView::Failed(detail) => InvocationView {
                    failure: Some(error_of(effect, detail)),
                    reported: false,
                    ..self
                },
            },
            ActionView::Report(_) => InvocationView { reported: true, ..self },
            ActionView::Finished => self,
        }
    }

    /// How the invocation ended, once it is over.
    pub open spec fn result(self) -> Option<Result<(), HandlerErrorView>> {
        if self.action() is Finished {
            match self.failure {
                Some(error) => Some(Err(error)),
                None => Some(Ok(())),
            }
        } else {
            None
        }
    }

    /// A bound on the number of actions that are still to come.
    pub open spec fn remaining(self) -> nat {
        match self.failure {
            Some(_) => if self.reported {
                0
            } else {
                1
            },
            None => if 0 <= self.done < self.effects.len() {
                (self.effects.len() - self.done + 1) as nat
            } else {
                0
            },
        }
    }

    /// The actions that are asked for, one after the other, from this state
    /// on until the invocation is over, where the `i`-th of them goes as
    /// `outcomes[i]` says, and those behind the last outcome succeed.
    pub open spec fn run(self, outcomes: Seq<OutcomeView>) -> Seq<ActionView>
        decreases self.remaining(),
    {
        if self.action() is Finished {
            Seq::empty()
        } else {
            seq![self.action()] + self.advance(first_outcome(outcomes)).run(
                later_outcomes(outcomes),
            )
        }
    }
}

/// The outcome of the action that comes first.
pub open spec fn first_outcome(outcomes: Seq<OutcomeView>) -> OutcomeView {
    if outcomes.len() > 0 {
        outcomes[0]
    } else {
        OutcomeView::Succeeded
    }
}

/// The outcomes of the actions behind the first.
pub open spec fn later_outcomes(outcomes: Seq<OutcomeView>) -> Seq<OutcomeView> {
    if outcomes.len() > 0 {
        outcomes.drop_first()
    } else {
        outcomes
    }
}

/// Performing each of `effects`, in their order.
pub open spec fn performs(effects: Seq<EffectView>) -> Seq<ActionView> {
    effects.map_values(|effect: EffectView| ActionView::Perform(effect))
}

/// Every step brings an invocation that is not over nearer to its end: it
/// is over after at most `remaining()` actions, however they go.
pub proof fn lemma_advance_progress(invocation: InvocationView, outcome: OutcomeView)
    requires
        !(invocation.action() is Finished),
    ensures
        invocation.advance(outcome).remaining() < invocation.remaining(),
{
}

/// What follows the last effect: the report of the error that the handler
/// returned, if it returned one.
pub open spec fn closing(command: Seq<char>, verdict: Result<(), HandlerErrorView>) -> Seq<
    ActionView,
> {
    match verdict {
        Ok(()) => Seq::empty(),
        Err(error) => seq![ActionView::Report(diagnostic(command, error))],
    }
}

/// Whether every outcome is a success.
pub open spec fn all_succeed(outcomes: Seq<OutcomeView>) -> bool {
    forall|i: int| 0 <= i < outcomes.len() ==> #[trigger] outcomes[i] is Succeeded
}

/// `lemma_run_success` from any state in which effects are left.
proof fn lemma_run_success_from(invocation: InvocationView, outcomes: Seq<OutcomeView>)
    requires
        invocation.failure is None,
        0 <= invocation.done < invocation.effects.len(),
        all_succeed(outcomes),
    ensures
        invocation.run(outcomes) == performs(
            invocation.effects.subrange(invocation.done, invocation.effects.len() as int),
        ) + closing(invocation.command, invocation.verdict),
    decreases invocation.effects.len() - invocation.done,
{
    let effects = invocation.effects;
    let done = invocation.done;
    let ends = closing(invocation.command, invocation.verdict);
    let next = invocation.advance(first_outcome(outcomes));
    let later = later_outcomes(outcomes);
    assert(first_outcome(outcomes) is Succeeded);
    assert forall|i: int| 0 <= i < later.len() implies #[trigger] later[i] is Succeeded by {
        assert(later[i] == outcomes[i + 1]);
    }
    if done + 1 < effects.len() {
        lemma_run_success_from(next, later);
    } else {
        lemma_run_closing(next, later);
    }
    assert(invocation.run(outcomes) =~= performs(effects.subrange(done, effects.len() as int))
        + ends);
}

/// With all effects performed, what is left is the closing.
proof fn lemma_run_closing(invocation: InvocationView, outcomes: Seq<OutcomeView>)
    requires
        invocation.done == invocation.effects.len(),
        invocation.failure == error_in(invocation.verdict),
        !invocation.reported,
    ensures
        invocation.run(outcomes) == closing(invocation.command, invocation.verdict),
{
    if invocation.failure is Some {
        let last = invocation.advance(first_outcome(outcomes));
        assert(last.action() is Finished);
        assert(last.run(later_outcomes(outcomes)) =~= Seq::empty());
        assert(invocation.run(outcomes) =~= closing(invocation.command, invocation.verdict));
    }
}

/// Where every effect succeeds, each is performed once, in the order in
/// which the handler asked for them. Nothing is reported but the error that
/// the handler itself returned, if it returned one.
pub proof fn lemma_run_success(
    command: Seq<char>,
    effects: Seq<EffectView>,
    verdict: Result<(), HandlerErrorView>,
    outcomes: Seq<OutcomeView>,
)
    requires
        all_succeed(outcomes),
    ensures
        InvocationView::start(command, effects, verdict).run(outcomes) == performs(effects)
            + closing(command, verdict),
{
    let invocation = InvocationView::start(command, effects, verdict);
    if effects.len() == 0 {
        lemma_run_closing(invocation, outcomes);
        assert(performs(effects) + closing(command, verdict) =~= closing(command, verdict));
    } else {
        lemma_run_success_from(invocation, outcomes);
        assert(effects.subrange(0, effects.len() as int) =~= effects);
    }
}

/// `lemma_run_failure` from any state in which effects are left.
proof fn lemma_run_failure_from(
    invocation: InvocationView,
    outcomes: Seq<OutcomeView>,
    k: int,
    detail: Seq<char>,
)
    requires
        invocation.failure is None,
        0 <= invocation.done,
        0 <= k < outcomes.len(),
        invocation.done + k < invocation.effects.len(),
        forall|i: int| 0 <= i < k ==> #[trigger] outcomes[i] is Succeeded,
        outcomes[k] == OutcomeView::Failed(detail),
    ensures
        invocation.run(outcomes) == performs(
            invocation.effects.subrange(invocation.done, invocation.done + k + 1),
        ) + seq![
            ActionView::Report(
                diagnostic(
                    invocation.command,
                    error_of(invocation.effects[invocation.done + k], detail),
                ),
            ),
        ],
    decreases k,
{
    let effects = invocation.effects;
    let done = invocation.done;
    let next = invocation.advance(first_outcome(outcomes));
    let later = later_outcomes(outcomes);
    let report = ActionView::Report(
        diagnostic(invocation.command, error_of(effects[done + k], detail)),
    );
    assert(invocation.action() == ActionView::Perform(effects[done]));
    if k == 0 {
        assert(first_outcome(outcomes) == OutcomeView::Failed(detail));
        assert(next.failure == Some(error_of(effects[done], detail)));
        assert(next.action() == report);
        let last = next.advance(first_outcome(later));
        assert(last.action() is Finished);
        assert(last.run(later_outcomes(later)) =~= Seq::empty());
        assert(next.run(later) =~= seq![report]);
        assert(invocation.run(outcomes) =~= performs(effects.subrange(done, done + 1)) + seq![
            report,
        ]);
    } else {
        assert(outcomes[0] is Succeeded);
        assert forall|i: int| 0 <= i < k - 1 implies #[trigger] later[i] is Succeeded by {
            assert(later[i] == outcomes[i + 1]);
        }
        assert(later[k - 1] == outcomes[k]);
        lemma_run_failure_from(next, later, k - 1, detail);
        assert(invocation.run(outcomes) =~= performs(effects.subrange(done, done + k + 1)) + seq![
            report,
        ]);
    }
}

/// Where an effect fails, those before it have been performed, it has been
/// tried, none behind it is, and the failure is reported once, with the
/// command's name and the cause. What the handler returned plays no part.
pub proof fn lemma_run_failure(
    command: Seq<char>,
    effects: Seq<EffectView>,
    verdict: Result<(), HandlerErrorView>,
    outcomes: Seq<OutcomeView>,
    k: int,
    detail: Seq<char>,
)
    requires
        0 <= k < effects.len(),
        k < outcomes.len(),
        forall|i: int| 0 <= i < k ==> #[trigger] outcomes[i] is Succeeded,
        outcomes[k] == OutcomeView::Failed(detail),
    ensures
        InvocationView::start(command, effects, verdict).run(outcomes) == performs(
            effects.take(k + 1),
        ) + seq![ActionView::Report(diagnostic(command, error_of(effects[k], detail)))],
{
    lemma_run_failure_from(InvocationView::start(command, effects, verdict), outcomes, k, detail);
}

/// An invocation in progress.
#[derive(Debug, PartialEq, Eq)]
pub struct Invocation {
    command: String,
    effects: Vec<Effect>,
    verdict: Result<(), HandlerError>,
    done: usize,
    failure: Option<HandlerError>,
    reported: bool,
}

impl View for Invocation {
    type V = InvocationView;

    closed spec fn view(&self) -> InvocationView {
        InvocationView {
            command: self.command@,
            effects: self.effects.deep_view(),
            verdict: verdict_view(self.verdict),
            done: self.done as int,
            failure: match self.failure {
                Some(error) => Some(error@),
                None => None,
            },
            reported: self.reported,
        }
    }
}

/// Renders the diagnostic for the failure of `command`.
fn diagnostic_text(command: &str, error: &HandlerError) -> (text: String)
    ensures
        text@ == diagnostic(command@, error@),
{
    let mut text = String::from_str("command ");
    text.append(command);
    text.append(" failed: ");
    match error {
        HandlerError::SendFailed(detail) => {
            text.append("could not send a message: ");
            text.append(detail.as_str());
            assert(text@ =~= diagnostic(command@, error@));
        },
        HandlerError::DeleteFailed(detail) => {
            text.append("could not delete a message: ");
            text.append(detail.as_str());
            assert(text@ =~= diagnostic(command@, error@));
        },
        HandlerError::Rejected(detail) => {
            text.append("rejected: ");
            text.append(detail.as_str());
            assert(text@ =~= diagnostic(command@, error@));
        },
    }
    text
}

/// The error in what a handler returned, if there is one.
fn error_of_verdict(verdict: &Result<(), HandlerError>) -> (failure: Option<HandlerError>)
    ensures
        match failure {
            Some(error) => error_in(verdict_view(*verdict)) == Some(error@),
            None => error_in(verdict_view(*verdict)) is None,
        },
{
    match verdict {
        Ok(()) => None,
        Err(error) => Some(error.clone()),
    }
}

impl Invocation {
    /// The invocation of the command called `command` whose handler asked
    /// for `effects` and returned `verdict`; nothing has been performed yet.
    pub fn new(
        command: &str,
        effects: Vec<Effect>,
        verdict: Result<(), HandlerError>,
    ) -> (invocation: Invocation)
        ensures
            invocation@ == InvocationView::start(
                command@,
                effects.deep_view(),
                verdict_view(verdict),
            ),
    {
        let failure = if effects.len() == 0 {
            error_of_verdict(&verdict)
        } else {
            None
        };
        Invocation {
            command: String::from_str(command),
            effects,
            verdict,
            done: 0,
            failure,
            reported: false,
        }
    }

    /// What is to happen next.
    pub fn action(&self) -> (action: Action)
        ensures
            action@ == self@.action(),
    {
        match &self.failure {
            Some(error) => {
                if self.reported {
                    Action::Finished
                } else {
                    Action::Report(diagnostic_text(self.command.as_str(), error))
                }
            },
            None => {
                if self.done < self.effects.len() {
                    Action::Perform(self.effects[self.done].clone())
                } else {
                    Action::Finished
                }
            },
        }
    }

    /// Takes note of how the action went.
    pub fn advance(&mut self, outcome: Outcome)
        ensures
            final(self)@ == old(self)@.advance(outcome@),
    {
        if self.failure.is_some() {
            self.reported = true;
        } else if self.done < self.effects.len() {
            match outcome {
                Outcome::Succeeded => {
                    self.done = self.done + 1;
                    self.reported = false;
                    if self.done == self.effects.len() {
                        self.failure = error_of_verdict(&self.verdict);
                    }
                },
                Outcome::Failed(detail) => {
                    let error = match &self.effects[self.done] {
                        Effect::SendMessage { .. } => HandlerError::SendFailed(detail),
                        Effect::DeleteMessage { .. } => HandlerError::DeleteFailed(detail),
                    };
                    self.failure = Some(error);
                    self.reported = false;
                },
            }
        }
    }

    /// Tells whether the invocation is over.
    pub fn is_finished(&self) -> (b: bool)
        ensures
            b == (self@.action() is Finished),
    {
        match &self.failure {
            Some(_) => self.reported,
            None => self.done >= self.effects.len(),
        }
    }

    /// Plays the invocation to its end against outcomes that are known
    /// beforehand, and gives the actions that were asked for on the way: the
    /// `i`-th of them goes as `outcomes[i]` says, and those behind the last
    /// outcome succeed.
    pub fn replay(&mut self, outcomes: &Vec<Outcome>) -> (actions: Vec<Action>)
        ensures
            actions.deep_view() == old(self)@.run(outcomes.deep_view()),
            final(self)@.action() is Finished,
    {
        let mut actions: Vec<Action> = Vec::new();
        let ghost all = outcomes.deep_view();
        let mut i: usize = 0;
        assert(all.skip(0) =~= all);
        assert(actions.deep_view() =~= Seq::empty());
        loop
            invariant
                all == outcomes.deep_view(),
                i <= outcomes.len(),
                actions.deep_view() + self@.run(all.skip(i as int)) == old(self)@.run(all),
            ensures
                actions.deep_view() == old(self)@.run(all),
                self@.action() is Finished,
            decreases self@.remaining(),
        {
            let action = self.action();
            if let Action::Finished = action {
                assert(actions.deep_view() + Seq::<ActionView>::empty() =~= actions.deep_view());
                break;
            }
            let ghost state = self@;
            let ghost rest = all.skip(i as int);
            let ghost before = actions.deep_view();
            let outcome = if i < outcomes.len() {
                let outcome = outcomes[i].clone();
                assert(outcome@ == first_outcome(rest));
                assert(later_outcomes(rest) =~= all.skip(i + 1));
                i += 1;
                outcome
            } else {
                assert(rest.len() == 0);
                Outcome::Succeeded
            };
            proof {
                lemma_advance_progress(state, outcome@);
            }
            actions.push(action);
            self.advance(outcome);
            assert(actions.deep_view() =~= before.push(state.action()));
            assert(before.push(state.action()) + self@.run(all.skip(i as int)) =~= before
                + state.run(rest));
        }
        actions
    }

    /// How the invocation ended, once it is over.
    pub fn result(&self) -> (r: Option<Result<(), HandlerError>>)
        ensures
            match r {
                Some(Ok(())) => self@.result() == Some(Ok::<(), HandlerErrorView>(())),
                Some(Err(error)) => self@.result() == Some(Err::<(), _>(error@)),
                None => self@.result() is None,
            },
    {
        if !self.is_finished() {
            return None;
        }
        match &self.failure {
            Some(error) => Some(Err(error.clone())),
            None => Some(Ok(())),
        }
    }
}

} // verus!
