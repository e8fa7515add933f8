//! The dispatcher: from an inbound message to the invocation of the command
//! that it names, or to nothing.

use crate::context::{DispatchContext, InboundMessage, InboundMessageView};
use crate::handlers::Handler;
use crate::invocation::{
    all_succeed, closing, diagnostic, error_of, lemma_run_failure, lemma_run_success, performs,
    ActionView, Invocation, InvocationView, OutcomeView,
};
use crate::registry::{
    is_place, lemma_lookup_finds, lemma_place_of, lookup_spec, name_at, registered, well_formed,
    GroupView, Registry,
};
use crate::tokenizer::{
    lemma_tokenize_unique, splits, tokenize, tokenize_spec, ParsedArgs, Tokenized, TokenizedView,
};
use vstd::prelude::*;
use vstd::string::*;

verus! {

/// What the dispatcher makes of a message.
#[derive(Debug, PartialEq, Eq)]
pub enum Dispatch {
    /// The message does not begin with the prefix. Nothing is to be done.
    NotACommand,
    /// The message begins with the prefix, and no command bears the name
    /// behind it. Nothing is to be done, and nothing is reported.
    UnknownCommand,
    /// The message invokes a command: this is what is to be done.
    Invoke(Invocation),
}

/// The mathematical value of a `Dispatch`.
pub enum DispatchView {
    NotACommand,
    UnknownCommand,
    Invoke(InvocationView),
}

impl View for Dispatch {
    type V = DispatchView;

    open spec fn view(&self) -> DispatchView {
        match self {
            Dispatch::NotACommand => DispatchView::NotACommand,
            Dispatch::UnknownCommand => DispatchView::UnknownCommand,
            Dispatch::Invoke(invocation) => DispatchView::Invoke(invocation@),
        }
    }
}

impl DispatchView {
    /// Everything that the message leads to, under these outcomes: the
    /// operations of the outbound sink and the reports to the diagnostic
    /// sink, in their order.
    pub open spec fn run(self, outcomes: Seq<OutcomeView>) -> Seq<ActionView> {
        match self {
            DispatchView::Invoke(invocation) => invocation.run(outcomes),
            _ => Seq::empty(),
        }
    }
}

/// What handling `message` comes to under the prefix `prefix` and the
/// groups `groups`. The name behind the prefix is looked up as it stands;
/// the handler of the command that bears it is run in the channel of the
/// message, with the raw remainder as its arguments.
pub open spec fn handle_spec<H: Handler>(
    prefix: Seq<char>,
    groups: Seq<GroupView<H>>,
    message: InboundMessageView,
) -> DispatchView {
    match tokenize_spec(message.content, prefix) {
        TokenizedView::NoMatch => DispatchView::NotACommand,
        TokenizedView::Matched { command_name, raw_remainder } => match lookup_spec(
            groups,
            command_name,
        ) {
            None => DispatchView::UnknownCommand,
            Some(command) => DispatchView::Invoke(
                InvocationView::start(
                    command.name,
                    command.handler.plan(groups, message.channel_id, message, raw_remainder),
                    command.handler.verdict(groups, message.channel_id, message, raw_remainder),
                ),
            ),
        },
    }
}

/// The dispatcher of a bot: a prefix and a registry, both fixed once it is
/// made.
pub struct Dispatcher<H> {
    prefix: String,
    registry: Registry<H>,
}

/// The mathematical value of a `Dispatcher`.
pub struct DispatcherView<H> {
    pub prefix: Seq<char>,
    pub groups: Seq<GroupView<H>>,
}

impl<H> View for Dispatcher<H> {
    type V = DispatcherView<H>;

    closed spec fn view(&self) -> DispatcherView<H> {
        DispatcherView { prefix: self.prefix@, groups: self.registry@ }
    }
}

impl<H: Handler> Dispatcher<H> {
    /// The invariant of the dispatcher: that of its registry.
    pub closed spec fn wf(&self) -> bool {
        self.registry.wf()
    }

    /// The dispatcher for `prefix` over `registry`.
    pub fn new(prefix: &str, registry: Registry<H>) -> (dispatcher: Dispatcher<H>)
        requires
            registry.wf(),
        ensures
            dispatcher.wf(),
            dispatcher@ == (DispatcherView { prefix: prefix@, groups: registry@ }),
    {
        Dispatcher { prefix: String::from_str(prefix), registry }
    }

    /// The prefix that marks a message as a command.
    pub fn prefix(&self) -> (prefix: &str)
        ensures
            prefix@ == self@.prefix,
    {
        self.prefix.as_str()
    }

    /// The registry that the commands are looked up in.
    pub fn registry(&self) -> (registry: &Registry<H>)
        requires
            self.wf(),
        ensures
            registry.wf(),
            registry@ == self@.groups,
    {
        &self.registry
    }

    /// Handles one message: decides what it invokes, if anything, and runs
    /// the handler, which says what is to be done. Neither the dispatcher
    /// nor the registry is changed. A message that does not begin with the
    /// prefix, and one that names no command, lead to nothing.
    pub fn handle(&self, message: &InboundMessage) -> (dispatch: Dispatch)
        requires
            self.wf(),
        ensures
            dispatch@ == handle_spec(self@.prefix, self@.groups, message@),
            !self@.prefix.is_prefix_of(message@.content) ==> dispatch is NotACommand,
            !(dispatch is Invoke) ==> forall|outcomes: Seq<OutcomeView>|
                #[trigger] dispatch@.run(outcomes) == Seq::<ActionView>::empty(),
    {
        match tokenize(message.content.as_str(), self.prefix.as_str()) {
            Tokenized::NoMatch => Dispatch::NotACommand,
            Tokenized::Matched { command_name, raw_remainder } => {
                match self.registry.lookup(command_name.as_str()) {
                    None => Dispatch::UnknownCommand,
                    Some(command) => {
                        let mut ctx = DispatchContext::new(message);
                        let args = ParsedArgs::new(raw_remainder);
                        let verdict = command.handler.execute(&self.registry, &mut ctx, &args);
                        assert(ctx.effects.deep_view() =~= command.handler.plan(
                            self.registry@,
                            message.channel_id,
                            message@,
                            args@,
                        ));
                        Dispatch::Invoke(
                            Invocation::new(command.name.as_str(), ctx.effects, verdict),
                        )
                    },
                }
            },
        }
    }
}

/// A message that does not begin with the prefix leads to nothing: nothing
/// is sent, nothing deleted, nothing reported, however anything would go.
pub proof fn lemma_non_command_ignored<H: Handler>(
    prefix: Seq<char>,
    groups: Seq<GroupView<H>>,
    message: InboundMessageView,
    outcomes: Seq<OutcomeView>,
)
    requires
        !prefix.is_prefix_of(message.content),
    ensures
        handle_spec(prefix, groups, message) is NotACommand,
        handle_spec(prefix, groups, message).run(outcomes) == Seq::<ActionView>::empty(),
{
}

/// A message that begins with the prefix and names no command leads to
/// nothing either.
pub proof fn lemma_unknown_command_ignored<H: Handler>(
    prefix: Seq<char>,
    groups: Seq<GroupView<H>>,
    message: InboundMessageView,
    outcomes: Seq<OutcomeView>,
)
    requires
        prefix.is_prefix_of(message.content),
        !registered(groups, tokenize_spec(message.content, prefix)->command_name),
    ensures
        handle_spec(prefix, groups, message) is UnknownCommand,
        handle_spec(prefix, groups, message).run(outcomes) == Seq::<ActionView>::empty(),
{
}

/// A message that is the prefix and nothing more names the empty command,
/// which no registry holds: it leads to nothing.
pub proof fn lemma_bare_prefix_ignored<H: Handler>(
    prefix: Seq<char>,
    groups: Seq<GroupView<H>>,
    message: InboundMessageView,
    outcomes: Seq<OutcomeView>,
)
    requires
        well_formed(groups),
        message.content == prefix,
    ensures
        tokenize_spec(message.content, prefix) == (TokenizedView::Matched {
            command_name: Seq::empty(),
            raw_remainder: Seq::empty(),
        }),
        handle_spec(prefix, groups, message) is UnknownCommand,
        handle_spec(prefix, groups, message).run(outcomes) == Seq::<ActionView>::empty(),
{
    let nothing = Seq::<char>::empty();
    assert(splits(nothing, nothing, nothing));
    lemma_tokenize_unique(prefix, nothing, nothing, nothing);
    assert(prefix + nothing + nothing + nothing =~= prefix);
    if registered(groups, nothing) {
        lemma_place_of(groups, nothing);
    }
}

/// A message made of the prefix, a name or alias of a command, a gap of
/// whitespace and a remainder invokes that command, in the channel of the
/// message, with that remainder as its arguments.
pub proof fn lemma_invokes<H: Handler>(
    prefix: Seq<char>,
    groups: Seq<GroupView<H>>,
    message: InboundMessageView,
    g: int,
    c: int,
    k: int,
    gap: Seq<char>,
    rest: Seq<char>,
)
    requires
        well_formed(groups),
        is_place(groups, g, c, k),
        splits(name_at(groups, g, c, k), gap, rest),
        message.content == prefix + name_at(groups, g, c, k) + gap + rest,
    ensures
        handle_spec(prefix, groups, message) == DispatchView::Invoke(
            InvocationView::start(
                groups[g].commands[c].name,
                groups[g].commands[c].handler.plan(groups, message.channel_id, message, rest),
                groups[g].commands[c].handler.verdict(groups, message.channel_id, message, rest),
            ),
        ),
{
    lemma_tokenize_unique(prefix, name_at(groups, g, c, k), gap, rest);
    lemma_lookup_finds(groups, g, c, k);
}

/// A failure stays within its invocation. Where the `k`-th effect of the
/// invocation by `failed` fails, the effects before it have been performed,
/// none behind it is, and the failure goes to the diagnostic sink, once. A
/// message handled afterwards by the same dispatcher is handled as if
/// nothing had happened: where its own effects succeed, all that its
/// handler asked for is performed, and nothing is reported but what its
/// handler returned.
pub proof fn lemma_failure_is_contained<H: Handler>(
    prefix: Seq<char>,
    groups: Seq<GroupView<H>>,
    failed: InboundMessageView,
    failed_outcomes: Seq<OutcomeView>,
    k: int,
    detail: Seq<char>,
    next: InboundMessageView,
    next_outcomes: Seq<OutcomeView>,
)
    requires
        handle_spec(prefix, groups, failed) matches DispatchView::Invoke(invocation) && 0 <= k
            < invocation.effects.len(),
        k < failed_outcomes.len(),
        forall|i: int| 0 <= i < k ==> #[trigger] failed_outcomes[i] is Succeeded,
        failed_outcomes[k] == OutcomeView::Failed(detail),
        all_succeed(next_outcomes),
    ensures
        ({
            let invocation = handle_spec(prefix, groups, failed)->Invoke_0;
            handle_spec(prefix, groups, failed).run(failed_outcomes) == performs(
                invocation.effects.take(k + 1),
            ) + seq![
                ActionView::Report(
                    diagnostic(invocation.command, error_of(invocation.effects[k], detail)),
                ),
            ]
        }),
        handle_spec(prefix, groups, next).run(next_outcomes) == (match handle_spec(
            prefix,
            groups,
            next,
        ) {
            DispatchView::Invoke(invocation) => performs(invocation.effects) + closing(
                invocation.command,
                invocation.verdict,
            ),
            _ => Seq::empty(),
        }),
{
    let first = handle_spec(prefix, groups, failed)->Invoke_0;
    lemma_run_failure(first.command, first.effects, first.verdict, failed_outcomes, k, detail);
    if let DispatchView::Invoke(second) = handle_spec(prefix, groups, next) {
        lemma_run_success(second.command, second.effects, second.verdict, next_outcomes);
    }
}

} // verus!
