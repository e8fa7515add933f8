//! Handlers: what a command does when it is invoked. A handler does not
//! touch the outbound sink itself: it asks the context for side effects, in
//! the order in which they are to happen, and returns.

use crate::context::{DispatchContext, DispatchContextView, EffectView, InboundMessageView};
use crate::help::{not_found, render, render_spec};
use crate::invocation::{
    all_succeed, closing, diagnostic, lemma_run_failure, lemma_run_success, performs,
    verdict_view, ActionView, HandlerError, HandlerErrorView, InvocationView, OutcomeView,
};
use crate::registry::{has_group, registered, GroupView, Registry};
use crate::text::words;
use crate::tokenizer::ParsedArgs;
use vstd::prelude::*;
use vstd::string::*;

verus! {

/// Whether `after` is `before` with `added` behind the effects asked for.
pub open spec fn asks(
    before: DispatchContextView,
    after: DispatchContextView,
    added: Seq<EffectView>,
) -> bool {
    after == (DispatchContextView { effects: before.effects + added, ..before })
}

/// The behaviour bound to a command: it is run with the context of one
/// invocation and the arguments, asks for side effects and returns whether
/// it went well. All that it does follows from what it is given.
pub trait Handler: Sized {
    /// The side effects asked for, in their order, when the handler is
    /// invoked by `message` with the arguments `args` over the groups
    /// `groups`, to answer in the channel `channel_id`. A handler that does
    /// not say otherwise asks for none.
    open spec fn plan(
        &self,
        groups: Seq<GroupView<Self>>,
        channel_id: u64,
        message: InboundMessageView,
        args: Seq<char>,
    ) -> Seq<EffectView> {
        Seq::empty()
    }

    /// What the handler returns on that invocation. A handler that does not
    /// say otherwise returns that it went well.
    open spec fn verdict(
        &self,
        groups: Seq<GroupView<Self>>,
        channel_id: u64,
        message: InboundMessageView,
        args: Seq<char>,
    ) -> Result<(), HandlerErrorView> {
        Ok(())
    }

    /// Runs the handler in the context `ctx` with the arguments `args`. The
    /// registry is the one that the handler's command is registered in.
    fn execute(
        &self,
        registry: &Registry<Self>,
        ctx: &mut DispatchContext,
        args: &ParsedArgs,
    ) -> (r: Result<(), HandlerError>)
        requires
            registry.wf(),
        ensures
            asks(
                old(ctx)@,
                final(ctx)@,
                self.plan(registry@, old(ctx).channel_id, old(ctx).message@, args@),
            ),
            verdict_view(r) == self.verdict(
                registry@,
                old(ctx).channel_id,
                old(ctx).message@,
                args@,
            ),
    ;
}

/// Sending `text` to the channel `channel_id`.
pub open spec fn send(channel_id: u64, text: Seq<char>) -> EffectView {
    EffectView::SendMessage { channel_id, text }
}

/// Deleting `message` from its channel.
pub open spec fn delete(message: InboundMessageView) -> EffectView {
    EffectView::DeleteMessage { channel_id: message.channel_id, message_id: message.message_id }
}

/// What the help command is asked about: the first word of its arguments,
/// or nothing where they hold no word.
pub open spec fn help_target(args: Seq<char>) -> Option<Seq<char>> {
    if words(args).len() > 0 {
        Some(words(args)[0])
    } else {
        None
    }
}

/// Sends the remainder, verbatim, to the channel of the invocation, then
/// deletes the message that invoked it. An empty remainder is sent like any
/// other.
pub fn say(ctx: &mut DispatchContext, args: &ParsedArgs) -> (r: Result<(), HandlerError>)
    ensures
        r is Ok,
        asks(
            old(ctx)@,
            final(ctx)@,
            seq![send(old(ctx).channel_id, args@), delete(old(ctx).message@)],
        ),
{
    ctx.send_message(args.rest());
    ctx.delete_message();
    assert(ctx@.effects =~= old(ctx)@.effects + seq![
        send(old(ctx).channel_id, args@),
        delete(old(ctx).message@),
    ]);
    Ok(())
}

/// Sends the remainder, verbatim, to the channel of the invocation. An
/// empty remainder is sent like any other.
pub fn repeat(ctx: &mut DispatchContext, args: &ParsedArgs) -> (r: Result<(), HandlerError>)
    ensures
        r is Ok,
        asks(old(ctx)@, final(ctx)@, seq![send(old(ctx).channel_id, args@)]),
{
    ctx.send_message(args.rest());
    assert(ctx@.effects =~= old(ctx)@.effects + seq![send(old(ctx).channel_id, args@)]);
    Ok(())
}

/// Sends the help text for the first word of the arguments, or the listing
/// where there is none, to the channel of the invocation.
pub fn help<H>(registry: &Registry<H>, ctx: &mut DispatchContext, args: &ParsedArgs) -> (r: Result<
    (),
    HandlerError,
>)
    requires
        registry.wf(),
    ensures
        r is Ok,
        asks(
            old(ctx)@,
            final(ctx)@,
            seq![send(old(ctx).channel_id, render_spec(registry@, help_target(args@)))],
        ),
{
    let found = args.words();
    let text = if found.len() > 0 {
        assert(found.deep_view()[0] == found@[0]@);
        render(registry, Some(found[0].as_str()))
    } else {
        render(registry, None)
    };
    ctx.send_message(text.as_str());
    assert(ctx@.effects =~= old(ctx)@.effects + seq![
        send(old(ctx).channel_id, render_spec(registry@, help_target(args@))),
    ]);
    Ok(())
}

/// The handlers that come with the library.
#[derive(Debug, Clone, Copy, PartialEq, Eq)]
pub enum Builtin {
    /// `say`
    Say,
    /// `repeat`
    Repeat,
    /// `help`
    Help,
}

impl Handler for Builtin {
    open spec fn plan(
        &self,
        groups: Seq<GroupView<Builtin>>,
        channel_id: u64,
        message: InboundMessageView,
        args: Seq<char>,
    ) -> Seq<EffectView> {
        match self {
            Builtin::Say => seq![send(channel_id, args), delete(message)],
            Builtin::Repeat => seq![send(channel_id, args)],
            Builtin::Help => seq![send(channel_id, render_spec(groups, help_target(args)))],
        }
    }

    open spec fn verdict(
        &self,
        groups: Seq<GroupView<Builtin>>,
        channel_id: u64,
        message: InboundMessageView,
        args: Seq<char>,
    ) -> Result<(), HandlerErrorView> {
        Ok(())
    }

    fn execute(
        &self,
        registry: &Registry<Builtin>,
        ctx: &mut DispatchContext,
        args: &ParsedArgs,
    ) -> (r: Result<(), HandlerError>) {
        match self {
            Builtin::Say => say(ctx, args),
            Builtin::Repeat => repeat(ctx, args),
            Builtin::Help => help(registry, ctx, args),
        }
    }
}

/// The invocation of a handler of the library.
pub open spec fn builtin_invocation(
    command: Seq<char>,
    handler: Builtin,
    groups: Seq<GroupView<Builtin>>,
    message: InboundMessageView,
    args: Seq<char>,
) -> InvocationView {
    InvocationView::start(
        command,
        handler.plan(groups, message.channel_id, message, args),
        handler.verdict(groups, message.channel_id, message, args),
    )
}

/// Where everything succeeds, `say` sends the remainder to the channel of
/// the message and then deletes the message, `repeat` sends the remainder
/// and deletes nothing, `help` sends one message and deletes nothing; and
/// nothing is reported.
pub proof fn lemma_builtin_success(
    command: Seq<char>,
    handler: Builtin,
    groups: Seq<GroupView<Builtin>>,
    message: InboundMessageView,
    args: Seq<char>,
    outcomes: Seq<OutcomeView>,
)
    requires
        all_succeed(outcomes),
    ensures
        builtin_invocation(command, handler, groups, message, args).run(outcomes)
            == (match handler {
            Builtin::Say => seq![
                ActionView::Perform(send(message.channel_id, args)),
                ActionView::Perform(delete(message)),
            ],
            Builtin::Repeat => seq![ActionView::Perform(send(message.channel_id, args))],
            Builtin::Help => seq![
                ActionView::Perform(
                    send(message.channel_id, render_spec(groups, help_target(args))),
                ),
            ],
        }),
{
    let effects = handler.plan(groups, message.channel_id, message, args);
    let verdict = handler.verdict(groups, message.channel_id, message, args);
    lemma_run_success(command, effects, verdict, outcomes);
    assert(performs(effects) + closing(command, verdict) =~= match handler {
        Builtin::Say => seq![
            ActionView::Perform(send(message.channel_id, args)),
            ActionView::Perform(delete(message)),
        ],
        Builtin::Repeat => seq![ActionView::Perform(send(message.channel_id, args))],
        Builtin::Help => seq![
            ActionView::Perform(send(message.channel_id, render_spec(groups, help_target(args)))),
        ],
    });
}

/// Where `say` cannot delete the invoking message, the remainder has been
/// sent and stays sent, and the failure is reported once, to the diagnostic
/// sink and not to the channel.
pub proof fn lemma_say_delete_fails(
    command: Seq<char>,
    groups: Seq<GroupView<Builtin>>,
    message: InboundMessageView,
    args: Seq<char>,
    outcomes: Seq<OutcomeView>,
    detail: Seq<char>,
)
    requires
        outcomes.len() >= 2,
        outcomes[0] is Succeeded,
        outcomes[1] == OutcomeView::Failed(detail),
    ensures
        builtin_invocation(command, Builtin::Say, groups, message, args).run(outcomes) == seq![
            ActionView::Perform(send(message.channel_id, args)),
            ActionView::Perform(delete(message)),
            ActionView::Report(diagnostic(command, HandlerErrorView::DeleteFailed(detail))),
        ],
{
    let effects = Builtin::Say.plan(groups, message.channel_id, message, args);
    let verdict = Builtin::Say.verdict(groups, message.channel_id, message, args);
    lemma_run_failure(command, effects, verdict, outcomes, 1, detail);
    assert(performs(effects.take(2)) + seq![
        ActionView::Report(diagnostic(command, HandlerErrorView::DeleteFailed(detail))),
    ] =~= seq![
        ActionView::Perform(send(message.channel_id, args)),
        ActionView::Perform(delete(message)),
        ActionView::Report(diagnostic(command, HandlerErrorView::DeleteFailed(detail))),
    ]);
}

/// Asked about what is neither a command nor a group, `help` still answers,
/// once, in the channel, that nothing was found; that is no failure.
pub proof fn lemma_help_unknown_target(
    groups: Seq<GroupView<Builtin>>,
    channel_id: u64,
    message: InboundMessageView,
    args: Seq<char>,
)
    requires
        help_target(args) matches Some(target) && !registered(groups, target) && !has_group(
            groups,
            target,
        ),
    ensures
        Builtin::Help.plan(groups, channel_id, message, args) == seq![
            send(channel_id, not_found(help_target(args)->0)),
        ],
        Builtin::Help.verdict(groups, channel_id, message, args) is Ok,
{
}

} // verus!
