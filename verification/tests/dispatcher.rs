use command_dispatch::context::{DispatchContext, Effect, InboundMessage};
use command_dispatch::dispatcher::{Dispatch, Dispatcher};
use command_dispatch::handlers::{help, repeat, say, Builtin, Handler};
use command_dispatch::invocation::{Action, HandlerError, Invocation, Outcome};
use command_dispatch::registry::{Command, Registry};
use command_dispatch::tokenizer::ParsedArgs;

const AUTHOR: u64 = 11;
const CHANNEL: u64 = 22;
const MESSAGE: u64 = 33;

fn registry() -> Registry<Builtin> {
    let mut registry = Registry::new();
    registry.add_group("General", "general", "General commands").unwrap();
    registry
        .register("General", Command::new("say", "Meows like a cat", Builtin::Say).with_alias("meow"))
        .unwrap();
    registry.register("General", Command::new("repeat", "Sends any text", Builtin::Repeat)).unwrap();
    registry.register("General", Command::new("help", "Shows this help", Builtin::Help)).unwrap();
    registry
}

fn dispatcher() -> Dispatcher<Builtin> {
    Dispatcher::new("!!", registry())
}

fn message(content: &str) -> InboundMessage {
    InboundMessage::new(AUTHOR, CHANNEL, MESSAGE, content)
}

fn send(text: &str) -> Action {
    Action::Perform(Effect::SendMessage { channel_id: CHANNEL, text: text.to_string() })
}

fn delete() -> Action {
    Action::Perform(Effect::DeleteMessage { channel_id: CHANNEL, message_id: MESSAGE })
}

/// Drives what a message led to until it is over and gives the actions that
/// were asked for; the `i`-th fails where `failing` holds `i`.
fn run(dispatch: Dispatch, failing: &[usize]) -> Vec<Action> {
    let mut actions = Vec::new();
    if let Dispatch::Invoke(mut invocation) = dispatch {
        loop {
            let action = invocation.action();
            if action == Action::Finished {
                break;
            }
            let outcome = if failing.contains(&actions.len()) {
                Outcome::Failed("no permission".to_string())
            } else {
                Outcome::Succeeded
            };
            actions.push(action);
            invocation.advance(outcome);
        }
        assert!(invocation.is_finished());
    }
    actions
}

#[test]
fn message_without_prefix_has_no_effect() {
    for content in ["hello", "say meow", "!say meow", " !!say meow", "", "?!!say"] {
        let dispatch = dispatcher().handle(&message(content));
        assert!(matches!(dispatch, Dispatch::NotACommand));
        assert_eq!(run(dispatch, &[]), vec![]);
    }
}

#[test]
fn bare_prefix_has_no_effect() {
    let dispatch = dispatcher().handle(&message("!!"));
    assert!(matches!(dispatch, Dispatch::UnknownCommand));
    assert_eq!(run(dispatch, &[]), vec![]);
}

#[test]
fn unknown_command_has_no_effect() {
    for content in ["!!bogus foo", "!!Say meow", "!! say meow", "!!sayy", "!!General"] {
        let dispatch = dispatcher().handle(&message(content));
        assert!(matches!(dispatch, Dispatch::UnknownCommand));
        assert_eq!(run(dispatch, &[]), vec![]);
    }
}

#[test]
fn say_sends_then_deletes() {
    let dispatch = dispatcher().handle(&message("!!say meow"));
    assert_eq!(run(dispatch, &[]), vec![send("meow"), delete()]);
}

#[test]
fn say_by_alias() {
    let dispatch = dispatcher().handle(&message("!!meow purr purr"));
    assert_eq!(run(dispatch, &[]), vec![send("purr purr"), delete()]);
}

#[test]
fn repeat_sends_and_does_not_delete() {
    let dispatch = dispatcher().handle(&message("!!repeat hello"));
    assert_eq!(run(dispatch, &[]), vec![send("hello")]);
}

#[test]
fn empty_remainder_is_passed_on() {
    assert_eq!(run(dispatcher().handle(&message("!!repeat")), &[]), vec![send("")]);
    assert_eq!(run(dispatcher().handle(&message("!!say   ")), &[]), vec![send(""), delete()]);
}

#[test]
fn remainder_is_sent_verbatim() {
    let dispatch = dispatcher().handle(&message("!!repeat   a  b \n c  "));
    assert_eq!(run(dispatch, &[]), vec![send("a  b \n c  ")]);
}

#[test]
fn answers_go_to_the_channel_of_the_message() {
    let other = InboundMessage::new(1, 2, 3, "!!say hi");
    let actions = run(dispatcher().handle(&other), &[]);
    assert_eq!(
        actions,
        vec![
            Action::Perform(Effect::SendMessage { channel_id: 2, text: "hi".to_string() }),
            Action::Perform(Effect::DeleteMessage { channel_id: 2, message_id: 3 }),
        ]
    );
}

#[test]
fn help_lists_everything() {
    let dispatch = dispatcher().handle(&message("!!help"));
    assert_eq!(
        run(dispatch, &[]),
        vec![send(
            "General: general\n  say: Meows like a cat\n  repeat: Sends any text\n  help: Shows this help\n"
        )]
    );
}

#[test]
fn help_for_an_alias_sends_the_description() {
    assert_eq!(run(dispatcher().handle(&message("!!help meow")), &[]), vec![send("Meows like a cat")]);
    assert_eq!(run(dispatcher().handle(&message("!!help  repeat  ")), &[]), vec![send("Sends any text")]);
}

#[test]
fn help_for_a_group_sends_its_detail() {
    assert_eq!(
        run(dispatcher().handle(&message("!!help General")), &[]),
        vec![send(
            "General: General commands\n  say: Meows like a cat\n  repeat: Sends any text\n  help: Shows this help\n"
        )]
    );
}

#[test]
fn help_for_an_unknown_target_still_answers_once() {
    let dispatch = dispatcher().handle(&message("!!help bogus"));
    assert_eq!(run(dispatch, &[]), vec![send("not found: bogus")]);
}

#[test]
fn help_asks_about_the_first_word_only() {
    assert_eq!(run(dispatcher().handle(&message("!!help say repeat")), &[]), vec![send("Meows like a cat")]);
}

#[test]
fn failed_send_is_reported_and_nothing_is_deleted() {
    let dispatch = dispatcher().handle(&message("!!say meow"));
    assert_eq!(
        run(dispatch, &[0]),
        vec![
            send("meow"),
            Action::Report("command say failed: could not send a message: no permission".to_string()),
        ]
    );
}

#[test]
fn failed_delete_is_reported_after_the_send() {
    let dispatch = dispatcher().handle(&message("!!meow meow"));
    assert_eq!(
        run(dispatch, &[1]),
        vec![
            send("meow"),
            delete(),
            Action::Report("command say failed: could not delete a message: no permission".to_string()),
        ]
    );
}

#[test]
fn failure_does_not_stop_later_invocations() {
    let dispatcher = dispatcher();
    let failed = run(dispatcher.handle(&message("!!repeat one")), &[0]);
    assert_eq!(
        failed,
        vec![
            send("one"),
            Action::Report("command repeat failed: could not send a message: no permission".to_string()),
        ]
    );
    assert_eq!(run(dispatcher.handle(&message("!!repeat two")), &[]), vec![send("two")]);
    assert_eq!(run(dispatcher.handle(&message("!!say three")), &[]), vec![send("three"), delete()]);
}

#[test]
fn failed_report_ends_the_invocation_all_the_same() {
    let dispatch = dispatcher().handle(&message("!!repeat one"));
    let actions = run(dispatch, &[0, 1]);
    assert_eq!(actions.len(), 2);
    assert!(matches!(actions[1], Action::Report(_)));
}

#[test]
fn invocation_result_tells_how_it_ended() {
    let effects = vec![
        Effect::SendMessage { channel_id: CHANNEL, text: "a".to_string() },
        Effect::DeleteMessage { channel_id: CHANNEL, message_id: MESSAGE },
    ];
    let mut invocation = Invocation::new("say", effects.clone(), Ok(()));
    assert_eq!(invocation.result(), None);
    invocation.advance(Outcome::Succeeded);
    assert_eq!(invocation.result(), None);
    invocation.advance(Outcome::Succeeded);
    assert_eq!(invocation.result(), Some(Ok(())));
    assert!(invocation.is_finished());
    invocation.advance(Outcome::Failed("late".to_string()));
    assert_eq!(invocation.result(), Some(Ok(())));

    let mut invocation = Invocation::new("say", effects, Ok(()));
    invocation.advance(Outcome::Succeeded);
    invocation.advance(Outcome::Failed("gone".to_string()));
    assert!(!invocation.is_finished());
    assert_eq!(invocation.result(), None);
    assert_eq!(
        invocation.action(),
        Action::Report("command say failed: could not delete a message: gone".to_string())
    );
    invocation.advance(Outcome::Succeeded);
    assert_eq!(invocation.result(), Some(Err(HandlerError::DeleteFailed("gone".to_string()))));
    assert_eq!(invocation.action(), Action::Finished);
}

#[test]
fn invocation_without_effects_is_over_at_once() {
    let invocation = Invocation::new("noop", Vec::new(), Ok(()));
    assert_eq!(invocation.action(), Action::Finished);
    assert_eq!(invocation.result(), Some(Ok(())));
}

#[test]
fn handlers_ask_for_their_effects_in_order() {
    let inbound = message("!!say meow");
    let args = ParsedArgs::new("meow".to_string());
    let mut ctx = DispatchContext::new(&inbound);
    assert_eq!(ctx.channel_id, CHANNEL);
    assert!(ctx.effects.is_empty());
    assert_eq!(say(&mut ctx, &args), Ok(()));
    assert_eq!(repeat(&mut ctx, &args), Ok(()));
    assert_eq!(help(&registry(), &mut ctx, &args), Ok(()));
    assert_eq!(
        ctx.effects,
        vec![
            Effect::SendMessage { channel_id: CHANNEL, text: "meow".to_string() },
            Effect::DeleteMessage { channel_id: CHANNEL, message_id: MESSAGE },
            Effect::SendMessage { channel_id: CHANNEL, text: "meow".to_string() },
            Effect::SendMessage { channel_id: CHANNEL, text: "Meows like a cat".to_string() },
        ]
    );
}

#[test]
fn execute_runs_the_handler_it_is_given() {
    let inbound = message("anything");
    let args = ParsedArgs::new("x y".to_string());
    let registry = registry();
    let mut ctx = DispatchContext::new(&inbound);
    assert_eq!(Builtin::Repeat.execute(&registry, &mut ctx, &args), Ok(()));
    assert_eq!(ctx.effects, vec![Effect::SendMessage { channel_id: CHANNEL, text: "x y".to_string() }]);
    let mut ctx = DispatchContext::new(&inbound);
    assert_eq!(Builtin::Say.execute(&registry, &mut ctx, &args), Ok(()));
    assert_eq!(ctx.effects.len(), 2);
    let mut ctx = DispatchContext::new(&inbound);
    assert_eq!(Builtin::Help.execute(&registry, &mut ctx, &args), Ok(()));
    assert_eq!(
        ctx.effects,
        vec![Effect::SendMessage { channel_id: CHANNEL, text: "not found: x".to_string() }]
    );
}

#[test]
fn dispatcher_keeps_its_prefix_and_registry() {
    let dispatcher = Dispatcher::new("?", registry());
    assert_eq!(dispatcher.prefix(), "?");
    assert_eq!(dispatcher.registry().groups().len(), 1);
    assert_eq!(run(dispatcher.handle(&message("?repeat hi")), &[]), vec![send("hi")]);
    assert!(matches!(dispatcher.handle(&message("!!repeat hi")), Dispatch::NotACommand));
}

#[test]
fn context_sends_to_its_channel_and_deletes_its_message() {
    let inbound = InboundMessage::new(7, 8, 9, "text");
    let mut ctx = DispatchContext::new(&inbound);
    ctx.delete_message();
    ctx.send_message("reply");
    assert_eq!(
        ctx.effects,
        vec![
            Effect::DeleteMessage { channel_id: 8, message_id: 9 },
            Effect::SendMessage { channel_id: 8, text: "reply".to_string() },
        ]
    );
    assert_eq!(ctx.message, &inbound);
}

#[test]
fn replay_gives_the_actions_of_a_whole_run() {
    let dispatcher = dispatcher();
    if let Dispatch::Invoke(mut invocation) = dispatcher.handle(&message("!!say meow")) {
        let actions = invocation.replay(&vec![Outcome::Succeeded, Outcome::Succeeded]);
        assert_eq!(actions, vec![send("meow"), delete()]);
        assert_eq!(invocation.result(), Some(Ok(())));
    } else {
        panic!("say is registered");
    }
}

#[test]
fn replay_stops_performing_at_the_first_failure() {
    let dispatcher = dispatcher();
    if let Dispatch::Invoke(mut invocation) = dispatcher.handle(&message("!!say meow")) {
        let outcomes = vec![Outcome::Failed("offline".to_string()), Outcome::Succeeded, Outcome::Succeeded];
        let actions = invocation.replay(&outcomes);
        assert_eq!(
            actions,
            vec![
                send("meow"),
                Action::Report("command say failed: could not send a message: offline".to_string()),
            ]
        );
        assert_eq!(invocation.result(), Some(Err(HandlerError::SendFailed("offline".to_string()))));
    } else {
        panic!("say is registered");
    }
}

#[test]
fn replay_lets_actions_without_an_outcome_succeed() {
    let mut invocation = Invocation::new(
        "say",
        vec![
            Effect::SendMessage { channel_id: CHANNEL, text: "a".to_string() },
            Effect::DeleteMessage { channel_id: CHANNEL, message_id: MESSAGE },
        ],
        Ok(()),
    );
    assert_eq!(invocation.replay(&Vec::new()), vec![send("a"), delete()]);
    assert_eq!(invocation.replay(&Vec::new()), vec![]);
}

#[test]
fn alias_invocation_is_reported_under_the_name_of_the_command() {
    if let Dispatch::Invoke(mut invocation) = dispatcher().handle(&message("!!meow hi")) {
        let actions = invocation.replay(&vec![Outcome::Failed("x".to_string())]);
        assert_eq!(
            actions[1],
            Action::Report("command say failed: could not send a message: x".to_string())
        );
    } else {
        panic!("meow is registered");
    }
}

#[test]
fn handle_gives_the_same_for_the_same_message() {
    let dispatcher = dispatcher();
    let first = dispatcher.handle(&message("!!help say"));
    let second = dispatcher.handle(&message("!!help say"));
    assert_eq!(first, second);
    assert_eq!(dispatcher.handle(&message("nothing")), Dispatch::NotACommand);
    assert_eq!(dispatcher.handle(&message("!!nothing")), Dispatch::UnknownCommand);
}

/// A handler of the test's own: `ping` answers, `strict` wants one word.
#[derive(Debug, Clone, PartialEq, Eq)]
enum Custom {
    Ping,
    Strict,
}

impl Handler for Custom {
    fn execute(
        &self,
        _registry: &Registry<Custom>,
        ctx: &mut DispatchContext,
        args: &ParsedArgs,
    ) -> Result<(), HandlerError> {
        match self {
            Custom::Ping => {
                ctx.send_message("pong");
                Ok(())
            },
            Custom::Strict => {
                ctx.send_message("checking");
                if args.words().len() == 1 {
                    Ok(())
                } else {
                    Err(HandlerError::Rejected("one word, please".to_string()))
                }
            },
        }
    }
}

fn custom_dispatcher() -> Dispatcher<Custom> {
    let mut registry = Registry::new();
    registry.add_group("Custom", "custom", "Handlers of the test").unwrap();
    registry.register("Custom", Command::new("ping", "Answers", Custom::Ping)).unwrap();
    registry.register("Custom", Command::new("strict", "Wants one word", Custom::Strict)).unwrap();
    Dispatcher::new("/", registry)
}

#[test]
fn handler_of_the_caller_is_invoked() {
    assert_eq!(run(custom_dispatcher().handle(&message("/ping")), &[]), vec![send("pong")]);
    assert_eq!(run(custom_dispatcher().handle(&message("/strict one")), &[]), vec![send("checking")]);
}

#[test]
fn rejection_is_reported_behind_the_effects() {
    let dispatch = custom_dispatcher().handle(&message("/strict one two"));
    if let Dispatch::Invoke(mut invocation) = dispatch {
        let actions = invocation.replay(&Vec::new());
        assert_eq!(
            actions,
            vec![
                send("checking"),
                Action::Report("command strict failed: rejected: one word, please".to_string()),
            ]
        );
        assert_eq!(
            invocation.result(),
            Some(Err(HandlerError::Rejected("one word, please".to_string())))
        );
    } else {
        panic!("strict is registered");
    }
}

#[test]
fn rejection_without_effects_is_reported_at_once() {
    let mut invocation =
        Invocation::new("strict", Vec::new(), Err(HandlerError::Rejected("no".to_string())));
    assert_eq!(invocation.result(), None);
    assert_eq!(invocation.action(), Action::Report("command strict failed: rejected: no".to_string()));
    invocation.advance(Outcome::Succeeded);
    assert_eq!(invocation.action(), Action::Finished);
    assert_eq!(invocation.result(), Some(Err(HandlerError::Rejected("no".to_string()))));
}

#[test]
fn failed_effect_is_reported_in_place_of_the_rejection() {
    let dispatch = custom_dispatcher().handle(&message("/strict one two"));
    assert_eq!(
        run(dispatch, &[0]),
        vec![
            send("checking"),
            Action::Report("command strict failed: could not send a message: no permission".to_string()),
        ]
    );
}
