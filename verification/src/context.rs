//! What one invocation works on: the message that came in, and the side
//! effects that the handler asks for.

use vstd::prelude::*;
use vstd::string::*;

verus! {

/// A message as the gateway delivered it.
#[derive(Debug, PartialEq, Eq)]
pub struct InboundMessage {
    pub author_id: u64,
    pub channel_id: u64,
    pub message_id: u64,
    pub content: String,
}

/// The mathematical value of an `InboundMessage`.
pub struct InboundMessageView {
    pub author_id: u64,
    pub channel_id: u64,
    pub message_id: u64,
    pub content: Seq<char>,
}

impl View for InboundMessage {
    type V = InboundMessageView;

    open spec fn view(&self) -> InboundMessageView {
        InboundMessageView {
            author_id: self.author_id,
            channel_id: self.channel_id,
            message_id: self.message_id,
            content: self.content@,
        }
    }
}

impl InboundMessage {
    /// The message with these identities and this text.
    pub fn new(author_id: u64, channel_id: u64, message_id: u64, content: &str) -> (m:
        InboundMessage)
        ensures
            m@ == (InboundMessageView { author_id, channel_id, message_id, content: content@ }),
    {
        InboundMessage { author_id, channel_id, message_id, content: String::from_str(content) }
    }
}

/// One operation of the outbound sink.
#[derive(Debug, PartialEq, Eq)]
pub enum Effect {
    /// Send `text` to a channel.
    SendMessage { channel_id: u64, text: String },
    /// Delete a message of a channel.
    DeleteMessage { channel_id: u64, message_id: u64 },
}

/// The mathematical value of an `Effect`.
pub enum EffectView {
    SendMessage { channel_id: u64, text: Seq<char> },
    DeleteMessage { channel_id: u64, message_id: u64 },
}

impl DeepView for Effect {
    type V = EffectView;

    open spec fn deep_view(&self) -> EffectView {
        match self {
            Effect::SendMessage { channel_id, text } => EffectView::SendMessage {
                channel_id: *channel_id,
                text: text@,
            },
            Effect::DeleteMessage { channel_id, message_id } => EffectView::DeleteMessage {
                channel_id: *channel_id,
                message_id: *message_id,
            },
        }
    }
}

impl View for Effect {
    type V = EffectView;

    open spec fn view(&self) -> EffectView {
        self.deep_view()
    }
}

impl Clone for Effect {
    fn clone(&self) -> (r: Effect)
        ensures
            r@ == self@,
    {
        match self {
            Effect::SendMessage { channel_id, text } => Effect::SendMessage {
                channel_id: *channel_id,
                text: text.clone(),
            },
            Effect::DeleteMessage { channel_id, message_id } => Effect::DeleteMessage {
                channel_id: *channel_id,
                message_id: *message_id,
            },
        }
    }
}

/// The state of one invocation as its handler sees it: the channel to
/// answer in, the message that invoked it, and the side effects asked for so
/// far, in the order in which they are to happen.
#[derive(Debug)]
pub struct DispatchContext<'a> {
    pub channel_id: u64,
    pub message: &'a InboundMessage,
    pub effects: Vec<Effect>,
}

/// The mathematical value of a `DispatchContext`.
pub struct DispatchContextView {
    pub channel_id: u64,
    pub message: InboundMessageView,
    pub effects: Seq<EffectView>,
}

impl<'a> View for DispatchContext<'a> {
    type V = DispatchContextView;

    open spec fn view(&self) -> DispatchContextView {
        DispatchContextView {
            channel_id: self.channel_id,
            message: self.message@,
            effects: self.effects.deep_view(),
        }
    }
}

impl<'a> DispatchContext<'a> {
    /// The context of a fresh invocation by `message`: it answers in the
    /// channel of the message and has asked for nothing yet.
    pub fn new(message: &'a InboundMessage) -> (ctx: DispatchContext<'a>)
        ensures
            ctx@ == (DispatchContextView {
                channel_id: message.channel_id,
                message: message@,
                effects: Seq::empty(),
            }),
    {
        let ctx = DispatchContext { channel_id: message.channel_id, message, effects: Vec::new() };
        assert(ctx.effects.deep_view() =~= Seq::empty());
        ctx
    }

    /// Asks for `text` to be sent to the channel of the invocation.
    pub fn send_message(&mut self, text: &str)
        ensures
            final(self)@ == (DispatchContextView {
                effects: old(self)@.effects.push(
                    EffectView::SendMessage { channel_id: old(self).channel_id, text: text@ },
                ),
                ..old(self)@
            }),
    {
        let effect = Effect::SendMessage {
            channel_id: self.channel_id,
            text: String::from_str(text),
        };
        let ghost before = self.effects.deep_view();
        self.effects.push(effect);
        assert(self.effects.deep_view() =~= before.push(effect@));
    }

    /// Asks for the invoking message to be deleted.
    pub fn delete_message(&mut self)
        ensures
            final(self)@ == (DispatchContextView {
                effects: old(self)@.effects.push(
                    EffectView::DeleteMessage {
                        channel_id: old(self).message.channel_id,
                        message_id: old(self).message.message_id,
                    },
                ),
                ..old(self)@
            }),
    {
        let effect = Effect::DeleteMessage {
            channel_id: self.message.channel_id,
            message_id: self.message.message_id,
        };
        let ghost before = self.effects.deep_view();
        self.effects.push(effect);
        assert(self.effects.deep_view() =~= before.push(effect@));
    }
}

} // verus!
