use vstd::prelude::*;
use crate::types::message::Message;

verus! {

/// A callback query sent back from an inline keyboard.
#[derive(Clone, Debug, PartialEq, Eq, Hash)]
pub struct CallbackQuery {
    /// Unique query identifier.
    pub id: i32,

    /// Data associated with the pressed button, if any.
    pub data: Option<String>,
}

/// The discriminated union of event kinds produced by the update source.
/// Exactly one variant is active per event, fixed at construction.
#[derive(Clone, Debug, PartialEq)]
pub enum UpdateKind {
    Message(Message),
    EditedMessage(Message),
    ChannelPost(Message),
    CallbackQuery(CallbackQuery),
}

/// The bare tag of an `UpdateKind` variant: the value the demultiplexer
/// routes by.
#[derive(Clone, Copy, Debug, PartialEq, Eq, Structural, Hash)]
pub enum Discriminant {
    Message,
    EditedMessage,
    ChannelPost,
    CallbackQuery,
}

impl UpdateKind {
    /// The discriminant of this event kind.
    pub open spec fn disc(self) -> Discriminant {
        match self {
            UpdateKind::Message(_) => Discriminant::Message,
            UpdateKind::EditedMessage(_) => Discriminant::EditedMessage,
            UpdateKind::ChannelPost(_) => Discriminant::ChannelPost,
            UpdateKind::CallbackQuery(_) => Discriminant::CallbackQuery,
        }
    }

    /// Computes the discriminant of this event kind.
    pub fn discriminant(&self) -> (d: Discriminant)
        ensures
            d == self.disc(),
    {
        match self {
            UpdateKind::Message(_) => Discriminant::Message,
            UpdateKind::EditedMessage(_) => Discriminant::EditedMessage,
            UpdateKind::ChannelPost(_) => Discriminant::ChannelPost,
            UpdateKind::CallbackQuery(_) => Discriminant::CallbackQuery,
        }
    }
}

/// The session context of one inbound event: the identity needed to reply.
/// It is shared by every refinement of the same event and never mutated by
/// the pipeline.
#[derive(Clone, Copy, Debug, PartialEq, Eq, Structural, Hash)]
pub struct SessionContext {
    /// Identifier of the originating chat or session.
    pub chat_id: i64,
}

/// One event flowing through the pipeline: the discriminated update
/// together with its originating session context.
#[derive(Clone, Debug, PartialEq)]
pub struct TaggedEvent {
    pub cx: SessionContext,
    pub kind: UpdateKind,
}

impl TaggedEvent {
    /// The discriminant this event is routed by.
    pub open spec fn disc(self) -> Discriminant {
        self.kind.disc()
    }

    pub fn new(cx: SessionContext, kind: UpdateKind) -> (r: Self)
        ensures
            r == (TaggedEvent { cx, kind }),
    {
        Self { cx, kind }
    }

    /// Computes the discriminant this event is routed by.
    pub fn discriminant(&self) -> (d: Discriminant)
        ensures
            d == self.disc(),
    {
        self.kind.discriminant()
    }
}

} // verus!
