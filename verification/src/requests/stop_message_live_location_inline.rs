use vstd::prelude::*;
use crate::bot::Bot;
use crate::types::keyboard::InlineKeyboardMarkup;

verus! {

/// A request to stop updating a live location message sent via the inline
/// mode, before its live period expires. Sending it over the wire is the
/// transport layer's concern; this value only carries the parameters.
#[derive(Clone, Debug, PartialEq)]
pub struct StopMessageLiveLocationInline<'a> {
    bot: &'a Bot,

    /// Identifier of the inline message.
    inline_message_id: String,

    /// A new inline keyboard for the stopped message.
    reply_markup: Option<InlineKeyboardMarkup>,
}

impl<'a> StopMessageLiveLocationInline<'a> {
    /// The bot handle this request will be issued through.
    pub closed spec fn spec_bot(self) -> Bot {
        *self.bot
    }

    /// The inline message identifier carried by this request.
    pub closed spec fn spec_inline_message_id(self) -> Seq<char> {
        self.inline_message_id@
    }

    /// The replacement keyboard carried by this request, if any.
    pub closed spec fn spec_reply_markup(self) -> Option<InlineKeyboardMarkup> {
        self.reply_markup
    }

    pub fn new(bot: &'a Bot, inline_message_id: String) -> (r: Self)
        ensures
            r.spec_bot() == *bot,
            r.spec_inline_message_id() == inline_message_id@,
            r.spec_reply_markup() is None,
    {
        Self { bot, inline_message_id, reply_markup: None }
    }

    pub fn inline_message_id(self, val: String) -> (r: Self)
        ensures
            r.spec_bot() == self.spec_bot(),
            r.spec_inline_message_id() == val@,
            r.spec_reply_markup() == self.spec_reply_markup(),
    {
        Self { inline_message_id: val, ..self }
    }

    pub fn reply_markup(self, val: InlineKeyboardMarkup) -> (r: Self)
        ensures
            r.spec_bot() == self.spec_bot(),
            r.spec_inline_message_id() == self.spec_inline_message_id(),
            r.spec_reply_markup() == Some(val),
    {
        Self { reply_markup: Some(val), ..self }
    }
}

} // verus!
