use vstd::prelude::*;

verus! {

/// Formatting applied by client apps to a caption or message text.
#[derive(Clone, Copy, Debug, PartialEq, Eq, Structural, Hash)]
pub enum ParseMode {
    Markdown,
    HTML,
}

/// The media type of linked content: an embedded page, or a video file.
#[derive(Clone, Copy, Debug, PartialEq, Eq, Structural, Hash)]
pub enum MimeWrapper {
    TextHtml,
    VideoMp4,
}

/// One button of an inline keyboard.
#[derive(Clone, Debug, PartialEq, Eq, Hash)]
pub struct InlineKeyboardButton {
    /// Label text on the button.
    pub text: String,

    /// Data to be sent back in a callback query when the button is pressed.
    pub callback_data: Option<String>,
}

/// An inline keyboard attached to a message.
#[derive(Clone, Debug, PartialEq, Eq, Hash)]
pub struct InlineKeyboardMarkup {
    /// Rows of buttons.
    pub inline_keyboard: Vec<Vec<InlineKeyboardButton>>,
}

impl InlineKeyboardMarkup {
    pub fn new(inline_keyboard: Vec<Vec<InlineKeyboardButton>>) -> (r: Self)
        ensures
            r == (InlineKeyboardMarkup { inline_keyboard }),
    {
        Self { inline_keyboard }
    }
}

/// Content of a message to be sent in place of the linked media.
#[derive(Clone, Debug, PartialEq, Eq, Hash)]
pub enum InputMessageContent {
    Text {
        /// Text of the message to be sent.
        message_text: String,
    },
}

} // verus!
