use vstd::prelude::*;
use crate::types::keyboard::{InlineKeyboardMarkup, InputMessageContent, ParseMode};

verus! {

/// A link to a voice recording in an .ogg container encoded with OPUS.
#[derive(Clone, Debug, PartialEq)]
pub struct InlineQueryResultVoice {
    /// Unique identifier for this result, 1-64 bytes.
    pub id: String,

    /// A valid URL for the voice recording.
    pub voice_url: String,

    /// Recording title.
    pub title: String,

    /// Caption, 0-1024 characters.
    pub caption: Option<String>,

    /// Formatting of the media caption.
    pub parse_mode: Option<ParseMode>,

    /// Recording duration in seconds.
    pub voice_duration: Option<i32>,

    /// Inline keyboard attached to the message.
    pub reply_markup: Option<InlineKeyboardMarkup>,

    /// Content of the message to be sent instead of the voice recording.
    pub input_message_content: Option<InputMessageContent>,
}

impl InlineQueryResultVoice {
    pub fn new(id: String, voice_url: String, title: String) -> (r: Self)
        ensures
            r == (InlineQueryResultVoice {
                id,
                voice_url,
                title,
                caption: None,
                parse_mode: None,
                voice_duration: None,
                reply_markup: None,
                input_message_content: None,
            }),
    {
        Self {
            id,
            voice_url,
            title,
            caption: None,
            parse_mode: None,
            voice_duration: None,
            reply_markup: None,
            input_message_content: None,
        }
    }

    pub fn id(self, val: String) -> (r: Self)
        ensures
            r == (InlineQueryResultVoice { id: val, ..self }),
    {
        Self { id: val, ..self }
    }

    pub fn voice_url(self, val: String) -> (r: Self)
        ensures
            r == (InlineQueryResultVoice { voice_url: val, ..self }),
    {
        Self { voice_url: val, ..self }
    }

    pub fn title(self, val: String) -> (r: Self)
        ensures
            r == (InlineQueryResultVoice { title: val, ..self }),
    {
        Self { title: val, ..self }
    }

    pub fn caption(self, val: String) -> (r: Self)
        ensures
            r == (InlineQueryResultVoice { caption: Some(val), ..self }),
    {
        Self { caption: Some(val), ..self }
    }

    pub fn parse_mode(self, val: ParseMode) -> (r: Self)
        ensures
            r == (InlineQueryResultVoice { parse_mode: Some(val), ..self }),
    {
        Self { parse_mode: Some(val), ..self }
    }

    pub fn voice_duration(self, value: i32) -> (r: Self)
        ensures
            r == (InlineQueryResultVoice { voice_duration: Some(value), ..self }),
    {
        Self { voice_duration: Some(value), ..self }
    }

    pub fn reply_markup(self, val: InlineKeyboardMarkup) -> (r: Self)
        ensures
            r == (InlineQueryResultVoice { reply_markup: Some(val), ..self }),
    {
        Self { reply_markup: Some(val), ..self }
    }

    pub fn input_message_content(self, val: InputMessageContent) -> (r: Self)
        ensures
            r == (InlineQueryResultVoice { input_message_content: Some(val), ..self }),
    {
        Self { input_message_content: Some(val), ..self }
    }
}

} // verus!
