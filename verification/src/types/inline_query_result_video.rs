use vstd::prelude::*;
use crate::types::keyboard::{InlineKeyboardMarkup, InputMessageContent, MimeWrapper, ParseMode};

verus! {

/// A link to a page containing an embedded video player or a video file.
#[derive(Clone, Debug, PartialEq)]
pub struct InlineQueryResultVideo {
    /// Unique identifier for this result, 1-64 bytes.
    pub id: String,

    /// A valid URL for the embedded video player or video file.
    pub video_url: String,

    /// Media type of the content of the video URL.
    pub mime_type: MimeWrapper,

    /// URL of the thumbnail for the video.
    pub thumb_url: String,

    /// Title for the result.
    pub title: String,

    /// Caption of the video to be sent, 0-1024 characters.
    pub caption: Option<String>,

    /// Formatting of the media caption.
    pub parse_mode: Option<ParseMode>,

    /// Video width.
    pub video_width: Option<i32>,

    /// Video height.
    pub video_height: Option<i32>,

    /// Video duration in seconds.
    pub video_duration: Option<i32>,

    /// Short description of the result.
    pub description: Option<String>,

    /// Inline keyboard attached to the message.
    pub reply_markup: Option<InlineKeyboardMarkup>,

    /// Content of the message to be sent instead of the video.
    pub input_message_content: Option<InputMessageContent>,
}

impl InlineQueryResultVideo {
    pub fn new(
        id: String,
        video_url: String,
        mime_type: MimeWrapper,
        thumb_url: String,
        title: String,
    ) -> (r: Self)
        ensures
            r == (InlineQueryResultVideo {
                id,
                video_url,
                mime_type,
                thumb_url,
                title,
                caption: None,
                parse_mode: None,
                video_width: None,
                video_height: None,
                video_duration: None,
                description: None,
                reply_markup: None,
                input_message_content: None,
            }),
    {
        Self {
            id,
            video_url,
            mime_type,
            thumb_url,
            title,
            caption: None,
            parse_mode: None,
            video_width: None,
            video_height: None,
            video_duration: None,
            description: None,
            reply_markup: None,
            input_message_content: None,
        }
    }

    pub fn id(self, val: String) -> (r: Self)
        ensures
            r == (InlineQueryResultVideo { id: val, ..self }),
    {
        Self { id: val, ..self }
    }

    pub fn video_url(self, val: String) -> (r: Self)
        ensures
            r == (InlineQueryResultVideo { video_url: val, ..self }),
    {
        Self { video_url: val, ..self }
    }

    pub fn mime_type(self, val: MimeWrapper) -> (r: Self)
        ensures
            r == (InlineQueryResultVideo { mime_type: val, ..self }),
    {
        Self { mime_type: val, ..self }
    }

    pub fn thumb_url(self, val: String) -> (r: Self)
        ensures
            r == (InlineQueryResultVideo { thumb_url: val, ..self }),
    {
        Self { thumb_url: val, ..self }
    }

    pub fn title(self, val: String) -> (r: Self)
        ensures
            r == (InlineQueryResultVideo { title: val, ..self }),
    {
        Self { title: val, ..self }
    }

    pub fn caption(self, val: String) -> (r: Self)
        ensures
            r == (InlineQueryResultVideo { caption: Some(val), ..self }),
    {
        Self { caption: Some(val), ..self }
    }

    pub fn parse_mode(self, val: ParseMode) -> (r: Self)
        ensures
            r == (InlineQueryResultVideo { parse_mode: Some(val), ..self }),
    {
        Self { parse_mode: Some(val), ..self }
    }

    pub fn video_width(self, val: i32) -> (r: Self)
        ensures
            r == (InlineQueryResultVideo { video_width: Some(val), ..self }),
    {
        Self { video_width: Some(val), ..self }
    }

    pub fn video_height(self, val: i32) -> (r: Self)
        ensures
            r == (InlineQueryResultVideo { video_height: Some(val), ..self }),
    {
        Self { video_height: Some(val), ..self }
    }

    pub fn video_duration(self, val: i32) -> (r: Self)
        ensures
            r == (InlineQueryResultVideo { video_duration: Some(val), ..self }),
    {
        Self { video_duration: Some(val), ..self }
    }

    pub fn description(self, val: String) -> (r: Self)
        ensures
            r == (InlineQueryResultVideo { description: Some(val), ..self }),
    {
        Self { description: Some(val), ..self }
    }

    pub fn reply_markup(self, val: InlineKeyboardMarkup) -> (r: Self)
        ensures
            r == (InlineQueryResultVideo { reply_markup: Some(val), ..self }),
    {
        Self { reply_markup: Some(val), ..self }
    }

    pub fn input_message_content(self, val: InputMessageContent) -> (r: Self)
        ensures
            r == (InlineQueryResultVideo { input_message_content: Some(val), ..self }),
    {
        Self { input_message_content: Some(val), ..self }
    }
}

} // verus!
