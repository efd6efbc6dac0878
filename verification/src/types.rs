pub mod inline_query_result_video;
pub mod inline_query_result_voice;
pub mod invoice;
pub mod keyboard;
pub mod message;
pub mod update;
pub mod user;

pub use inline_query_result_video::InlineQueryResultVideo;
pub use inline_query_result_voice::InlineQueryResultVoice;
pub use invoice::Invoice;
pub use keyboard::{InlineKeyboardButton, InlineKeyboardMarkup, InputMessageContent, MimeWrapper, ParseMode};
pub use message::Message;
pub use update::{CallbackQuery, Discriminant, SessionContext, TaggedEvent, UpdateKind};
pub use user::User;
