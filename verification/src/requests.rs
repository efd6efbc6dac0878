pub mod stop_message_live_location_inline;

pub use stop_message_live_location_inline::StopMessageLiveLocationInline;
