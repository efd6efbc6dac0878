use teloxide::bot::Bot;
use teloxide::requests::stop_message_live_location_inline::StopMessageLiveLocationInline;
use teloxide::types::inline_query_result_video::InlineQueryResultVideo;
use teloxide::types::inline_query_result_voice::InlineQueryResultVoice;
use teloxide::types::invoice::Invoice;
use teloxide::types::keyboard::{
    InlineKeyboardButton, InlineKeyboardMarkup, InputMessageContent, MimeWrapper, ParseMode,
};
use teloxide::types::user::User;
use teloxide::utils::render::i32_to_decimal;

#[test]
fn user_builder_fills_every_field() {
    let user = User::new(12345, false, "firstName".to_string())
        .last_name("lastName".to_string())
        .username("Username".to_string())
        .language_code("ru".to_string());
    assert_eq!(user.id, 12345);
    assert!(!user.is_bot);
    assert_eq!(user.first_name, "firstName");
    assert_eq!(user.last_name, Some("lastName".to_string()));
    assert_eq!(user.username, Some("Username".to_string()));
    assert_eq!(user.language_code, Some("ru".to_string()));
}

#[test]
fn full_name_joins_with_a_single_space() {
    let user = User::new(1, false, "Ada".to_string()).last_name("Lovelace".to_string());
    assert_eq!(user.full_name(), "Ada Lovelace");
    let solo = User::new(2, false, "Ada".to_string());
    assert_eq!(solo.full_name(), "Ada");
}

#[test]
fn mention_needs_a_username() {
    let user = User::new(1, false, "Ada".to_string()).username("ada".to_string());
    assert_eq!(user.mention(), Some("@ada".to_string()));
    let nameless = User::new(2, false, "Ada".to_string());
    assert_eq!(nameless.mention(), None);
}

#[test]
fn user_url_is_the_deep_link() {
    let user = User::new(12345, false, "Ada".to_string());
    let url = user.url().expect("the deep link should parse");
    assert_eq!(url.as_str(), "tg://user/?id=12345");
}

#[test]
fn decimal_rendering_is_exact() {
    assert_eq!(i32_to_decimal(0), "0");
    assert_eq!(i32_to_decimal(7), "7");
    assert_eq!(i32_to_decimal(12345), "12345");
    assert_eq!(i32_to_decimal(-123), "-123");
    assert_eq!(i32_to_decimal(i32::MAX), "2147483647");
    assert_eq!(i32_to_decimal(i32::MIN), "-2147483648");
}

#[test]
fn invoice_builder_overrides_each_field() {
    let invoice = Invoice::new(
        "t".to_string(),
        "d".to_string(),
        "s".to_string(),
        "USD".to_string(),
        145,
    )
    .title("Product".to_string())
    .total_amount(290);
    assert_eq!(invoice.title, "Product");
    assert_eq!(invoice.description, "d");
    assert_eq!(invoice.start_parameter, "s");
    assert_eq!(invoice.currency, "USD");
    assert_eq!(invoice.total_amount, 290);
}

#[test]
fn video_result_starts_with_empty_options() {
    let v = InlineQueryResultVideo::new(
        "id1".to_string(),
        "https://example.org/v".to_string(),
        MimeWrapper::VideoMp4,
        "https://example.org/t".to_string(),
        "title".to_string(),
    );
    assert_eq!(v.caption, None);
    assert_eq!(v.parse_mode, None);
    assert_eq!(v.video_width, None);
    assert_eq!(v.input_message_content, None);
    let v = v
        .caption("cap".to_string())
        .parse_mode(ParseMode::HTML)
        .video_width(640)
        .video_height(480)
        .video_duration(10)
        .description("desc".to_string())
        .input_message_content(InputMessageContent::Text { message_text: "m".to_string() });
    assert_eq!(v.caption, Some("cap".to_string()));
    assert_eq!(v.parse_mode, Some(ParseMode::HTML));
    assert_eq!(v.video_width, Some(640));
    assert_eq!(v.video_height, Some(480));
    assert_eq!(v.video_duration, Some(10));
    assert_eq!(v.description, Some("desc".to_string()));
    assert_eq!(v.title, "title");
}

#[test]
fn voice_result_builder_sets_options() {
    let v = InlineQueryResultVoice::new(
        "id2".to_string(),
        "https://example.org/voice".to_string(),
        "title".to_string(),
    )
    .caption("c".to_string())
    .voice_duration(30)
    .reply_markup(InlineKeyboardMarkup::new(vec![vec![InlineKeyboardButton {
        text: "go".to_string(),
        callback_data: Some("go".to_string()),
    }]]));
    assert_eq!(v.caption, Some("c".to_string()));
    assert_eq!(v.voice_duration, Some(30));
    assert!(v.reply_markup.is_some());
    assert_eq!(v.parse_mode, None);
}

#[test]
fn stop_live_location_request_builds() {
    let bot = Bot::new("an-access-token".to_string());
    assert_eq!(bot.token().as_str(), "an-access-token");
    let req = StopMessageLiveLocationInline::new(&bot, "abc".to_string())
        .inline_message_id("def".to_string())
        .reply_markup(InlineKeyboardMarkup::new(vec![]));
    // The request type keeps its parameters private; building it at all
    // exercises the setters.
    let _ = req;
}
