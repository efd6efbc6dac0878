use teloxide::dispatching::refiner::{commands, message_events, text_messages};
use teloxide::dispatching::update_with_cx::UpdateWithCx;
use teloxide::types::message::Message;
use teloxide::types::update::{SessionContext, TaggedEvent, UpdateKind};
use teloxide::utils::command::{ArgShape, CommandDecl, CommandTable, FieldKind, FieldValue};

fn cx() -> SessionContext {
    SessionContext { chat_id: 11 }
}

fn with_text(id: i32, text: &str) -> UpdateWithCx<Message> {
    UpdateWithCx::new(cx(), Message::new(id, Some(text.to_string())))
}

fn without_text(id: i32) -> UpdateWithCx<Message> {
    UpdateWithCx::new(cx(), Message::new(id, None))
}

#[test]
fn message_events_keeps_only_message_kinds() {
    let events = vec![
        TaggedEvent::new(cx(), UpdateKind::Message(Message::new(1, None))),
        TaggedEvent::new(cx(), UpdateKind::EditedMessage(Message::new(2, None))),
        TaggedEvent::new(cx(), UpdateKind::Message(Message::new(3, None))),
    ];
    let out = message_events(events);
    let ids: Vec<i32> = out.iter().map(|m| m.update.id).collect();
    assert_eq!(ids, vec![1, 3]);
}

#[test]
fn text_filter_narrows_and_preserves_order() {
    let input = vec![
        with_text(1, "first"),
        without_text(2),
        with_text(3, "third"),
        without_text(4),
        with_text(5, "fifth"),
    ];
    let out = text_messages(input);
    let got: Vec<(i32, String)> = out.into_iter().map(|(m, t)| (m.update.id, t)).collect();
    assert_eq!(
        got,
        vec![
            (1, "first".to_string()),
            (3, "third".to_string()),
            (5, "fifth".to_string()),
        ]
    );
}

#[test]
fn text_filter_of_nothing_is_nothing() {
    assert!(text_messages(vec![]).is_empty());
}

#[test]
fn command_filter_keeps_only_parsing_commands() {
    let table = CommandTable::new(
        vec![CommandDecl {
            name: "add".to_string(),
            shape: ArgShape::Positional(vec![FieldKind::Integer]),
        }],
        true,
    );
    let input = vec![
        with_text(1, "/add 4"),
        with_text(2, "just chatting"),
        without_text(3),
        with_text(4, "/add nine"),
        with_text(5, "/add@mybot 6"),
        with_text(6, "/add@elsewhere 6"),
    ];
    let out = commands(input, &table, "mybot");
    let got: Vec<(i32, Vec<FieldValue>)> =
        out.into_iter().map(|(m, c)| (m.update.id, c.args)).collect();
    assert_eq!(
        got,
        vec![
            (1, vec![FieldValue::Integer(4)]),
            (5, vec![FieldValue::Integer(6)]),
        ]
    );
}
