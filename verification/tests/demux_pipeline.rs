use teloxide::dispatching::demux::{
    drive, partition, ArmSet, Demux, DriveStatus, Offer, PumpStatus,
};
use teloxide::dispatching::error_policy::ErrorPolicy;
use teloxide::types::message::Message;
use teloxide::types::update::{CallbackQuery, Discriminant, SessionContext, TaggedEvent, UpdateKind};

fn msg(id: i32, text: &str) -> TaggedEvent {
    TaggedEvent::new(
        SessionContext { chat_id: 7 },
        UpdateKind::Message(Message::new(id, Some(text.to_string()))),
    )
}

fn edited(id: i32) -> TaggedEvent {
    TaggedEvent::new(
        SessionContext { chat_id: 7 },
        UpdateKind::EditedMessage(Message::new(id, None)),
    )
}

fn callback(id: i32) -> TaggedEvent {
    TaggedEvent::new(
        SessionContext { chat_id: 7 },
        UpdateKind::CallbackQuery(CallbackQuery { id, data: None }),
    )
}

fn two_arms() -> ArmSet {
    ArmSet::new(vec![Discriminant::Message, Discriminant::EditedMessage]).unwrap()
}

#[test]
fn duplicate_arms_are_refused() {
    let r = ArmSet::new(vec![Discriminant::Message, Discriminant::Message]);
    assert!(r.is_err());
    let e = r.unwrap_err();
    assert_eq!((e.first, e.second), (0, 1));
}

#[test]
fn partition_routes_each_event_to_its_own_arm() {
    let events = vec![msg(1, "a"), edited(2), msg(3, "b"), callback(4), msg(5, "c")];
    let arms = two_arms();
    let (outputs, unmatched) = partition(events, &arms);
    assert_eq!(outputs.len(), 2);
    let ids: Vec<i32> = outputs[0]
        .iter()
        .map(|e| match &e.kind {
            UpdateKind::Message(m) => m.id,
            _ => panic!("a non-message event crossed onto the message arm"),
        })
        .collect();
    assert_eq!(ids, vec![1, 3, 5]);
    let edited_ids: Vec<i32> = outputs[1]
        .iter()
        .map(|e| match &e.kind {
            UpdateKind::EditedMessage(m) => m.id,
            _ => panic!("a non-edited event crossed onto the edited arm"),
        })
        .collect();
    assert_eq!(edited_ids, vec![2]);
    assert_eq!(unmatched.len(), 1);
    assert!(matches!(unmatched[0].kind, UpdateKind::CallbackQuery(_)));
}

#[test]
fn panicking_policy_halts_exactly_after_the_matched_prefix() {
    let events = vec![msg(1, "a"), msg(2, "b"), callback(3), msg(4, "d")];
    let arms = two_arms();
    let outcome = drive(events, &arms, ErrorPolicy::Panicking);
    assert_eq!(outcome.status, DriveStatus::Halted { at: 2 });
    assert_eq!(outcome.outputs[0].len(), 2);
    assert_eq!(outcome.outputs[1].len(), 0);
    assert!(outcome.rejected.is_empty());
}

#[test]
fn ignoring_policy_drops_unmatched_silently() {
    let events = vec![msg(1, "a"), callback(2), msg(3, "c")];
    let arms = two_arms();
    let outcome = drive(events, &arms, ErrorPolicy::Ignoring);
    assert_eq!(outcome.status, DriveStatus::Completed);
    assert_eq!(outcome.outputs[0].len(), 2);
    assert!(outcome.rejected.is_empty());
}

#[test]
fn logging_policy_records_unmatched_in_order() {
    let events = vec![callback(1), msg(2, "b"), callback(3)];
    let arms = two_arms();
    let outcome = drive(events, &arms, ErrorPolicy::Logging);
    assert_eq!(outcome.status, DriveStatus::Completed);
    assert_eq!(outcome.rejected.len(), 2);
    assert!(matches!(outcome.rejected[0].kind, UpdateKind::CallbackQuery(CallbackQuery { id: 1, .. })));
    assert!(matches!(outcome.rejected[1].kind, UpdateKind::CallbackQuery(CallbackQuery { id: 3, .. })));
}

#[test]
fn channels_deliver_in_first_in_first_out_order() {
    let mut demux =
        Demux::new(vec![Discriminant::Message, Discriminant::EditedMessage], 8).unwrap();
    assert!(matches!(demux.offer(msg(1, "a")), Offer::Delivered { arm: 0 }));
    assert!(matches!(demux.offer(msg(2, "b")), Offer::Delivered { arm: 0 }));
    assert!(matches!(demux.offer(edited(3)), Offer::Delivered { arm: 1 }));
    let first = demux.take(0).unwrap();
    let second = demux.take(0).unwrap();
    match (&first.kind, &second.kind) {
        (UpdateKind::Message(a), UpdateKind::Message(b)) => {
            assert_eq!((a.id, b.id), (1, 2));
        }
        _ => panic!("message arm handed out a non-message event"),
    }
    assert!(demux.take(0).is_none());
    assert!(demux.take(1).is_some());
}

#[test]
fn closed_arm_refuses_delivery() {
    let mut demux =
        Demux::new(vec![Discriminant::Message, Discriminant::EditedMessage], 8).unwrap();
    demux.close_arm(1);
    assert!(matches!(demux.offer(msg(1, "a")), Offer::Delivered { arm: 0 }));
    assert!(matches!(demux.offer(edited(2)), Offer::ClosedArm { arm: 1, .. }));
}

#[test]
fn closing_everything_signals_end_of_sequence() {
    let mut demux =
        Demux::new(vec![Discriminant::Message, Discriminant::EditedMessage], 8).unwrap();
    assert!(matches!(demux.offer(msg(1, "a")), Offer::Delivered { arm: 0 }));
    demux.close_all();
    assert!(matches!(demux.offer(msg(2, "b")), Offer::ClosedArm { arm: 0, .. }));
    assert!(matches!(demux.offer(edited(3)), Offer::ClosedArm { arm: 1, .. }));
    // What was queued before the close stays drainable.
    assert_eq!(demux.drain_arm(0).len(), 1);
}

#[test]
fn unmatched_offer_hands_the_event_back() {
    let mut demux = Demux::new(vec![Discriminant::Message], 8).unwrap();
    match demux.offer(callback(9)) {
        Offer::Unmatched { event } => {
            assert!(matches!(event.kind, UpdateKind::CallbackQuery(CallbackQuery { id: 9, .. })));
        }
        _ => panic!("an event with no declared arm was not handed back"),
    }
}

#[test]
fn stalled_consumer_stalls_the_whole_driver() {
    // Two arms, capacity one, and the message arm's consumer never takes:
    // once that channel is full, the single sequential driver blocks, and
    // the edited arm receives nothing past the block point either.
    let mut demux =
        Demux::new(vec![Discriminant::Message, Discriminant::EditedMessage], 1).unwrap();
    let events = vec![msg(1, "a"), edited(2), msg(3, "c"), edited(4), msg(5, "e")];
    let outcome = demux.pump(events, ErrorPolicy::Ignoring);
    assert_eq!(outcome.status, PumpStatus::Blocked { arm: 0, at: 2 });
    // The blocking event and everything after it is handed back unprocessed.
    assert_eq!(outcome.remaining.len(), 3);
    // The edited arm got only what preceded the block, despite room left.
    let edited_got = demux.drain_arm(1);
    assert_eq!(edited_got.len(), 1);
    assert!(matches!(&edited_got[0].kind, UpdateKind::EditedMessage(m) if m.id == 2));
    let messages_got = demux.drain_arm(0);
    assert_eq!(messages_got.len(), 1);
}

#[test]
fn pump_resumes_after_the_consumer_advances() {
    let mut demux = Demux::new(vec![Discriminant::Message], 1).unwrap();
    let outcome = demux.pump(vec![msg(1, "a"), msg(2, "b")], ErrorPolicy::Ignoring);
    assert_eq!(outcome.status, PumpStatus::Blocked { arm: 0, at: 1 });
    assert!(demux.take(0).is_some());
    let outcome = demux.pump(outcome.remaining, ErrorPolicy::Ignoring);
    assert_eq!(outcome.status, PumpStatus::Completed);
    let rest = demux.drain_arm(0);
    assert_eq!(rest.len(), 1);
    assert!(matches!(&rest[0].kind, UpdateKind::Message(m) if m.id == 2));
}

#[test]
fn pump_aborts_fatally_on_unmatched_under_panicking() {
    let mut demux = Demux::new(vec![Discriminant::Message], 4).unwrap();
    let outcome = demux.pump(vec![msg(1, "a"), callback(2)], ErrorPolicy::Panicking);
    assert_eq!(outcome.status, PumpStatus::Fatal { at: 1 });
    assert!(outcome.rejected.is_empty());
    assert_eq!(demux.drain_arm(0).len(), 1);
}
