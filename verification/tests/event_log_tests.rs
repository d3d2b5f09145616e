use rr_core::data::{
    CallsiteId, DataEvent, Message, MessageEnum, SpanId, Time, TopicId, TopicMeta, Value,
};
use rr_core::event_log::{DataEventLog, EventLog, LogLine};

fn msg(t: i64, body: MessageEnum) -> Message {
    Message {
        log_time: Time(t),
        msg_enum: body,
    }
}

fn event(v: i64) -> MessageEnum {
    MessageEnum::DataEvent(DataEvent {
        callsite_id: CallsiteId(1),
        parent_span_id: None,
        fields: vec![("v".to_owned(), Value::I64(v))],
    })
}

#[test]
fn event_log_keeps_every_line_and_indexes_records() {
    let mut log = EventLog::new();
    log.on_text("connected".to_owned());
    log.on_message(msg(5, MessageEnum::EnterSpan(SpanId(1))));
    log.on_message(msg(6, event(1)));
    assert_eq!(log.lines.len(), 3);
    assert!(matches!(&log.lines[0], LogLine::Text(t) if t == "connected"));
    assert!(matches!(&log.lines[1], LogLine::Message(_)));
    // The record with no known parent went to the index's orphans.
    assert_eq!(log.span_tree.orphan_events.len(), 1);
}

#[test]
fn data_event_log_keeps_only_events() {
    let mut log = DataEventLog::new();
    log.on_message(&msg(5, MessageEnum::EnterSpan(SpanId(1))));
    assert!(log.events.is_empty());
    log.on_message(&msg(7, event(42)));
    log.on_message(&msg(9, event(43)));
    assert_eq!(log.events.len(), 2);
    assert_eq!(log.events[0].0, Time(7));
    assert_eq!(
        log.events[1].1.fields[0],
        ("v".to_owned(), Value::I64(43))
    );
}

#[test]
fn random_topic_ids_and_clock() {
    // Two freshly drawn ids almost surely differ; the clock is past the
    // epoch on any sane system.
    let a = TopicId::random();
    let b = TopicId::random();
    assert_ne!(a, b);
    assert!(Time::now().nanos_since_epoch() > 0);
    let meta = TopicMeta {
        id: a,
        created: Time::now(),
        name: "session".to_owned(),
    };
    assert_eq!(meta.id, a);
}
