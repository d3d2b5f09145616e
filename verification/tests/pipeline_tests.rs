use rr_core::broker::{Broker, ClientConn};
use rr_core::data::{
    Callsite, CallsiteId, CallsiteKind, DataEvent, Location, LogLevel, Message, MessageEnum,
    PubSubMsg, Time, TopicId, TopicMeta, Value,
};
use rr_core::span_tree::SpanTree;

/// Producer, broker and subscriber end to end: the producer announces a
/// topic and publishes two encoded records; a subscriber arriving later
/// receives the announcement, then the two records in order, and its
/// index ends with one callsite, no spans, and one orphan event with
/// the value 42.
#[test]
fn single_event_end_to_end() {
    let topic = TopicId(77);
    let records = vec![
        Message {
            log_time: Time(500),
            msg_enum: MessageEnum::NewCallsite(Callsite {
                id: CallsiteId(3),
                kind: CallsiteKind::Event,
                name: "e".to_owned(),
                level: LogLevel::Info,
                location: Location {
                    module: "m".to_owned(),
                    file: None,
                    line: None,
                },
                field_names: vec!["v".to_owned()],
            }),
        },
        Message {
            log_time: Time(1000),
            msg_enum: MessageEnum::DataEvent(DataEvent {
                callsite_id: CallsiteId(3),
                parent_span_id: None,
                fields: vec![("v".to_owned(), Value::I64(42))],
            }),
        },
    ];

    // Producer side.
    let mut broker = Broker::new();
    let mut producer = ClientConn::new();
    let announce = broker.handle(
        &mut producer,
        PubSubMsg::NewTopic(TopicMeta {
            id: topic,
            created: Time(0),
            name: "p".to_owned(),
        }),
    );
    assert!(matches!(announce.broadcast, Some(PubSubMsg::NewTopic(_))));
    for record in &records {
        broker.handle(
            &mut producer,
            PubSubMsg::TopicMsg(topic, record.encode()),
        );
    }

    // Subscriber side: subscribe at t=2000, receive the backlog, decode
    // and index it.
    let mut client = ClientConn::new();
    let replay = broker.handle(&mut client, PubSubMsg::SubscribeTo(topic));
    assert_eq!(replay.reply.len(), 2);
    let mut tree = SpanTree::new();
    for frame in replay.reply {
        match frame {
            PubSubMsg::TopicMsg(id, payload) => {
                assert_eq!(id, topic);
                let record = Message::decode(&payload).expect("payload decodes");
                tree.on_mesage(&record);
            }
            other => panic!("unexpected frame {:?}", other),
        }
    }
    assert_eq!(tree.callsites.len(), 1);
    assert!(tree.nodes.is_empty());
    assert_eq!(tree.orphan_events.len(), 1);
    assert_eq!(tree.orphan_events[0].0, Time(1000));
    assert_eq!(
        tree.orphan_events[0].1.fields[0],
        ("v".to_owned(), Value::I64(42))
    );
}
