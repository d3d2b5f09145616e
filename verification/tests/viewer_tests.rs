use rr_core::data::{
    CallsiteId, DataEvent, Message, MessageEnum, PubSubMsg, Time, TopicId, TopicMeta, Value,
};
use rr_core::viewer::{Viewer, WsEvent, WsMessage};

fn meta(id: u128, name: &str) -> TopicMeta {
    TopicMeta {
        id: TopicId(id),
        created: Time(0),
        name: name.to_owned(),
    }
}

fn binary(frame: &PubSubMsg) -> WsEvent {
    WsEvent::Message(WsMessage::Binary(frame.encode()))
}

fn sent_frames(send: Vec<WsMessage>) -> Vec<PubSubMsg> {
    send.into_iter()
        .map(|w| match w {
            WsMessage::Binary(b) => PubSubMsg::decode(&b).expect("sent frames decode"),
            other => panic!("viewer sent a non-binary frame {:?}", other),
        })
        .collect()
}

#[test]
fn opening_asks_for_the_topic_list() {
    let mut viewer = Viewer::new();
    let send = viewer.on_event(WsEvent::Opened);
    assert_eq!(sent_frames(send), vec![PubSubMsg::ListTopics]);
}

#[test]
fn first_announcement_is_subscribed_to_and_the_list_refreshed() {
    let mut viewer = Viewer::new();
    let send = viewer.on_event(binary(&PubSubMsg::NewTopic(meta(1, "p"))));
    assert_eq!(
        sent_frames(send),
        vec![PubSubMsg::SubscribeTo(TopicId(1)), PubSubMsg::ListTopics]
    );
    assert_eq!(
        viewer.topic_viewer.as_ref().map(|tv| tv.topic_meta.id),
        Some(TopicId(1))
    );
    // A second announcement does not steal the view.
    let send = viewer.on_event(binary(&PubSubMsg::NewTopic(meta(2, "q"))));
    assert_eq!(sent_frames(send), vec![PubSubMsg::ListTopics]);
    assert_eq!(
        viewer.topic_viewer.as_ref().map(|tv| tv.topic_meta.id),
        Some(TopicId(1))
    );
}

#[test]
fn topic_messages_feed_the_watched_topic_and_the_full_log() {
    let mut viewer = Viewer::new();
    viewer.on_event(binary(&PubSubMsg::NewTopic(meta(1, "p"))));
    let record = Message {
        log_time: Time(9),
        msg_enum: MessageEnum::DataEvent(DataEvent {
            callsite_id: CallsiteId(3),
            parent_span_id: None,
            fields: vec![("v".to_owned(), Value::U64(1))],
        }),
    };
    let send = viewer.on_event(binary(&PubSubMsg::TopicMsg(TopicId(1), record.encode())));
    assert!(send.is_empty());
    let tv = viewer.topic_viewer.as_ref().unwrap();
    assert_eq!(tv.data_event_log.events.len(), 1);
    assert_eq!(tv.span_tree.orphan_events.len(), 1);
    assert_eq!(viewer.full_event_log.lines.len(), 2);
}

#[test]
fn a_topic_listing_is_stored_and_its_newest_topic_watched() {
    let mut viewer = Viewer::new();
    let send = viewer.on_event(binary(&PubSubMsg::AllTopics(vec![
        meta(1, "old"),
        meta(2, "new"),
    ])));
    assert_eq!(sent_frames(send), vec![PubSubMsg::SubscribeTo(TopicId(2))]);
    assert_eq!(viewer.topics.len(), 2);
    assert_eq!(
        viewer.topic_viewer.as_ref().map(|tv| tv.topic_meta.id),
        Some(TopicId(2))
    );
}

#[test]
fn unhandled_events_are_noted_in_the_log() {
    let mut viewer = Viewer::new();
    assert!(viewer.on_event(WsEvent::Closed).is_empty());
    assert!(viewer
        .on_event(WsEvent::Message(WsMessage::Text("hi".to_owned())))
        .is_empty());
    assert!(viewer.on_event(binary(&PubSubMsg::ListTopics)).is_empty());
    // Undecodable binary is noted too.
    assert!(viewer
        .on_event(WsEvent::Message(WsMessage::Binary(vec![250])))
        .is_empty());
    assert_eq!(viewer.full_event_log.lines.len(), 3);
}
