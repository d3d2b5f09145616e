use rr_core::broker::{Broker, BroadcastQueue, ClientConn, RecvOutcome};
use rr_core::data::{PubSubMsg, Time, TopicId, TopicMeta};

fn meta(id: u128, name: &str) -> TopicMeta {
    TopicMeta {
        id: TopicId(id),
        created: Time(0),
        name: name.to_owned(),
    }
}

#[test]
fn new_topic_is_broadcast_to_everyone() {
    let mut broker = Broker::new();
    let mut conn = ClientConn::new();
    let eff = broker.handle(&mut conn, PubSubMsg::NewTopic(meta(1, "p")));
    assert!(eff.reply.is_empty());
    assert_eq!(eff.broadcast, Some(PubSubMsg::NewTopic(meta(1, "p"))));
    // The fan-out filter passes announcements to clients regardless of
    // their subscriptions.
    let other = ClientConn::new();
    assert!(other.should_forward(&PubSubMsg::NewTopic(meta(1, "p"))));
}

#[test]
fn late_subscriber_gets_the_backlog_in_order() {
    // 100 messages are published before any subscriber exists; a new
    // client subscribing then receives exactly those 100, in order.
    let mut broker = Broker::new();
    let mut producer = ClientConn::new();
    broker.handle(&mut producer, PubSubMsg::NewTopic(meta(1, "p")));
    for i in 0..100u8 {
        let eff = broker.handle(&mut producer, PubSubMsg::TopicMsg(TopicId(1), vec![i]));
        assert_eq!(eff.broadcast, Some(PubSubMsg::TopicMsg(TopicId(1), vec![i])));
    }
    let mut client = ClientConn::new();
    let eff = broker.handle(&mut client, PubSubMsg::SubscribeTo(TopicId(1)));
    assert_eq!(eff.reply.len(), 100);
    for (i, frame) in eff.reply.iter().enumerate() {
        assert_eq!(*frame, PubSubMsg::TopicMsg(TopicId(1), vec![i as u8]));
    }
    // Frames published after the subscription reach it through the
    // fan-out filter.
    assert!(client.should_forward(&PubSubMsg::TopicMsg(TopicId(1), vec![200])));
}

#[test]
fn per_topic_order_replay_then_live() {
    // The subscriber at step k sees the first k messages as backlog and
    // the rest live, with nothing interleaved on the topic.
    let mut broker = Broker::new();
    let mut producer = ClientConn::new();
    broker.handle(&mut producer, PubSubMsg::NewTopic(meta(1, "p")));
    broker.handle(&mut producer, PubSubMsg::NewTopic(meta(2, "q")));

    let mut delivered: Vec<Vec<u8>> = Vec::new();
    let mut client = ClientConn::new();
    for i in 0..50u8 {
        broker.handle(&mut producer, PubSubMsg::TopicMsg(TopicId(1), vec![i]));
        // Noise on another topic.
        broker.handle(&mut producer, PubSubMsg::TopicMsg(TopicId(2), vec![i]));
    }
    let eff = broker.handle(&mut client, PubSubMsg::SubscribeTo(TopicId(1)));
    for frame in eff.reply {
        match frame {
            PubSubMsg::TopicMsg(id, payload) => {
                assert_eq!(id, TopicId(1));
                delivered.push(payload);
            }
            other => panic!("unexpected reply {:?}", other),
        }
    }
    for i in 50..100u8 {
        let eff = broker.handle(&mut producer, PubSubMsg::TopicMsg(TopicId(1), vec![i]));
        let eff2 = broker.handle(&mut producer, PubSubMsg::TopicMsg(TopicId(2), vec![i]));
        for frame in [eff.broadcast.unwrap(), eff2.broadcast.unwrap()] {
            if client.should_forward(&frame) {
                match frame {
                    PubSubMsg::TopicMsg(_, payload) => delivered.push(payload),
                    _ => {}
                }
            }
        }
    }
    let expected: Vec<Vec<u8>> = (0..100u8).map(|i| vec![i]).collect();
    assert_eq!(delivered, expected);
}

#[test]
fn list_topics_answers_the_caller_in_creation_order() {
    let mut broker = Broker::new();
    let mut conn = ClientConn::new();
    broker.handle(&mut conn, PubSubMsg::NewTopic(meta(5, "five")));
    broker.handle(&mut conn, PubSubMsg::NewTopic(meta(3, "three")));
    let eff = broker.handle(&mut conn, PubSubMsg::ListTopics);
    assert!(eff.broadcast.is_none());
    assert_eq!(
        eff.reply,
        vec![PubSubMsg::AllTopics(vec![meta(5, "five"), meta(3, "three")])]
    );
}

#[test]
fn subscribe_is_idempotent_and_all_topics_from_client_is_ignored() {
    let mut broker = Broker::new();
    let mut conn = ClientConn::new();
    broker.handle(&mut conn, PubSubMsg::NewTopic(meta(1, "p")));
    broker.handle(&mut conn, PubSubMsg::SubscribeTo(TopicId(1)));
    broker.handle(&mut conn, PubSubMsg::SubscribeTo(TopicId(1)));
    assert_eq!(conn.subscriptions, vec![TopicId(1)]);

    let eff = broker.handle(&mut conn, PubSubMsg::AllTopics(vec![]));
    assert!(eff.reply.is_empty());
    assert!(eff.broadcast.is_none());
}

#[test]
fn unknown_topic_message_is_broadcast_but_not_backlogged() {
    let mut broker = Broker::new();
    let mut conn = ClientConn::new();
    let eff = broker.handle(&mut conn, PubSubMsg::TopicMsg(TopicId(9), vec![1]));
    assert_eq!(eff.broadcast, Some(PubSubMsg::TopicMsg(TopicId(9), vec![1])));
    // Subscribing to the unknown topic replays nothing.
    let eff = broker.handle(&mut conn, PubSubMsg::SubscribeTo(TopicId(9)));
    assert!(eff.reply.is_empty());
}

#[test]
fn slow_subscriber_is_evicted_fast_one_sees_everything() {
    // Broadcast bound 1024; the producer emits 2048 frames. A client
    // that never polled is lagged (and so disconnected); a client that
    // keeps up receives all 2048 in order.
    let mut queue = BroadcastQueue::new(1024);
    let mut fast_cursor: usize = 0;
    let mut fast_seen: Vec<PubSubMsg> = Vec::new();
    for i in 0..2048u32 {
        queue.send(PubSubMsg::TopicMsg(TopicId(1), i.to_le_bytes().to_vec()));
        loop {
            match queue.recv(fast_cursor) {
                RecvOutcome::Empty => break,
                RecvOutcome::Lagged => panic!("fast client must not lag"),
                RecvOutcome::Msg(m, c2) => {
                    fast_seen.push(m);
                    fast_cursor = c2;
                }
            }
        }
    }
    assert_eq!(fast_seen.len(), 2048);
    for (i, m) in fast_seen.iter().enumerate() {
        assert_eq!(
            *m,
            PubSubMsg::TopicMsg(TopicId(1), (i as u32).to_le_bytes().to_vec())
        );
    }
    // The paused client is beyond the bound: it lost frames.
    assert!(matches!(queue.recv(0), RecvOutcome::Lagged));
}
