//! The viewer's connection logic: what to send and how to update the
//! logs and index for each transport event. The drawing shells call
//! this and render the state.

use vstd::prelude::*;

use crate::codec::{se_pub_sub_msg, strict_decode_message, strict_decode_pub_sub_msg};
use crate::data::{
    DataEventV, Message, MessageEnumV, PubSubMsg, PubSubMsgV, Time, TopicMeta, TopicMetaV,
};
use crate::event_log::{EventLog, LogLineV};
use crate::span_tree::{SpanTree, SpanTreeV, vf_tev};

verus! {

/// A frame on the transport.
#[derive(Debug)]
pub enum WsMessage {
    Binary(Vec<u8>),
    Text(String),
    Ping(Vec<u8>),
    Pong(Vec<u8>),
    Unknown(String),
}

/// Model of a [`WsMessage`].
#[verifier::ext_equal]
pub ghost enum WsMessageV {
    Binary(Seq<u8>),
    Text(Seq<char>),
    Ping(Seq<u8>),
    Pong(Seq<u8>),
    Unknown(Seq<char>),
}

impl View for WsMessage {
    type V = WsMessageV;

    open spec fn view(&self) -> WsMessageV {
        match self {
            WsMessage::Binary(b) => WsMessageV::Binary(b@),
            WsMessage::Text(s) => WsMessageV::Text(s@),
            WsMessage::Ping(b) => WsMessageV::Ping(b@),
            WsMessage::Pong(b) => WsMessageV::Pong(b@),
            WsMessage::Unknown(s) => WsMessageV::Unknown(s@),
        }
    }
}

/// Something that happened on the transport, in occurrence order.
#[derive(Debug)]
pub enum WsEvent {
    Opened,
    Message(WsMessage),
    Error(String),
    Closed,
}

/// Model of a [`WsEvent`].
#[verifier::ext_equal]
pub ghost enum WsEventV {
    Opened,
    Message(WsMessageV),
    Error(Seq<char>),
    Closed,
}

impl View for WsEvent {
    type V = WsEventV;

    open spec fn view(&self) -> WsEventV {
        match self {
            WsEvent::Opened => WsEventV::Opened,
            WsEvent::Message(m) => WsEventV::Message(m@),
            WsEvent::Error(s) => WsEventV::Error(s@),
            WsEvent::Closed => WsEventV::Closed,
        }
    }
}

/// The state kept for the one topic being viewed.
pub struct TopicViewer {
    pub topic_meta: TopicMeta,
    pub span_tree: SpanTree,
    pub data_event_log: crate::event_log::DataEventLog,
}

/// Model of a [`TopicViewer`].
#[verifier::ext_equal]
pub ghost struct TopicViewerV {
    pub topic_meta: TopicMetaV,
    pub span_tree: SpanTreeV,
    pub events: Seq<(Time, DataEventV)>,
}

impl View for TopicViewer {
    type V = TopicViewerV;

    open spec fn view(&self) -> TopicViewerV {
        TopicViewerV {
            topic_meta: self.topic_meta@,
            span_tree: self.span_tree@,
            events: self.data_event_log.events@.map_values(vf_tev()),
        }
    }
}

impl TopicViewerV {
    /// What one record does to the topic view.
    pub open spec fn step(self, m: crate::data::MessageV) -> TopicViewerV {
        TopicViewerV {
            topic_meta: self.topic_meta,
            span_tree: self.span_tree.step(m),
            events: match m.msg_enum {
                MessageEnumV::DataEvent(e) => self.events.push((m.log_time, e)),
                _ => self.events,
            },
        }
    }

    pub open spec fn fresh(meta: TopicMetaV) -> TopicViewerV {
        TopicViewerV {
            topic_meta: meta,
            span_tree: SpanTreeV::empty(),
            events: Seq::empty(),
        }
    }
}

impl TopicViewer {
    /// A view of one topic with nothing received yet.
    pub fn new(topic_meta: TopicMeta) -> (r: TopicViewer)
        ensures
            r@ == TopicViewerV::fresh(topic_meta@),
    {
        let r = TopicViewer {
            topic_meta,
            span_tree: SpanTree::new(),
            data_event_log: crate::event_log::DataEventLog::new(),
        };
        proof {
            assert(r@ =~~= TopicViewerV::fresh(r.topic_meta@));
        }
        r
    }

    /// Feeds one decoded record into the index and the event list.
    pub fn on_message(&mut self, rr_msg: &Message)
        ensures
            final(self)@ == old(self)@.step(rr_msg@),
    {
        self.data_event_log.on_message(rr_msg);
        self.span_tree.on_mesage(rr_msg);
        proof {
            assert(self@ =~~= old(self)@.step(rr_msg@));
        }
    }
}

// ---------------------------------------------------------------------------
// The viewer itself: routes transport events.

pub open spec fn vf_ws() -> spec_fn(WsMessage) -> WsMessageV {
    |w: WsMessage| w@
}

/// The viewer's connection state: the topics it knows of, the topic it
/// watches, and the log of everything received.
pub struct Viewer {
    pub topics: Vec<TopicMeta>,
    pub topic_viewer: Option<TopicViewer>,
    pub full_event_log: EventLog,
}

/// Model of a [`Viewer`].
#[verifier::ext_equal]
pub ghost struct ViewerV {
    pub topics: Seq<TopicMetaV>,
    pub viewer: Option<TopicViewerV>,
    pub log: crate::event_log::EventLogV,
}

impl View for Viewer {
    type V = ViewerV;

    open spec fn view(&self) -> ViewerV {
        ViewerV {
            topics: self.topics@.map_values(|m: TopicMeta| m@),
            viewer: match self.topic_viewer {
                None => None,
                Some(tv) => Some(tv@),
            },
            log: self.full_event_log@,
        }
    }
}

/// The log line for a transport event nothing else handles.
pub open spec fn unhandled_note() -> Seq<char> {
    "Received an unhandled transport event"@
}

/// The log line written when the viewer subscribes.
pub open spec fn subscribing_note(name: Seq<char>) -> Seq<char> {
    "Subscribing to topic: "@ + name
}

impl ViewerV {
    /// Only the unhandled note is logged.
    pub open spec fn noted(self) -> ViewerV {
        ViewerV {
            log: crate::event_log::EventLogV {
                span_tree: self.log.span_tree,
                lines: self.log.lines.push(LogLineV::Text(unhandled_note())),
            },
            ..self
        }
    }

    /// Start watching `meta`: log it, watch a fresh topic view, and
    /// send the subscription.
    pub open spec fn subscribed(self, meta: TopicMetaV) -> (ViewerV, Seq<WsMessageV>) {
        (
            ViewerV {
                viewer: Some(TopicViewerV::fresh(meta)),
                log: crate::event_log::EventLogV {
                    span_tree: self.log.span_tree,
                    lines: self.log.lines.push(
                        LogLineV::Text(subscribing_note(meta.name)),
                    ),
                },
                ..self
            },
            seq![WsMessageV::Binary(se_pub_sub_msg(PubSubMsgV::SubscribeTo(meta.id)))],
        )
    }

    /// What one transport event does to the viewer, and what the viewer
    /// sends back.
    ///
    /// Opening asks for the topic list. A topic announcement is
    /// subscribed to when nothing is watched yet, and refreshes the
    /// list. A topic message is decoded and fed to the watched topic
    /// and the full log. A topic listing is stored, and its newest
    /// topic watched when nothing is yet. Whatever else arrives is
    /// noted in the log.
    pub open spec fn step(self, e: WsEventV) -> (ViewerV, Seq<WsMessageV>) {
        match e {
            WsEventV::Message(WsMessageV::Binary(payload)) => match strict_decode_pub_sub_msg(
                payload,
            ) {
                Some(PubSubMsgV::NewTopic(meta)) => {
                    let (v1, s1) = if self.viewer is None {
                        self.subscribed(meta)
                    } else {
                        (self, Seq::empty())
                    };
                    (v1, s1.push(WsMessageV::Binary(se_pub_sub_msg(PubSubMsgV::ListTopics))))
                },
                Some(PubSubMsgV::TopicMsg(_, inner)) => match strict_decode_message(inner) {
                    Some(m) => (
                        ViewerV {
                            viewer: match self.viewer {
                                None => None,
                                Some(tv) => Some(tv.step(m)),
                            },
                            log: crate::event_log::EventLogV {
                                span_tree: self.log.span_tree.step(m),
                                lines: self.log.lines.push(LogLineV::Message(m)),
                            },
                            ..self
                        },
                        Seq::empty(),
                    ),
                    None => (self.noted(), Seq::empty()),
                },
                Some(PubSubMsgV::SubscribeTo(_)) => (self, Seq::empty()),
                Some(PubSubMsgV::ListTopics) => (self, Seq::empty()),
                Some(PubSubMsgV::AllTopics(list)) => {
                    let v1 = ViewerV { topics: list, ..self };
                    if self.viewer is None && list.len() > 0 {
                        v1.subscribed(list.last())
                    } else {
                        (v1, Seq::empty())
                    }
                },
                None => (self.noted(), Seq::empty()),
            },
            WsEventV::Opened => (
                self.noted(),
                seq![WsMessageV::Binary(se_pub_sub_msg(PubSubMsgV::ListTopics))],
            ),
            _ => (self.noted(), Seq::empty()),
        }
    }
}

impl Viewer {
    /// A viewer that knows of no topics yet.
    pub fn new() -> (r: Viewer)
        ensures
            r@.topics == Seq::<TopicMetaV>::empty(),
            r@.viewer is None,
            r@.log.lines == Seq::<LogLineV>::empty(),
            r@.log.span_tree == SpanTreeV::empty(),
    {
        let r = Viewer {
            topics: Vec::new(),
            topic_viewer: None,
            full_event_log: EventLog::new(),
        };
        proof {
            assert(r@.topics =~= Seq::<TopicMetaV>::empty());
            assert(r@.log.lines =~= Seq::<LogLineV>::empty());
        }
        r
    }

    fn note_event(&mut self)
        ensures
            final(self)@ == old(self)@.noted(),
    {
        self.full_event_log.on_text("Received an unhandled transport event".to_owned());
        proof {
            assert(self@ =~~= old(self)@.noted());
        }
    }

    fn subscribe_to(&mut self, topic_meta: TopicMeta, send: &mut Vec<WsMessage>)
        ensures
            (final(self)@, final(send)@.map_values(vf_ws())) == ({
                let (v1, s1) = old(self)@.subscribed(topic_meta@);
                (v1, old(send)@.map_values(vf_ws()) + s1)
            }),
    {
        let ghost meta_v = topic_meta@;
        let mut note = "Subscribing to topic: ".to_owned();
        note.append(topic_meta.name.as_str());
        self.full_event_log.on_text(note);
        let frame = PubSubMsg::SubscribeTo(topic_meta.id).encode();
        send.push(WsMessage::Binary(frame));
        self.topic_viewer = Some(TopicViewer::new(topic_meta));
        proof {
            assert(self@ =~~= old(self)@.subscribed(meta_v).0);
            assert(send@.map_values(vf_ws()) =~~= old(send)@.map_values(vf_ws()) + old(
                self,
            )@.subscribed(meta_v).1);
        }
    }

    /// Routes one transport event: updates the logs, the watched topic
    /// and the topic list, and returns the frames to send back.
    pub fn on_event(&mut self, event: WsEvent) -> (send: Vec<WsMessage>)
        ensures
            (final(self)@, send@.map_values(vf_ws())) == old(self)@.step(event@),
    {
        let mut send: Vec<WsMessage> = Vec::new();
        match event {
            WsEvent::Opened => {
                self.note_event();
                send.push(WsMessage::Binary(PubSubMsg::ListTopics.encode()));
                proof {
                    assert(send@.map_values(vf_ws()) =~~= old(self)@.step(WsEventV::Opened).1);
                }
            },
            WsEvent::Message(WsMessage::Binary(payload)) => {
                match PubSubMsg::decode(payload.as_slice()) {
                    Ok(PubSubMsg::NewTopic(meta)) => {
                        if self.topic_viewer.is_none() {
                            self.subscribe_to(meta, &mut send);
                        }
                        send.push(WsMessage::Binary(PubSubMsg::ListTopics.encode()));
                        proof {
                            assert((self@, send@.map_values(vf_ws())) =~~= old(self)@.step(
                                WsEventV::Message(WsMessageV::Binary(payload@)),
                            ));
                        }
                    },
                    Ok(PubSubMsg::TopicMsg(_, inner)) => {
                        match Message::decode(inner.as_slice()) {
                            Ok(rr_msg) => {
                                if let Some(topic_viewer) = &mut self.topic_viewer {
                                    topic_viewer.on_message(&rr_msg);
                                }
                                self.full_event_log.on_message(rr_msg);
                                proof {
                                    assert((self@, send@.map_values(vf_ws()))
                                        =~~= old(self)@.step(
                                        WsEventV::Message(WsMessageV::Binary(payload@)),
                                    ));
                                }
                            },
                            Err(_) => {
                                self.note_event();
                                proof {
                                    assert((self@, send@.map_values(vf_ws()))
                                        =~~= old(self)@.step(
                                        WsEventV::Message(WsMessageV::Binary(payload@)),
                                    ));
                                }
                            },
                        }
                    },
                    Ok(PubSubMsg::SubscribeTo(_)) => {
                        proof {
                            assert((self@, send@.map_values(vf_ws())) =~~= old(self)@.step(
                                WsEventV::Message(WsMessageV::Binary(payload@)),
                            ));
                        }
                    },
                    Ok(PubSubMsg::ListTopics) => {
                        proof {
                            assert((self@, send@.map_values(vf_ws())) =~~= old(self)@.step(
                                WsEventV::Message(WsMessageV::Binary(payload@)),
                            ));
                        }
                    },
                    Ok(PubSubMsg::AllTopics(all_topics)) => {
                        let had_viewer = self.topic_viewer.is_some();
                        self.topics = all_topics;
                        if !had_viewer && self.topics.len() > 0 {
                            let latest = self.topics[self.topics.len() - 1].clone();
                            self.subscribe_to(latest, &mut send);
                        }
                        proof {
                            assert((self@, send@.map_values(vf_ws())) =~~= old(self)@.step(
                                WsEventV::Message(WsMessageV::Binary(payload@)),
                            ));
                        }
                    },
                    Err(_) => {
                        self.note_event();
                        proof {
                            assert((self@, send@.map_values(vf_ws())) =~~= old(self)@.step(
                                WsEventV::Message(WsMessageV::Binary(payload@)),
                            ));
                        }
                    },
                }
            },
            _ => {
                self.note_event();
                proof {
                    assert((self@, send@.map_values(vf_ws())) =~~= old(self)@.step(event@));
                }
            },
        }
        send
    }
}

} // verus!
