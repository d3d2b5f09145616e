//! The viewer-side logs: every line received, and the data events alone.

use vstd::prelude::*;

use crate::data::{DataEvent, DataEventV, Message, MessageEnum, MessageEnumV, MessageV, Time};
use crate::span_tree::{SpanTree, vf_tev};

verus! {

/// One line of the full log: free text or a decoded record.
pub enum LogLine {
    Text(String),
    Message(Message),
}

/// Model of a [`LogLine`].
#[verifier::ext_equal]
pub ghost enum LogLineV {
    Text(Seq<char>),
    Message(MessageV),
}

impl View for LogLine {
    type V = LogLineV;

    open spec fn view(&self) -> LogLineV {
        match self {
            LogLine::Text(s) => LogLineV::Text(s@),
            LogLine::Message(m) => LogLineV::Message(m@),
        }
    }
}

pub open spec fn vf_line() -> spec_fn(LogLine) -> LogLineV {
    |l: LogLine| l@
}

/// Every event and meta-event the viewer received, with a running
/// index over the records among them.
pub struct EventLog {
    pub span_tree: SpanTree,
    pub lines: Vec<LogLine>,
}

/// Model of an [`EventLog`].
#[verifier::ext_equal]
pub ghost struct EventLogV {
    pub span_tree: crate::span_tree::SpanTreeV,
    pub lines: Seq<LogLineV>,
}

impl View for EventLog {
    type V = EventLogV;

    open spec fn view(&self) -> EventLogV {
        EventLogV { span_tree: self.span_tree@, lines: self.lines@.map_values(vf_line()) }
    }
}

impl EventLog {
    pub fn new() -> (r: EventLog)
        ensures
            r.span_tree@ == crate::span_tree::SpanTreeV::empty(),
            r.lines@ == Seq::<LogLine>::empty(),
    {
        EventLog { span_tree: SpanTree::new(), lines: Vec::new() }
    }

    /// Feeds a record into the index and keeps it as a log line.
    pub fn on_message(&mut self, msg: Message)
        ensures
            final(self).span_tree@ == old(self).span_tree@.step(msg@),
            final(self).lines@.map_values(vf_line()) == old(self).lines@.map_values(
                vf_line(),
            ).push(LogLineV::Message(msg@)),
    {
        self.span_tree.on_mesage(&msg);
        let ghost lines_pre = self.lines@;
        self.lines.push(LogLine::Message(msg));
        proof {
            assert(self.lines@.map_values(vf_line()) =~= lines_pre.map_values(vf_line()).push(
                self.lines@.last()@,
            ));
        }
    }

    /// Keeps a free-text line.
    pub fn on_text(&mut self, text: String)
        ensures
            final(self).span_tree@ == old(self).span_tree@,
            final(self).lines@.map_values(vf_line()) == old(self).lines@.map_values(
                vf_line(),
            ).push(LogLineV::Text(text@)),
    {
        let ghost lines_pre = self.lines@;
        self.lines.push(LogLine::Text(text));
        proof {
            assert(self.lines@.map_values(vf_line()) =~= lines_pre.map_values(vf_line()).push(
                self.lines@.last()@,
            ));
        }
    }
}

/// The data events alone, in arrival order, with their log times.
pub struct DataEventLog {
    pub events: Vec<(Time, DataEvent)>,
}

impl DataEventLog {
    pub fn new() -> (r: DataEventLog)
        ensures
            r.events@ == Seq::<(Time, DataEvent)>::empty(),
    {
        DataEventLog { events: Vec::new() }
    }

    /// Keeps the record's event when it carries one; other records
    /// leave the log unchanged.
    pub fn on_message(&mut self, msg: &Message)
        ensures
            final(self).events@.map_values(vf_tev()) == (match msg@.msg_enum {
                MessageEnumV::DataEvent(e) => old(self).events@.map_values(vf_tev()).push(
                    (msg@.log_time, e),
                ),
                _ => old(self).events@.map_values(vf_tev()),
            }),
    {
        if let MessageEnum::DataEvent(data_event) = &msg.msg_enum {
            let ghost pre = self.events@;
            self.events.push((msg.log_time, data_event.clone()));
            proof {
                assert(self.events@.map_values(vf_tev()) =~= pre.map_values(vf_tev()).push(
                    (msg@.log_time, self.events@.last().1@),
                ));
            }
        }
    }
}

} // verus!
