use rr_core::data::{
    Callsite, CallsiteId, CallsiteKind, DataEvent, Location, LogLevel, Message, MessageEnum,
    SpanId, Span, Time, Value,
};
use rr_core::span_tree::{SpanTree, TimeInterval};

fn msg(t: i64, body: MessageEnum) -> Message {
    Message {
        log_time: Time(t),
        msg_enum: body,
    }
}

fn callsite(id: u64, kind: CallsiteKind, name: &str) -> Callsite {
    Callsite {
        id: CallsiteId(id),
        kind,
        name: name.to_owned(),
        level: LogLevel::Info,
        location: Location {
            module: "m".to_owned(),
            file: None,
            line: None,
        },
        field_names: vec!["v".to_owned()],
    }
}

fn new_span(id: u64, parent: Option<u64>, callsite_id: u64) -> MessageEnum {
    MessageEnum::NewSpan(Span {
        id: SpanId(id),
        parent_span_id: parent.map(SpanId),
        callsite_id: CallsiteId(callsite_id),
        fields: vec![],
    })
}

#[test]
fn span_lifecycle() {
    // At t=0 a root span S is created, entered at 10, exited at 20,
    // destroyed at 30.
    let mut tree = SpanTree::new();
    tree.on_mesage(&msg(0, new_span(1, None, 9)));
    tree.on_mesage(&msg(10, MessageEnum::EnterSpan(SpanId(1))));
    tree.on_mesage(&msg(20, MessageEnum::ExitSpan(SpanId(1))));
    tree.on_mesage(&msg(30, MessageEnum::DestroySpan(SpanId(1))));

    let node = tree.nodes.get(&1).expect("node exists");
    assert_eq!(node.lifetime.min, Some(Time(0)));
    assert_eq!(node.lifetime.max, Some(Time(30)));
    assert_eq!(node.intervals.len(), 1);
    assert_eq!(node.intervals[0].min, Some(Time(10)));
    assert_eq!(node.intervals[0].max, Some(Time(20)));
    assert!(node.children.is_empty());
    assert_eq!(tree.roots, vec![SpanId(1)]);
    assert_eq!(tree.ns_range(), Some((0, 30)));
}

#[test]
fn single_event_goes_to_orphans() {
    // A callsite and an event with no parent span: one callsite, no
    // nodes, one orphan event carrying the value 42.
    let mut tree = SpanTree::new();
    tree.on_mesage(&msg(
        500,
        MessageEnum::NewCallsite(callsite(7, CallsiteKind::Event, "e")),
    ));
    tree.on_mesage(&msg(
        1000,
        MessageEnum::DataEvent(DataEvent {
            callsite_id: CallsiteId(7),
            parent_span_id: None,
            fields: vec![("v".to_owned(), Value::I64(42))],
        }),
    ));
    assert!(tree.callsites.contains_key(&7));
    assert!(tree.nodes.is_empty());
    assert_eq!(tree.orphan_events.len(), 1);
    assert_eq!(tree.orphan_events[0].0, Time(1000));
    assert_eq!(
        tree.orphan_events[0].1.fields[0],
        ("v".to_owned(), Value::I64(42))
    );
}

#[test]
fn unknown_parent_event_is_not_adopted_later() {
    // An event naming parent Q before any span Q exists: it stays an
    // orphan, and a span Q arriving later does not adopt it.
    let mut tree = SpanTree::new();
    tree.on_mesage(&msg(
        5,
        MessageEnum::DataEvent(DataEvent {
            callsite_id: CallsiteId(7),
            parent_span_id: Some(SpanId(99)),
            fields: vec![],
        }),
    ));
    assert_eq!(tree.orphan_events.len(), 1);
    tree.on_mesage(&msg(6, new_span(99, None, 9)));
    let node = tree.nodes.get(&99).unwrap();
    assert!(node.events.is_empty());
    assert_eq!(tree.orphan_events.len(), 1);
}

#[test]
fn direct_versus_spawned_child() {
    // Parent P active over [0,100]. Child A with interval [10,20] is
    // direct; child B with interval [50,150] crosses P's end and is
    // spawned.
    let mut tree = SpanTree::new();
    tree.on_mesage(&msg(0, new_span(1, None, 9)));
    tree.on_mesage(&msg(0, MessageEnum::EnterSpan(SpanId(1))));
    tree.on_mesage(&msg(5, new_span(2, Some(1), 9)));
    tree.on_mesage(&msg(10, MessageEnum::EnterSpan(SpanId(2))));
    tree.on_mesage(&msg(20, MessageEnum::ExitSpan(SpanId(2))));
    tree.on_mesage(&msg(40, new_span(3, Some(1), 9)));
    tree.on_mesage(&msg(50, MessageEnum::EnterSpan(SpanId(3))));
    tree.on_mesage(&msg(100, MessageEnum::ExitSpan(SpanId(1))));
    tree.on_mesage(&msg(150, MessageEnum::ExitSpan(SpanId(3))));

    let parent = tree.nodes.get(&1).unwrap();
    let a = tree.nodes.get(&2).unwrap();
    let b = tree.nodes.get(&3).unwrap();
    assert!(a.is_direct_child_of(parent));
    assert!(!b.is_direct_child_of(parent));
    assert_eq!(tree.direct_child_of(parent), Some(SpanId(2)));
    assert_eq!(parent.children, vec![SpanId(2), SpanId(3)]);
}

#[test]
fn two_direct_children_means_none_is_the_chain() {
    let mut tree = SpanTree::new();
    tree.on_mesage(&msg(0, new_span(1, None, 9)));
    tree.on_mesage(&msg(0, MessageEnum::EnterSpan(SpanId(1))));
    tree.on_mesage(&msg(1, new_span(2, Some(1), 9)));
    tree.on_mesage(&msg(2, new_span(3, Some(1), 9)));
    // Neither child has intervals, so both are (vacuously) direct.
    let parent = tree.nodes.get(&1).unwrap();
    assert_eq!(tree.direct_child_of(parent), None);
}

#[test]
fn exit_without_enter_records_dangling_interval() {
    let mut tree = SpanTree::new();
    tree.on_mesage(&msg(0, new_span(1, None, 9)));
    tree.on_mesage(&msg(10, MessageEnum::ExitSpan(SpanId(1))));
    let node = tree.nodes.get(&1).unwrap();
    assert_eq!(
        node.intervals,
        vec![TimeInterval {
            min: None,
            max: Some(Time(10)),
        }]
    );
}

#[test]
fn duplicate_callsite_is_ignored() {
    let mut tree = SpanTree::new();
    tree.on_mesage(&msg(
        0,
        MessageEnum::NewCallsite(callsite(7, CallsiteKind::Event, "first")),
    ));
    tree.on_mesage(&msg(
        1,
        MessageEnum::NewCallsite(callsite(7, CallsiteKind::Event, "second")),
    ));
    assert_eq!(tree.callsites.get(&7).unwrap().name, "first");
}

#[test]
fn follows_edge_is_set_once() {
    let mut tree = SpanTree::new();
    tree.on_mesage(&msg(0, new_span(1, None, 9)));
    tree.on_mesage(&msg(
        1,
        MessageEnum::SpanFollowsFrom {
            span: SpanId(1),
            follows: SpanId(5),
        },
    ));
    tree.on_mesage(&msg(
        2,
        MessageEnum::SpanFollowsFrom {
            span: SpanId(1),
            follows: SpanId(6),
        },
    ));
    assert_eq!(tree.nodes.get(&1).unwrap().follows, Some(SpanId(5)));
}

#[test]
fn intervals_stay_monotone_under_monotone_times() {
    // Feeding messages with non-decreasing log times keeps each node's
    // intervals closed, ordered and non-overlapping.
    let mut tree = SpanTree::new();
    tree.on_mesage(&msg(0, new_span(1, None, 9)));
    for k in 0..5i64 {
        tree.on_mesage(&msg(10 * k + 1, MessageEnum::EnterSpan(SpanId(1))));
        tree.on_mesage(&msg(10 * k + 5, MessageEnum::ExitSpan(SpanId(1))));
    }
    let node = tree.nodes.get(&1).unwrap();
    assert_eq!(node.intervals.len(), 5);
    for w in node.intervals.windows(2) {
        let (a, b) = (&w[0], &w[1]);
        assert!(a.min.unwrap().0 <= a.max.unwrap().0);
        assert!(a.max.unwrap().0 <= b.min.unwrap().0);
    }
}

#[test]
fn mutual_direct_children_share_their_active_times() {
    // Two spans with a single closed interval each, mutual direct
    // children: they are active at exactly the same times.
    let mut tree = SpanTree::new();
    tree.on_mesage(&msg(0, new_span(1, None, 9)));
    tree.on_mesage(&msg(0, MessageEnum::EnterSpan(SpanId(1))));
    tree.on_mesage(&msg(1, new_span(2, Some(1), 9)));
    tree.on_mesage(&msg(0, MessageEnum::EnterSpan(SpanId(2))));
    tree.on_mesage(&msg(30, MessageEnum::ExitSpan(SpanId(2))));
    tree.on_mesage(&msg(30, MessageEnum::ExitSpan(SpanId(1))));
    let a = tree.nodes.get(&1).unwrap();
    let b = tree.nodes.get(&2).unwrap();
    assert!(a.is_direct_child_of(b));
    assert!(b.is_direct_child_of(a));
    for t in [-1i64, 0, 1, 15, 30, 31] {
        assert_eq!(a.is_active_at(Time(t)), b.is_active_at(Time(t)));
    }
}

#[test]
fn ns_range_of_empty_index_is_undefined() {
    let tree = SpanTree::new();
    assert_eq!(tree.ns_range(), None);
}

#[test]
fn reused_span_id_replaces_the_node() {
    let mut tree = SpanTree::new();
    tree.on_mesage(&msg(0, new_span(1, None, 9)));
    tree.on_mesage(&msg(5, new_span(1, None, 8)));
    let node = tree.nodes.get(&1).unwrap();
    assert_eq!(node.lifetime.min, Some(Time(5)));
    assert_eq!(node.span.callsite_id, CallsiteId(8));
    // The id is listed once among roots and ids.
    assert_eq!(tree.roots, vec![SpanId(1)]);
    assert_eq!(tree.ids, vec![SpanId(1)]);
}
