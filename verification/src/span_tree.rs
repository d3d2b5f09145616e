//! The per-topic trace index.
//!
//! It consumes decoded [`Message`]s in arrival order and maintains the
//! callsite, span, interval, follows-from and event tables that the span
//! tree and flame-graph views read.

use vstd::prelude::*;

use crate::data::{Callsite, CallsiteV, DataEvent, DataEventV, Message, MessageEnum, MessageEnumV,
    MessageV, SpanId, SpanV, Time};
use std::collections::HashMap;

verus! {

broadcast use vstd::std_specs::hash::group_hash_axioms;

/// A contiguous period; either end may be unknown.
#[derive(Clone, Copy, Debug, PartialEq, Eq, Structural)]
pub struct TimeInterval {
    pub min: Option<Time>,
    pub max: Option<Time>,
}

impl TimeInterval {
    /// True when the interval contains `time`: not before a known start
    /// and not after a known end.
    pub open spec fn spec_active_at(self, time: Time) -> bool {
        &&& (self.min matches Some(lo) ==> lo.0 <= time.0)
        &&& (self.max matches Some(hi) ==> time.0 <= hi.0)
    }

    pub fn is_active_at(&self, time: Time) -> (r: bool)
        ensures
            r == self.spec_active_at(time),
    {
        if let Some(lo) = self.min {
            if time.0 < lo.0 {
                return false;
            }
        }
        if let Some(hi) = self.max {
            if hi.0 < time.0 {
                return false;
            }
        }
        true
    }
}

/// The view maps, named so that every use denotes one function value.
pub open spec fn vf_callsite() -> spec_fn(Callsite) -> CallsiteV {
    |c: Callsite| c@
}

pub open spec fn vf_tev() -> spec_fn((Time, DataEvent)) -> (Time, DataEventV) {
    |e: (Time, DataEvent)| (e.0, e.1@)
}

/// A span and everything observed about it.
#[derive(Debug)]
pub struct SpanNode {
    pub span: crate::data::Span,
    /// The span this one was declared to follow, if any.
    pub follows: Option<SpanId>,
    /// From creation to destruction.
    pub lifetime: TimeInterval,
    /// Periods when the span was entered (active), in arrival order.
    pub intervals: Vec<TimeInterval>,
    /// Ids of spans created with this one as parent, in arrival order.
    pub children: Vec<SpanId>,
    /// Events logged inside this span, in arrival order.
    pub events: Vec<(Time, DataEvent)>,
}

/// Model of a [`SpanNode`].
#[verifier::ext_equal]
pub ghost struct SpanNodeV {
    pub span: SpanV,
    pub follows: Option<SpanId>,
    pub lifetime: TimeInterval,
    pub intervals: Seq<TimeInterval>,
    pub children: Seq<SpanId>,
    pub events: Seq<(Time, DataEventV)>,
}

impl View for SpanNode {
    type V = SpanNodeV;

    open spec fn view(&self) -> SpanNodeV {
        SpanNodeV {
            span: self.span@,
            follows: self.follows,
            lifetime: self.lifetime,
            intervals: self.intervals@,
            children: self.children@,
            events: self.events@.map_values(vf_tev()),
        }
    }
}

impl SpanNodeV {
    /// True when some activation interval of the node contains `time`.
    pub open spec fn active_at(self, time: Time) -> bool {
        exists|k: int| 0 <= k < self.intervals.len() && self.intervals[k].spec_active_at(time)
    }

    /// True when the parent is active at every known endpoint of every
    /// interval of this node: the child never crosses the parent's
    /// suspension boundaries.
    pub open spec fn direct_child_of(self, parent: SpanNodeV) -> bool {
        forall|k: int|
            0 <= k < self.intervals.len() ==> {
                &&& ((#[trigger] self.intervals[k]).min matches Some(lo) ==> parent.active_at(lo))
                &&& (self.intervals[k].max matches Some(hi) ==> parent.active_at(hi))
            }
    }
}

pub open spec fn vf_node() -> spec_fn(SpanNode) -> SpanNodeV {
    |n: SpanNode| n@
}

/// Running index of the spans and events of one topic.
pub struct SpanTree {
    pub callsites: HashMap<u64, Callsite>,
    pub nodes: HashMap<u64, SpanNode>,
    /// Keys of `nodes` in insertion order.
    pub ids: Vec<SpanId>,
    /// Spans created with no parent, in insertion order.
    pub roots: Vec<SpanId>,
    /// Events whose parent span was unset or unknown, in arrival order.
    pub orphan_events: Vec<(Time, DataEvent)>,
}

/// Model of a [`SpanTree`].
#[verifier::ext_equal]
pub ghost struct SpanTreeV {
    pub callsites: Map<u64, CallsiteV>,
    pub nodes: Map<u64, SpanNodeV>,
    pub ids: Seq<SpanId>,
    pub roots: Seq<SpanId>,
    pub orphan_events: Seq<(Time, DataEventV)>,
}

impl View for SpanTree {
    type V = SpanTreeV;

    open spec fn view(&self) -> SpanTreeV {
        SpanTreeV {
            callsites: self.callsites@.map_values(vf_callsite()),
            nodes: self.nodes@.map_values(vf_node()),
            ids: self.ids@,
            roots: self.roots@,
            orphan_events: self.orphan_events@.map_values(vf_tev()),
        }
    }
}

impl SpanTreeV {
    pub open spec fn empty() -> SpanTreeV {
        SpanTreeV {
            callsites: Map::empty(),
            nodes: Map::empty(),
            ids: Seq::empty(),
            roots: Seq::empty(),
            orphan_events: Seq::empty(),
        }
    }

    /// What one message does to the index. `t` is the message's log time.
    ///
    /// Duplicate callsites are ignored; a reused span id replaces the
    /// node; entering an unknown span is ignored; exiting a span that is
    /// not entered records a dangling interval; a follows edge is set
    /// only once; an event without a known parent is kept as an orphan.
    pub open spec fn step(self, m: MessageV) -> SpanTreeV {
        let t = m.log_time;
        match m.msg_enum {
            MessageEnumV::NewCallsite(c) => {
                if self.callsites.dom().contains(c.id.0) {
                    self
                } else {
                    SpanTreeV { callsites: self.callsites.insert(c.id.0, c), ..self }
                }
            },
            MessageEnumV::NewSpan(sp) => self.step_new_span(sp, t),
            MessageEnumV::EnterSpan(id) => {
                if self.nodes.dom().contains(id.0) {
                    let node = self.nodes[id.0];
                    let node2 = SpanNodeV {
                        intervals: node.intervals.push(
                            TimeInterval { min: Some(t), max: None },
                        ),
                        ..node
                    };
                    SpanTreeV { nodes: self.nodes.insert(id.0, node2), ..self }
                } else {
                    self
                }
            },
            MessageEnumV::ExitSpan(id) => {
                if self.nodes.dom().contains(id.0) {
                    let node = self.nodes[id.0];
                    let n = node.intervals.len();
                    let node2 = if n > 0 && node.intervals[n - 1].max is None {
                        SpanNodeV {
                            intervals: node.intervals.update(
                                n - 1,
                                TimeInterval { min: node.intervals[n - 1].min, max: Some(t) },
                            ),
                            ..node
                        }
                    } else {
                        SpanNodeV {
                            intervals: node.intervals.push(
                                TimeInterval { min: None, max: Some(t) },
                            ),
                            ..node
                        }
                    };
                    SpanTreeV { nodes: self.nodes.insert(id.0, node2), ..self }
                } else {
                    self
                }
            },
            MessageEnumV::DestroySpan(id) => {
                if self.nodes.dom().contains(id.0) {
                    let node = self.nodes[id.0];
                    let node2 = SpanNodeV {
                        lifetime: TimeInterval { min: node.lifetime.min, max: Some(t) },
                        ..node
                    };
                    SpanTreeV { nodes: self.nodes.insert(id.0, node2), ..self }
                } else {
                    self
                }
            },
            MessageEnumV::SpanFollowsFrom { span, follows } => {
                if self.nodes.dom().contains(span.0) && self.nodes[span.0].follows is None {
                    let node = self.nodes[span.0];
                    let node2 = SpanNodeV { follows: Some(follows), ..node };
                    SpanTreeV { nodes: self.nodes.insert(span.0, node2), ..self }
                } else {
                    self
                }
            },
            MessageEnumV::DataEvent(e) => match e.parent_span_id {
                Some(p) => if self.nodes.dom().contains(p.0) {
                    let node = self.nodes[p.0];
                    let node2 = SpanNodeV { events: node.events.push((t, e)), ..node };
                    SpanTreeV { nodes: self.nodes.insert(p.0, node2), ..self }
                } else {
                    SpanTreeV { orphan_events: self.orphan_events.push((t, e)), ..self }
                },
                None => SpanTreeV { orphan_events: self.orphan_events.push((t, e)), ..self },
            },
        }
    }

    pub open spec fn step_new_span(self, sp: SpanV, t: Time) -> SpanTreeV {
        let node = SpanNodeV {
            span: sp,
            follows: None,
            lifetime: TimeInterval { min: Some(t), max: None },
            intervals: Seq::empty(),
            children: Seq::empty(),
            events: Seq::empty(),
        };
        let ids2 = if self.nodes.dom().contains(sp.id.0) {
            self.ids
        } else {
            self.ids.push(sp.id)
        };
        let nodes2 = self.nodes.insert(sp.id.0, node);
        match sp.parent_span_id {
            Some(p) => {
                if nodes2.dom().contains(p.0) {
                    let parent = nodes2[p.0];
                    let parent2 = if parent.children.contains(sp.id) {
                        parent
                    } else {
                        SpanNodeV { children: parent.children.push(sp.id), ..parent }
                    };
                    SpanTreeV { nodes: nodes2.insert(p.0, parent2), ids: ids2, ..self }
                } else {
                    SpanTreeV { nodes: nodes2, ids: ids2, ..self }
                }
            },
            None => {
                let roots2 = if self.roots.contains(sp.id) {
                    self.roots
                } else {
                    self.roots.push(sp.id)
                };
                SpanTreeV { nodes: nodes2, ids: ids2, roots: roots2, ..self }
            },
        }
    }
}

impl SpanTree {
    /// An index with no topics observed yet.
    pub fn new() -> (r: SpanTree)
        ensures
            r@ == SpanTreeV::empty(),
    {
        let r = SpanTree {
            callsites: HashMap::new(),
            nodes: HashMap::new(),
            ids: Vec::new(),
            roots: Vec::new(),
            orphan_events: Vec::new(),
        };
        proof {
            assert(r@.callsites =~= Map::<u64, CallsiteV>::empty());
            assert(r@.nodes =~= Map::<u64, SpanNodeV>::empty());
            assert(r@.orphan_events =~= Seq::<(Time, DataEventV)>::empty());
            assert(r@ =~= SpanTreeV::empty());
        }
        r
    }

    /// Feeds one decoded message into the index.
    pub fn on_mesage(&mut self, message: &Message)
        ensures
            final(self)@ == old(self)@.step(message@),
    {
        let t = message.log_time;
        match &message.msg_enum {
            MessageEnum::NewCallsite(callsite) => {
                if !self.callsites.contains_key(&callsite.id.0) {
                    let ghost pre = self.callsites@;
                    self.callsites.insert(callsite.id.0, callsite.clone());
                    proof {
                        assert(self.callsites@.map_values(vf_callsite()) =~~= pre.map_values(vf_callsite()).insert(callsite.id.0, callsite@));
                        assert(self@ =~~= old(self)@.step(message@));
                    }
                } else {
                    proof {
                        assert(self@ =~~= old(self)@.step(message@));
                    }
                }
            },
            MessageEnum::NewSpan(span) => {
                let node = SpanNode {
                    span: span.clone(),
                    follows: None,
                    lifetime: TimeInterval { min: Some(t), max: None },
                    intervals: Vec::new(),
                    children: Vec::new(),
                    events: Vec::new(),
                };
                proof {
                    assert(node@.intervals =~= Seq::<TimeInterval>::empty());
                    assert(node@.children =~= Seq::<SpanId>::empty());
                    assert(node@.events =~= Seq::<(Time, DataEventV)>::empty());
                }
                if !self.nodes.contains_key(&span.id.0) {
                    self.ids.push(span.id);
                }
                let ghost nodes_pre = self.nodes@;
                self.nodes.insert(span.id.0, node);
                proof {
                    assert(self.nodes@.map_values(vf_node()) =~~= nodes_pre.map_values(vf_node()).insert(span.id.0, SpanNodeV {
                        span: span@,
                        follows: None,
                        lifetime: TimeInterval { min: Some(t), max: None },
                        intervals: Seq::empty(),
                        children: Seq::empty(),
                        events: Seq::empty(),
                    }));
                }
                match &span.parent_span_id {
                    Some(parent_span_id) => {
                        let ghost nodes_mid = self.nodes@;
                        if let Some(mut parent_node) = self.nodes.remove(&parent_span_id.0) {
                            let ghost parent_v = parent_node@;
                            if !contains_id(&parent_node.children, span.id) {
                                parent_node.children.push(span.id);
                            }
                            self.nodes.insert(parent_span_id.0, parent_node);
                            proof {
                                assert(self.nodes@ =~= nodes_mid.insert(
                                    parent_span_id.0,
                                    self.nodes@[parent_span_id.0],
                                ));
                                assert(self.nodes@.map_values(vf_node())
                                    =~~= nodes_mid.map_values(vf_node()).insert(
                                    parent_span_id.0,
                                    if parent_v.children.contains(span.id) {
                                        parent_v
                                    } else {
                                        SpanNodeV {
                                            children: parent_v.children.push(span.id),
                                            ..parent_v
                                        }
                                    },
                                ));
                                assert(self@ =~~= old(self)@.step(message@));
                            }
                        } else {
                            proof {
                                assert(self@ =~~= old(self)@.step(message@));
                            }
                        }
                    },
                    None => {
                        if !contains_id(&self.roots, span.id) {
                            self.roots.push(span.id);
                        }
                        proof {
                            assert(self@ =~~= old(self)@.step(message@));
                        }
                    },
                }
            },
            MessageEnum::EnterSpan(span_id) => {
                let ghost nodes_pre = self.nodes@;
                if let Some(mut node) = self.nodes.remove(&span_id.0) {
                    let ghost node_v = node@;
                    node.intervals.push(TimeInterval { min: Some(t), max: None });
                    self.nodes.insert(span_id.0, node);
                    proof {
                        assert(self.nodes@.map_values(vf_node()) =~~= nodes_pre.map_values(vf_node()).insert(span_id.0, SpanNodeV {
                            intervals: node_v.intervals.push(
                                TimeInterval { min: Some(t), max: None },
                            ),
                            ..node_v
                        }));
                        assert(self@ =~~= old(self)@.step(message@));
                    }
                } else {
                    proof {
                        assert(self@ =~~= old(self)@.step(message@));
                    }
                }
            },
            MessageEnum::ExitSpan(span_id) => {
                let ghost nodes_pre = self.nodes@;
                if let Some(mut node) = self.nodes.remove(&span_id.0) {
                    let ghost node_v = node@;
                    let n = node.intervals.len();
                    let open_end = if n > 0 {
                        node.intervals[n - 1].max.is_none()
                    } else {
                        false
                    };
                    if open_end {
                        let last_min = node.intervals[n - 1].min;
                        node.intervals.set(n - 1, TimeInterval { min: last_min, max: Some(t) });
                    } else {
                        node.intervals.push(TimeInterval { min: None, max: Some(t) });
                    }
                    self.nodes.insert(span_id.0, node);
                    proof {
                        let node2 = if node_v.intervals.len() > 0 && node_v.intervals[node_v.intervals.len()
                            - 1].max is None {
                            SpanNodeV {
                                intervals: node_v.intervals.update(
                                    node_v.intervals.len() - 1,
                                    TimeInterval {
                                        min: node_v.intervals[node_v.intervals.len() - 1].min,
                                        max: Some(t),
                                    },
                                ),
                                ..node_v
                            }
                        } else {
                            SpanNodeV {
                                intervals: node_v.intervals.push(
                                    TimeInterval { min: None, max: Some(t) },
                                ),
                                ..node_v
                            }
                        };
                        assert(self.nodes@.map_values(vf_node()) =~~= nodes_pre.map_values(vf_node()).insert(span_id.0, node2));
                        assert(self@ =~~= old(self)@.step(message@));
                    }
                } else {
                    proof {
                        assert(self@ =~~= old(self)@.step(message@));
                    }
                }
            },
            MessageEnum::DestroySpan(span_id) => {
                let ghost nodes_pre = self.nodes@;
                if let Some(mut node) = self.nodes.remove(&span_id.0) {
                    let ghost node_v = node@;
                    node.lifetime = TimeInterval { min: node.lifetime.min, max: Some(t) };
                    self.nodes.insert(span_id.0, node);
                    proof {
                        assert(self.nodes@.map_values(vf_node()) =~~= nodes_pre.map_values(vf_node()).insert(span_id.0, SpanNodeV {
                            lifetime: TimeInterval { min: node_v.lifetime.min, max: Some(t) },
                            ..node_v
                        }));
                        assert(self@ =~~= old(self)@.step(message@));
                    }
                } else {
                    proof {
                        assert(self@ =~~= old(self)@.step(message@));
                    }
                }
            },
            MessageEnum::SpanFollowsFrom { span, follows } => {
                let ghost nodes_pre = self.nodes@;
                if let Some(mut node) = self.nodes.remove(&span.0) {
                    let ghost node_v = node@;
                    let was_none = node.follows.is_none();
                    if was_none {
                        node.follows = Some(*follows);
                    }
                    self.nodes.insert(span.0, node);
                    proof {
                        if node_v.follows is None {
                            assert(self.nodes@.map_values(vf_node())
                                =~~= nodes_pre.map_values(vf_node()).insert(
                                span.0,
                                SpanNodeV { follows: Some(*follows), ..node_v },
                            ));
                        } else {
                            assert(self.nodes@.map_values(vf_node())
                                =~~= nodes_pre.map_values(vf_node()));
                        }
                        assert(self@ =~~= old(self)@.step(message@));
                    }
                } else {
                    proof {
                        assert(self@ =~~= old(self)@.step(message@));
                    }
                }
            },
            MessageEnum::DataEvent(event) => {
                let mut adopted = false;
                if let Some(span_id) = &event.parent_span_id {
                    let ghost nodes_pre = self.nodes@;
                    if let Some(mut node) = self.nodes.remove(&span_id.0) {
                        let ghost node_v = node@;
                        node.events.push((t, event.clone()));
                        self.nodes.insert(span_id.0, node);
                        adopted = true;
                        proof {
                            assert(node_v.events.push((t, event@)) =~~= self.nodes@[span_id.0]@.events);
                            assert(self.nodes@.map_values(vf_node())
                                =~~= nodes_pre.map_values(vf_node()).insert(
                                span_id.0,
                                SpanNodeV { events: node_v.events.push((t, event@)), ..node_v },
                            ));
                        }
                    }
                }
                if !adopted {
                    let ghost orphans_pre = self.orphan_events@;
                    self.orphan_events.push((t, event.clone()));
                    proof {
                        assert(self.orphan_events@.map_values(vf_tev())
                            =~~= orphans_pre.map_values(vf_tev()).push(
                            (t, event@),
                        ));
                    }
                }
                proof {
                    assert(self@ =~~= old(self)@.step(message@));
                }
            },
        }
    }
}

impl SpanNode {
    /// True when some activation interval of the span contains `time`.
    pub fn is_active_at(&self, time: Time) -> (r: bool)
        ensures
            r == self@.active_at(time),
    {
        let mut k: usize = 0;
        while k < self.intervals.len()
            invariant
                k <= self.intervals@.len(),
                forall|j: int| 0 <= j < k ==> !self.intervals@[j].spec_active_at(time),
            decreases self.intervals@.len() - k,
        {
            if self.intervals[k].is_active_at(time) {
                proof {
                    let w = k as int;
                    assert(0 <= w < self@.intervals.len() && self@.intervals[w].spec_active_at(
                        time,
                    ));
                }
                return true;
            }
            k = k + 1;
        }
        false
    }

    /// True when the parent is active whenever this span is: at every
    /// known endpoint of every interval of this span.
    pub fn is_direct_child_of(&self, parent: &SpanNode) -> (r: bool)
        ensures
            r == self@.direct_child_of(parent@),
    {
        let mut k: usize = 0;
        while k < self.intervals.len()
            invariant
                k <= self.intervals@.len(),
                forall|j: int|
                    0 <= j < k ==> {
                        &&& ((#[trigger] self.intervals@[j]).min matches Some(lo)
                            ==> parent@.active_at(lo))
                        &&& (self.intervals@[j].max matches Some(hi) ==> parent@.active_at(hi))
                    },
            decreases self.intervals@.len() - k,
        {
            let interval = &self.intervals[k];
            if let Some(lo) = interval.min {
                if !parent.is_active_at(lo) {
                    return false;
                }
            }
            if let Some(hi) = interval.max {
                if !parent.is_active_at(hi) {
                    return false;
                }
            }
            k = k + 1;
        }
        true
    }
}

/// Whether `id` names a node of `v` that is a direct child of `n`.
pub open spec fn is_direct_in(v: SpanTreeV, id: SpanId, n: SpanNodeV) -> bool {
    v.nodes.dom().contains(id.0) && v.nodes[id.0].direct_child_of(n)
}

/// The direct children among the first `k` children of `n`, in order.
pub open spec fn direct_children_upto(v: SpanTreeV, n: SpanNodeV, k: int) -> Seq<SpanId>
    decreases k,
{
    if k <= 0 {
        Seq::empty()
    } else {
        let pre = direct_children_upto(v, n, k - 1);
        if is_direct_in(v, n.children[k - 1], n) {
            pre.push(n.children[k - 1])
        } else {
            pre
        }
    }
}

/// The direct children of `n` in the index, in child order.
pub open spec fn direct_children(v: SpanTreeV, n: SpanNodeV) -> Seq<SpanId> {
    direct_children_upto(v, n, n.children.len() as int)
}

proof fn lemma_direct_children_mono(v: SpanTreeV, n: SpanNodeV, j: int, k: int)
    requires
        0 <= j <= k,
    ensures
        direct_children_upto(v, n, j).len() <= direct_children_upto(v, n, k).len(),
    decreases k - j,
{
    if j < k {
        lemma_direct_children_mono(v, n, j, k - 1);
    }
}

// ---------------------------------------------------------------------------
// The observed times of the index, in a fixed traversal order: for each
// node, the lifetime endpoints, then each interval's endpoints.

pub open spec fn opt_times(o: Option<Time>) -> Seq<int> {
    match o {
        None => Seq::empty(),
        Some(t) => seq![t.0 as int],
    }
}

pub open spec fn itv_times(iv: TimeInterval) -> Seq<int> {
    opt_times(iv.min) + opt_times(iv.max)
}

pub open spec fn itvs_times(ivs: Seq<TimeInterval>, k: int) -> Seq<int>
    decreases k,
{
    if k <= 0 {
        Seq::empty()
    } else {
        itvs_times(ivs, k - 1) + itv_times(ivs[k - 1])
    }
}

pub open spec fn node_times(n: SpanNodeV) -> Seq<int> {
    itv_times(n.lifetime) + itvs_times(n.intervals, n.intervals.len() as int)
}

pub open spec fn ids_times(v: SpanTreeV, k: int) -> Seq<int>
    decreases k,
{
    if k <= 0 {
        Seq::empty()
    } else {
        ids_times(v, k - 1) + (if v.nodes.dom().contains(v.ids[k - 1].0) {
            node_times(v.nodes[v.ids[k - 1].0])
        } else {
            Seq::empty()
        })
    }
}

/// Every nanosecond value the index has observed as an endpoint.
pub open spec fn all_times(v: SpanTreeV) -> Seq<int> {
    ids_times(v, v.ids.len() as int)
}

/// `lo` and `hi` are the least and greatest values of `ts`, with the
/// extreme sentinels when `ts` is empty.
pub open spec fn is_bounds(ts: Seq<int>, lo: int, hi: int) -> bool {
    &&& forall|x: int| ts.contains(x) ==> lo <= x && x <= hi
    &&& (ts.len() > 0 ==> ts.contains(lo) && ts.contains(hi))
    &&& (ts.len() == 0 ==> lo == i64::MAX && hi == i64::MIN)
}

proof fn lemma_bounds_push(ts: Seq<int>, lo: int, hi: int, x: int)
    requires
        is_bounds(ts, lo, hi),
        i64::MIN <= x <= i64::MAX,
    ensures
        is_bounds(
            ts.push(x),
            if x < lo {
                x
            } else {
                lo
            },
            if hi < x {
                x
            } else {
                hi
            },
        ),
{
    let lo2 = if x < lo {
        x
    } else {
        lo
    };
    let hi2 = if hi < x {
        x
    } else {
        hi
    };
    assert(ts.push(x).contains(x)) by {
        assert(ts.push(x)[ts.len() as int] == x);
    }
    assert forall|y: int| ts.push(x).contains(y) implies lo2 <= y && y <= hi2 by {
        let w = choose|w: int| 0 <= w < ts.push(x).len() && ts.push(x)[w] == y;
        if w < ts.len() {
            assert(ts.contains(y)) by {
                assert(ts[w] == y);
            }
        }
    }
    if ts.len() > 0 {
        assert(ts.push(x).contains(lo2)) by {
            if lo2 != x {
                let w = choose|w: int| 0 <= w < ts.len() && ts[w] == lo;
                assert(ts.push(x)[w] == lo);
            }
        }
        assert(ts.push(x).contains(hi2)) by {
            if hi2 != x {
                let w = choose|w: int| 0 <= w < ts.len() && ts[w] == hi;
                assert(ts.push(x)[w] == hi);
            }
        }
    }
}

impl SpanTree {
    /// The inclusive time range of everything observed, or `None` if no
    /// endpoint has been seen.
    pub fn ns_range(&self) -> (r: Option<(i64, i64)>)
        ensures
            match r {
                Some((lo, hi)) => {
                    &&& all_times(self@).contains(lo as int)
                    &&& all_times(self@).contains(hi as int)
                    &&& forall|x: int| all_times(self@).contains(x) ==> lo <= x && x <= hi
                },
                None => all_times(self@).len() == 0,
            },
    {
        let ghost v = self@;
        let mut lo: i64 = i64::MAX;
        let mut hi: i64 = i64::MIN;
        let ghost mut seen: Seq<int> = Seq::empty();
        let mut k: usize = 0;
        while k < self.ids.len()
            invariant
                k <= self.ids@.len(),
                v == self@,
                seen == ids_times(v, k as int),
                is_bounds(seen, lo as int, hi as int),
            decreases self.ids@.len() - k,
        {
            let id = self.ids[k];
            match self.nodes.get(&id.0) {
                Some(node) => {
                    proof {
                        assert(v.nodes.dom().contains(id.0));
                        assert(v.nodes[id.0] == node@);
                    }
                    let ghost node_seen0 = seen;
                    if let Some(t) = node.lifetime.min {
                        proof {
                            lemma_bounds_push(seen, lo as int, hi as int, t.0 as int);
                            seen = seen.push(t.0 as int);
                        }
                        if t.0 < lo {
                            lo = t.0;
                        }
                        if hi < t.0 {
                            hi = t.0;
                        }
                    }
                    proof {
                        assert(seen =~= node_seen0 + opt_times(node@.lifetime.min));
                    }
                    if let Some(t) = node.lifetime.max {
                        proof {
                            lemma_bounds_push(seen, lo as int, hi as int, t.0 as int);
                            seen = seen.push(t.0 as int);
                        }
                        if t.0 < lo {
                            lo = t.0;
                        }
                        if hi < t.0 {
                            hi = t.0;
                        }
                    }
                    proof {
                        assert(seen =~= node_seen0 + itv_times(node@.lifetime));
                    }
                    let mut j: usize = 0;
                    while j < node.intervals.len()
                        invariant
                            j <= node.intervals@.len(),
                            v == self@,
                            seen == node_seen0 + itv_times(node@.lifetime) + itvs_times(
                                node@.intervals,
                                j as int,
                            ),
                            is_bounds(seen, lo as int, hi as int),
                        decreases node.intervals@.len() - j,
                    {
                        let ghost itv_seen0 = seen;
                        let interval = &node.intervals[j];
                        if let Some(t) = interval.min {
                            proof {
                                lemma_bounds_push(seen, lo as int, hi as int, t.0 as int);
                                seen = seen.push(t.0 as int);
                            }
                            if t.0 < lo {
                                lo = t.0;
                            }
                            if hi < t.0 {
                                hi = t.0;
                            }
                        }
                        proof {
                            assert(seen =~= itv_seen0 + opt_times(node@.intervals[j as int].min));
                        }
                        if let Some(t) = interval.max {
                            proof {
                                lemma_bounds_push(seen, lo as int, hi as int, t.0 as int);
                                seen = seen.push(t.0 as int);
                            }
                            if t.0 < lo {
                                lo = t.0;
                            }
                            if hi < t.0 {
                                hi = t.0;
                            }
                        }
                        proof {
                            assert(seen =~= itv_seen0 + itv_times(node@.intervals[j as int]));
                            assert(seen =~= node_seen0 + itv_times(node@.lifetime) + itvs_times(
                                node@.intervals,
                                j + 1,
                            ));
                        }
                        j = j + 1;
                    }
                    proof {
                        assert(seen =~= node_seen0 + node_times(node@));
                        assert(seen =~= ids_times(v, k + 1));
                    }
                },
                None => {
                    proof {
                        assert(!v.nodes.dom().contains(id.0));
                        assert(seen + Seq::<int>::empty() =~= seen);
                        assert(seen =~= ids_times(v, k + 1));
                    }
                },
            }
            k = k + 1;
        }
        if lo <= hi {
            proof {
                assert(all_times(v).len() > 0) by {
                    if all_times(v).len() == 0 {
                        assert(lo == i64::MAX && hi == i64::MIN);
                    }
                }
            }
            Some((lo, hi))
        } else {
            proof {
                if all_times(v).len() > 0 {
                    assert(all_times(v).contains(lo as int));
                }
            }
            None
        }
    }

    /// The lone direct child of `node`, if it has exactly one.
    ///
    /// Children missing from the index are skipped. With no direct child,
    /// or more than one, the answer is `None`.
    pub fn direct_child_of(&self, node: &SpanNode) -> (r: Option<SpanId>)
        ensures
            match r {
                Some(id) => direct_children(self@, node@).len() == 1 && direct_children(
                    self@,
                    node@,
                )[0] == id,
                None => direct_children(self@, node@).len() != 1,
            },
    {
        let ghost v = self@;
        let mut found: Option<SpanId> = None;
        let mut k: usize = 0;
        while k < node.children.len()
            invariant
                k <= node.children@.len(),
                v == self@,
                match found {
                    None => direct_children_upto(v, node@, k as int) =~= Seq::<SpanId>::empty(),
                    Some(id) => direct_children_upto(v, node@, k as int) =~= seq![id],
                },
            decreases node.children@.len() - k,
        {
            let child_id = node.children[k];
            let is_direct = match self.nodes.get(&child_id.0) {
                Some(child) => child.is_direct_child_of(node),
                None => false,
            };
            proof {
                assert(is_direct == is_direct_in(v, child_id, node@));
            }
            if is_direct {
                match found {
                    Some(_) => {
                        proof {
                            assert(direct_children_upto(v, node@, k + 1).len() == 2);
                            lemma_direct_children_mono(
                                v,
                                node@,
                                k + 1,
                                node@.children.len() as int,
                            );
                        }
                        return None;
                    },
                    None => {
                        found = Some(child_id);
                    },
                }
            }
            k = k + 1;
        }
        found
    }
}

// ---------------------------------------------------------------------------
// Laws of the index.

/// A fully observed interval does not end before it starts.
pub open spec fn itv_closed_wf(iv: TimeInterval) -> bool {
    (iv.min matches Some(lo)) && (iv.max matches Some(hi)) ==> iv.min.unwrap().0
        <= iv.max.unwrap().0
}

/// Every known endpoint of `iv` is at most `hi`.
pub open spec fn itv_le(iv: TimeInterval, hi: int) -> bool {
    &&& (iv.min matches Some(t) ==> t.0 <= hi)
    &&& (iv.max matches Some(t) ==> t.0 <= hi)
}

/// The intervals of `n` are well formed with high-water mark `hi`: each
/// closed interval has `min <= max`, no endpoint exceeds `hi`, and in
/// insertion order a later interval never starts before an earlier one
/// ended — they are non-overlapping and time-monotone.
/// The earlier interval ends (if its end is known) no later than the
/// later one starts (if its start is known).
pub open spec fn itv_ordered(x: TimeInterval, y: TimeInterval) -> bool {
    match (x.max, y.min) {
        (Some(a), Some(b)) => a.0 <= b.0,
        _ => true,
    }
}

pub open spec fn node_wf(n: SpanNodeV, hi: int) -> bool {
    &&& forall|k: int|
        0 <= k < n.intervals.len() ==> itv_closed_wf(#[trigger] n.intervals[k]) && itv_le(
            n.intervals[k],
            hi,
        )
    &&& forall|j: int, k: int|
        0 <= j < k < n.intervals.len() ==> itv_ordered(
            #[trigger] n.intervals[j],
            #[trigger] n.intervals[k],
        )
}

/// Every node of the index is well formed with high-water mark `hi`.
pub open spec fn index_wf(v: SpanTreeV, hi: int) -> bool {
    forall|u: u64| v.nodes.dom().contains(u) ==> node_wf(#[trigger] v.nodes[u], hi)
}

/// An empty index is well formed at any mark.
pub proof fn lemma_index_wf_empty(hi: int)
    ensures
        index_wf(SpanTreeV::empty(), hi),
{
}

/// Index monotonicity: feeding a message whose log time is no older than
/// every endpoint already recorded keeps every node well formed — for
/// any node with at least one closed interval, `min <= max` holds and
/// the intervals are non-overlapping and time-monotone in insertion
/// order. Over a stream of non-decreasing log times this holds of every
/// state the index passes through.
pub proof fn lemma_index_monotonicity(v: SpanTreeV, hi: int, m: MessageV)
    requires
        index_wf(v, hi),
        hi <= m.log_time.0 as int,
    ensures
        index_wf(v.step(m), m.log_time.0 as int),
{
    let t = m.log_time;
    let v2 = v.step(m);
    match m.msg_enum {
        MessageEnumV::NewCallsite(_) => {},
        MessageEnumV::NewSpan(sp) => {
            assert forall|u: u64| v2.nodes.dom().contains(u) implies node_wf(
                #[trigger] v2.nodes[u],
                t.0 as int,
            ) by {
                if u != sp.id.0 && v.nodes.dom().contains(u) && v2.nodes[u] != v.nodes[u] {
                    assert(v2.nodes[u].intervals == v.nodes[u].intervals);
                }
            }
        },
        MessageEnumV::EnterSpan(id) => {
            if v.nodes.dom().contains(id.0) {
                let node = v.nodes[id.0];
                let node2 = v2.nodes[id.0];
                assert(node_wf(node2, t.0 as int)) by {
                    let n = node.intervals.len() as int;
                    assert forall|k: int|
                        0 <= k < node2.intervals.len() implies itv_closed_wf(
                        #[trigger] node2.intervals[k],
                    ) && itv_le(node2.intervals[k], t.0 as int) by {
                        if k < n {
                            assert(node2.intervals[k] == node.intervals[k]);
                        }
                    }
                    assert forall|j: int, k: int|
                        0 <= j < k < node2.intervals.len() implies itv_ordered(
                        #[trigger] node2.intervals[j],
                        #[trigger] node2.intervals[k],
                    ) by {
                        assert(node2.intervals[j] == node.intervals[j]);
                        if k < n {
                            assert(node2.intervals[k] == node.intervals[k]);
                            assert(itv_ordered(node.intervals[j], node.intervals[k]));
                        } else {
                            assert(itv_le(node.intervals[j], hi));
                            assert(node2.intervals[k] == TimeInterval { min: Some(t), max: None });
                        }
                    }
                }
            }
        },
        MessageEnumV::ExitSpan(id) => {
            if v.nodes.dom().contains(id.0) {
                let node = v.nodes[id.0];
                let node2 = v2.nodes[id.0];
                let n = node.intervals.len() as int;
                let open_end = n > 0 && node.intervals[n - 1].max is None;
                assert(node_wf(node2, t.0 as int)) by {
                    assert forall|k: int|
                        0 <= k < node2.intervals.len() implies itv_closed_wf(
                        #[trigger] node2.intervals[k],
                    ) && itv_le(node2.intervals[k], t.0 as int) by {
                        if k < n {
                            assert(itv_closed_wf(node.intervals[k]) && itv_le(
                                node.intervals[k],
                                hi,
                            ));
                        }
                        if open_end && k == n - 1 {
                            assert(node2.intervals[k].min == node.intervals[k].min);
                            assert(node2.intervals[k].max == Some(t));
                        } else if k < n {
                            assert(node2.intervals[k] == node.intervals[k]);
                        } else {
                            assert(node2.intervals[k] == TimeInterval { min: None, max: Some(t) });
                        }
                    }
                    assert forall|j: int, k: int|
                        0 <= j < k < node2.intervals.len() implies itv_ordered(
                        #[trigger] node2.intervals[j],
                        #[trigger] node2.intervals[k],
                    ) by {
                        assert(node2.intervals[j] == node.intervals[j]);
                        if k < n {
                            assert(itv_ordered(node.intervals[j], node.intervals[k]));
                            if open_end && k == n - 1 {
                                assert(node2.intervals[k].min == node.intervals[k].min);
                            } else {
                                assert(node2.intervals[k] == node.intervals[k]);
                            }
                        } else {
                            assert(node2.intervals[k] == TimeInterval { min: None, max: Some(t) });
                        }
                    }
                }
            }
        },
        MessageEnumV::DestroySpan(id) => {
            if v.nodes.dom().contains(id.0) {
                assert(v2.nodes[id.0].intervals == v.nodes[id.0].intervals);
            }
        },
        MessageEnumV::SpanFollowsFrom { span, follows } => {
            if v.nodes.dom().contains(span.0) && v.nodes[span.0].follows is None {
                assert(v2.nodes[span.0].intervals == v.nodes[span.0].intervals);
            }
        },
        MessageEnumV::DataEvent(e) => {
            match e.parent_span_id {
                Some(p) => {
                    if v.nodes.dom().contains(p.0) {
                        assert(v2.nodes[p.0].intervals == v.nodes[p.0].intervals);
                    }
                },
                None => {},
            }
        },
    }
}

/// Direct-child antisymmetry, for spans whose activation is a single
/// fully observed interval: if each is a direct child of the other, they
/// are active at exactly the same times. (With several intervals the
/// endpoint test cannot see a gap in one span that the other covers, so
/// two such spans can be mutual direct children with different active
/// sets; the law is stated where the endpoint test is exact.)
pub proof fn lemma_direct_child_antisymmetry(a: SpanNodeV, b: SpanNodeV)
    requires
        a.direct_child_of(b),
        b.direct_child_of(a),
        a.intervals.len() == 1,
        b.intervals.len() == 1,
        a.intervals[0].min is Some,
        a.intervals[0].max is Some,
        b.intervals[0].min is Some,
        b.intervals[0].max is Some,
    ensures
        forall|t: Time| a.active_at(t) == b.active_at(t),
{
    let la = a.intervals[0].min.unwrap();
    let ha = a.intervals[0].max.unwrap();
    let lb = b.intervals[0].min.unwrap();
    let hb = b.intervals[0].max.unwrap();
    assert(b.active_at(la) && b.active_at(ha));
    assert(a.active_at(lb) && a.active_at(hb));
    assert(b.intervals[0].spec_active_at(la)) by {
        let w = choose|w: int| 0 <= w < b.intervals.len() && b.intervals[w].spec_active_at(la);
    }
    assert(b.intervals[0].spec_active_at(ha)) by {
        let w = choose|w: int| 0 <= w < b.intervals.len() && b.intervals[w].spec_active_at(ha);
    }
    assert(a.intervals[0].spec_active_at(lb)) by {
        let w = choose|w: int| 0 <= w < a.intervals.len() && a.intervals[w].spec_active_at(lb);
    }
    assert(a.intervals[0].spec_active_at(hb)) by {
        let w = choose|w: int| 0 <= w < a.intervals.len() && a.intervals[w].spec_active_at(hb);
    }
    assert(la.0 == lb.0 && ha.0 == hb.0);
    assert forall|t: Time| a.active_at(t) == b.active_at(t) by {
        if a.active_at(t) {
            assert(a.intervals[0].spec_active_at(t)) by {
                let w = choose|w: int|
                    0 <= w < a.intervals.len() && a.intervals[w].spec_active_at(t);
            }
            assert(b.intervals[0].spec_active_at(t));
        }
        if b.active_at(t) {
            assert(b.intervals[0].spec_active_at(t)) by {
                let w = choose|w: int|
                    0 <= w < b.intervals.len() && b.intervals[w].spec_active_at(t);
            }
            assert(a.intervals[0].spec_active_at(t));
        }
    }
}

/// True when `ids` holds `id`.
fn contains_id(ids: &Vec<SpanId>, id: SpanId) -> (r: bool)
    ensures
        r == ids@.contains(id),
{
    let mut k: usize = 0;
    while k < ids.len()
        invariant
            k <= ids@.len(),
            forall|j: int| 0 <= j < k ==> ids@[j] != id,
        decreases ids@.len() - k,
    {
        if ids[k].0 == id.0 {
            return true;
        }
        k = k + 1;
    }
    false
}

} // verus!
