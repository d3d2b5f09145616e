//! The pub/sub broker core.
//!
//! The broker keeps the set of known topics with their backlogs and
//! routes frames: a topic announcement is broadcast to everyone, a topic
//! message is appended to its backlog and broadcast, a subscription
//! replays the backlog to the requesting client, and a topic listing is
//! answered to that client alone. The transport loop around this core
//! performs the replies and the broadcast fan-out.

use vstd::prelude::*;

use crate::data::{PubSubMsg, PubSubMsgV, TopicId, TopicMeta, TopicMetaV, clone_vec_u8};
use std::collections::HashMap;

verus! {

broadcast use vstd::std_specs::hash::group_hash_axioms;

/// One topic as the broker holds it: its metadata and the encoded
/// frames published on it so far, in publication order.
pub struct TopicState {
    pub meta: TopicMeta,
    pub backlog: Vec<Vec<u8>>,
}

/// Model of a [`TopicState`].
#[verifier::ext_equal]
pub ghost struct TopicStateV {
    pub meta: TopicMetaV,
    pub backlog: Seq<Seq<u8>>,
}

pub open spec fn vf_topic() -> spec_fn(TopicState) -> TopicStateV {
    |s: TopicState| TopicStateV { meta: s.meta@, backlog: s.backlog@.map_values(vf_bytes()) }
}

pub open spec fn vf_bytes() -> spec_fn(Vec<u8>) -> Seq<u8> {
    |b: Vec<u8>| b@
}

impl View for TopicState {
    type V = TopicStateV;

    open spec fn view(&self) -> TopicStateV {
        vf_topic()(*self)
    }
}

/// The broker's shared state.
pub struct Broker {
    pub topics: HashMap<u128, TopicState>,
    /// Topic ids in creation order.
    pub order: Vec<TopicId>,
}

/// Model of a [`Broker`].
#[verifier::ext_equal]
pub ghost struct BrokerV {
    pub topics: Map<u128, TopicStateV>,
    pub order: Seq<TopicId>,
}

impl View for Broker {
    type V = BrokerV;

    open spec fn view(&self) -> BrokerV {
        BrokerV { topics: self.topics@.map_values(vf_topic()), order: self.order@ }
    }
}

impl BrokerV {
    pub open spec fn empty() -> BrokerV {
        BrokerV { topics: Map::empty(), order: Seq::empty() }
    }

    /// The topic ids on record are exactly those in the creation order,
    /// each once, and each topic knows its own id.
    pub open spec fn wf(self) -> bool {
        &&& forall|i: int, j: int| 0 <= i < j < self.order.len() ==> self.order[i] != self.order[j]
        &&& forall|i: int|
            0 <= i < self.order.len() ==> self.topics.dom().contains(
                (#[trigger] self.order[i]).0,
            )
        &&& forall|u: u128|
            self.topics.dom().contains(u) ==> (#[trigger] self.topics[u]).meta.id.0 == u
                && self.order.contains(TopicId(u))
    }

    /// The topic metas in creation order, up to position `k`.
    pub open spec fn metas_upto(self, k: int) -> Seq<TopicMetaV>
        decreases k,
    {
        if k <= 0 {
            Seq::empty()
        } else {
            self.metas_upto(k - 1).push(self.topics[self.order[k - 1].0].meta)
        }
    }

    /// The topic metas in creation order.
    pub open spec fn metas(self) -> Seq<TopicMetaV> {
        self.metas_upto(self.order.len() as int)
    }
}

/// What the broker does with one frame, besides changing its state:
/// frames sent back to the requesting client alone, in order, and at
/// most one frame put on the broadcast for every client.
pub struct Effects {
    pub reply: Vec<PubSubMsg>,
    pub broadcast: Option<PubSubMsg>,
}

/// Model of [`Effects`].
#[verifier::ext_equal]
pub ghost struct EffectsV {
    pub reply: Seq<PubSubMsgV>,
    pub broadcast: Option<PubSubMsgV>,
}

pub open spec fn vf_msg() -> spec_fn(PubSubMsg) -> PubSubMsgV {
    |m: PubSubMsg| m@
}

impl View for Effects {
    type V = EffectsV;

    open spec fn view(&self) -> EffectsV {
        EffectsV {
            reply: self.reply@.map_values(vf_msg()),
            broadcast: match self.broadcast {
                None => None,
                Some(m) => Some(m@),
            },
        }
    }
}

/// The outcome of one frame: the broker and the client's subscriptions
/// after it, and what is sent where.
#[verifier::ext_equal]
pub ghost struct StepV {
    pub broker: BrokerV,
    pub subs: Seq<TopicId>,
    pub effects: EffectsV,
}

/// The backlog of a topic replayed as `TopicMsg` frames.
pub open spec fn f_replay(t: TopicId) -> spec_fn(Seq<u8>) -> PubSubMsgV {
    |p: Seq<u8>| PubSubMsgV::TopicMsg(t, p)
}

/// How the broker handles one decoded frame from a client whose
/// subscription set is `subs`. Mirrored exactly by [`Broker::handle`].
pub open spec fn broker_step(b: BrokerV, subs: Seq<TopicId>, m: PubSubMsgV) -> StepV {
    match m {
        PubSubMsgV::NewTopic(meta) => StepV {
            broker: BrokerV {
                topics: b.topics.insert(
                    meta.id.0,
                    TopicStateV { meta, backlog: Seq::empty() },
                ),
                order: b.order.push(meta.id),
            },
            subs,
            effects: EffectsV { reply: Seq::empty(), broadcast: Some(m) },
        },
        PubSubMsgV::TopicMsg(id, payload) => StepV {
            broker: if b.topics.dom().contains(id.0) {
                BrokerV {
                    topics: b.topics.insert(
                        id.0,
                        TopicStateV {
                            meta: b.topics[id.0].meta,
                            backlog: b.topics[id.0].backlog.push(payload),
                        },
                    ),
                    ..b
                }
            } else {
                b
            },
            subs,
            effects: EffectsV { reply: Seq::empty(), broadcast: Some(m) },
        },
        PubSubMsgV::SubscribeTo(id) => StepV {
            broker: b,
            subs: if subs.contains(id) {
                subs
            } else {
                subs.push(id)
            },
            effects: EffectsV {
                reply: if b.topics.dom().contains(id.0) {
                    b.topics[id.0].backlog.map_values(f_replay(id))
                } else {
                    Seq::empty()
                },
                broadcast: None,
            },
        },
        PubSubMsgV::ListTopics => StepV {
            broker: b,
            subs,
            effects: EffectsV {
                reply: seq![PubSubMsgV::AllTopics(b.metas())],
                broadcast: None,
            },
        },
        PubSubMsgV::AllTopics(_) => StepV {
            broker: b,
            subs,
            effects: EffectsV { reply: Seq::empty(), broadcast: None },
        },
    }
}

/// Whether the per-client fan-out passes a broadcast frame on to a
/// client with subscription set `subs`: announcements always, topic
/// messages only for subscribed topics, nothing else is ever broadcast.
pub open spec fn spec_should_forward(subs: Seq<TopicId>, m: PubSubMsgV) -> bool {
    match m {
        PubSubMsgV::NewTopic(_) => true,
        PubSubMsgV::TopicMsg(id, _) => subs.contains(id),
        _ => false,
    }
}

/// A client connection's routing state: what it subscribed to.
pub struct ClientConn {
    pub subscriptions: Vec<TopicId>,
}

impl ClientConn {
    /// A fresh connection subscribes to nothing.
    pub fn new() -> (r: ClientConn)
        ensures
            r.subscriptions@ == Seq::<TopicId>::empty(),
    {
        ClientConn { subscriptions: Vec::new() }
    }

    /// The fan-out filter for this connection.
    pub fn should_forward(&self, msg: &PubSubMsg) -> (r: bool)
        ensures
            r == spec_should_forward(self.subscriptions@, msg@),
    {
        match msg {
            PubSubMsg::NewTopic(_) => true,
            PubSubMsg::TopicMsg(id, _) => contains_topic(&self.subscriptions, *id),
            _ => false,
        }
    }
}

fn contains_topic(ids: &Vec<TopicId>, id: TopicId) -> (r: bool)
    ensures
        r == ids@.contains(id),
{
    let mut k: usize = 0;
    while k < ids.len()
        invariant
            k <= ids@.len(),
            forall|j: int| 0 <= j < k ==> ids@[j] != id,
        decreases ids@.len() - k,
    {
        if ids[k].0 == id.0 {
            return true;
        }
        k = k + 1;
    }
    false
}

impl Broker {
    /// A broker with no topics.
    pub fn new() -> (r: Broker)
        ensures
            r@ == BrokerV::empty(),
            r@.wf(),
    {
        let r = Broker { topics: HashMap::new(), order: Vec::new() };
        proof {
            assert(r@.topics =~= Map::<u128, TopicStateV>::empty());
            assert(r@ =~= BrokerV::empty());
        }
        r
    }

    /// Handles one decoded frame from the client owning `conn`.
    ///
    /// A topic announcement must carry an id not yet on the broker; the
    /// transport loop drops announcements for known ids before calling.
    pub fn handle(&mut self, conn: &mut ClientConn, msg: PubSubMsg) -> (eff: Effects)
        requires
            old(self)@.wf(),
            msg@ matches PubSubMsgV::NewTopic(meta) ==> !old(self)@.topics.dom().contains(
                meta.id.0,
            ),
        ensures
            final(self)@.wf(),
            ({
                let r = broker_step(old(self)@, old(conn).subscriptions@, msg@);
                &&& final(self)@ == r.broker
                &&& final(conn).subscriptions@ == r.subs
                &&& eff@ == r.effects
            }),
    {
        let ghost pre = self@;
        let ghost r = broker_step(self@, conn.subscriptions@, msg@);
        match msg {
            PubSubMsg::NewTopic(meta) => {
                let id = meta.id;
                let ghost meta_v = meta@;
                let announce = meta.clone();
                self.order.push(id);
                let state = TopicState { meta, backlog: Vec::new() };
                proof {
                    assert(state@ =~= TopicStateV { meta: meta_v, backlog: Seq::empty() });
                }
                let ghost topics_pre = self.topics@;
                self.topics.insert(id.0, state);
                proof {
                    assert(self.topics@.map_values(vf_topic()) =~~= topics_pre.map_values(
                        vf_topic(),
                    ).insert(id.0, TopicStateV { meta: meta_v, backlog: Seq::empty() }));
                    assert(self@ =~~= r.broker);
                    assert(self@.wf()) by {
                        assert forall|u: u128| self@.topics.dom().contains(u) implies (
                        #[trigger] self@.topics[u]).meta.id.0 == u && self@.order.contains(
                            TopicId(u),
                        ) by {
                            if u == id.0 {
                                assert(self@.order[self@.order.len() - 1] == id);
                            } else {
                                assert(pre.topics[u] == self@.topics[u]);
                                let w = choose|w: int|
                                    0 <= w < pre.order.len() && pre.order[w] == TopicId(u);
                                assert(self@.order[w] == TopicId(u));
                            }
                        }
                        assert forall|i: int, j: int|
                            0 <= i < j < self@.order.len() implies self@.order[i]
                            != self@.order[j] by {
                            if j == self@.order.len() - 1 {
                                assert(pre.topics.dom().contains(pre.order[i].0));
                            }
                        }
                    }
                }
                let eff = Effects { reply: Vec::new(), broadcast: Some(PubSubMsg::NewTopic(announce)) };
                proof {
                    assert(eff@ =~~= r.effects);
                }
                eff
            },
            PubSubMsg::TopicMsg(id, payload) => {
                let ghost topics_pre = self.topics@;
                if let Some(mut state) = self.topics.remove(&id.0) {
                    let ghost state_v = state@;
                    state.backlog.push(clone_vec_u8(&payload));
                    self.topics.insert(id.0, state);
                    proof {
                        assert(state_v.backlog.push(payload@) =~= self.topics@[id.0]@.backlog);
                        assert(self.topics@.map_values(vf_topic()) =~~= topics_pre.map_values(
                            vf_topic(),
                        ).insert(id.0, TopicStateV {
                            meta: state_v.meta,
                            backlog: state_v.backlog.push(payload@),
                        }));
                        assert(self@ =~~= r.broker);
                        assert(self@.wf());
                    }
                } else {
                    proof {
                        assert(self@ =~~= r.broker);
                    }
                }
                let eff = Effects { reply: Vec::new(), broadcast: Some(PubSubMsg::TopicMsg(id, payload)) };
                proof {
                    assert(eff@ =~~= r.effects);
                }
                eff
            },
            PubSubMsg::SubscribeTo(id) => {
                let mut reply: Vec<PubSubMsg> = Vec::new();
                if let Some(state) = self.topics.get(&id.0) {
                    let ghost backlog = state@.backlog;
                    let mut k: usize = 0;
                    while k < state.backlog.len()
                        invariant
                            k <= state.backlog@.len(),
                            backlog == state@.backlog,
                            backlog.len() == state.backlog@.len(),
                            reply@.len() == k,
                            reply@.map_values(vf_msg()) == backlog.take(k as int).map_values(
                                f_replay(id),
                            ),
                        decreases state.backlog@.len() - k,
                    {
                        let ghost reply_pre = reply@;
                        reply.push(PubSubMsg::TopicMsg(id, clone_vec_u8(&state.backlog[k])));
                        proof {
                            assert forall|j: int| 0 <= j < k + 1 implies reply@.map_values(
                                vf_msg(),
                            )[j] == backlog.take(k + 1).map_values(f_replay(id))[j] by {
                                if j < k {
                                    assert(reply@[j] == reply_pre[j]);
                                    assert(reply_pre.map_values(vf_msg())[j] == backlog.take(
                                        k as int,
                                    ).map_values(f_replay(id))[j]);
                                }
                            }
                            assert(reply@.map_values(vf_msg()) =~= backlog.take(k + 1).map_values(
                                f_replay(id),
                            ));
                        }
                        k = k + 1;
                    }
                    proof {
                        assert(backlog.take(backlog.len() as int) =~= backlog);
                        assert(reply@.map_values(vf_msg()) =~= backlog.map_values(f_replay(id)));
                    }
                } else {
                    proof {
                        assert(reply@.map_values(vf_msg()) =~= Seq::<PubSubMsgV>::empty());
                    }
                }
                if !contains_topic(&conn.subscriptions, id) {
                    conn.subscriptions.push(id);
                }
                let eff = Effects { reply, broadcast: None };
                proof {
                    assert(eff@ =~~= r.effects);
                }
                eff
            },
            PubSubMsg::ListTopics => {
                let mut metas: Vec<TopicMeta> = Vec::new();
                let mut k: usize = 0;
                while k < self.order.len()
                    invariant
                        k <= self.order@.len(),
                        self@ == pre,
                        self@.wf(),
                        metas@.len() == k,
                        metas@.map_values(|m: TopicMeta| m@) == pre.metas_upto(k as int),
                    decreases self.order@.len() - k,
                {
                    let id = self.order[k];
                    proof {
                        assert(id == pre.order[k as int]);
                        assert(pre.topics.dom().contains((pre.order[k as int]).0));
                    }
                    let state = self.topics.get(&id.0).unwrap();
                    let ghost metas_pre = metas@;
                    metas.push(state.meta.clone());
                    proof {
                        let f = |m: TopicMeta| m@;
                        assert forall|j: int| 0 <= j < k + 1 implies metas@.map_values(f)[j]
                            == pre.metas_upto(k + 1)[j] by {
                            if j < k {
                                assert(metas@[j] == metas_pre[j]);
                                assert(metas_pre.map_values(f)[j] == pre.metas_upto(k as int)[j]);
                                lemma_metas_upto_index(pre, k as int, j);
                                lemma_metas_upto_index(pre, k + 1, j);
                            } else {
                                lemma_metas_upto_index(pre, k + 1, j);
                            }
                        }
                        assert(metas@.map_values(f) =~= pre.metas_upto(k + 1));
                    }
                    k = k + 1;
                }
                let mut reply: Vec<PubSubMsg> = Vec::new();
                reply.push(PubSubMsg::AllTopics(metas));
                let eff = Effects { reply, broadcast: None };
                proof {
                    assert(eff@.reply =~= seq![PubSubMsgV::AllTopics(pre.metas())]);
                    assert(eff@ =~~= r.effects);
                }
                eff
            },
            PubSubMsg::AllTopics(_) => {
                // Clients have no business sending this; it is ignored.
                let eff = Effects { reply: Vec::new(), broadcast: None };
                proof {
                    assert(eff@ =~~= r.effects);
                }
                eff
            },
        }
    }
}

/// The meta at position `j` of the listing is the meta of topic `j` in
/// creation order.
// ---------------------------------------------------------------------------
// The bounded broadcast fan-out. Live frames go to every client through
// a bounded queue; a client that falls more than the bound behind has
// lost frames and is disconnected (it can reconnect and catch up from
// the backlog).

/// What a client sees when it polls the broadcast at its cursor.
pub enum RecvOutcome {
    /// Nothing new.
    Empty,
    /// The client fell more than the bound behind: frames are gone and
    /// the connection is terminated.
    Lagged,
    /// The next frame, and the cursor after it.
    Msg(PubSubMsg, usize),
}

/// The broadcast channel: every frame ever sent, and the bound on how
/// far a receiver may trail behind the head.
pub struct BroadcastQueue {
    pub capacity: usize,
    pub history: Vec<PubSubMsg>,
}

impl BroadcastQueue {
    pub fn new(capacity: usize) -> (r: BroadcastQueue)
        ensures
            r.capacity == capacity,
            r.history@ == Seq::<PubSubMsg>::empty(),
    {
        BroadcastQueue { capacity, history: Vec::new() }
    }

    /// Publishes a frame to every receiver. Publication never blocks.
    pub fn send(&mut self, msg: PubSubMsg)
        ensures
            final(self).capacity == old(self).capacity,
            final(self).history@ == old(self).history@.push(msg),
    {
        self.history.push(msg);
    }

    /// Polls at `cursor`: empty at the head, lagged when more than
    /// `capacity` frames behind, else the frame at the cursor.
    pub fn recv(&self, cursor: usize) -> (r: RecvOutcome)
        ensures
            match r {
                RecvOutcome::Empty => cursor >= self.history@.len(),
                RecvOutcome::Lagged => self.history@.len() - cursor > self.capacity,
                RecvOutcome::Msg(m, c2) => {
                    &&& cursor < self.history@.len()
                    &&& self.history@.len() - cursor <= self.capacity
                    &&& m@ == self.history@[cursor as int]@
                    &&& c2 == cursor + 1
                },
            },
    {
        if cursor >= self.history.len() {
            RecvOutcome::Empty
        } else if self.history.len() - cursor > self.capacity {
            RecvOutcome::Lagged
        } else {
            RecvOutcome::Msg(self.history[cursor].clone(), cursor + 1)
        }
    }
}

// ---------------------------------------------------------------------------
// Laws of the broker.

/// The broker after each payload of `ms` is published on `t`, in order.
pub open spec fn publish_all(b: BrokerV, t: TopicId, ms: Seq<Seq<u8>>) -> BrokerV
    decreases ms.len(),
{
    if ms.len() == 0 {
        b
    } else {
        broker_step(
            publish_all(b, t, ms.drop_last()),
            Seq::empty(),
            PubSubMsgV::TopicMsg(t, ms.last()),
        ).broker
    }
}

/// Publishing appends to the backlog, in order, and touches nothing
/// else of the topic.
pub proof fn lemma_publish_backlog(b: BrokerV, t: TopicId, ms: Seq<Seq<u8>>)
    requires
        b.topics.dom().contains(t.0),
    ensures
        publish_all(b, t, ms).topics.dom().contains(t.0),
        publish_all(b, t, ms).topics[t.0].backlog == b.topics[t.0].backlog + ms,
        publish_all(b, t, ms).topics[t.0].meta == b.topics[t.0].meta,
    decreases ms.len(),
{
    if ms.len() == 0 {
        assert(b.topics[t.0].backlog + ms =~= b.topics[t.0].backlog);
    } else {
        lemma_publish_backlog(b, t, ms.drop_last());
        assert((b.topics[t.0].backlog + ms.drop_last()).push(ms.last()) =~= b.topics[t.0].backlog
            + ms);
    }
}

/// Per-topic order: a subscriber that subscribes after `k` of the
/// payloads `ms` were published receives the backlog as it stands then
/// — everything before its subscription, in order — and from then on
/// its fan-out filter passes every later message of the topic, so the
/// replay followed by the live tail is exactly the whole publication
/// sequence, with nothing interleaved on that topic.
pub proof fn lemma_per_topic_order(
    b: BrokerV,
    subs: Seq<TopicId>,
    t: TopicId,
    ms: Seq<Seq<u8>>,
    k: int,
)
    requires
        b.topics.dom().contains(t.0),
        0 <= k <= ms.len(),
    ensures
        ({
            let b_k = publish_all(b, t, ms.take(k));
            let sub = broker_step(b_k, subs, PubSubMsgV::SubscribeTo(t));
            &&& sub.effects.reply == (b.topics[t.0].backlog + ms.take(k)).map_values(f_replay(t))
            &&& (b.topics[t.0].backlog + ms.take(k)) + ms.skip(k) == b.topics[t.0].backlog + ms
            &&& forall|p: Seq<u8>|
                #[trigger] spec_should_forward(sub.subs, PubSubMsgV::TopicMsg(t, p))
        }),
{
    lemma_publish_backlog(b, t, ms.take(k));
    let b_k = publish_all(b, t, ms.take(k));
    let sub = broker_step(b_k, subs, PubSubMsgV::SubscribeTo(t));
    assert((b.topics[t.0].backlog + ms.take(k)) + ms.skip(k) =~= b.topics[t.0].backlog + ms);
    assert(sub.subs.contains(t)) by {
        if !subs.contains(t) {
            assert(sub.subs[sub.subs.len() - 1] == t);
        }
    }
}

/// True when `m` announces topic `t`.
pub open spec fn is_new_topic(m: PubSubMsgV, t: TopicId) -> bool {
    m matches PubSubMsgV::NewTopic(meta) && meta.id == t
}

/// True when `m` carries a message of topic `t`.
pub open spec fn is_topic_msg(m: PubSubMsgV, t: TopicId) -> bool {
    m matches PubSubMsgV::TopicMsg(id, _) && id == t
}

/// The frames that reach a client whose subscription set is `subs`,
/// out of the broadcast window `h`, in order.
pub open spec fn delivered(h: Seq<PubSubMsgV>, subs: Seq<TopicId>) -> Seq<PubSubMsgV>
    decreases h.len(),
{
    if h.len() == 0 {
        Seq::empty()
    } else {
        delivered(h.drop_last(), subs) + (if spec_should_forward(subs, h.last()) {
            seq![h.last()]
        } else {
            Seq::empty()
        })
    }
}

/// How many frames of `s` announce topic `t`.
pub open spec fn count_new(s: Seq<PubSubMsgV>, t: TopicId) -> int
    decreases s.len(),
{
    if s.len() == 0 {
        0
    } else {
        count_new(s.drop_last(), t) + (if is_new_topic(s.last(), t) {
            1int
        } else {
            0int
        })
    }
}

/// No message of `t` is followed (or accompanied) by an announcement of
/// `t`: every announcement comes before every message of the topic.
pub open spec fn announced_first(s: Seq<PubSubMsgV>, t: TopicId) -> bool {
    forall|x: int, y: int|
        0 <= x <= y < s.len() && is_topic_msg(#[trigger] s[x], t) ==> !is_new_topic(
            #[trigger] s[y],
            t,
        )
}

proof fn lemma_delivered_member(h: Seq<PubSubMsgV>, subs: Seq<TopicId>, x: int)
    requires
        0 <= x < delivered(h, subs).len(),
    ensures
        exists|j: int| 0 <= j < h.len() && h[j] == delivered(h, subs)[x],
    decreases h.len(),
{
    if h.len() > 0 {
        let d = delivered(h, subs);
        let d0 = delivered(h.drop_last(), subs);
        if x < d0.len() {
            lemma_delivered_member(h.drop_last(), subs, x);
            let j = choose|j: int| 0 <= j < h.drop_last().len() && h.drop_last()[j] == d0[x];
            assert(h[j] == d[x]);
        } else {
            assert(d[x] == h.last());
            assert(h[h.len() - 1] == d[x]);
        }
    }
}

/// Every announcement of a topic passes every client's fan-out filter,
/// so a window of the broadcast delivers exactly as many announcements
/// of `t` as it holds.
pub proof fn lemma_announcements_delivered(h: Seq<PubSubMsgV>, subs: Seq<TopicId>, t: TopicId)
    ensures
        count_new(delivered(h, subs), t) == count_new(h, t),
    decreases h.len(),
{
    if h.len() > 0 {
        lemma_announcements_delivered(h.drop_last(), subs, t);
        let d0 = delivered(h.drop_last(), subs);
        if spec_should_forward(subs, h.last()) {
            lemma_count_new_append_one(d0, h.last(), t);
        } else {
            assert(!is_new_topic(h.last(), t));
            assert(d0 + Seq::<PubSubMsgV>::empty() =~= d0);
        }
    }
}

proof fn lemma_count_new_append_one(s: Seq<PubSubMsgV>, m: PubSubMsgV, t: TopicId)
    ensures
        count_new(s + seq![m], t) == count_new(s, t) + (if is_new_topic(m, t) {
            1int
        } else {
            0int
        }),
{
    assert((s + seq![m]).drop_last() =~= s);
    assert((s + seq![m]).last() == m);
}

/// Topic announcement universality: over a broadcast window that holds
/// exactly one announcement of `t`, and in which every announcement of
/// `t` precedes every message of `t` (as a producer that announces
/// before publishing guarantees), every client receives exactly one
/// announcement of `t`, and receives it before any message of `t`.
pub proof fn lemma_topic_announcement(h: Seq<PubSubMsgV>, subs: Seq<TopicId>, t: TopicId)
    requires
        count_new(h, t) == 1,
        announced_first(h, t),
    ensures
        count_new(delivered(h, subs), t) == 1,
        announced_first(delivered(h, subs), t),
{
    lemma_announcements_delivered(h, subs, t);
    lemma_announced_first_delivered(h, subs, t);
}

proof fn lemma_announced_first_delivered(h: Seq<PubSubMsgV>, subs: Seq<TopicId>, t: TopicId)
    requires
        announced_first(h, t),
    ensures
        announced_first(delivered(h, subs), t),
    decreases h.len(),
{
    if h.len() > 0 {
        assert(announced_first(h.drop_last(), t)) by {
            assert forall|x: int, y: int|
                0 <= x <= y < h.drop_last().len() && is_topic_msg(
                    #[trigger] h.drop_last()[x],
                    t,
                ) implies !is_new_topic(#[trigger] h.drop_last()[y], t) by {
                assert(h.drop_last()[x] == h[x]);
                assert(h.drop_last()[y] == h[y]);
            }
        }
        lemma_announced_first_delivered(h.drop_last(), subs, t);
        let d = delivered(h, subs);
        let d0 = delivered(h.drop_last(), subs);
        assert forall|x: int, y: int|
            0 <= x <= y < d.len() && is_topic_msg(#[trigger] d[x], t) implies !is_new_topic(
            #[trigger] d[y],
            t,
        ) by {
            if spec_should_forward(subs, h.last()) {
                if y < d0.len() {
                    assert(d[x] == d0[x]);
                    assert(d[y] == d0[y]);
                } else {
                    assert(d[y] == h.last());
                    if x < d0.len() {
                        assert(d[x] == d0[x]);
                        lemma_delivered_member(h.drop_last(), subs, x);
                        let j = choose|j: int|
                            0 <= j < h.drop_last().len() && h.drop_last()[j] == d0[x];
                        assert(h[j] == d[x]);
                        assert(is_topic_msg(h[j], t));
                        assert(!is_new_topic(h[h.len() - 1], t));
                    } else {
                        assert(d[x] == h.last());
                        assert(is_topic_msg(h[h.len() - 1], t));
                        assert(!is_new_topic(h[h.len() - 1], t));
                    }
                }
            } else {
                assert(d =~= d0);
                assert(d[x] == d0[x]);
                assert(d[y] == d0[y]);
            }
        }
    }
}

proof fn lemma_metas_upto_len(b: BrokerV, k: int)
    requires
        0 <= k,
    ensures
        b.metas_upto(k).len() == k,
    decreases k,
{
    if k > 0 {
        lemma_metas_upto_len(b, k - 1);
    }
}

proof fn lemma_metas_upto_index(b: BrokerV, k: int, j: int)
    requires
        0 <= j < k,
    ensures
        b.metas_upto(k).len() == k,
        b.metas_upto(k)[j] == b.topics[b.order[j].0].meta,
    decreases k,
{
    lemma_metas_upto_len(b, k);
    lemma_metas_upto_len(b, k - 1);
    if j < k - 1 {
        lemma_metas_upto_index(b, k - 1, j);
    }
}

} // verus!
