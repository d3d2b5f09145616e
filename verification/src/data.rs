//! The data model shared by producers, the broker and viewers.

use vstd::prelude::*;

verus! {

/// A date-time represented as nanoseconds since the unix epoch.
#[derive(Clone, Copy, Debug, PartialEq, Eq, Structural, Hash)]
pub struct Time(pub i64);

/// Relies on `std::time::SystemTime::now` and
/// `Duration::as_nanos`: nanoseconds elapsed since the unix epoch,
/// or 0 when the system clock is set before 1970.
/// The value depends on the wall clock, so nothing is promised of it.
/// In particular it is not the monotone session time base (an epoch
/// sample taken once plus a monotone delta) that producers ideally
/// use: that pair is process-wide static state, which this library
/// does not hold, so successive calls can go backwards if the clock
/// is adjusted.
#[verifier::external_body]
pub fn nanos_since_epoch() -> i64 {
    match std::time::SystemTime::now().duration_since(std::time::SystemTime::UNIX_EPOCH) {
        Ok(elapsed) => elapsed.as_nanos() as i64,
        Err(_) => 0,
    }
}

impl Time {
    /// The current wall-clock time.
    pub fn now() -> Self {
        Time(nanos_since_epoch())
    }

    pub fn nanos_since_epoch(&self) -> (r: i64)
        ensures
            r == self.0,
    {
        self.0
    }
}

/// 128-bit identity of a topic, globally unique per producer session.
#[derive(Clone, Copy, Debug, PartialEq, Eq, Structural, Hash)]
pub struct TopicId(pub u128);

/// Relies on `uuid::Uuid::new_v4` (via `as_u128`): a freshly drawn
/// random 128-bit value. Randomness allows no promise about the result.
#[verifier::external_body]
fn random_u128() -> u128 {
    uuid::Uuid::new_v4().as_u128()
}

impl TopicId {
    /// A freshly drawn random topic id.
    pub fn random() -> Self {
        TopicId(random_u128())
    }
}

/// What a topic is called and when it was created.
#[derive(Debug, PartialEq)]
pub struct TopicMeta {
    pub id: TopicId,
    pub created: Time,
    pub name: String,
}

/// 64-bit hash of a stable source-location identity.
#[derive(Clone, Copy, Debug, PartialEq, Eq, Structural, Hash)]
pub struct CallsiteId(pub u64);

/// 64-bit hash of a per-producer span instance identity.
#[derive(Clone, Copy, Debug, PartialEq, Eq, Structural, Hash)]
pub struct SpanId(pub u64);

/// The digest that `wyhash::wyhash` computes with seed 0; it depends on
/// the input bytes alone.
pub uninterp spec fn wy_digest(bytes: Seq<u8>) -> u64;

/// Relies on `wyhash::wyhash`: a 64-bit digest of the bytes, a pure
/// function of its input.
#[verifier::external_body]
pub fn hash(bytes: &[u8]) -> (r: u64)
    ensures
        r == wy_digest(bytes@),
{
    wyhash::wyhash(bytes, 0)
}

/// A callsite id derived from the identity bytes of a source location.
pub fn to_callsite_id(identity: &[u8]) -> (r: CallsiteId)
    ensures
        r.0 == wy_digest(identity@),
{
    CallsiteId(hash(identity))
}

/// A span id derived from the identity bytes of a span instance.
pub fn to_span_id(identity: &[u8]) -> (r: SpanId)
    ensures
        r.0 == wy_digest(identity@),
{
    SpanId(hash(identity))
}

/// Severity of a callsite.
#[derive(Clone, Copy, Debug, PartialEq, Eq, Structural, Hash)]
pub enum LogLevel {
    Trace,
    Debug,
    Info,
    Warn,
    Error,
}

/// Whether a callsite produces events or spans.
#[derive(Clone, Copy, Debug, PartialEq, Eq, Structural, Hash)]
pub enum CallsiteKind {
    Event,
    Span,
}

/// Describes a source code location.
#[derive(Debug, PartialEq)]
pub struct Location {
    /// E.g. the name of the module or app that produced the record.
    pub module: String,
    pub file: Option<String>,
    pub line: Option<u32>,
}

/// A place in the source code that spans or events originate from.
#[derive(Debug, PartialEq)]
pub struct Callsite {
    pub id: CallsiteId,
    pub kind: CallsiteKind,
    pub name: String,
    pub level: LogLevel,
    pub location: Location,
    /// Names of data that may be provided in later calls.
    pub field_names: Vec<String>,
}

/// A value attached to a field of a span or event.
///
/// Floating-point payloads travel as their raw IEEE 754 bit pattern;
/// shells turn them back into numbers for display.
#[derive(Debug, PartialEq)]
pub enum Value {
    String(String),
    I64(i64),
    U64(u64),
    F64Bits(u64),
    Bool(bool),
    Debug(String),
    Error { description: String, details: String },
}

/// An ordered list of named values.
pub type FieldSet = Vec<(String, Value)>;

/// A dynamic instance of a Span-kind callsite.
#[derive(Debug, PartialEq)]
pub struct Span {
    pub id: SpanId,
    /// `None` if this is a new root.
    pub parent_span_id: Option<SpanId>,
    pub callsite_id: CallsiteId,
    pub fields: FieldSet,
}

/// A single log record emitted from an Event-kind callsite.
#[derive(Debug, PartialEq)]
pub struct DataEvent {
    pub callsite_id: CallsiteId,
    pub parent_span_id: Option<SpanId>,
    pub fields: FieldSet,
}

/// The body of a trace record.
#[derive(Debug, PartialEq)]
pub enum MessageEnum {
    NewCallsite(Callsite),
    NewSpan(Span),
    EnterSpan(SpanId),
    ExitSpan(SpanId),
    DestroySpan(SpanId),
    /// A span has been spawned from another.
    SpanFollowsFrom { span: SpanId, follows: SpanId },
    DataEvent(DataEvent),
}

/// A trace record with the time it was logged on the producer.
#[derive(Debug, PartialEq)]
pub struct Message {
    pub log_time: Time,
    pub msg_enum: MessageEnum,
}

impl Message {
    /// A record stamped with the current wall-clock time. The body is
    /// the caller's; only the time is the clock's.
    pub fn now(msg_enum: MessageEnum) -> (r: Self)
        ensures
            r.msg_enum == msg_enum,
    {
        Message { log_time: Time::now(), msg_enum }
    }
}

/// A binary frame failed to decode: it was truncated, held an unknown
/// tag or an invalid scalar, or had bytes left over.
#[derive(Clone, Copy, Debug, PartialEq, Eq, Structural)]
pub struct DecodeError;

/// The top-level message sent to or from the pub/sub broker.
#[derive(Debug, PartialEq)]
pub enum PubSubMsg {
    /// A new topic has been created.
    NewTopic(TopicMeta),
    /// A new message of a given topic, as encoded bytes.
    TopicMsg(TopicId, Vec<u8>),
    /// Please tell me about new messages on this topic.
    SubscribeTo(TopicId),
    /// Please tell me about all the topics.
    ListTopics,
    /// List of all existing topics.
    AllTopics(Vec<TopicMeta>),
}

/// Relies on `String::push`: it appends exactly one character.
#[verifier::external_body]
pub(crate) fn push_char(s: &mut String, c: char)
    ensures
        final(s)@ == old(s)@.push(c),
{
    s.push(c);
}

// ---------------------------------------------------------------------------
// Clones. These are written by hand so that every clone carries the
// contract that the copy models the same value.

fn clone_string_vec(v: &Vec<String>) -> (r: Vec<String>)
    ensures
        r@ == v@,
{
    let mut r: Vec<String> = Vec::new();
    let mut k: usize = 0;
    while k < v.len()
        invariant
            k <= v@.len(),
            r@ == v@.take(k as int),
        decreases v@.len() - k,
    {
        r.push(v[k].clone());
        proof {
            assert(r@ =~= v@.take(k + 1));
        }
        k = k + 1;
    }
    proof {
        assert(v@.take(v@.len() as int) =~= v@);
    }
    r
}

pub(crate) fn clone_vec_u8(v: &Vec<u8>) -> (r: Vec<u8>)
    ensures
        r@ == v@,
{
    let mut r: Vec<u8> = Vec::new();
    let mut k: usize = 0;
    while k < v.len()
        invariant
            k <= v@.len(),
            r@ == v@.take(k as int),
        decreases v@.len() - k,
    {
        r.push(v[k]);
        proof {
            assert(r@ =~= v@.take(k + 1));
        }
        k = k + 1;
    }
    proof {
        assert(v@.take(v@.len() as int) =~= v@);
    }
    r
}

fn clone_fields(v: &FieldSet) -> (r: FieldSet)
    ensures
        fields_view(r) == fields_view(*v),
        r@.len() == v@.len(),
{
    let mut r: FieldSet = Vec::new();
    let mut k: usize = 0;
    while k < v.len()
        invariant
            k <= v@.len(),
            r@.len() == k,
            fields_view(r) == fields_view(*v).take(k as int),
        decreases v@.len() - k,
    {
        let pair = &v[k];
        r.push((pair.0.clone(), pair.1.clone()));
        proof {
            assert(fields_view(r) =~= fields_view(*v).take(k + 1));
        }
        k = k + 1;
    }
    proof {
        assert(fields_view(*v).take(v@.len() as int) =~= fields_view(*v));
    }
    r
}

impl Clone for Location {
    fn clone(&self) -> (r: Self)
        ensures
            r@ == self@,
    {
        Location {
            module: self.module.clone(),
            file: match &self.file {
                None => None,
                Some(f) => Some(f.clone()),
            },
            line: self.line,
        }
    }
}

impl Clone for Callsite {
    fn clone(&self) -> (r: Self)
        ensures
            r@ == self@,
    {
        let r = Callsite {
            id: self.id,
            kind: self.kind,
            name: self.name.clone(),
            level: self.level,
            location: self.location.clone(),
            field_names: clone_string_vec(&self.field_names),
        };
        proof {
            assert(r@ =~~= self@);
        }
        r
    }
}

impl Clone for Value {
    fn clone(&self) -> (r: Self)
        ensures
            r@ == self@,
    {
        match self {
            Value::String(s) => Value::String(s.clone()),
            Value::I64(x) => Value::I64(*x),
            Value::U64(x) => Value::U64(*x),
            Value::F64Bits(x) => Value::F64Bits(*x),
            Value::Bool(b) => Value::Bool(*b),
            Value::Debug(s) => Value::Debug(s.clone()),
            Value::Error { description, details } => Value::Error {
                description: description.clone(),
                details: details.clone(),
            },
        }
    }
}

impl Clone for Span {
    fn clone(&self) -> (r: Self)
        ensures
            r@ == self@,
    {
        let r = Span {
            id: self.id,
            parent_span_id: self.parent_span_id,
            callsite_id: self.callsite_id,
            fields: clone_fields(&self.fields),
        };
        proof {
            assert(r@ =~~= self@);
        }
        r
    }
}

impl Clone for DataEvent {
    fn clone(&self) -> (r: Self)
        ensures
            r@ == self@,
    {
        let r = DataEvent {
            callsite_id: self.callsite_id,
            parent_span_id: self.parent_span_id,
            fields: clone_fields(&self.fields),
        };
        proof {
            assert(r@ =~~= self@);
        }
        r
    }
}

impl Clone for MessageEnum {
    fn clone(&self) -> (r: Self)
        ensures
            r@ == self@,
    {
        match self {
            MessageEnum::NewCallsite(c) => MessageEnum::NewCallsite(c.clone()),
            MessageEnum::NewSpan(sp) => MessageEnum::NewSpan(sp.clone()),
            MessageEnum::EnterSpan(id) => MessageEnum::EnterSpan(*id),
            MessageEnum::ExitSpan(id) => MessageEnum::ExitSpan(*id),
            MessageEnum::DestroySpan(id) => MessageEnum::DestroySpan(*id),
            MessageEnum::SpanFollowsFrom { span, follows } => MessageEnum::SpanFollowsFrom {
                span: *span,
                follows: *follows,
            },
            MessageEnum::DataEvent(e) => MessageEnum::DataEvent(e.clone()),
        }
    }
}

impl Clone for Message {
    fn clone(&self) -> (r: Self)
        ensures
            r@ == self@,
    {
        Message { log_time: self.log_time, msg_enum: self.msg_enum.clone() }
    }
}

impl Clone for TopicMeta {
    fn clone(&self) -> (r: Self)
        ensures
            r@ == self@,
    {
        TopicMeta { id: self.id, created: self.created, name: self.name.clone() }
    }
}

fn clone_metas(v: &Vec<TopicMeta>) -> (r: Vec<TopicMeta>)
    ensures
        r@.map_values(|m: TopicMeta| m@) == v@.map_values(|m: TopicMeta| m@),
        r@.len() == v@.len(),
{
    let mut r: Vec<TopicMeta> = Vec::new();
    let mut k: usize = 0;
    while k < v.len()
        invariant
            k <= v@.len(),
            r@.len() == k,
            r@.map_values(|m: TopicMeta| m@) == v@.take(k as int).map_values(|m: TopicMeta| m@),
        decreases v@.len() - k,
    {
        let ghost r_pre = r@;
        r.push(v[k].clone());
        proof {
            let f = |m: TopicMeta| m@;
            assert forall|j: int| 0 <= j < k + 1 implies r@.map_values(f)[j] == v@.take(
                k + 1,
            ).map_values(f)[j] by {
                if j < k {
                    assert(r@[j] == r_pre[j]);
                    assert(r_pre.map_values(f)[j] == v@.take(k as int).map_values(f)[j]);
                }
            }
            assert(r@.map_values(f) =~= v@.take(k + 1).map_values(f));
        }
        k = k + 1;
    }
    proof {
        assert(v@.take(v@.len() as int).map_values(|m: TopicMeta| m@) =~= v@.map_values(
            |m: TopicMeta| m@,
        ));
    }
    r
}

impl Clone for PubSubMsg {
    fn clone(&self) -> (r: Self)
        ensures
            r@ == self@,
    {
        let r = match self {
            PubSubMsg::NewTopic(meta) => PubSubMsg::NewTopic(meta.clone()),
            PubSubMsg::TopicMsg(id, payload) => PubSubMsg::TopicMsg(*id, clone_vec_u8(payload)),
            PubSubMsg::SubscribeTo(id) => PubSubMsg::SubscribeTo(*id),
            PubSubMsg::ListTopics => PubSubMsg::ListTopics,
            PubSubMsg::AllTopics(metas) => PubSubMsg::AllTopics(clone_metas(metas)),
        };
        proof {
            assert(r@ =~~= self@);
        }
        r
    }
}

// ---------------------------------------------------------------------------
// Mathematical models of the wire types. Strings are modelled as
// character sequences and lists as sequences; contracts and the codec
// specification speak of these models.

/// Model of a [`Location`].
#[verifier::ext_equal]
pub ghost struct LocationV {
    pub module: Seq<char>,
    pub file: Option<Seq<char>>,
    pub line: Option<u32>,
}

impl View for Location {
    type V = LocationV;

    open spec fn view(&self) -> LocationV {
        LocationV {
            module: self.module@,
            file: match self.file {
                None => None,
                Some(f) => Some(f@),
            },
            line: self.line,
        }
    }
}

/// Model of a [`Callsite`].
#[verifier::ext_equal]
pub ghost struct CallsiteV {
    pub id: CallsiteId,
    pub kind: CallsiteKind,
    pub name: Seq<char>,
    pub level: LogLevel,
    pub location: LocationV,
    pub field_names: Seq<Seq<char>>,
}

impl View for Callsite {
    type V = CallsiteV;

    open spec fn view(&self) -> CallsiteV {
        CallsiteV {
            id: self.id,
            kind: self.kind,
            name: self.name@,
            level: self.level,
            location: self.location@,
            field_names: self.field_names@.map_values(|s: String| s@),
        }
    }
}

/// Model of a [`Value`].
#[verifier::ext_equal]
pub ghost enum ValueV {
    String(Seq<char>),
    I64(i64),
    U64(u64),
    F64Bits(u64),
    Bool(bool),
    Debug(Seq<char>),
    Error { description: Seq<char>, details: Seq<char> },
}

impl View for Value {
    type V = ValueV;

    open spec fn view(&self) -> ValueV {
        match self {
            Value::String(s) => ValueV::String(s@),
            Value::I64(x) => ValueV::I64(*x),
            Value::U64(x) => ValueV::U64(*x),
            Value::F64Bits(x) => ValueV::F64Bits(*x),
            Value::Bool(b) => ValueV::Bool(*b),
            Value::Debug(s) => ValueV::Debug(s@),
            Value::Error { description, details } => ValueV::Error {
                description: description@,
                details: details@,
            },
        }
    }
}

/// Model of a field list: name/value pairs in order.
pub open spec fn fields_view(fields: FieldSet) -> Seq<(Seq<char>, ValueV)> {
    fields@.map_values(|f: (String, Value)| (f.0@, f.1@))
}

/// Model of a [`Span`].
#[verifier::ext_equal]
pub ghost struct SpanV {
    pub id: SpanId,
    pub parent_span_id: Option<SpanId>,
    pub callsite_id: CallsiteId,
    pub fields: Seq<(Seq<char>, ValueV)>,
}

impl View for Span {
    type V = SpanV;

    open spec fn view(&self) -> SpanV {
        SpanV {
            id: self.id,
            parent_span_id: self.parent_span_id,
            callsite_id: self.callsite_id,
            fields: fields_view(self.fields),
        }
    }
}

/// Model of a [`DataEvent`].
#[verifier::ext_equal]
pub ghost struct DataEventV {
    pub callsite_id: CallsiteId,
    pub parent_span_id: Option<SpanId>,
    pub fields: Seq<(Seq<char>, ValueV)>,
}

impl View for DataEvent {
    type V = DataEventV;

    open spec fn view(&self) -> DataEventV {
        DataEventV {
            callsite_id: self.callsite_id,
            parent_span_id: self.parent_span_id,
            fields: fields_view(self.fields),
        }
    }
}

/// Model of a [`MessageEnum`].
#[verifier::ext_equal]
pub ghost enum MessageEnumV {
    NewCallsite(CallsiteV),
    NewSpan(SpanV),
    EnterSpan(SpanId),
    ExitSpan(SpanId),
    DestroySpan(SpanId),
    SpanFollowsFrom { span: SpanId, follows: SpanId },
    DataEvent(DataEventV),
}

impl View for MessageEnum {
    type V = MessageEnumV;

    open spec fn view(&self) -> MessageEnumV {
        match self {
            MessageEnum::NewCallsite(c) => MessageEnumV::NewCallsite(c@),
            MessageEnum::NewSpan(sp) => MessageEnumV::NewSpan(sp@),
            MessageEnum::EnterSpan(id) => MessageEnumV::EnterSpan(*id),
            MessageEnum::ExitSpan(id) => MessageEnumV::ExitSpan(*id),
            MessageEnum::DestroySpan(id) => MessageEnumV::DestroySpan(*id),
            MessageEnum::SpanFollowsFrom { span, follows } => MessageEnumV::SpanFollowsFrom {
                span: *span,
                follows: *follows,
            },
            MessageEnum::DataEvent(e) => MessageEnumV::DataEvent(e@),
        }
    }
}

/// Model of a [`Message`].
#[verifier::ext_equal]
pub ghost struct MessageV {
    pub log_time: Time,
    pub msg_enum: MessageEnumV,
}

impl View for Message {
    type V = MessageV;

    open spec fn view(&self) -> MessageV {
        MessageV { log_time: self.log_time, msg_enum: self.msg_enum@ }
    }
}

/// Model of a [`TopicMeta`].
#[verifier::ext_equal]
pub ghost struct TopicMetaV {
    pub id: TopicId,
    pub created: Time,
    pub name: Seq<char>,
}

impl View for TopicMeta {
    type V = TopicMetaV;

    open spec fn view(&self) -> TopicMetaV {
        TopicMetaV { id: self.id, created: self.created, name: self.name@ }
    }
}

/// Model of a [`PubSubMsg`].
#[verifier::ext_equal]
pub ghost enum PubSubMsgV {
    NewTopic(TopicMetaV),
    TopicMsg(TopicId, Seq<u8>),
    SubscribeTo(TopicId),
    ListTopics,
    AllTopics(Seq<TopicMetaV>),
}

impl View for PubSubMsg {
    type V = PubSubMsgV;

    open spec fn view(&self) -> PubSubMsgV {
        match self {
            PubSubMsg::NewTopic(meta) => PubSubMsgV::NewTopic(meta@),
            PubSubMsg::TopicMsg(id, payload) => PubSubMsgV::TopicMsg(*id, payload@),
            PubSubMsg::SubscribeTo(id) => PubSubMsgV::SubscribeTo(*id),
            PubSubMsg::ListTopics => PubSubMsgV::ListTopics,
            PubSubMsg::AllTopics(metas) => PubSubMsgV::AllTopics(
                metas@.map_values(|m: TopicMeta| m@),
            ),
        }
    }
}

// ---------------------------------------------------------------------------
// Size bounds. The wire format prefixes every string and list with a
// 64-bit count, so a value is encodable exactly when every count fits.

pub open spec fn wf_str_v(s: Seq<char>) -> bool {
    s.len() <= u64::MAX
}

impl LocationV {
    pub open spec fn wf(self) -> bool {
        &&& wf_str_v(self.module)
        &&& (self.file matches Some(f) ==> wf_str_v(f))
    }
}

impl CallsiteV {
    pub open spec fn wf(self) -> bool {
        &&& wf_str_v(self.name)
        &&& self.location.wf()
        &&& self.field_names.len() <= u64::MAX
        &&& forall|k: int|
            0 <= k < self.field_names.len() ==> wf_str_v(#[trigger] self.field_names[k])
    }
}

impl ValueV {
    pub open spec fn wf(self) -> bool {
        match self {
            ValueV::String(s) => wf_str_v(s),
            ValueV::Debug(s) => wf_str_v(s),
            ValueV::Error { description, details } => wf_str_v(description) && wf_str_v(details),
            _ => true,
        }
    }
}

pub open spec fn wf_fields_v(fields: Seq<(Seq<char>, ValueV)>) -> bool {
    &&& fields.len() <= u64::MAX
    &&& forall|k: int|
        0 <= k < fields.len() ==> wf_str_v(#[trigger] fields[k].0) && fields[k].1.wf()
}

impl SpanV {
    pub open spec fn wf(self) -> bool {
        wf_fields_v(self.fields)
    }
}

impl DataEventV {
    pub open spec fn wf(self) -> bool {
        wf_fields_v(self.fields)
    }
}

impl MessageEnumV {
    pub open spec fn wf(self) -> bool {
        match self {
            MessageEnumV::NewCallsite(c) => c.wf(),
            MessageEnumV::NewSpan(sp) => sp.wf(),
            MessageEnumV::DataEvent(e) => e.wf(),
            _ => true,
        }
    }
}

impl MessageV {
    pub open spec fn wf(self) -> bool {
        self.msg_enum.wf()
    }
}

impl TopicMetaV {
    pub open spec fn wf(self) -> bool {
        wf_str_v(self.name)
    }
}

impl PubSubMsgV {
    pub open spec fn wf(self) -> bool {
        match self {
            PubSubMsgV::NewTopic(meta) => meta.wf(),
            PubSubMsgV::TopicMsg(_, payload) => payload.len() <= u64::MAX,
            PubSubMsgV::AllTopics(metas) => metas.len() <= u64::MAX && forall|k: int|
                0 <= k < metas.len() ==> (#[trigger] metas[k]).wf(),
            _ => true,
        }
    }
}

} // verus!
