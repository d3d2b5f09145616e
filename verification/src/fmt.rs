//! Rendering values of the trace as text.
//!
//! Numbers are written in decimal, ids as sixteen hex digits, and a
//! span's description is its name followed by `key=value` pairs.

use vstd::prelude::*;

use crate::data::{CallsiteId, LogLevel, CallsiteKind, Location, SpanId, Value, ValueV};
use crate::span_tree::{SpanTree, SpanTreeV, TimeInterval};
use vstd::string::StrSliceExecFns;

verus! {

/// The character for one digit value below sixteen, upper case.
pub open spec fn digit_char(d: nat) -> char
    recommends
        d < 16,
{
    if d < 10 {
        ((48 + d) as u8) as char
    } else {
        ((55 + d) as u8) as char
    }
}

/// The character for one digit value below sixteen, lower case.
pub open spec fn digit_char_lower(d: nat) -> char
    recommends
        d < 16,
{
    if d < 10 {
        ((48 + d) as u8) as char
    } else {
        ((87 + d) as u8) as char
    }
}

fn digit_of(d: u8) -> (r: char)
    requires
        d < 16,
    ensures
        r == digit_char(d as nat),
{
    if d < 10 {
        (48 + d) as char
    } else {
        (55 + d) as char
    }
}

fn digit_of_lower(d: u8) -> (r: char)
    requires
        d < 16,
    ensures
        r == digit_char_lower(d as nat),
{
    if d < 10 {
        (48 + d) as char
    } else {
        (87 + d) as char
    }
}

/// The decimal digits of `n`, most significant first.
pub open spec fn dec_digits(n: nat) -> Seq<char>
    decreases n,
{
    if n < 10 {
        seq![digit_char(n)]
    } else {
        dec_digits(n / 10).push(digit_char(n % 10))
    }
}

/// The decimal rendering of a signed value, with a leading minus for
/// negative values.
pub open spec fn dec_i64_digits(x: int) -> Seq<char> {
    if x >= 0 {
        dec_digits(x as nat)
    } else {
        seq!['-'] + dec_digits((-x) as nat)
    }
}

/// Writes `x` in decimal.
pub fn u64_to_string(x: u64) -> (r: String)
    ensures
        r@ == dec_digits(x as nat),
    decreases x,
{
    if x < 10 {
        let mut s = String::new();
        crate::data::push_char(&mut s, digit_of(x as u8));
        proof {
            assert(s@ =~= dec_digits(x as nat));
        }
        s
    } else {
        let mut s = u64_to_string(x / 10);
        crate::data::push_char(&mut s, digit_of((x % 10) as u8));
        s
    }
}

/// Writes `x` in decimal, with a sign when negative.
pub fn i64_to_string(x: i64) -> (r: String)
    ensures
        r@ == dec_i64_digits(x as int),
{
    if x >= 0 {
        u64_to_string(x as u64)
    } else {
        let mag = (-(x as i128)) as u64;
        proof {
            assert(mag as int == -(x as int));
        }
        let digits = u64_to_string(mag);
        let mut s = String::new();
        crate::data::push_char(&mut s, '-');
        s.append(digits.as_str());
        proof {
            assert(s@ =~= seq!['-'] + dec_digits((-(x as int)) as nat));
        }
        s
    }
}

/// The character at position `i` of the sixteen-digit hex form of `x`.
pub open spec fn hex_char_at(x: u64, i: int, upper: bool) -> char {
    let d = ((x >> ((60 - 4 * i) as u64)) & 0xf) as nat;
    if upper {
        digit_char(d)
    } else {
        digit_char_lower(d)
    }
}

/// The sixteen-digit hex form of `x`.
pub open spec fn hex16(x: u64, upper: bool) -> Seq<char> {
    Seq::new(16, |i: int| hex_char_at(x, i, upper))
}

/// Writes `x` as exactly sixteen hex digits.
pub fn u64_to_hex(x: u64, upper: bool) -> (r: String)
    ensures
        r@ == hex16(x, upper),
{
    let mut s = String::new();
    let mut k: usize = 0;
    while k < 16
        invariant
            k <= 16,
            s@.len() == k,
            forall|j: int| 0 <= j < k ==> s@[j] == hex_char_at(x, j, upper),
        decreases 16 - k,
    {
        let shift: u64 = 60 - 4 * (k as u64);
        let nibble = ((x >> shift) & 0xf) as u8;
        proof {
            assert((x >> shift) & 0xf < 16) by (bit_vector);
        }
        let c = if upper {
            digit_of(nibble)
        } else {
            digit_of_lower(nibble)
        };
        crate::data::push_char(&mut s, c);
        k = k + 1;
    }
    proof {
        assert(s@ =~= hex16(x, upper));
    }
    s
}

impl SpanId {
    /// The id as sixteen upper-case hex digits.
    pub fn to_hex_string(&self) -> (r: String)
        ensures
            r@ == hex16(self.0, true),
    {
        u64_to_hex(self.0, true)
    }
}

impl CallsiteId {
    /// The id as sixteen lower-case hex digits.
    pub fn to_hex_string(&self) -> (r: String)
        ensures
            r@ == hex16(self.0, false),
    {
        u64_to_hex(self.0, false)
    }
}

impl LogLevel {
    /// The level's name.
    pub open spec fn spec_name(self) -> Seq<char> {
        match self {
            LogLevel::Trace => "Trace"@,
            LogLevel::Debug => "Debug"@,
            LogLevel::Info => "Info"@,
            LogLevel::Warn => "Warn"@,
            LogLevel::Error => "Error"@,
        }
    }

    pub fn name_string(&self) -> (r: String)
        ensures
            r@ == self.spec_name(),
    {
        match self {
            LogLevel::Trace => "Trace".to_owned(),
            LogLevel::Debug => "Debug".to_owned(),
            LogLevel::Info => "Info".to_owned(),
            LogLevel::Warn => "Warn".to_owned(),
            LogLevel::Error => "Error".to_owned(),
        }
    }
}

impl CallsiteKind {
    /// The kind's name.
    pub open spec fn spec_name(self) -> Seq<char> {
        match self {
            CallsiteKind::Event => "Event"@,
            CallsiteKind::Span => "Span"@,
        }
    }

    pub fn name_string(&self) -> (r: String)
        ensures
            r@ == self.spec_name(),
    {
        match self {
            CallsiteKind::Event => "Event".to_owned(),
            CallsiteKind::Span => "Span".to_owned(),
        }
    }
}

impl ValueV {
    /// How a field value reads: strings quoted, numbers in decimal,
    /// float bits in hex behind a marker, errors with their two parts.
    pub open spec fn spec_string(self) -> Seq<char> {
        match self {
            ValueV::String(s) => seq!['"'] + s + seq!['"'],
            ValueV::I64(x) => dec_i64_digits(x as int),
            ValueV::U64(x) => dec_digits(x as nat),
            ValueV::F64Bits(x) => "f64:0x"@ + hex16(x, false),
            ValueV::Bool(b) => if b {
                "true"@
            } else {
                "false"@
            },
            ValueV::Debug(s) => s,
            ValueV::Error { description, details } => "Error: "@ + description + ", "@ + details,
        }
    }
}

impl Value {
    pub fn to_display_string(&self) -> (r: String)
        ensures
            r@ == self@.spec_string(),
    {
        match self {
            Value::String(s) => {
                let mut r = String::new();
                crate::data::push_char(&mut r, '"');
                r.append(s.as_str());
                crate::data::push_char(&mut r, '"');
                proof {
                    assert(r@ =~= seq!['"'] + s@ + seq!['"']);
                }
                r
            },
            Value::I64(x) => i64_to_string(*x),
            Value::U64(x) => u64_to_string(*x),
            Value::F64Bits(x) => {
                let mut r = "f64:0x".to_owned();
                let hex = u64_to_hex(*x, false);
                r.append(hex.as_str());
                r
            },
            Value::Bool(b) => if *b {
                "true".to_owned()
            } else {
                "false".to_owned()
            },
            Value::Debug(s) => s.clone(),
            Value::Error { description, details } => {
                let mut r = "Error: ".to_owned();
                r.append(description.as_str());
                r.append(", ");
                r.append(details.as_str());
                proof {
                    assert(r@ =~= "Error: "@ + description@ + ", "@ + details@);
                }
                r
            },
        }
    }
}

impl Location {
    /// How a location reads: the module, then what else is known.
    pub open spec fn spec_string(self) -> Seq<char> {
        match (self.file, self.line) {
            (None, None) => self.module@,
            (Some(f), None) => self.module@ + " "@ + f@,
            (None, Some(l)) => self.module@ + ", line "@ + dec_digits(l as nat),
            (Some(f), Some(l)) => self.module@ + " "@ + f@ + ":"@ + dec_digits(l as nat),
        }
    }

    pub fn to_display_string(&self) -> (r: String)
        ensures
            r@ == self.spec_string(),
    {
        let mut r = self.module.clone();
        match (&self.file, &self.line) {
            (None, None) => {},
            (Some(f), None) => {
                r.append(" ");
                r.append(f.as_str());
            },
            (None, Some(l)) => {
                r.append(", line ");
                let d = u64_to_string(*l as u64);
                r.append(d.as_str());
                proof {
                    assert((*l as u64) as nat == *l as nat);
                }
            },
            (Some(f), Some(l)) => {
                r.append(" ");
                r.append(f.as_str());
                r.append(":");
                let d = u64_to_string(*l as u64);
                r.append(d.as_str());
                proof {
                    assert((*l as u64) as nat == *l as nat);
                }
            },
        }
        r
    }
}

impl TimeInterval {
    /// How an interval reads: both ends in nanoseconds, `?` where an
    /// end was never observed.
    pub open spec fn spec_string(self) -> Seq<char> {
        let lo = match self.min {
            None => "?"@,
            Some(t) => dec_i64_digits(t.0 as int),
        };
        let hi = match self.max {
            None => "?"@,
            Some(t) => dec_i64_digits(t.0 as int),
        };
        "["@ + lo + " - "@ + hi + "]"@
    }

    pub fn to_display_string(&self) -> (r: String)
        ensures
            r@ == self.spec_string(),
    {
        let mut r = "[".to_owned();
        match self.min {
            None => r.append("?"),
            Some(t) => {
                let d = i64_to_string(t.0);
                r.append(d.as_str());
            },
        }
        r.append(" - ");
        match self.max {
            None => r.append("?"),
            Some(t) => {
                let d = i64_to_string(t.0);
                r.append(d.as_str());
            },
        }
        r.append("]");
        proof {
            let lo = match self.min {
                None => "?"@,
                Some(t) => dec_i64_digits(t.0 as int),
            };
            let hi = match self.max {
                None => "?"@,
                Some(t) => dec_i64_digits(t.0 as int),
            };
            assert(r@ =~= "["@ + lo + " - "@ + hi + "]"@);
        }
        r
    }
}

// ---------------------------------------------------------------------------
// Span names, descriptions and ancestry.

/// The name of a span: its callsite's name when both the span and the
/// callsite are known, else the id in hex.
pub open spec fn spec_span_name(v: SpanTreeV, id: SpanId) -> Seq<char> {
    if v.nodes.dom().contains(id.0) && v.callsites.dom().contains(
        v.nodes[id.0].span.callsite_id.0,
    ) {
        v.callsites[v.nodes[id.0].span.callsite_id.0].name
    } else {
        hex16(id.0, true)
    }
}

/// The `key=value` pairs of the first `k` fields, comma separated.
pub open spec fn spec_fields_string(fields: Seq<(Seq<char>, ValueV)>, k: int) -> Seq<char>
    decreases k,
{
    if k <= 0 {
        Seq::empty()
    } else {
        let item = fields[k - 1].0 + "="@ + fields[k - 1].1.spec_string();
        if k == 1 {
            item
        } else {
            spec_fields_string(fields, k - 1) + ", "@ + item
        }
    }
}

/// The description of a span: its name, then its initial fields.
pub open spec fn spec_span_description(v: SpanTreeV, id: SpanId) -> Seq<char> {
    if v.nodes.dom().contains(id.0) {
        let name = spec_span_name(v, id);
        let fields = v.nodes[id.0].span.fields;
        if fields.len() == 0 {
            name
        } else {
            name + " "@ + spec_fields_string(fields, fields.len() as int)
        }
    } else {
        hex16(id.0, true)
    }
}

/// The names from a root down to `id`, separated by arrows. The walk
/// stops after `fuel` parent steps, so that a malformed trace whose
/// parent edges close a cycle still gives an answer.
pub open spec fn spec_span_ancestry(v: SpanTreeV, id: SpanId, fuel: nat) -> Seq<char>
    decreases fuel,
{
    let name = spec_span_name(v, id);
    if v.nodes.dom().contains(id.0) && v.nodes[id.0].span.parent_span_id is Some && fuel > 0 {
        spec_span_ancestry(v, v.nodes[id.0].span.parent_span_id.unwrap(), (fuel - 1) as nat)
            + " ➡ "@ + name
    } else {
        name
    }
}

impl SpanTree {
    /// The name of the span: its callsite's name, or the id in hex.
    pub fn span_name(&self, span_id: &SpanId) -> (r: String)
        ensures
            r@ == spec_span_name(self@, *span_id),
    {
        if let Some(node) = self.nodes.get(&span_id.0) {
            if let Some(callsite) = self.callsites.get(&node.span.callsite_id.0) {
                return callsite.name.clone();
            }
        }
        span_id.to_hex_string()
    }

    /// More than just a name: the name, then `key=value` for each of
    /// the span's initial fields.
    pub fn span_description(&self, span_id: &SpanId) -> (r: String)
        ensures
            r@ == spec_span_description(self@, *span_id),
    {
        let node = match self.nodes.get(&span_id.0) {
            None => {
                return span_id.to_hex_string();
            },
            Some(node) => node,
        };
        let mut r = self.span_name(span_id);
        let ghost fields_v = node@.span.fields;
        if node.span.fields.len() == 0 {
            return r;
        }
        r.append(" ");
        let mut k: usize = 0;
        let ghost base = spec_span_name(self@, *span_id) + " "@;
        while k < node.span.fields.len()
            invariant
                k <= node.span.fields@.len(),
                fields_v == crate::data::fields_view(node.span.fields),
                fields_v.len() == node.span.fields@.len(),
                fields_v.len() > 0,
                r@ == base + spec_fields_string(fields_v, k as int),
            decreases node.span.fields@.len() - k,
        {
            if k > 0 {
                r.append(", ");
            }
            let pair = &node.span.fields[k];
            r.append(pair.0.as_str());
            r.append("=");
            let vs = pair.1.to_display_string();
            r.append(vs.as_str());
            proof {
                let item = fields_v[k as int].0 + "="@ + fields_v[k as int].1.spec_string();
                if k == 0 {
                    assert(spec_fields_string(fields_v, 0) =~= Seq::<char>::empty());
                    assert(r@ =~= base + item);
                } else {
                    assert(r@ =~= base + (spec_fields_string(fields_v, k as int) + ", "@ + item));
                }
            }
            k = k + 1;
        }
        r
    }

    /// The names from the root down to this span, arrow separated. A
    /// parent chain longer than the number of known spans (only possible
    /// when span ids were reused to form a cycle) is cut off there.
    pub fn span_ancestry(&self, span_id: &SpanId) -> (r: String)
        ensures
            r@ == spec_span_ancestry(self@, *span_id, self.ids@.len() as nat),
    {
        self.ancestry_fuel(span_id, self.ids.len())
    }

    fn ancestry_fuel(&self, span_id: &SpanId, fuel: usize) -> (r: String)
        ensures
            r@ == spec_span_ancestry(self@, *span_id, fuel as nat),
        decreases fuel,
    {
        let name = self.span_name(span_id);
        if fuel == 0 {
            return name;
        }
        if let Some(node) = self.nodes.get(&span_id.0) {
            if let Some(parent) = node.span.parent_span_id {
                let mut r = self.ancestry_fuel(&parent, fuel - 1);
                r.append(" ➡ ");
                r.append(name.as_str());
                return r;
            }
        }
        name
    }
}

} // verus!
