//! The binary wire format.
//!
//! Every frame is a tagged, length-prefixed byte string: integers have a
//! fixed little-endian width, variants carry a leading one-byte
//! discriminant, and strings and lists are prefixed with their element
//! count. Each value has exactly one encoding, and decoding is strict:
//! an unknown tag, an invalid scalar or a wrong length fails the frame.

use vstd::prelude::*;

use crate::data::{
    Callsite, CallsiteId, CallsiteKind, CallsiteV, DataEvent, DataEventV, DecodeError, Location,
    LocationV, LogLevel, Message, MessageEnum, MessageEnumV, MessageV, PubSubMsg, PubSubMsgV, Span,
    SpanId, SpanV, Time, TopicId, TopicMeta, TopicMetaV, Value, ValueV, wf_fields_v, wf_str_v,
};
use vstd::string::StrSliceExecFns;

verus! {

// ---------------------------------------------------------------------------
// Spec-level encoders for the primitive shapes.

pub open spec fn se_u8(x: u8) -> Seq<u8> {
    seq![x]
}

pub open spec fn se_u32(x: u32) -> Seq<u8> {
    seq![
        (x & 0xff) as u8,
        ((x >> 8) & 0xff) as u8,
        ((x >> 16) & 0xff) as u8,
        ((x >> 24) & 0xff) as u8,
    ]
}

pub open spec fn se_u64(x: u64) -> Seq<u8> {
    seq![
        (x & 0xff) as u8,
        ((x >> 8) & 0xff) as u8,
        ((x >> 16) & 0xff) as u8,
        ((x >> 24) & 0xff) as u8,
        ((x >> 32) & 0xff) as u8,
        ((x >> 40) & 0xff) as u8,
        ((x >> 48) & 0xff) as u8,
        ((x >> 56) & 0xff) as u8,
    ]
}

pub open spec fn se_u128(x: u128) -> Seq<u8> {
    se_u64((x & 0xffff_ffff_ffff_ffff) as u64) + se_u64((x >> 64) as u64)
}

pub open spec fn se_i64(x: i64) -> Seq<u8> {
    se_u64(x as u64)
}

pub open spec fn se_bool(b: bool) -> Seq<u8> {
    if b {
        seq![1u8]
    } else {
        seq![0u8]
    }
}

// ---------------------------------------------------------------------------
// Spec-level decoders. A decoder takes the whole byte sequence and a
// position, and returns the decoded value with the position after it,
// or `None` where the bytes do not parse.

pub open spec fn sd_u8(s: Seq<u8>, i: int) -> Option<(u8, int)> {
    if 0 <= i && i + 1 <= s.len() {
        Some((s[i], i + 1))
    } else {
        None
    }
}

pub open spec fn u32_of_le(b0: u8, b1: u8, b2: u8, b3: u8) -> u32 {
    (b0 as u32) | ((b1 as u32) << 8) | ((b2 as u32) << 16) | ((b3 as u32) << 24)
}

pub open spec fn sd_u32(s: Seq<u8>, i: int) -> Option<(u32, int)> {
    if 0 <= i && i + 4 <= s.len() {
        Some((u32_of_le(s[i], s[i + 1], s[i + 2], s[i + 3]), i + 4))
    } else {
        None
    }
}

pub open spec fn u64_of_le(b: Seq<u8>) -> u64
    recommends
        b.len() == 8,
{
    (b[0] as u64) | ((b[1] as u64) << 8) | ((b[2] as u64) << 16) | ((b[3] as u64) << 24)
        | ((b[4] as u64) << 32) | ((b[5] as u64) << 40) | ((b[6] as u64) << 48) | ((b[7]
        as u64) << 56)
}

pub open spec fn sd_u64(s: Seq<u8>, i: int) -> Option<(u64, int)> {
    if 0 <= i && i + 8 <= s.len() {
        Some((u64_of_le(s.subrange(i, i + 8)), i + 8))
    } else {
        None
    }
}

pub open spec fn sd_u128(s: Seq<u8>, i: int) -> Option<(u128, int)> {
    match sd_u64(s, i) {
        None => None,
        Some((lo, j)) => match sd_u64(s, j) {
            None => None,
            Some((hi, k)) => Some(((lo as u128) | ((hi as u128) << 64), k)),
        },
    }
}

pub open spec fn sd_i64(s: Seq<u8>, i: int) -> Option<(i64, int)> {
    match sd_u64(s, i) {
        None => None,
        Some((x, j)) => Some(((x as i64), j)),
    }
}

pub open spec fn sd_bool(s: Seq<u8>, i: int) -> Option<(bool, int)> {
    match sd_u8(s, i) {
        None => None,
        Some((t, j)) => if t == 0 {
            Some((false, j))
        } else if t == 1 {
            Some((true, j))
        } else {
            None
        },
    }
}

// ---------------------------------------------------------------------------
// Round-trip lemmas for the primitives: decoding at a position where the
// encoding of `x` lies yields exactly `x` and stops right after it.

proof fn lemma_u64_le_rt(x: u64)
    ensures
        u64_of_le(se_u64(x)) == x,
{
    assert(((x & 0xff) as u8) as u64 | ((((x >> 8) & 0xff) as u8) as u64) << 8 | ((((x >> 16)
        & 0xff) as u8) as u64) << 16 | ((((x >> 24) & 0xff) as u8) as u64) << 24 | ((((x >> 32)
        & 0xff) as u8) as u64) << 32 | ((((x >> 40) & 0xff) as u8) as u64) << 40 | ((((x >> 48)
        & 0xff) as u8) as u64) << 48 | ((((x >> 56) & 0xff) as u8) as u64) << 56 == x)
        by (bit_vector);
    assert(se_u64(x)[0] == (x & 0xff) as u8);
    assert(u64_of_le(se_u64(x)) == x);
}

pub proof fn lemma_rt_u64(s: Seq<u8>, i: int, x: u64)
    requires
        0 <= i,
        i + 8 <= s.len(),
        s.subrange(i, i + 8) == se_u64(x),
    ensures
        sd_u64(s, i) == Some((x, i + 8)),
{
    lemma_u64_le_rt(x);
}

pub proof fn lemma_rt_u32(s: Seq<u8>, i: int, x: u32)
    requires
        0 <= i,
        i + 4 <= s.len(),
        s.subrange(i, i + 4) == se_u32(x),
    ensures
        sd_u32(s, i) == Some((x, i + 4)),
{
    assert(s[i] == se_u32(x)[0]);
    assert(s[i + 1] == se_u32(x)[1]);
    assert(s[i + 2] == se_u32(x)[2]);
    assert(s[i + 3] == se_u32(x)[3]);
    assert(u32_of_le(
        (x & 0xff) as u8,
        ((x >> 8) & 0xff) as u8,
        ((x >> 16) & 0xff) as u8,
        ((x >> 24) & 0xff) as u8,
    ) == x) by (bit_vector);
}

pub proof fn lemma_rt_u8(s: Seq<u8>, i: int, x: u8)
    requires
        0 <= i,
        i + 1 <= s.len(),
        s.subrange(i, i + 1) == se_u8(x),
    ensures
        sd_u8(s, i) == Some((x, i + 1)),
{
    assert(s[i] == se_u8(x)[0]);
}

/// Splits the fact that `a + b` lies at `i` into one fact per part.
pub proof fn lemma_split2(s: Seq<u8>, i: int, a: Seq<u8>, b: Seq<u8>)
    requires
        0 <= i,
        i + a.len() + b.len() <= s.len(),
        s.subrange(i, i + a.len() + b.len()) == a + b,
    ensures
        s.subrange(i, i + a.len()) == a,
        s.subrange(i + a.len(), i + a.len() + b.len()) == b,
{
    let ab = s.subrange(i, i + a.len() + b.len());
    assert(s.subrange(i, i + a.len()) =~= a) by {
        assert forall|k: int| 0 <= k < a.len() implies s.subrange(i, i + a.len())[k] == a[k] by {
            assert(ab[k] == (a + b)[k]);
        }
    }
    assert(s.subrange(i + a.len(), i + a.len() + b.len()) =~= b) by {
        assert forall|k: int| 0 <= k < b.len() implies s.subrange(
            i + a.len(),
            i + a.len() + b.len(),
        )[k] == b[k] by {
            assert(ab[a.len() + k] == (a + b)[a.len() + k]);
        }
    }
}

pub proof fn lemma_rt_u128(s: Seq<u8>, i: int, x: u128)
    requires
        0 <= i,
        i + 16 <= s.len(),
        s.subrange(i, i + 16) == se_u128(x),
    ensures
        sd_u128(s, i) == Some((x, i + 16)),
{
    let lo = (x & 0xffff_ffff_ffff_ffff) as u64;
    let hi = (x >> 64) as u64;
    lemma_split2(s, i, se_u64(lo), se_u64(hi));
    lemma_rt_u64(s, i, lo);
    lemma_rt_u64(s, i + 8, hi);
    assert((lo as u128) | ((hi as u128) << 64) == x) by {
        assert((((x & 0xffff_ffff_ffff_ffff) as u64) as u128) | ((((x >> 64) as u64)
            as u128) << 64) == x) by (bit_vector);
    }
}

pub proof fn lemma_rt_i64(s: Seq<u8>, i: int, x: i64)
    requires
        0 <= i,
        i + 8 <= s.len(),
        s.subrange(i, i + 8) == se_i64(x),
    ensures
        sd_i64(s, i) == Some((x, i + 8)),
{
    lemma_rt_u64(s, i, x as u64);
    assert(((x as u64) as i64) == x) by (bit_vector);
}

pub proof fn lemma_rt_bool(s: Seq<u8>, i: int, b: bool)
    requires
        0 <= i,
        i + 1 <= s.len(),
        s.subrange(i, i + 1) == se_bool(b),
    ensures
        sd_bool(s, i) == Some((b, i + 1)),
{
    assert(s[i] == se_bool(b)[0]);
}

// ---------------------------------------------------------------------------
// Length-prefixed shapes: raw bytes, characters, options and lists.

pub open spec fn se_len(n: nat) -> Seq<u8> {
    se_u64(n as u64)
}

pub open spec fn sd_len(s: Seq<u8>, i: int) -> Option<(nat, int)> {
    match sd_u64(s, i) {
        None => None,
        Some((x, j)) => Some((x as nat, j)),
    }
}

pub proof fn lemma_rt_len(s: Seq<u8>, i: int, n: nat)
    requires
        0 <= i,
        i + 8 <= s.len(),
        n <= u64::MAX,
        s.subrange(i, i + 8) == se_len(n),
    ensures
        sd_len(s, i) == Some((n, i + 8)),
{
    lemma_rt_u64(s, i, n as u64);
}

pub open spec fn se_bytes(b: Seq<u8>) -> Seq<u8> {
    se_len(b.len()) + b
}

pub open spec fn sd_bytes(s: Seq<u8>, i: int) -> Option<(Seq<u8>, int)> {
    match sd_len(s, i) {
        None => None,
        Some((n, j)) => if j + n <= s.len() {
            Some((s.subrange(j, j + n), j + n))
        } else {
            None
        },
    }
}

pub proof fn lemma_rt_bytes(s: Seq<u8>, i: int, b: Seq<u8>)
    requires
        0 <= i,
        b.len() <= u64::MAX,
        i + se_bytes(b).len() <= s.len(),
        s.subrange(i, i + se_bytes(b).len()) == se_bytes(b),
    ensures
        sd_bytes(s, i) == Some((b, i + se_bytes(b).len())),
{
    lemma_split2(s, i, se_len(b.len()), b);
    lemma_rt_len(s, i, b.len());
}

/// True of the 32-bit values that are Unicode scalar values.
pub open spec fn is_unicode_scalar(u: u32) -> bool {
    vstd::utf8::is_scalar(u)
}

pub open spec fn char_of_scalar(u: u32) -> char {
    u as char
}

pub open spec fn se_chars(cs: Seq<char>) -> Seq<u8>
    decreases cs.len(),
{
    if cs.len() == 0 {
        Seq::empty()
    } else {
        se_u32(cs[0] as u32) + se_chars(cs.skip(1))
    }
}

pub open spec fn sd_chars(s: Seq<u8>, i: int, n: nat) -> Option<(Seq<char>, int)>
    decreases n,
{
    if n == 0 {
        Some((Seq::empty(), i))
    } else {
        match sd_u32(s, i) {
            None => None,
            Some((u, j)) => if is_unicode_scalar(u) {
                match sd_chars(s, j, (n - 1) as nat) {
                    None => None,
                    Some((cs, k)) => Some((seq![char_of_scalar(u)] + cs, k)),
                }
            } else {
                None
            },
        }
    }
}

pub proof fn lemma_se_chars_len(cs: Seq<char>)
    ensures
        se_chars(cs).len() == 4 * cs.len(),
    decreases cs.len(),
{
    if cs.len() > 0 {
        lemma_se_chars_len(cs.skip(1));
    }
}

pub proof fn lemma_rt_chars(s: Seq<u8>, i: int, cs: Seq<char>)
    requires
        0 <= i,
        i + se_chars(cs).len() <= s.len(),
        s.subrange(i, i + se_chars(cs).len()) == se_chars(cs),
    ensures
        sd_chars(s, i, cs.len()) == Some((cs, i + se_chars(cs).len())),
    decreases cs.len(),
{
    lemma_se_chars_len(cs);
    if cs.len() > 0 {
        let u = cs[0] as u32;
        let rest = cs.skip(1);
        lemma_se_chars_len(rest);
        lemma_split2(s, i, se_u32(u), se_chars(rest));
        lemma_rt_u32(s, i, u);
        lemma_rt_chars(s, i + 4, rest);
        vstd::utf8::char_is_scalar(cs[0]);
        vstd::utf8::char_u32_cast(cs[0], u);
        assert(seq![cs[0]] + rest =~= cs);
    }
}

/// The encoding of a string: its character count, then each character
/// as a 32-bit scalar.
pub open spec fn se_str(cs: Seq<char>) -> Seq<u8> {
    se_len(cs.len()) + se_chars(cs)
}

pub open spec fn sd_str(s: Seq<u8>, i: int) -> Option<(Seq<char>, int)> {
    match sd_len(s, i) {
        None => None,
        Some((n, j)) => sd_chars(s, j, n),
    }
}

pub proof fn lemma_rt_str(s: Seq<u8>, i: int, cs: Seq<char>)
    requires
        0 <= i,
        cs.len() <= u64::MAX,
        i + se_str(cs).len() <= s.len(),
        s.subrange(i, i + se_str(cs).len()) == se_str(cs),
    ensures
        sd_str(s, i) == Some((cs, i + se_str(cs).len())),
{
    lemma_split2(s, i, se_len(cs.len()), se_chars(cs));
    lemma_rt_len(s, i, cs.len());
    lemma_rt_chars(s, i + 8, cs);
}

// ---------------------------------------------------------------------------
// Generic option and list shapes, parameterised by the element coders.

pub open spec fn se_opt<T>(o: Option<T>, f: spec_fn(T) -> Seq<u8>) -> Seq<u8> {
    match o {
        None => seq![0u8],
        Some(x) => seq![1u8] + f(x),
    }
}

pub open spec fn sd_opt<T>(
    s: Seq<u8>,
    i: int,
    g: spec_fn(Seq<u8>, int) -> Option<(T, int)>,
) -> Option<(Option<T>, int)> {
    match sd_u8(s, i) {
        None => None,
        Some((t, j)) => if t == 0 {
            Some((None, j))
        } else if t == 1 {
            match g(s, j) {
                None => None,
                Some((x, k)) => Some((Some(x), k)),
            }
        } else {
            None
        },
    }
}

/// What it means for a decoder `g` to invert an encoder `f` on values
/// that satisfy `wf`: wherever the encoding of such an `x` lies, `g`
/// returns `x` and stops right after it.
pub open spec fn inverts_on<T>(
    f: spec_fn(T) -> Seq<u8>,
    g: spec_fn(Seq<u8>, int) -> Option<(T, int)>,
    wf: spec_fn(T) -> bool,
) -> bool {
    forall|s: Seq<u8>, i: int, x: T|
        #![trigger g(s, i), f(x)]
        wf(x) && 0 <= i && i + f(x).len() <= s.len() && s.subrange(i, i + f(x).len()) == f(x)
            ==> g(s, i) == Some::<(T, int)>((x, i + f(x).len()))
}

pub proof fn lemma_rt_opt<T>(
    s: Seq<u8>,
    i: int,
    o: Option<T>,
    f: spec_fn(T) -> Seq<u8>,
    g: spec_fn(Seq<u8>, int) -> Option<(T, int)>,
    wf: spec_fn(T) -> bool,
)
    requires
        inverts_on(f, g, wf),
        o matches Some(x) ==> wf(x),
        0 <= i,
        i + se_opt(o, f).len() <= s.len(),
        s.subrange(i, i + se_opt(o, f).len()) == se_opt(o, f),
    ensures
        sd_opt(s, i, g) == Some((o, i + se_opt(o, f).len())),
{
    match o {
        None => {
            assert(s[i] == se_opt(o, f)[0]);
        },
        Some(x) => {
            lemma_split2(s, i, seq![1u8], f(x));
            assert(s.subrange(i, i + 1)[0] == s[i]);
            assert(s[i] == 1u8);
            assert(g(s, i + 1) == Some::<(T, int)>((x, i + 1 + f(x).len())));
        },
    }
}

pub open spec fn se_list<T>(items: Seq<T>, f: spec_fn(T) -> Seq<u8>) -> Seq<u8>
    decreases items.len(),
{
    if items.len() == 0 {
        Seq::empty()
    } else {
        f(items[0]) + se_list(items.skip(1), f)
    }
}

pub proof fn lemma_se_list_push<T>(items: Seq<T>, f: spec_fn(T) -> Seq<u8>, x: T)
    ensures
        se_list(items.push(x), f) == se_list(items, f) + f(x),
    decreases items.len(),
{
    if items.len() == 0 {
        assert(items.push(x)[0] == x);
        assert(items.push(x).skip(1) =~= Seq::<T>::empty());
        assert(se_list(items.push(x), f) == f(x) + se_list(Seq::<T>::empty(), f));
        assert(f(x) + Seq::<u8>::empty() =~= f(x));
        assert(se_list(items, f) + f(x) =~= f(x));
    } else {
        assert(items.push(x).skip(1) =~= items.skip(1).push(x));
        lemma_se_list_push(items.skip(1), f, x);
        assert(items.push(x)[0] == items[0]);
        assert(se_list(items.push(x), f) == f(items[0]) + (se_list(items.skip(1), f) + f(x)));
        assert(f(items[0]) + (se_list(items.skip(1), f) + f(x)) =~= (f(items[0]) + se_list(
            items.skip(1),
            f,
        )) + f(x));
    }
}

pub open spec fn sd_list<T>(
    s: Seq<u8>,
    i: int,
    n: nat,
    g: spec_fn(Seq<u8>, int) -> Option<(T, int)>,
) -> Option<(Seq<T>, int)>
    decreases n,
{
    if n == 0 {
        Some((Seq::empty(), i))
    } else {
        match g(s, i) {
            None => None,
            Some((x, j)) => match sd_list(s, j, (n - 1) as nat, g) {
                None => None,
                Some((xs, k)) => Some((seq![x] + xs, k)),
            },
        }
    }
}

pub proof fn lemma_rt_list<T>(
    s: Seq<u8>,
    i: int,
    items: Seq<T>,
    f: spec_fn(T) -> Seq<u8>,
    g: spec_fn(Seq<u8>, int) -> Option<(T, int)>,
    wf: spec_fn(T) -> bool,
)
    requires
        inverts_on(f, g, wf),
        forall|k: int| 0 <= k < items.len() ==> wf(#[trigger] items[k]),
        0 <= i,
        i + se_list(items, f).len() <= s.len(),
        s.subrange(i, i + se_list(items, f).len()) == se_list(items, f),
    ensures
        sd_list(s, i, items.len(), g) == Some((items, i + se_list(items, f).len())),
    decreases items.len(),
{
    if items.len() > 0 {
        let head = f(items[0]);
        let rest = se_list(items.skip(1), f);
        lemma_split2(s, i, head, rest);
        assert(g(s, i) == Some::<(T, int)>((items[0], i + head.len())));
        lemma_rt_list(s, i + head.len(), items.skip(1), f, g, wf);
        assert(seq![items[0]] + items.skip(1) =~= items);
    }
}

/// A counted list: the element count, then each element.
pub open spec fn se_seq<T>(items: Seq<T>, f: spec_fn(T) -> Seq<u8>) -> Seq<u8> {
    se_len(items.len()) + se_list(items, f)
}

pub open spec fn sd_seq<T>(
    s: Seq<u8>,
    i: int,
    g: spec_fn(Seq<u8>, int) -> Option<(T, int)>,
) -> Option<(Seq<T>, int)> {
    match sd_len(s, i) {
        None => None,
        Some((n, j)) => sd_list(s, j, n, g),
    }
}

pub proof fn lemma_rt_seq<T>(
    s: Seq<u8>,
    i: int,
    items: Seq<T>,
    f: spec_fn(T) -> Seq<u8>,
    g: spec_fn(Seq<u8>, int) -> Option<(T, int)>,
    wf: spec_fn(T) -> bool,
)
    requires
        inverts_on(f, g, wf),
        forall|k: int| 0 <= k < items.len() ==> wf(#[trigger] items[k]),
        0 <= i,
        items.len() <= u64::MAX,
        i + se_seq(items, f).len() <= s.len(),
        s.subrange(i, i + se_seq(items, f).len()) == se_seq(items, f),
    ensures
        sd_seq(s, i, g) == Some((items, i + se_seq(items, f).len())),
{
    lemma_split2(s, i, se_len(items.len()), se_list(items, f));
    lemma_rt_len(s, i, items.len());
    lemma_rt_list(s, i + 8, items, f, g, wf);
}

// ---------------------------------------------------------------------------
// Named coder bundles for the element types that appear inside options
// and lists, so that every use names the same function value.

pub open spec fn f_str() -> spec_fn(Seq<char>) -> Seq<u8> {
    |cs: Seq<char>| se_str(cs)
}

pub open spec fn g_str() -> spec_fn(Seq<u8>, int) -> Option<(Seq<char>, int)> {
    |s: Seq<u8>, i: int| sd_str(s, i)
}

pub open spec fn w_str() -> spec_fn(Seq<char>) -> bool {
    |cs: Seq<char>| wf_str_v(cs)
}

pub proof fn lemma_inv_str()
    ensures
        inverts_on(f_str(), g_str(), w_str()),
{
    assert forall|s: Seq<u8>, i: int, x: Seq<char>|
        #![trigger g_str()(s, i), f_str()(x)]
        w_str()(x) && 0 <= i && i + f_str()(x).len() <= s.len() && s.subrange(
            i,
            i + f_str()(x).len(),
        ) == f_str()(x) implies g_str()(s, i) == Some::<(Seq<char>, int)>(
        (x, i + f_str()(x).len()),
    ) by {
        lemma_rt_str(s, i, x);
    }
}

pub open spec fn f_sid() -> spec_fn(SpanId) -> Seq<u8> {
    |p: SpanId| se_u64(p.0)
}

pub open spec fn g_sid() -> spec_fn(Seq<u8>, int) -> Option<(SpanId, int)> {
    |s: Seq<u8>, i: int|
        match sd_u64(s, i) {
            None => None,
            Some((x, j)) => Some((SpanId(x), j)),
        }
}

pub open spec fn w_true<T>() -> spec_fn(T) -> bool {
    |x: T| true
}

pub proof fn lemma_inv_sid()
    ensures
        inverts_on(f_sid(), g_sid(), w_true::<SpanId>()),
{
    assert forall|s: Seq<u8>, i: int, x: SpanId|
        #![trigger g_sid()(s, i), f_sid()(x)]
        0 <= i && i + f_sid()(x).len() <= s.len() && s.subrange(i, i + f_sid()(x).len())
            == f_sid()(x) implies g_sid()(s, i) == Some::<(SpanId, int)>(
        (x, i + f_sid()(x).len()),
    ) by {
        lemma_rt_u64(s, i, x.0);
    }
}

pub open spec fn f_u32() -> spec_fn(u32) -> Seq<u8> {
    |x: u32| se_u32(x)
}

pub open spec fn g_u32() -> spec_fn(Seq<u8>, int) -> Option<(u32, int)> {
    |s: Seq<u8>, i: int| sd_u32(s, i)
}

pub proof fn lemma_inv_u32()
    ensures
        inverts_on(f_u32(), g_u32(), w_true::<u32>()),
{
    assert forall|s: Seq<u8>, i: int, x: u32|
        #![trigger g_u32()(s, i), f_u32()(x)]
        0 <= i && i + f_u32()(x).len() <= s.len() && s.subrange(i, i + f_u32()(x).len())
            == f_u32()(x) implies g_u32()(s, i) == Some::<(u32, int)>(
        (x, i + f_u32()(x).len()),
    ) by {
        lemma_rt_u32(s, i, x);
    }
}

// ---------------------------------------------------------------------------
// The wire types themselves.

pub open spec fn se_level(l: LogLevel) -> Seq<u8> {
    match l {
        LogLevel::Trace => seq![0u8],
        LogLevel::Debug => seq![1u8],
        LogLevel::Info => seq![2u8],
        LogLevel::Warn => seq![3u8],
        LogLevel::Error => seq![4u8],
    }
}

pub open spec fn sd_level(s: Seq<u8>, i: int) -> Option<(LogLevel, int)> {
    match sd_u8(s, i) {
        None => None,
        Some((t, j)) => if t == 0 {
            Some((LogLevel::Trace, j))
        } else if t == 1 {
            Some((LogLevel::Debug, j))
        } else if t == 2 {
            Some((LogLevel::Info, j))
        } else if t == 3 {
            Some((LogLevel::Warn, j))
        } else if t == 4 {
            Some((LogLevel::Error, j))
        } else {
            None
        },
    }
}

pub proof fn lemma_rt_level(s: Seq<u8>, i: int, l: LogLevel)
    requires
        0 <= i,
        i + 1 <= s.len(),
        s.subrange(i, i + 1) == se_level(l),
    ensures
        sd_level(s, i) == Some((l, i + 1)),
{
    assert(s[i] == se_level(l)[0]);
}

pub open spec fn se_kind(k: CallsiteKind) -> Seq<u8> {
    match k {
        CallsiteKind::Event => seq![0u8],
        CallsiteKind::Span => seq![1u8],
    }
}

pub open spec fn sd_kind(s: Seq<u8>, i: int) -> Option<(CallsiteKind, int)> {
    match sd_u8(s, i) {
        None => None,
        Some((t, j)) => if t == 0 {
            Some((CallsiteKind::Event, j))
        } else if t == 1 {
            Some((CallsiteKind::Span, j))
        } else {
            None
        },
    }
}

pub proof fn lemma_rt_kind(s: Seq<u8>, i: int, k: CallsiteKind)
    requires
        0 <= i,
        i + 1 <= s.len(),
        s.subrange(i, i + 1) == se_kind(k),
    ensures
        sd_kind(s, i) == Some((k, i + 1)),
{
    assert(s[i] == se_kind(k)[0]);
}

pub open spec fn se_location(l: LocationV) -> Seq<u8> {
    se_str(l.module) + se_opt(l.file, f_str()) + se_opt(l.line, f_u32())
}

pub open spec fn sd_location(s: Seq<u8>, i: int) -> Option<(LocationV, int)> {
    match sd_str(s, i) {
        None => None,
        Some((module, j)) => match sd_opt(s, j, g_str()) {
            None => None,
            Some((file, k)) => match sd_opt(s, k, g_u32()) {
                None => None,
                Some((line, m)) => Some((LocationV { module, file, line }, m)),
            },
        },
    }
}

pub proof fn lemma_rt_location(s: Seq<u8>, i: int, l: LocationV)
    requires
        l.wf(),
        0 <= i,
        i + se_location(l).len() <= s.len(),
        s.subrange(i, i + se_location(l).len()) == se_location(l),
    ensures
        sd_location(s, i) == Some((l, i + se_location(l).len())),
{
    let a = se_str(l.module);
    let b = se_opt(l.file, f_str());
    let c = se_opt(l.line, f_u32());
    lemma_split2(s, i, a + b, c);
    lemma_split2(s, i, a, b);
    lemma_rt_str(s, i, l.module);
    lemma_inv_str();
    lemma_rt_opt(s, i + a.len(), l.file, f_str(), g_str(), w_str());
    lemma_inv_u32();
    lemma_rt_opt(s, i + a.len() + b.len(), l.line, f_u32(), g_u32(), w_true::<u32>());
}

pub open spec fn se_callsite(c: CallsiteV) -> Seq<u8> {
    se_u64(c.id.0) + se_kind(c.kind) + se_str(c.name) + se_level(c.level) + se_location(c.location)
        + se_seq(c.field_names, f_str())
}

pub open spec fn sd_callsite(s: Seq<u8>, i: int) -> Option<(CallsiteV, int)> {
    match sd_u64(s, i) {
        None => None,
        Some((id, p1)) => match sd_kind(s, p1) {
            None => None,
            Some((kind, p2)) => match sd_str(s, p2) {
                None => None,
                Some((name, p3)) => match sd_level(s, p3) {
                    None => None,
                    Some((level, p4)) => match sd_location(s, p4) {
                        None => None,
                        Some((location, p5)) => match sd_seq(s, p5, g_str()) {
                            None => None,
                            Some((field_names, p6)) => Some(
                                (
                                    CallsiteV {
                                        id: CallsiteId(id),
                                        kind,
                                        name,
                                        level,
                                        location,
                                        field_names,
                                    },
                                    p6,
                                ),
                            ),
                        },
                    },
                },
            },
        },
    }
}

#[verifier::rlimit(80)]
pub proof fn lemma_rt_callsite(s: Seq<u8>, i: int, c: CallsiteV)
    requires
        c.wf(),
        0 <= i,
        i + se_callsite(c).len() <= s.len(),
        s.subrange(i, i + se_callsite(c).len()) == se_callsite(c),
    ensures
        sd_callsite(s, i) == Some((c, i + se_callsite(c).len())),
{
    let a = se_u64(c.id.0);
    let b = se_kind(c.kind);
    let d = se_str(c.name);
    let e = se_level(c.level);
    let f = se_location(c.location);
    let g = se_seq(c.field_names, f_str());
    lemma_split2(s, i, a + b + d + e + f, g);
    lemma_split2(s, i, a + b + d + e, f);
    lemma_split2(s, i, a + b + d, e);
    lemma_split2(s, i, a + b, d);
    lemma_split2(s, i, a, b);
    lemma_rt_u64(s, i, c.id.0);
    lemma_rt_kind(s, i + a.len(), c.kind);
    lemma_rt_str(s, i + a.len() + b.len(), c.name);
    lemma_rt_level(s, i + a.len() + b.len() + d.len(), c.level);
    lemma_rt_location(s, i + a.len() + b.len() + d.len() + e.len(), c.location);
    lemma_inv_str();
    lemma_rt_seq(
        s,
        i + a.len() + b.len() + d.len() + e.len() + f.len(),
        c.field_names,
        f_str(),
        g_str(),
        w_str(),
    );
}

pub open spec fn se_value(v: ValueV) -> Seq<u8> {
    match v {
        ValueV::String(x) => seq![0u8] + se_str(x),
        ValueV::I64(x) => seq![1u8] + se_i64(x),
        ValueV::U64(x) => seq![2u8] + se_u64(x),
        ValueV::F64Bits(x) => seq![3u8] + se_u64(x),
        ValueV::Bool(x) => seq![4u8] + se_bool(x),
        ValueV::Debug(x) => seq![5u8] + se_str(x),
        ValueV::Error { description, details } => seq![6u8] + se_str(description) + se_str(
            details,
        ),
    }
}

pub open spec fn sd_value(s: Seq<u8>, i: int) -> Option<(ValueV, int)> {
    match sd_u8(s, i) {
        None => None,
        Some((t, j)) => if t == 0 {
            match sd_str(s, j) {
                None => None,
                Some((x, k)) => Some((ValueV::String(x), k)),
            }
        } else if t == 1 {
            match sd_i64(s, j) {
                None => None,
                Some((x, k)) => Some((ValueV::I64(x), k)),
            }
        } else if t == 2 {
            match sd_u64(s, j) {
                None => None,
                Some((x, k)) => Some((ValueV::U64(x), k)),
            }
        } else if t == 3 {
            match sd_u64(s, j) {
                None => None,
                Some((x, k)) => Some((ValueV::F64Bits(x), k)),
            }
        } else if t == 4 {
            match sd_bool(s, j) {
                None => None,
                Some((x, k)) => Some((ValueV::Bool(x), k)),
            }
        } else if t == 5 {
            match sd_str(s, j) {
                None => None,
                Some((x, k)) => Some((ValueV::Debug(x), k)),
            }
        } else if t == 6 {
            match sd_str(s, j) {
                None => None,
                Some((description, k)) => match sd_str(s, k) {
                    None => None,
                    Some((details, m)) => Some((ValueV::Error { description, details }, m)),
                },
            }
        } else {
            None
        },
    }
}

pub proof fn lemma_rt_value(s: Seq<u8>, i: int, v: ValueV)
    requires
        v.wf(),
        0 <= i,
        i + se_value(v).len() <= s.len(),
        s.subrange(i, i + se_value(v).len()) == se_value(v),
    ensures
        sd_value(s, i) == Some((v, i + se_value(v).len())),
{
    match v {
        ValueV::String(x) => {
            lemma_split2(s, i, seq![0u8], se_str(x));
            assert(s.subrange(i, i + 1)[0] == s[i]);
            lemma_rt_str(s, i + 1, x);
        },
        ValueV::I64(x) => {
            lemma_split2(s, i, seq![1u8], se_i64(x));
            assert(s.subrange(i, i + 1)[0] == s[i]);
            lemma_rt_i64(s, i + 1, x);
        },
        ValueV::U64(x) => {
            lemma_split2(s, i, seq![2u8], se_u64(x));
            assert(s.subrange(i, i + 1)[0] == s[i]);
            lemma_rt_u64(s, i + 1, x);
        },
        ValueV::F64Bits(x) => {
            lemma_split2(s, i, seq![3u8], se_u64(x));
            assert(s.subrange(i, i + 1)[0] == s[i]);
            lemma_rt_u64(s, i + 1, x);
        },
        ValueV::Bool(x) => {
            lemma_split2(s, i, seq![4u8], se_bool(x));
            assert(s.subrange(i, i + 1)[0] == s[i]);
            lemma_rt_bool(s, i + 1, x);
        },
        ValueV::Debug(x) => {
            lemma_split2(s, i, seq![5u8], se_str(x));
            assert(s.subrange(i, i + 1)[0] == s[i]);
            lemma_rt_str(s, i + 1, x);
        },
        ValueV::Error { description, details } => {
            lemma_split2(s, i, seq![6u8] + se_str(description), se_str(details));
            lemma_split2(s, i, seq![6u8], se_str(description));
            assert(s.subrange(i, i + 1)[0] == s[i]);
            lemma_rt_str(s, i + 1, description);
            lemma_rt_str(s, i + 1 + se_str(description).len(), details);
        },
    }
}

pub open spec fn se_field(f: (Seq<char>, ValueV)) -> Seq<u8> {
    se_str(f.0) + se_value(f.1)
}

pub open spec fn sd_field(s: Seq<u8>, i: int) -> Option<((Seq<char>, ValueV), int)> {
    match sd_str(s, i) {
        None => None,
        Some((name, j)) => match sd_value(s, j) {
            None => None,
            Some((v, k)) => Some(((name, v), k)),
        },
    }
}

pub open spec fn f_field() -> spec_fn((Seq<char>, ValueV)) -> Seq<u8> {
    |f: (Seq<char>, ValueV)| se_field(f)
}

pub open spec fn g_field() -> spec_fn(Seq<u8>, int) -> Option<((Seq<char>, ValueV), int)> {
    |s: Seq<u8>, i: int| sd_field(s, i)
}

pub open spec fn w_field() -> spec_fn((Seq<char>, ValueV)) -> bool {
    |f: (Seq<char>, ValueV)| wf_str_v(f.0) && f.1.wf()
}

pub proof fn lemma_inv_field()
    ensures
        inverts_on(f_field(), g_field(), w_field()),
{
    assert forall|s: Seq<u8>, i: int, x: (Seq<char>, ValueV)|
        #![trigger g_field()(s, i), f_field()(x)]
        w_field()(x) && 0 <= i && i + f_field()(x).len() <= s.len() && s.subrange(
            i,
            i + f_field()(x).len(),
        ) == f_field()(x) implies g_field()(s, i) == Some::<((Seq<char>, ValueV), int)>(
        (x, i + f_field()(x).len()),
    ) by {
        lemma_split2(s, i, se_str(x.0), se_value(x.1));
        lemma_rt_str(s, i, x.0);
        lemma_rt_value(s, i + se_str(x.0).len(), x.1);
        assert((x.0, x.1) == x);
    }
}

/// The encoding of a field list.
pub open spec fn se_fields(fields: Seq<(Seq<char>, ValueV)>) -> Seq<u8> {
    se_seq(fields, f_field())
}

pub open spec fn sd_fields(s: Seq<u8>, i: int) -> Option<(Seq<(Seq<char>, ValueV)>, int)> {
    sd_seq(s, i, g_field())
}

pub proof fn lemma_rt_fields(s: Seq<u8>, i: int, fields: Seq<(Seq<char>, ValueV)>)
    requires
        wf_fields_v(fields),
        0 <= i,
        i + se_fields(fields).len() <= s.len(),
        s.subrange(i, i + se_fields(fields).len()) == se_fields(fields),
    ensures
        sd_fields(s, i) == Some((fields, i + se_fields(fields).len())),
{
    lemma_inv_field();
    assert(forall|k: int| 0 <= k < fields.len() ==> w_field()(#[trigger] fields[k]));
    lemma_rt_seq(s, i, fields, f_field(), g_field(), w_field());
}

pub open spec fn se_span(sp: SpanV) -> Seq<u8> {
    se_u64(sp.id.0) + se_opt(sp.parent_span_id, f_sid()) + se_u64(sp.callsite_id.0) + se_fields(
        sp.fields,
    )
}

pub open spec fn sd_span(s: Seq<u8>, i: int) -> Option<(SpanV, int)> {
    match sd_u64(s, i) {
        None => None,
        Some((id, p1)) => match sd_opt(s, p1, g_sid()) {
            None => None,
            Some((parent, p2)) => match sd_u64(s, p2) {
                None => None,
                Some((callsite, p3)) => match sd_fields(s, p3) {
                    None => None,
                    Some((fields, p4)) => Some(
                        (
                            SpanV {
                                id: SpanId(id),
                                parent_span_id: parent,
                                callsite_id: CallsiteId(callsite),
                                fields,
                            },
                            p4,
                        ),
                    ),
                },
            },
        },
    }
}

pub proof fn lemma_rt_span(s: Seq<u8>, i: int, sp: SpanV)
    requires
        sp.wf(),
        0 <= i,
        i + se_span(sp).len() <= s.len(),
        s.subrange(i, i + se_span(sp).len()) == se_span(sp),
    ensures
        sd_span(s, i) == Some((sp, i + se_span(sp).len())),
{
    let a = se_u64(sp.id.0);
    let b = se_opt(sp.parent_span_id, f_sid());
    let c = se_u64(sp.callsite_id.0);
    let d = se_fields(sp.fields);
    lemma_split2(s, i, a + b + c, d);
    lemma_split2(s, i, a + b, c);
    lemma_split2(s, i, a, b);
    lemma_rt_u64(s, i, sp.id.0);
    lemma_inv_sid();
    lemma_rt_opt(s, i + a.len(), sp.parent_span_id, f_sid(), g_sid(), w_true::<SpanId>());
    lemma_rt_u64(s, i + a.len() + b.len(), sp.callsite_id.0);
    lemma_rt_fields(s, i + a.len() + b.len() + c.len(), sp.fields);
}

pub open spec fn se_data_event(e: DataEventV) -> Seq<u8> {
    se_u64(e.callsite_id.0) + se_opt(e.parent_span_id, f_sid()) + se_fields(e.fields)
}

pub open spec fn sd_data_event(s: Seq<u8>, i: int) -> Option<(DataEventV, int)> {
    match sd_u64(s, i) {
        None => None,
        Some((callsite, p1)) => match sd_opt(s, p1, g_sid()) {
            None => None,
            Some((parent, p2)) => match sd_fields(s, p2) {
                None => None,
                Some((fields, p3)) => Some(
                    (
                        DataEventV {
                            callsite_id: CallsiteId(callsite),
                            parent_span_id: parent,
                            fields,
                        },
                        p3,
                    ),
                ),
            },
        },
    }
}

pub proof fn lemma_rt_data_event(s: Seq<u8>, i: int, e: DataEventV)
    requires
        e.wf(),
        0 <= i,
        i + se_data_event(e).len() <= s.len(),
        s.subrange(i, i + se_data_event(e).len()) == se_data_event(e),
    ensures
        sd_data_event(s, i) == Some((e, i + se_data_event(e).len())),
{
    let a = se_u64(e.callsite_id.0);
    let b = se_opt(e.parent_span_id, f_sid());
    let c = se_fields(e.fields);
    lemma_split2(s, i, a + b, c);
    lemma_split2(s, i, a, b);
    lemma_rt_u64(s, i, e.callsite_id.0);
    lemma_inv_sid();
    lemma_rt_opt(s, i + a.len(), e.parent_span_id, f_sid(), g_sid(), w_true::<SpanId>());
    lemma_rt_fields(s, i + a.len() + b.len(), e.fields);
}

pub open spec fn se_msg_enum(m: MessageEnumV) -> Seq<u8> {
    match m {
        MessageEnumV::NewCallsite(c) => seq![0u8] + se_callsite(c),
        MessageEnumV::NewSpan(sp) => seq![1u8] + se_span(sp),
        MessageEnumV::EnterSpan(id) => seq![2u8] + se_u64(id.0),
        MessageEnumV::ExitSpan(id) => seq![3u8] + se_u64(id.0),
        MessageEnumV::DestroySpan(id) => seq![4u8] + se_u64(id.0),
        MessageEnumV::SpanFollowsFrom { span, follows } => seq![5u8] + se_u64(span.0) + se_u64(
            follows.0,
        ),
        MessageEnumV::DataEvent(e) => seq![6u8] + se_data_event(e),
    }
}

pub open spec fn sd_msg_enum(s: Seq<u8>, i: int) -> Option<(MessageEnumV, int)> {
    match sd_u8(s, i) {
        None => None,
        Some((t, j)) => if t == 0 {
            match sd_callsite(s, j) {
                None => None,
                Some((c, k)) => Some((MessageEnumV::NewCallsite(c), k)),
            }
        } else if t == 1 {
            match sd_span(s, j) {
                None => None,
                Some((sp, k)) => Some((MessageEnumV::NewSpan(sp), k)),
            }
        } else if t == 2 {
            match sd_u64(s, j) {
                None => None,
                Some((id, k)) => Some((MessageEnumV::EnterSpan(SpanId(id)), k)),
            }
        } else if t == 3 {
            match sd_u64(s, j) {
                None => None,
                Some((id, k)) => Some((MessageEnumV::ExitSpan(SpanId(id)), k)),
            }
        } else if t == 4 {
            match sd_u64(s, j) {
                None => None,
                Some((id, k)) => Some((MessageEnumV::DestroySpan(SpanId(id)), k)),
            }
        } else if t == 5 {
            match sd_u64(s, j) {
                None => None,
                Some((span, k)) => match sd_u64(s, k) {
                    None => None,
                    Some((follows, m)) => Some(
                        (
                            MessageEnumV::SpanFollowsFrom {
                                span: SpanId(span),
                                follows: SpanId(follows),
                            },
                            m,
                        ),
                    ),
                },
            }
        } else if t == 6 {
            match sd_data_event(s, j) {
                None => None,
                Some((e, k)) => Some((MessageEnumV::DataEvent(e), k)),
            }
        } else {
            None
        },
    }
}

#[verifier::rlimit(100)]
#[verifier::spinoff_prover]
pub proof fn lemma_rt_msg_enum(s: Seq<u8>, i: int, m: MessageEnumV)
    requires
        m.wf(),
        0 <= i,
        i + se_msg_enum(m).len() <= s.len(),
        s.subrange(i, i + se_msg_enum(m).len()) == se_msg_enum(m),
    ensures
        sd_msg_enum(s, i) == Some((m, i + se_msg_enum(m).len())),
{
    match m {
        MessageEnumV::NewCallsite(c) => {
            lemma_split2(s, i, seq![0u8], se_callsite(c));
            assert(s.subrange(i, i + 1)[0] == s[i]);
            lemma_rt_callsite(s, i + 1, c);
        },
        MessageEnumV::NewSpan(sp) => {
            lemma_split2(s, i, seq![1u8], se_span(sp));
            assert(s.subrange(i, i + 1)[0] == s[i]);
            lemma_rt_span(s, i + 1, sp);
        },
        MessageEnumV::EnterSpan(id) => {
            lemma_split2(s, i, seq![2u8], se_u64(id.0));
            assert(s.subrange(i, i + 1)[0] == s[i]);
            lemma_rt_u64(s, i + 1, id.0);
        },
        MessageEnumV::ExitSpan(id) => {
            lemma_split2(s, i, seq![3u8], se_u64(id.0));
            assert(s.subrange(i, i + 1)[0] == s[i]);
            lemma_rt_u64(s, i + 1, id.0);
        },
        MessageEnumV::DestroySpan(id) => {
            lemma_split2(s, i, seq![4u8], se_u64(id.0));
            assert(s.subrange(i, i + 1)[0] == s[i]);
            lemma_rt_u64(s, i + 1, id.0);
        },
        MessageEnumV::SpanFollowsFrom { span, follows } => {
            lemma_split2(s, i, seq![5u8] + se_u64(span.0), se_u64(follows.0));
            lemma_split2(s, i, seq![5u8], se_u64(span.0));
            assert(s.subrange(i, i + 1)[0] == s[i]);
            lemma_rt_u64(s, i + 1, span.0);
            lemma_rt_u64(s, i + 9, follows.0);
        },
        MessageEnumV::DataEvent(e) => {
            lemma_split2(s, i, seq![6u8], se_data_event(e));
            assert(s.subrange(i, i + 1)[0] == s[i]);
            lemma_rt_data_event(s, i + 1, e);
        },
    }
}

/// The encoding of a whole trace record.
pub open spec fn se_message(m: MessageV) -> Seq<u8> {
    se_i64(m.log_time.0) + se_msg_enum(m.msg_enum)
}

pub open spec fn sd_message(s: Seq<u8>, i: int) -> Option<(MessageV, int)> {
    match sd_i64(s, i) {
        None => None,
        Some((t, j)) => match sd_msg_enum(s, j) {
            None => None,
            Some((body, k)) => Some((MessageV { log_time: Time(t), msg_enum: body }, k)),
        },
    }
}

pub proof fn lemma_rt_message(s: Seq<u8>, i: int, m: MessageV)
    requires
        m.wf(),
        0 <= i,
        i + se_message(m).len() <= s.len(),
        s.subrange(i, i + se_message(m).len()) == se_message(m),
    ensures
        sd_message(s, i) == Some((m, i + se_message(m).len())),
{
    lemma_split2(s, i, se_i64(m.log_time.0), se_msg_enum(m.msg_enum));
    lemma_rt_i64(s, i, m.log_time.0);
    lemma_rt_msg_enum(s, i + 8, m.msg_enum);
}

pub open spec fn se_topic_meta(m: TopicMetaV) -> Seq<u8> {
    se_u128(m.id.0) + se_i64(m.created.0) + se_str(m.name)
}

pub open spec fn sd_topic_meta(s: Seq<u8>, i: int) -> Option<(TopicMetaV, int)> {
    match sd_u128(s, i) {
        None => None,
        Some((id, p1)) => match sd_i64(s, p1) {
            None => None,
            Some((created, p2)) => match sd_str(s, p2) {
                None => None,
                Some((name, p3)) => Some(
                    (TopicMetaV { id: TopicId(id), created: Time(created), name }, p3),
                ),
            },
        },
    }
}

pub proof fn lemma_rt_topic_meta(s: Seq<u8>, i: int, m: TopicMetaV)
    requires
        m.wf(),
        0 <= i,
        i + se_topic_meta(m).len() <= s.len(),
        s.subrange(i, i + se_topic_meta(m).len()) == se_topic_meta(m),
    ensures
        sd_topic_meta(s, i) == Some((m, i + se_topic_meta(m).len())),
{
    let a = se_u128(m.id.0);
    let b = se_i64(m.created.0);
    let c = se_str(m.name);
    lemma_split2(s, i, a + b, c);
    lemma_split2(s, i, a, b);
    lemma_rt_u128(s, i, m.id.0);
    lemma_rt_i64(s, i + a.len(), m.created.0);
    lemma_rt_str(s, i + a.len() + b.len(), m.name);
}

pub open spec fn f_meta() -> spec_fn(TopicMetaV) -> Seq<u8> {
    |m: TopicMetaV| se_topic_meta(m)
}

pub open spec fn g_meta() -> spec_fn(Seq<u8>, int) -> Option<(TopicMetaV, int)> {
    |s: Seq<u8>, i: int| sd_topic_meta(s, i)
}

pub open spec fn w_meta() -> spec_fn(TopicMetaV) -> bool {
    |m: TopicMetaV| m.wf()
}

pub proof fn lemma_inv_meta()
    ensures
        inverts_on(f_meta(), g_meta(), w_meta()),
{
    assert forall|s: Seq<u8>, i: int, x: TopicMetaV|
        #![trigger g_meta()(s, i), f_meta()(x)]
        w_meta()(x) && 0 <= i && i + f_meta()(x).len() <= s.len() && s.subrange(
            i,
            i + f_meta()(x).len(),
        ) == f_meta()(x) implies g_meta()(s, i) == Some::<(TopicMetaV, int)>(
        (x, i + f_meta()(x).len()),
    ) by {
        lemma_rt_topic_meta(s, i, x);
    }
}

/// The encoding of a broker frame.
pub open spec fn se_pub_sub_msg(p: PubSubMsgV) -> Seq<u8> {
    match p {
        PubSubMsgV::NewTopic(meta) => seq![0u8] + se_topic_meta(meta),
        PubSubMsgV::TopicMsg(id, payload) => seq![1u8] + se_u128(id.0) + se_bytes(payload),
        PubSubMsgV::SubscribeTo(id) => seq![2u8] + se_u128(id.0),
        PubSubMsgV::ListTopics => seq![3u8],
        PubSubMsgV::AllTopics(metas) => seq![4u8] + se_seq(metas, f_meta()),
    }
}

pub open spec fn sd_pub_sub_msg(s: Seq<u8>, i: int) -> Option<(PubSubMsgV, int)> {
    match sd_u8(s, i) {
        None => None,
        Some((t, j)) => if t == 0 {
            match sd_topic_meta(s, j) {
                None => None,
                Some((meta, k)) => Some((PubSubMsgV::NewTopic(meta), k)),
            }
        } else if t == 1 {
            match sd_u128(s, j) {
                None => None,
                Some((id, k)) => match sd_bytes(s, k) {
                    None => None,
                    Some((payload, m)) => Some((PubSubMsgV::TopicMsg(TopicId(id), payload), m)),
                },
            }
        } else if t == 2 {
            match sd_u128(s, j) {
                None => None,
                Some((id, k)) => Some((PubSubMsgV::SubscribeTo(TopicId(id)), k)),
            }
        } else if t == 3 {
            Some((PubSubMsgV::ListTopics, j))
        } else if t == 4 {
            match sd_seq(s, j, g_meta()) {
                None => None,
                Some((metas, k)) => Some((PubSubMsgV::AllTopics(metas), k)),
            }
        } else {
            None
        },
    }
}

pub proof fn lemma_rt_pub_sub_msg(s: Seq<u8>, i: int, p: PubSubMsgV)
    requires
        p.wf(),
        0 <= i,
        i + se_pub_sub_msg(p).len() <= s.len(),
        s.subrange(i, i + se_pub_sub_msg(p).len()) == se_pub_sub_msg(p),
    ensures
        sd_pub_sub_msg(s, i) == Some((p, i + se_pub_sub_msg(p).len())),
{
    match p {
        PubSubMsgV::NewTopic(meta) => {
            lemma_split2(s, i, seq![0u8], se_topic_meta(meta));
            assert(s.subrange(i, i + 1)[0] == s[i]);
            lemma_rt_topic_meta(s, i + 1, meta);
        },
        PubSubMsgV::TopicMsg(id, payload) => {
            lemma_split2(s, i, seq![1u8] + se_u128(id.0), se_bytes(payload));
            lemma_split2(s, i, seq![1u8], se_u128(id.0));
            assert(s.subrange(i, i + 1)[0] == s[i]);
            lemma_rt_u128(s, i + 1, id.0);
            lemma_rt_bytes(s, i + 17, payload);
        },
        PubSubMsgV::SubscribeTo(id) => {
            lemma_split2(s, i, seq![2u8], se_u128(id.0));
            assert(s.subrange(i, i + 1)[0] == s[i]);
            lemma_rt_u128(s, i + 1, id.0);
        },
        PubSubMsgV::ListTopics => {
            assert(s.subrange(i, i + 1)[0] == s[i]);
        },
        PubSubMsgV::AllTopics(metas) => {
            lemma_split2(s, i, seq![4u8], se_seq(metas, f_meta()));
            assert(s.subrange(i, i + 1)[0] == s[i]);
            lemma_inv_meta();
            assert(forall|k: int| 0 <= k < metas.len() ==> w_meta()(#[trigger] metas[k]));
            lemma_rt_seq(s, i + 1, metas, f_meta(), g_meta(), w_meta());
        },
    }
}

// ---------------------------------------------------------------------------
// The round-trip laws: decoding an encoded value, at the start of the
// bytes and with nothing after it, gives the value back.

/// Every trace record survives the encode/decode round trip.
pub proof fn lemma_round_trip_message(m: MessageV)
    requires
        m.wf(),
    ensures
        sd_message(se_message(m), 0) == Some((m, se_message(m).len() as int)),
{
    let s = se_message(m);
    assert(s.subrange(0, s.len() as int) =~= s);
    lemma_rt_message(s, 0, m);
}

/// Every broker frame survives the encode/decode round trip.
pub proof fn lemma_round_trip_pub_sub_msg(p: PubSubMsgV)
    requires
        p.wf(),
    ensures
        sd_pub_sub_msg(se_pub_sub_msg(p), 0) == Some((p, se_pub_sub_msg(p).len() as int)),
{
    let s = se_pub_sub_msg(p);
    assert(s.subrange(0, s.len() as int) =~= s);
    lemma_rt_pub_sub_msg(s, 0, p);
}

// ---------------------------------------------------------------------------
// Executable encoders. Each appends exactly the specified bytes.

fn enc_u8(out: &mut Vec<u8>, x: u8)
    ensures
        final(out)@ == old(out)@ + se_u8(x),
{
    out.push(x);
    assert(out@ =~= old(out)@ + se_u8(x));
}

fn enc_u32(out: &mut Vec<u8>, x: u32)
    ensures
        final(out)@ == old(out)@ + se_u32(x),
{
    out.push((x & 0xff) as u8);
    out.push(((x >> 8) & 0xff) as u8);
    out.push(((x >> 16) & 0xff) as u8);
    out.push(((x >> 24) & 0xff) as u8);
    assert(out@ =~= old(out)@ + se_u32(x));
}

fn enc_u64(out: &mut Vec<u8>, x: u64)
    ensures
        final(out)@ == old(out)@ + se_u64(x),
{
    out.push((x & 0xff) as u8);
    out.push(((x >> 8) & 0xff) as u8);
    out.push(((x >> 16) & 0xff) as u8);
    out.push(((x >> 24) & 0xff) as u8);
    out.push(((x >> 32) & 0xff) as u8);
    out.push(((x >> 40) & 0xff) as u8);
    out.push(((x >> 48) & 0xff) as u8);
    out.push(((x >> 56) & 0xff) as u8);
    assert(out@ =~= old(out)@ + se_u64(x));
}

fn enc_u128(out: &mut Vec<u8>, x: u128)
    ensures
        final(out)@ == old(out)@ + se_u128(x),
{
    enc_u64(out, (x & 0xffff_ffff_ffff_ffff) as u64);
    enc_u64(out, (x >> 64) as u64);
    assert(out@ =~= old(out)@ + se_u128(x));
}

fn enc_i64(out: &mut Vec<u8>, x: i64)
    ensures
        final(out)@ == old(out)@ + se_i64(x),
{
    enc_u64(out, x as u64);
}

fn enc_bool(out: &mut Vec<u8>, b: bool)
    ensures
        final(out)@ == old(out)@ + se_bool(b),
{
    if b {
        out.push(1u8);
    } else {
        out.push(0u8);
    }
    assert(out@ =~= old(out)@ + se_bool(b));
}

fn enc_count(out: &mut Vec<u8>, n: usize)
    ensures
        final(out)@ == old(out)@ + se_len(n as nat),
{
    enc_u64(out, n as u64);
}

proof fn lemma_se_chars_push(cs: Seq<char>, c: char)
    ensures
        se_chars(cs.push(c)) == se_chars(cs) + se_u32(c as u32),
    decreases cs.len(),
{
    if cs.len() == 0 {
        assert(cs.push(c)[0] == c);
        assert(cs.push(c).skip(1) =~= Seq::<char>::empty());
        assert(se_chars(cs.push(c)) == se_u32(c as u32) + se_chars(Seq::<char>::empty()));
        assert(se_u32(c as u32) + Seq::<u8>::empty() =~= se_u32(c as u32));
        assert(se_chars(cs) + se_u32(c as u32) =~= se_u32(c as u32));
    } else {
        assert(cs.push(c).skip(1) =~= cs.skip(1).push(c));
        lemma_se_chars_push(cs.skip(1), c);
        assert(cs.push(c)[0] == cs[0]);
        assert(se_chars(cs.push(c)) == se_u32(cs[0] as u32) + (se_chars(cs.skip(1)) + se_u32(
            c as u32,
        )));
        assert(se_u32(cs[0] as u32) + (se_chars(cs.skip(1)) + se_u32(c as u32)) =~= (se_u32(
            cs[0] as u32,
        ) + se_chars(cs.skip(1))) + se_u32(c as u32));
    }
}

fn enc_str(out: &mut Vec<u8>, s: &str)
    ensures
        final(out)@ == old(out)@ + se_str(s@),
{
    let n = s.unicode_len();
    enc_count(out, n);
    let mut idx: usize = 0;
    while idx < n
        invariant
            n == s@.len(),
            idx <= n,
            out@ == old(out)@ + se_len(s@.len()) + se_chars(s@.take(idx as int)),
        decreases n - idx,
    {
        let c = s.get_char(idx);
        enc_u32(out, c as u32);
        proof {
            assert(s@.take(idx + 1) =~= s@.take(idx as int).push(s@[idx as int]));
            lemma_se_chars_push(s@.take(idx as int), s@[idx as int]);
        }
        idx = idx + 1;
    }
    assert(s@.take(n as int) =~= s@);
    assert(old(out)@ + se_len(s@.len()) + se_chars(s@) =~= old(out)@ + se_str(s@));
}

fn enc_bytes(out: &mut Vec<u8>, b: &Vec<u8>)
    ensures
        final(out)@ == old(out)@ + se_bytes(b@),
{
    enc_count(out, b.len());
    let mut idx: usize = 0;
    while idx < b.len()
        invariant
            idx <= b@.len(),
            out@ == old(out)@ + se_len(b@.len()) + b@.take(idx as int),
        decreases b@.len() - idx,
    {
        out.push(b[idx]);
        proof {
            assert(b@.take(idx + 1) =~= b@.take(idx as int).push(b@[idx as int]));
            assert(out@ =~= old(out)@ + se_len(b@.len()) + b@.take(idx + 1));
        }
        idx = idx + 1;
    }
    assert(b@.take(b@.len() as int) =~= b@);
    assert(old(out)@ + se_len(b@.len()) + b@ =~= old(out)@ + se_bytes(b@));
}

fn enc_opt_sid(out: &mut Vec<u8>, o: &Option<SpanId>)
    ensures
        final(out)@ == old(out)@ + se_opt(*o, f_sid()),
{
    match o {
        None => {
            out.push(0u8);
            assert(out@ =~= old(out)@ + se_opt(None::<SpanId>, f_sid()));
        },
        Some(id) => {
            out.push(1u8);
            enc_u64(out, id.0);
            assert(out@ =~= old(out)@ + (seq![1u8] + f_sid()(*id)));
        },
    }
}

fn enc_opt_u32(out: &mut Vec<u8>, o: &Option<u32>)
    ensures
        final(out)@ == old(out)@ + se_opt(*o, f_u32()),
{
    match o {
        None => {
            out.push(0u8);
            assert(out@ =~= old(out)@ + se_opt(None::<u32>, f_u32()));
        },
        Some(x) => {
            out.push(1u8);
            enc_u32(out, *x);
            assert(out@ =~= old(out)@ + (seq![1u8] + f_u32()(*x)));
        },
    }
}

fn enc_opt_str(out: &mut Vec<u8>, o: &Option<String>)
    ensures
        final(out)@ == old(out)@ + se_opt(
            match *o {
                None => None,
                Some(s) => Some(s@),
            },
            f_str(),
        ),
{
    match o {
        None => {
            out.push(0u8);
            assert(out@ =~= old(out)@ + se_opt(None::<Seq<char>>, f_str()));
        },
        Some(s) => {
            out.push(1u8);
            enc_str(out, s.as_str());
            assert(out@ =~= old(out)@ + (seq![1u8] + f_str()(s@)));
        },
    }
}

proof fn lemma_map_take_push<A, B>(items: Seq<A>, f: spec_fn(A) -> B, k: int)
    requires
        0 <= k < items.len(),
    ensures
        items.take(k + 1).map_values(f) =~= items.take(k).map_values(f).push(f(items[k])),
{
}

fn enc_string_list(out: &mut Vec<u8>, items: &Vec<String>)
    ensures
        final(out)@ == old(out)@ + se_seq(items@.map_values(|s: String| s@), f_str()),
{
    let ghost views = items@.map_values(|s: String| s@);
    enc_count(out, items.len());
    let mut k: usize = 0;
    while k < items.len()
        invariant
            k <= items@.len(),
            views == items@.map_values(|s: String| s@),
            out@ == old(out)@ + se_len(views.len()) + se_list(views.take(k as int), f_str()),
        decreases items@.len() - k,
    {
        enc_str(out, items[k].as_str());
        proof {
            lemma_map_take_push(items@, |s: String| s@, k as int);
            assert(items@.take(k + 1).map_values(|s: String| s@) =~= views.take(k + 1));
            assert(items@.take(k as int).map_values(|s: String| s@) =~= views.take(k as int));
            lemma_se_list_push(views.take(k as int), f_str(), items@[k as int]@);
            assert(f_str()(items@[k as int]@) == se_str(items@[k as int]@));
        }
        k = k + 1;
    }
    assert(views.take(views.len() as int) =~= views);
    assert(old(out)@ + se_len(views.len()) + se_list(views, f_str()) =~= old(out)@ + se_seq(
        views,
        f_str(),
    ));
}

fn enc_value(out: &mut Vec<u8>, v: &Value)
    ensures
        final(out)@ == old(out)@ + se_value(v@),
{
    match v {
        Value::String(x) => {
            out.push(0u8);
            enc_str(out, x.as_str());
            assert(out@ =~= old(out)@ + (seq![0u8] + se_str(x@)));
        },
        Value::I64(x) => {
            out.push(1u8);
            enc_i64(out, *x);
            assert(out@ =~= old(out)@ + (seq![1u8] + se_i64(*x)));
        },
        Value::U64(x) => {
            out.push(2u8);
            enc_u64(out, *x);
            assert(out@ =~= old(out)@ + (seq![2u8] + se_u64(*x)));
        },
        Value::F64Bits(x) => {
            out.push(3u8);
            enc_u64(out, *x);
            assert(out@ =~= old(out)@ + (seq![3u8] + se_u64(*x)));
        },
        Value::Bool(x) => {
            out.push(4u8);
            enc_bool(out, *x);
            assert(out@ =~= old(out)@ + (seq![4u8] + se_bool(*x)));
        },
        Value::Debug(x) => {
            out.push(5u8);
            enc_str(out, x.as_str());
            assert(out@ =~= old(out)@ + (seq![5u8] + se_str(x@)));
        },
        Value::Error { description, details } => {
            out.push(6u8);
            enc_str(out, description.as_str());
            enc_str(out, details.as_str());
            assert(out@ =~= old(out)@ + (seq![6u8] + se_str(description@) + se_str(details@)));
        },
    }
}

fn enc_fields(out: &mut Vec<u8>, fields: &Vec<(String, Value)>)
    ensures
        final(out)@ == old(out)@ + se_fields(crate::data::fields_view(*fields)),
{
    let ghost views = crate::data::fields_view(*fields);
    enc_count(out, fields.len());
    let mut k: usize = 0;
    while k < fields.len()
        invariant
            k <= fields@.len(),
            views == crate::data::fields_view(*fields),
            views.len() == fields@.len(),
            out@ == old(out)@ + se_len(views.len()) + se_list(views.take(k as int), f_field()),
        decreases fields@.len() - k,
    {
        let pair = &fields[k];
        enc_str(out, pair.0.as_str());
        enc_value(out, &pair.1);
        proof {
            lemma_map_take_push(fields@, |f: (String, Value)| (f.0@, f.1@), k as int);
            assert(fields@.take(k + 1).map_values(|f: (String, Value)| (f.0@, f.1@)) =~= views.take(
                k + 1,
            ));
            assert(fields@.take(k as int).map_values(|f: (String, Value)| (f.0@, f.1@))
                =~= views.take(k as int));
            lemma_se_list_push(views.take(k as int), f_field(), views[k as int]);
            assert(f_field()(views[k as int]) == se_field((fields@[k as int].0@, fields@[
                k as int].1@)));
            assert(out@ =~= old(out)@ + se_len(views.len()) + (se_list(
                views.take(k as int),
                f_field(),
            ) + se_field((fields@[k as int].0@, fields@[k as int].1@))));
        }
        k = k + 1;
    }
    assert(views.take(views.len() as int) =~= views);
    assert(old(out)@ + se_len(views.len()) + se_list(views, f_field()) =~= old(out)@ + se_fields(
        views,
    ));
}

fn enc_location(out: &mut Vec<u8>, l: &Location)
    ensures
        final(out)@ == old(out)@ + se_location(l@),
{
    enc_str(out, l.module.as_str());
    enc_opt_str(out, &l.file);
    enc_opt_u32(out, &l.line);
    assert(out@ =~= old(out)@ + se_location(l@));
}

fn enc_callsite(out: &mut Vec<u8>, c: &Callsite)
    ensures
        final(out)@ == old(out)@ + se_callsite(c@),
{
    enc_u64(out, c.id.0);
    match c.kind {
        CallsiteKind::Event => enc_u8(out, 0u8),
        CallsiteKind::Span => enc_u8(out, 1u8),
    }
    enc_str(out, c.name.as_str());
    match c.level {
        LogLevel::Trace => enc_u8(out, 0u8),
        LogLevel::Debug => enc_u8(out, 1u8),
        LogLevel::Info => enc_u8(out, 2u8),
        LogLevel::Warn => enc_u8(out, 3u8),
        LogLevel::Error => enc_u8(out, 4u8),
    }
    enc_location(out, &c.location);
    enc_string_list(out, &c.field_names);
    assert(out@ =~= old(out)@ + se_callsite(c@));
}

fn enc_span(out: &mut Vec<u8>, sp: &Span)
    ensures
        final(out)@ == old(out)@ + se_span(sp@),
{
    enc_u64(out, sp.id.0);
    enc_opt_sid(out, &sp.parent_span_id);
    enc_u64(out, sp.callsite_id.0);
    enc_fields(out, &sp.fields);
    assert(out@ =~= old(out)@ + se_span(sp@));
}

fn enc_data_event(out: &mut Vec<u8>, e: &DataEvent)
    ensures
        final(out)@ == old(out)@ + se_data_event(e@),
{
    enc_u64(out, e.callsite_id.0);
    enc_opt_sid(out, &e.parent_span_id);
    enc_fields(out, &e.fields);
    assert(out@ =~= old(out)@ + se_data_event(e@));
}

fn enc_msg_enum(out: &mut Vec<u8>, m: &MessageEnum)
    ensures
        final(out)@ == old(out)@ + se_msg_enum(m@),
{
    match m {
        MessageEnum::NewCallsite(c) => {
            out.push(0u8);
            enc_callsite(out, c);
            assert(out@ =~= old(out)@ + (seq![0u8] + se_callsite(c@)));
        },
        MessageEnum::NewSpan(sp) => {
            out.push(1u8);
            enc_span(out, sp);
            assert(out@ =~= old(out)@ + (seq![1u8] + se_span(sp@)));
        },
        MessageEnum::EnterSpan(id) => {
            out.push(2u8);
            enc_u64(out, id.0);
            assert(out@ =~= old(out)@ + (seq![2u8] + se_u64(id.0)));
        },
        MessageEnum::ExitSpan(id) => {
            out.push(3u8);
            enc_u64(out, id.0);
            assert(out@ =~= old(out)@ + (seq![3u8] + se_u64(id.0)));
        },
        MessageEnum::DestroySpan(id) => {
            out.push(4u8);
            enc_u64(out, id.0);
            assert(out@ =~= old(out)@ + (seq![4u8] + se_u64(id.0)));
        },
        MessageEnum::SpanFollowsFrom { span, follows } => {
            out.push(5u8);
            enc_u64(out, span.0);
            enc_u64(out, follows.0);
            assert(out@ =~= old(out)@ + (seq![5u8] + se_u64(span.0) + se_u64(follows.0)));
        },
        MessageEnum::DataEvent(e) => {
            out.push(6u8);
            enc_data_event(out, e);
            assert(out@ =~= old(out)@ + (seq![6u8] + se_data_event(e@)));
        },
    }
}

fn enc_topic_meta(out: &mut Vec<u8>, m: &TopicMeta)
    ensures
        final(out)@ == old(out)@ + se_topic_meta(m@),
{
    enc_u128(out, m.id.0);
    enc_i64(out, m.created.0);
    enc_str(out, m.name.as_str());
    assert(out@ =~= old(out)@ + se_topic_meta(m@));
}

fn enc_metas(out: &mut Vec<u8>, metas: &Vec<TopicMeta>)
    ensures
        final(out)@ == old(out)@ + se_seq(metas@.map_values(|m: TopicMeta| m@), f_meta()),
{
    let ghost views = metas@.map_values(|m: TopicMeta| m@);
    enc_count(out, metas.len());
    let mut k: usize = 0;
    while k < metas.len()
        invariant
            k <= metas@.len(),
            views == metas@.map_values(|m: TopicMeta| m@),
            out@ == old(out)@ + se_len(views.len()) + se_list(views.take(k as int), f_meta()),
        decreases metas@.len() - k,
    {
        enc_topic_meta(out, &metas[k]);
        proof {
            lemma_map_take_push(metas@, |m: TopicMeta| m@, k as int);
            assert(metas@.take(k + 1).map_values(|m: TopicMeta| m@) =~= views.take(k + 1));
            assert(metas@.take(k as int).map_values(|m: TopicMeta| m@) =~= views.take(k as int));
            lemma_se_list_push(views.take(k as int), f_meta(), metas@[k as int]@);
            assert(f_meta()(metas@[k as int]@) == se_topic_meta(metas@[k as int]@));
        }
        k = k + 1;
    }
    assert(views.take(views.len() as int) =~= views);
    assert(old(out)@ + se_len(views.len()) + se_list(views, f_meta()) =~= old(out)@ + se_seq(
        views,
        f_meta(),
    ));
}

// ---------------------------------------------------------------------------
// Executable decoders. Each agrees exactly with its spec decoder.

fn dec_u8(bytes: &[u8], pos: usize) -> (r: Option<(u8, usize)>)
    ensures
        match r {
            Some((x, p)) => sd_u8(bytes@, pos as int) == Some((x, p as int)) && pos < p
                <= bytes@.len(),
            None => sd_u8(bytes@, pos as int) is None,
        },
{
    if pos < bytes.len() {
        Some((bytes[pos], pos + 1))
    } else {
        None
    }
}

fn dec_u32(bytes: &[u8], pos: usize) -> (r: Option<(u32, usize)>)
    ensures
        match r {
            Some((x, p)) => sd_u32(bytes@, pos as int) == Some((x, p as int)) && pos < p
                <= bytes@.len(),
            None => sd_u32(bytes@, pos as int) is None,
        },
{
    if bytes.len() >= 4 && pos <= bytes.len() - 4 {
        let x = (bytes[pos] as u32) | ((bytes[pos + 1] as u32) << 8) | ((bytes[pos + 2]
            as u32) << 16) | ((bytes[pos + 3] as u32) << 24);
        Some((x, pos + 4))
    } else {
        None
    }
}

fn dec_u64(bytes: &[u8], pos: usize) -> (r: Option<(u64, usize)>)
    ensures
        match r {
            Some((x, p)) => sd_u64(bytes@, pos as int) == Some((x, p as int)) && pos < p
                <= bytes@.len(),
            None => sd_u64(bytes@, pos as int) is None,
        },
{
    if bytes.len() >= 8 && pos <= bytes.len() - 8 {
        let x = (bytes[pos] as u64) | ((bytes[pos + 1] as u64) << 8) | ((bytes[pos + 2]
            as u64) << 16) | ((bytes[pos + 3] as u64) << 24) | ((bytes[pos + 4] as u64) << 32) | ((
        bytes[pos + 5] as u64) << 40) | ((bytes[pos + 6] as u64) << 48) | ((bytes[pos + 7]
            as u64) << 56);
        proof {
            let sub = bytes@.subrange(pos as int, pos + 8);
            assert(sub[0] == bytes@[pos as int]);
            assert(sub[1] == bytes@[pos + 1]);
            assert(sub[2] == bytes@[pos + 2]);
            assert(sub[3] == bytes@[pos + 3]);
            assert(sub[4] == bytes@[pos + 4]);
            assert(sub[5] == bytes@[pos + 5]);
            assert(sub[6] == bytes@[pos + 6]);
            assert(sub[7] == bytes@[pos + 7]);
        }
        Some((x, pos + 8))
    } else {
        None
    }
}

fn dec_u128(bytes: &[u8], pos: usize) -> (r: Option<(u128, usize)>)
    ensures
        match r {
            Some((x, p)) => sd_u128(bytes@, pos as int) == Some((x, p as int)) && pos < p
                <= bytes@.len(),
            None => sd_u128(bytes@, pos as int) is None,
        },
{
    match dec_u64(bytes, pos) {
        None => None,
        Some((lo, p1)) => match dec_u64(bytes, p1) {
            None => None,
            Some((hi, p2)) => Some(((lo as u128) | ((hi as u128) << 64), p2)),
        },
    }
}

fn dec_i64(bytes: &[u8], pos: usize) -> (r: Option<(i64, usize)>)
    ensures
        match r {
            Some((x, p)) => sd_i64(bytes@, pos as int) == Some((x, p as int)) && pos < p
                <= bytes@.len(),
            None => sd_i64(bytes@, pos as int) is None,
        },
{
    match dec_u64(bytes, pos) {
        None => None,
        Some((x, p)) => Some((x as i64, p)),
    }
}

fn dec_bool(bytes: &[u8], pos: usize) -> (r: Option<(bool, usize)>)
    ensures
        match r {
            Some((x, p)) => sd_bool(bytes@, pos as int) == Some((x, p as int)) && pos < p
                <= bytes@.len(),
            None => sd_bool(bytes@, pos as int) is None,
        },
{
    match dec_u8(bytes, pos) {
        None => None,
        Some((t, p)) => if t == 0 {
            Some((false, p))
        } else if t == 1 {
            Some((true, p))
        } else {
            None
        },
    }
}

/// Relies on `char::from_u32`: it returns `Some` exactly on Unicode
/// scalar values, and the returned character has that scalar value.
#[verifier::external_body]
fn char_from_u32(u: u32) -> (r: Option<char>)
    ensures
        r matches Some(c) ==> c as u32 == u,
        r is Some <==> is_unicode_scalar(u),
{
    char::from_u32(u)
}

/// How far a successful character-list decode advances, and how many
/// characters it yields.
proof fn lemma_sd_chars_bounds(s: Seq<u8>, i: int, n: nat)
    requires
        sd_chars(s, i, n) is Some,
    ensures
        sd_chars(s, i, n) matches Some((cs, j)) ==> cs.len() == n && j == i + 4 * n && (n > 0
            ==> 0 <= i && j <= s.len()),
    decreases n,
{
    if n > 0 {
        let (u, j0) = sd_u32(s, i).unwrap();
        lemma_sd_chars_bounds(s, j0, (n - 1) as nat);
    }
}

fn dec_str(bytes: &[u8], pos: usize) -> (r: Option<(String, usize)>)
    ensures
        match r {
            Some((st, p)) => sd_str(bytes@, pos as int) == Some((st@, p as int)) && pos < p
                <= bytes@.len(),
            None => sd_str(bytes@, pos as int) is None,
        },
{
    let (n64, p0) = match dec_u64(bytes, pos) {
        None => {
            return None;
        },
        Some(x) => x,
    };
    if bytes.len() < p0 {
        return None;
    }
    let rem = bytes.len() - p0;
    // Each character takes four bytes; an impossible count fails at once.
    if n64 > (rem / 4) as u64 {
        proof {
            if sd_chars(bytes@, p0 as int, n64 as nat) is Some {
                lemma_sd_chars_bounds(bytes@, p0 as int, n64 as nat);
            }
        }
        return None;
    }
    let n = n64 as usize;
    let mut acc = String::new();
    let mut k: usize = 0;
    let mut cur: usize = p0;
    while k < n
        invariant
            n == n64,
            k <= n,
            pos < p0 <= cur,
            bytes@.len() <= usize::MAX,
            cur == p0 + 4 * k,
            cur + 4 * (n - k) <= bytes@.len(),
            sd_len(bytes@, pos as int) == Some::<(nat, int)>((n as nat, p0 as int)),
            sd_chars(bytes@, p0 as int, n as nat) == (match sd_chars(
                bytes@,
                cur as int,
                (n - k) as nat,
            ) {
                Some((rest, end)) => Some::<(Seq<char>, int)>((acc@ + rest, end)),
                None => None::<(Seq<char>, int)>,
            }),
        decreases n - k,
    {
        let (u, p1) = match dec_u32(bytes, cur) {
            None => {
                return None;
            },
            Some(x) => x,
        };
        let c = match char_from_u32(u) {
            None => {
                return None;
            },
            Some(c) => c,
        };
        proof {
            vstd::utf8::char_u32_cast(c, u);
            let step = sd_chars(bytes@, cur as int, (n - k) as nat);
            let rest_after = sd_chars(bytes@, p1 as int, (n - k - 1) as nat);
            match rest_after {
                Some((rest, end)) => {
                    assert(step == Some::<(Seq<char>, int)>((seq![c] + rest, end)));
                    assert(acc@ + (seq![c] + rest) =~= acc@.push(c) + rest);
                },
                None => {},
            }
        }
        crate::data::push_char(&mut acc, c);
        cur = p1;
        k = k + 1;
    }
    proof {
        assert(sd_chars(bytes@, cur as int, 0) == Some::<(Seq<char>, int)>((
            Seq::empty(),
            cur as int,
        )));
        assert(acc@ + Seq::<char>::empty() =~= acc@);
    }
    Some((acc, cur))
}

fn dec_bytes(bytes: &[u8], pos: usize) -> (r: Option<(Vec<u8>, usize)>)
    ensures
        match r {
            Some((b, p)) => sd_bytes(bytes@, pos as int) == Some((b@, p as int)) && pos < p
                <= bytes@.len(),
            None => sd_bytes(bytes@, pos as int) is None,
        },
{
    let (n64, p0) = match dec_u64(bytes, pos) {
        None => {
            return None;
        },
        Some(x) => x,
    };
    if bytes.len() < p0 || ((bytes.len() - p0) as u64) < n64 {
        return None;
    }
    let n = n64 as usize;
    let mut acc: Vec<u8> = Vec::new();
    let mut k: usize = 0;
    while k < n
        invariant
            n == n64,
            k <= n,
            pos < p0,
            bytes@.len() <= usize::MAX,
            p0 + n <= bytes@.len(),
            sd_len(bytes@, pos as int) == Some::<(nat, int)>((n as nat, p0 as int)),
            acc@ == bytes@.subrange(p0 as int, p0 + k),
        decreases n - k,
    {
        acc.push(bytes[p0 + k]);
        proof {
            assert(acc@ =~= bytes@.subrange(p0 as int, p0 + k + 1));
        }
        k = k + 1;
    }
    Some((acc, p0 + n))
}

// ---------------------------------------------------------------------------
// How far successful decodes advance: every decoder consumes at least
// one byte and never passes the end. This bounds list lengths.

pub open spec fn advances<T>(g: spec_fn(Seq<u8>, int) -> Option<(T, int)>) -> bool {
    forall|s: Seq<u8>, i: int|
        match #[trigger] g(s, i) {
            Some((x, j)) => i < j <= s.len(),
            None => true,
        }
}

proof fn lemma_sd_str_bounds(s: Seq<u8>, i: int)
    ensures
        sd_str(s, i) matches Some((cs, j)) ==> i < j <= s.len(),
{
    if sd_str(s, i) is Some {
        let (n, j0) = sd_len(s, i).unwrap();
        lemma_sd_chars_bounds(s, j0, n);
    }
}

proof fn lemma_adv_str()
    ensures
        advances(g_str()),
{
    assert forall|s: Seq<u8>, i: int|
        match #[trigger] g_str()(s, i) {
            Some((x, j)) => i < j <= s.len(),
            None => true,
        } by {
        lemma_sd_str_bounds(s, i);
    }
}

proof fn lemma_sd_value_bounds(s: Seq<u8>, i: int)
    ensures
        sd_value(s, i) matches Some((v, j)) ==> i < j <= s.len(),
{
    if sd_value(s, i) is Some {
        let (t, j0) = sd_u8(s, i).unwrap();
        if t == 0 || t == 5 {
            lemma_sd_str_bounds(s, j0);
        } else if t == 6 {
            let (d, j1) = sd_str(s, j0).unwrap();
            lemma_sd_str_bounds(s, j0);
            lemma_sd_str_bounds(s, j1);
        }
    }
}

proof fn lemma_adv_field()
    ensures
        advances(g_field()),
{
    assert forall|s: Seq<u8>, i: int|
        match #[trigger] g_field()(s, i) {
            Some((x, j)) => i < j <= s.len(),
            None => true,
        } by {
        if sd_field(s, i) is Some {
            let (nm, j0) = sd_str(s, i).unwrap();
            lemma_sd_str_bounds(s, i);
            lemma_sd_value_bounds(s, j0);
        }
    }
}

proof fn lemma_adv_meta()
    ensures
        advances(g_meta()),
{
    assert forall|s: Seq<u8>, i: int|
        match #[trigger] g_meta()(s, i) {
            Some((x, j)) => i < j <= s.len(),
            None => true,
        } by {
        if sd_topic_meta(s, i) is Some {
            let (id, j0) = sd_u128(s, i).unwrap();
            let (cr, j1) = sd_i64(s, j0).unwrap();
            lemma_sd_str_bounds(s, j1);
        }
    }
}

proof fn lemma_sd_list_bounds<T>(s: Seq<u8>, i: int, n: nat, g: spec_fn(Seq<u8>, int) -> Option<
    (T, int),
>)
    requires
        advances(g),
    ensures
        sd_list(s, i, n, g) matches Some((xs, j)) ==> xs.len() == n && i + n <= j && (n > 0 ==> j
            <= s.len()),
    decreases n,
{
    if n > 0 && sd_list(s, i, n, g) is Some {
        let (x, j0) = g(s, i).unwrap();
        lemma_sd_list_bounds(s, j0, (n - 1) as nat, g);
    }
}

// ---------------------------------------------------------------------------
// Executable decoders for options and lists.

fn dec_opt_sid(bytes: &[u8], pos: usize) -> (r: Option<(Option<SpanId>, usize)>)
    ensures
        match r {
            Some((o, p)) => sd_opt(bytes@, pos as int, g_sid()) == Some((o, p as int)) && pos < p
                <= bytes@.len(),
            None => sd_opt(bytes@, pos as int, g_sid()) is None,
        },
{
    match dec_u8(bytes, pos) {
        None => None,
        Some((t, p0)) => if t == 0 {
            Some((None, p0))
        } else if t == 1 {
            match dec_u64(bytes, p0) {
                None => None,
                Some((x, p1)) => Some((Some(SpanId(x)), p1)),
            }
        } else {
            None
        },
    }
}

fn dec_opt_u32(bytes: &[u8], pos: usize) -> (r: Option<(Option<u32>, usize)>)
    ensures
        match r {
            Some((o, p)) => sd_opt(bytes@, pos as int, g_u32()) == Some((o, p as int)) && pos < p
                <= bytes@.len(),
            None => sd_opt(bytes@, pos as int, g_u32()) is None,
        },
{
    match dec_u8(bytes, pos) {
        None => None,
        Some((t, p0)) => if t == 0 {
            Some((None, p0))
        } else if t == 1 {
            match dec_u32(bytes, p0) {
                None => None,
                Some((x, p1)) => Some((Some(x), p1)),
            }
        } else {
            None
        },
    }
}

fn dec_opt_str(bytes: &[u8], pos: usize) -> (r: Option<(Option<String>, usize)>)
    ensures
        match r {
            Some((o, p)) => sd_opt(bytes@, pos as int, g_str()) == Some(
                (
                    match o {
                        None => None,
                        Some(s) => Some(s@),
                    },
                    p as int,
                ),
            ) && pos < p <= bytes@.len(),
            None => sd_opt(bytes@, pos as int, g_str()) is None,
        },
{
    match dec_u8(bytes, pos) {
        None => None,
        Some((t, p0)) => if t == 0 {
            Some((None, p0))
        } else if t == 1 {
            match dec_str(bytes, p0) {
                None => None,
                Some((s, p1)) => Some((Some(s), p1)),
            }
        } else {
            None
        },
    }
}

fn dec_string_list(bytes: &[u8], pos: usize) -> (r: Option<(Vec<String>, usize)>)
    ensures
        match r {
            Some((items, p)) => sd_seq(bytes@, pos as int, g_str()) == Some(
                (items@.map_values(|s: String| s@), p as int),
            ) && pos < p <= bytes@.len(),
            None => sd_seq(bytes@, pos as int, g_str()) is None,
        },
{
    proof {
        lemma_adv_str();
    }
    let (n64, p0) = match dec_u64(bytes, pos) {
        None => {
            return None;
        },
        Some(x) => x,
    };
    if bytes.len() < p0 || ((bytes.len() - p0) as u64) < n64 {
        proof {
            if sd_list(bytes@, p0 as int, n64 as nat, g_str()) is Some {
                lemma_sd_list_bounds(bytes@, p0 as int, n64 as nat, g_str());
            }
        }
        return None;
    }
    let n = n64 as usize;
    let mut acc: Vec<String> = Vec::new();
    let mut k: usize = 0;
    let mut cur: usize = p0;
    while k < n
        invariant
            n == n64,
            k <= n,
            pos < p0 <= cur,
            cur <= bytes@.len() <= usize::MAX,
            acc@.len() == k,
            sd_len(bytes@, pos as int) == Some::<(nat, int)>((n as nat, p0 as int)),
            sd_list(bytes@, p0 as int, n as nat, g_str()) == (match sd_list(
                bytes@,
                cur as int,
                (n - k) as nat,
                g_str(),
            ) {
                Some((rest, end)) => Some::<(Seq<Seq<char>>, int)>(
                    (acc@.map_values(|s: String| s@) + rest, end),
                ),
                None => None::<(Seq<Seq<char>>, int)>,
            }),
        decreases n - k,
    {
        let (s, p1) = match dec_str(bytes, cur) {
            None => {
                return None;
            },
            Some(x) => x,
        };
        proof {
            let step = sd_list(bytes@, cur as int, (n - k) as nat, g_str());
            let rest_after = sd_list(bytes@, p1 as int, (n - k - 1) as nat, g_str());
            let av = acc@.map_values(|q: String| q@);
            match rest_after {
                Some((rest, end)) => {
                    assert(step == Some::<(Seq<Seq<char>>, int)>((seq![s@] + rest, end)));
                    assert(acc@.push(s).map_values(|q: String| q@) =~= av.push(s@));
                    assert(av + (seq![s@] + rest) =~= av.push(s@) + rest);
                },
                None => {},
            }
        }
        acc.push(s);
        cur = p1;
        k = k + 1;
    }
    proof {
        assert(acc@.map_values(|q: String| q@) + Seq::<Seq<char>>::empty() =~= acc@.map_values(
            |q: String| q@,
        ));
    }
    Some((acc, cur))
}

fn dec_value(bytes: &[u8], pos: usize) -> (r: Option<(Value, usize)>)
    ensures
        match r {
            Some((v, p)) => sd_value(bytes@, pos as int) == Some((v@, p as int)) && pos < p
                <= bytes@.len(),
            None => sd_value(bytes@, pos as int) is None,
        },
{
    let (t, p0) = match dec_u8(bytes, pos) {
        None => {
            return None;
        },
        Some(x) => x,
    };
    if t == 0 {
        match dec_str(bytes, p0) {
            None => None,
            Some((x, p1)) => Some((Value::String(x), p1)),
        }
    } else if t == 1 {
        match dec_i64(bytes, p0) {
            None => None,
            Some((x, p1)) => Some((Value::I64(x), p1)),
        }
    } else if t == 2 {
        match dec_u64(bytes, p0) {
            None => None,
            Some((x, p1)) => Some((Value::U64(x), p1)),
        }
    } else if t == 3 {
        match dec_u64(bytes, p0) {
            None => None,
            Some((x, p1)) => Some((Value::F64Bits(x), p1)),
        }
    } else if t == 4 {
        match dec_bool(bytes, p0) {
            None => None,
            Some((x, p1)) => Some((Value::Bool(x), p1)),
        }
    } else if t == 5 {
        match dec_str(bytes, p0) {
            None => None,
            Some((x, p1)) => Some((Value::Debug(x), p1)),
        }
    } else if t == 6 {
        match dec_str(bytes, p0) {
            None => None,
            Some((description, p1)) => match dec_str(bytes, p1) {
                None => None,
                Some((details, p2)) => Some((Value::Error { description, details }, p2)),
            },
        }
    } else {
        None
    }
}

fn dec_fields(bytes: &[u8], pos: usize) -> (r: Option<(Vec<(String, Value)>, usize)>)
    ensures
        match r {
            Some((items, p)) => sd_fields(bytes@, pos as int) == Some(
                (crate::data::fields_view(items), p as int),
            ) && pos < p <= bytes@.len(),
            None => sd_fields(bytes@, pos as int) is None,
        },
{
    proof {
        lemma_adv_field();
    }
    let (n64, p0) = match dec_u64(bytes, pos) {
        None => {
            return None;
        },
        Some(x) => x,
    };
    if bytes.len() < p0 || ((bytes.len() - p0) as u64) < n64 {
        proof {
            if sd_list(bytes@, p0 as int, n64 as nat, g_field()) is Some {
                lemma_sd_list_bounds(bytes@, p0 as int, n64 as nat, g_field());
            }
        }
        return None;
    }
    let n = n64 as usize;
    let mut acc: Vec<(String, Value)> = Vec::new();
    let mut k: usize = 0;
    let mut cur: usize = p0;
    while k < n
        invariant
            n == n64,
            k <= n,
            pos < p0 <= cur,
            cur <= bytes@.len() <= usize::MAX,
            acc@.len() == k,
            sd_len(bytes@, pos as int) == Some::<(nat, int)>((n as nat, p0 as int)),
            sd_list(bytes@, p0 as int, n as nat, g_field()) == (match sd_list(
                bytes@,
                cur as int,
                (n - k) as nat,
                g_field(),
            ) {
                Some((rest, end)) => Some::<(Seq<(Seq<char>, ValueV)>, int)>(
                    (crate::data::fields_view(acc) + rest, end),
                ),
                None => None::<(Seq<(Seq<char>, ValueV)>, int)>,
            }),
        decreases n - k,
    {
        let (nm, p1) = match dec_str(bytes, cur) {
            None => {
                return None;
            },
            Some(x) => x,
        };
        let (v, p2) = match dec_value(bytes, p1) {
            None => {
                return None;
            },
            Some(x) => x,
        };
        proof {
            let step = sd_list(bytes@, cur as int, (n - k) as nat, g_field());
            let rest_after = sd_list(bytes@, p2 as int, (n - k - 1) as nat, g_field());
            let av = crate::data::fields_view(acc);
            assert(g_field()(bytes@, cur as int) == Some::<((Seq<char>, ValueV), int)>(
                ((nm@, v@), p2 as int),
            ));
            match rest_after {
                Some((rest, end)) => {
                    assert(step == Some::<(Seq<(Seq<char>, ValueV)>, int)>(
                        (seq![(nm@, v@)] + rest, end),
                    ));
                    assert(acc@.push((nm, v)).map_values(|f: (String, Value)| (f.0@, f.1@))
                        =~= av.push((nm@, v@)));
                    assert(av + (seq![(nm@, v@)] + rest) =~= av.push((nm@, v@)) + rest);
                },
                None => {},
            }
        }
        acc.push((nm, v));
        cur = p2;
        k = k + 1;
    }
    proof {
        assert(crate::data::fields_view(acc) + Seq::<(Seq<char>, ValueV)>::empty()
            =~= crate::data::fields_view(acc));
    }
    Some((acc, cur))
}

fn dec_location(bytes: &[u8], pos: usize) -> (r: Option<(Location, usize)>)
    ensures
        match r {
            Some((l, p)) => sd_location(bytes@, pos as int) == Some((l@, p as int)) && pos < p
                <= bytes@.len(),
            None => sd_location(bytes@, pos as int) is None,
        },
{
    let (module, p0) = match dec_str(bytes, pos) {
        None => {
            return None;
        },
        Some(x) => x,
    };
    let (file, p1) = match dec_opt_str(bytes, p0) {
        None => {
            return None;
        },
        Some(x) => x,
    };
    let (line, p2) = match dec_opt_u32(bytes, p1) {
        None => {
            return None;
        },
        Some(x) => x,
    };
    Some((Location { module, file, line }, p2))
}

fn dec_callsite(bytes: &[u8], pos: usize) -> (r: Option<(Callsite, usize)>)
    ensures
        match r {
            Some((c, p)) => sd_callsite(bytes@, pos as int) == Some((c@, p as int)) && pos < p
                <= bytes@.len(),
            None => sd_callsite(bytes@, pos as int) is None,
        },
{
    let (id, p1) = match dec_u64(bytes, pos) {
        None => {
            return None;
        },
        Some(x) => x,
    };
    let (kt, p2) = match dec_u8(bytes, p1) {
        None => {
            return None;
        },
        Some(x) => x,
    };
    let kind = if kt == 0 {
        CallsiteKind::Event
    } else if kt == 1 {
        CallsiteKind::Span
    } else {
        return None;
    };
    let (name, p3) = match dec_str(bytes, p2) {
        None => {
            return None;
        },
        Some(x) => x,
    };
    let (lt, p4) = match dec_u8(bytes, p3) {
        None => {
            return None;
        },
        Some(x) => x,
    };
    let level = if lt == 0 {
        LogLevel::Trace
    } else if lt == 1 {
        LogLevel::Debug
    } else if lt == 2 {
        LogLevel::Info
    } else if lt == 3 {
        LogLevel::Warn
    } else if lt == 4 {
        LogLevel::Error
    } else {
        return None;
    };
    let (location, p5) = match dec_location(bytes, p4) {
        None => {
            return None;
        },
        Some(x) => x,
    };
    let (field_names, p6) = match dec_string_list(bytes, p5) {
        None => {
            return None;
        },
        Some(x) => x,
    };
    Some((Callsite { id: CallsiteId(id), kind, name, level, location, field_names }, p6))
}

fn dec_span(bytes: &[u8], pos: usize) -> (r: Option<(Span, usize)>)
    ensures
        match r {
            Some((sp, p)) => sd_span(bytes@, pos as int) == Some((sp@, p as int)) && pos < p
                <= bytes@.len(),
            None => sd_span(bytes@, pos as int) is None,
        },
{
    let (id, p1) = match dec_u64(bytes, pos) {
        None => {
            return None;
        },
        Some(x) => x,
    };
    let (parent, p2) = match dec_opt_sid(bytes, p1) {
        None => {
            return None;
        },
        Some(x) => x,
    };
    let (callsite, p3) = match dec_u64(bytes, p2) {
        None => {
            return None;
        },
        Some(x) => x,
    };
    let (fields, p4) = match dec_fields(bytes, p3) {
        None => {
            return None;
        },
        Some(x) => x,
    };
    Some(
        (
            Span {
                id: SpanId(id),
                parent_span_id: parent,
                callsite_id: CallsiteId(callsite),
                fields,
            },
            p4,
        ),
    )
}

fn dec_data_event(bytes: &[u8], pos: usize) -> (r: Option<(DataEvent, usize)>)
    ensures
        match r {
            Some((e, p)) => sd_data_event(bytes@, pos as int) == Some((e@, p as int)) && pos < p
                <= bytes@.len(),
            None => sd_data_event(bytes@, pos as int) is None,
        },
{
    let (callsite, p1) = match dec_u64(bytes, pos) {
        None => {
            return None;
        },
        Some(x) => x,
    };
    let (parent, p2) = match dec_opt_sid(bytes, p1) {
        None => {
            return None;
        },
        Some(x) => x,
    };
    let (fields, p3) = match dec_fields(bytes, p2) {
        None => {
            return None;
        },
        Some(x) => x,
    };
    Some(
        (DataEvent { callsite_id: CallsiteId(callsite), parent_span_id: parent, fields }, p3),
    )
}

fn dec_msg_enum(bytes: &[u8], pos: usize) -> (r: Option<(MessageEnum, usize)>)
    ensures
        match r {
            Some((m, p)) => sd_msg_enum(bytes@, pos as int) == Some((m@, p as int)) && pos < p
                <= bytes@.len(),
            None => sd_msg_enum(bytes@, pos as int) is None,
        },
{
    let (t, p0) = match dec_u8(bytes, pos) {
        None => {
            return None;
        },
        Some(x) => x,
    };
    if t == 0 {
        match dec_callsite(bytes, p0) {
            None => None,
            Some((c, p1)) => Some((MessageEnum::NewCallsite(c), p1)),
        }
    } else if t == 1 {
        match dec_span(bytes, p0) {
            None => None,
            Some((sp, p1)) => Some((MessageEnum::NewSpan(sp), p1)),
        }
    } else if t == 2 {
        match dec_u64(bytes, p0) {
            None => None,
            Some((id, p1)) => Some((MessageEnum::EnterSpan(SpanId(id)), p1)),
        }
    } else if t == 3 {
        match dec_u64(bytes, p0) {
            None => None,
            Some((id, p1)) => Some((MessageEnum::ExitSpan(SpanId(id)), p1)),
        }
    } else if t == 4 {
        match dec_u64(bytes, p0) {
            None => None,
            Some((id, p1)) => Some((MessageEnum::DestroySpan(SpanId(id)), p1)),
        }
    } else if t == 5 {
        match dec_u64(bytes, p0) {
            None => None,
            Some((span, p1)) => match dec_u64(bytes, p1) {
                None => None,
                Some((follows, p2)) => Some(
                    (
                        MessageEnum::SpanFollowsFrom {
                            span: SpanId(span),
                            follows: SpanId(follows),
                        },
                        p2,
                    ),
                ),
            },
        }
    } else if t == 6 {
        match dec_data_event(bytes, p0) {
            None => None,
            Some((e, p1)) => Some((MessageEnum::DataEvent(e), p1)),
        }
    } else {
        None
    }
}

fn dec_topic_meta(bytes: &[u8], pos: usize) -> (r: Option<(TopicMeta, usize)>)
    ensures
        match r {
            Some((m, p)) => sd_topic_meta(bytes@, pos as int) == Some((m@, p as int)) && pos < p
                <= bytes@.len(),
            None => sd_topic_meta(bytes@, pos as int) is None,
        },
{
    let (id, p1) = match dec_u128(bytes, pos) {
        None => {
            return None;
        },
        Some(x) => x,
    };
    let (created, p2) = match dec_i64(bytes, p1) {
        None => {
            return None;
        },
        Some(x) => x,
    };
    let (name, p3) = match dec_str(bytes, p2) {
        None => {
            return None;
        },
        Some(x) => x,
    };
    Some((TopicMeta { id: TopicId(id), created: Time(created), name }, p3))
}

fn dec_metas(bytes: &[u8], pos: usize) -> (r: Option<(Vec<TopicMeta>, usize)>)
    ensures
        match r {
            Some((items, p)) => sd_seq(bytes@, pos as int, g_meta()) == Some(
                (items@.map_values(|m: TopicMeta| m@), p as int),
            ) && pos < p <= bytes@.len(),
            None => sd_seq(bytes@, pos as int, g_meta()) is None,
        },
{
    proof {
        lemma_adv_meta();
    }
    let (n64, p0) = match dec_u64(bytes, pos) {
        None => {
            return None;
        },
        Some(x) => x,
    };
    if bytes.len() < p0 || ((bytes.len() - p0) as u64) < n64 {
        proof {
            if sd_list(bytes@, p0 as int, n64 as nat, g_meta()) is Some {
                lemma_sd_list_bounds(bytes@, p0 as int, n64 as nat, g_meta());
            }
        }
        return None;
    }
    let n = n64 as usize;
    let mut acc: Vec<TopicMeta> = Vec::new();
    let mut k: usize = 0;
    let mut cur: usize = p0;
    while k < n
        invariant
            n == n64,
            k <= n,
            pos < p0 <= cur,
            cur <= bytes@.len() <= usize::MAX,
            acc@.len() == k,
            sd_len(bytes@, pos as int) == Some::<(nat, int)>((n as nat, p0 as int)),
            sd_list(bytes@, p0 as int, n as nat, g_meta()) == (match sd_list(
                bytes@,
                cur as int,
                (n - k) as nat,
                g_meta(),
            ) {
                Some((rest, end)) => Some::<(Seq<TopicMetaV>, int)>(
                    (acc@.map_values(|m: TopicMeta| m@) + rest, end),
                ),
                None => None::<(Seq<TopicMetaV>, int)>,
            }),
        decreases n - k,
    {
        let (m, p1) = match dec_topic_meta(bytes, cur) {
            None => {
                return None;
            },
            Some(x) => x,
        };
        proof {
            let step = sd_list(bytes@, cur as int, (n - k) as nat, g_meta());
            let rest_after = sd_list(bytes@, p1 as int, (n - k - 1) as nat, g_meta());
            let av = acc@.map_values(|q: TopicMeta| q@);
            match rest_after {
                Some((rest, end)) => {
                    assert(step == Some::<(Seq<TopicMetaV>, int)>((seq![m@] + rest, end)));
                    assert(acc@.push(m).map_values(|q: TopicMeta| q@) =~= av.push(m@));
                    assert(av + (seq![m@] + rest) =~= av.push(m@) + rest);
                },
                None => {},
            }
        }
        acc.push(m);
        cur = p1;
        k = k + 1;
    }
    proof {
        assert(acc@.map_values(|q: TopicMeta| q@) + Seq::<TopicMetaV>::empty() =~= acc@.map_values(
            |q: TopicMeta| q@,
        ));
    }
    Some((acc, cur))
}

fn dec_message(bytes: &[u8], pos: usize) -> (r: Option<(Message, usize)>)
    ensures
        match r {
            Some((m, p)) => sd_message(bytes@, pos as int) == Some((m@, p as int)) && pos < p
                <= bytes@.len(),
            None => sd_message(bytes@, pos as int) is None,
        },
{
    let (t, p0) = match dec_i64(bytes, pos) {
        None => {
            return None;
        },
        Some(x) => x,
    };
    let (body, p1) = match dec_msg_enum(bytes, p0) {
        None => {
            return None;
        },
        Some(x) => x,
    };
    Some((Message { log_time: Time(t), msg_enum: body }, p1))
}

fn dec_pub_sub_msg(bytes: &[u8], pos: usize) -> (r: Option<(PubSubMsg, usize)>)
    ensures
        match r {
            Some((m, p)) => sd_pub_sub_msg(bytes@, pos as int) == Some((m@, p as int)) && pos < p
                <= bytes@.len(),
            None => sd_pub_sub_msg(bytes@, pos as int) is None,
        },
{
    let (t, p0) = match dec_u8(bytes, pos) {
        None => {
            return None;
        },
        Some(x) => x,
    };
    if t == 0 {
        match dec_topic_meta(bytes, p0) {
            None => None,
            Some((meta, p1)) => Some((PubSubMsg::NewTopic(meta), p1)),
        }
    } else if t == 1 {
        match dec_u128(bytes, p0) {
            None => None,
            Some((id, p1)) => match dec_bytes(bytes, p1) {
                None => None,
                Some((payload, p2)) => Some((PubSubMsg::TopicMsg(TopicId(id), payload), p2)),
            },
        }
    } else if t == 2 {
        match dec_u128(bytes, p0) {
            None => None,
            Some((id, p1)) => Some((PubSubMsg::SubscribeTo(TopicId(id)), p1)),
        }
    } else if t == 3 {
        Some((PubSubMsg::ListTopics, p0))
    } else if t == 4 {
        match dec_metas(bytes, p0) {
            None => None,
            Some((metas, p1)) => Some((PubSubMsg::AllTopics(metas), p1)),
        }
    } else {
        None
    }
}

// ---------------------------------------------------------------------------
// The public frame API: encoding always succeeds; decoding is strict.

/// The one value (if any) whose encoding is exactly `s`.
pub open spec fn strict_decode_message(s: Seq<u8>) -> Option<MessageV> {
    match sd_message(s, 0) {
        Some((m, p)) => if p == s.len() {
            Some(m)
        } else {
            None
        },
        None => None,
    }
}

/// The one value (if any) whose encoding is exactly `s`.
pub open spec fn strict_decode_pub_sub_msg(s: Seq<u8>) -> Option<PubSubMsgV> {
    match sd_pub_sub_msg(s, 0) {
        Some((m, p)) => if p == s.len() {
            Some(m)
        } else {
            None
        },
        None => None,
    }
}

impl Message {
    /// The canonical byte encoding of this record.
    pub fn encode(&self) -> (r: Vec<u8>)
        ensures
            r@ == se_message(self@),
    {
        let mut out: Vec<u8> = Vec::new();
        enc_i64(&mut out, self.log_time.0);
        enc_msg_enum(&mut out, &self.msg_enum);
        assert(out@ =~= Seq::<u8>::empty() + se_i64(self.log_time.0) + se_msg_enum(
            self.msg_enum@,
        ));
        assert(Seq::<u8>::empty() + se_i64(self.log_time.0) + se_msg_enum(self.msg_enum@)
            =~= se_message(self@));
        out
    }

    /// Decodes a record; strict: the bytes must be exactly one encoding.
    pub fn decode(bytes: &[u8]) -> (r: Result<Message, DecodeError>)
        ensures
            match r {
                Ok(m) => strict_decode_message(bytes@) == Some(m@),
                Err(_) => strict_decode_message(bytes@) is None,
            },
    {
        match dec_message(bytes, 0) {
            Some((m, p)) => if p == bytes.len() {
                Ok(m)
            } else {
                Err(DecodeError)
            },
            None => Err(DecodeError),
        }
    }
}

impl PubSubMsg {
    /// The canonical byte encoding of this frame.
    pub fn encode(&self) -> (r: Vec<u8>)
        ensures
            r@ == se_pub_sub_msg(self@),
    {
        let mut out: Vec<u8> = Vec::new();
        match self {
            PubSubMsg::NewTopic(meta) => {
                out.push(0u8);
                enc_topic_meta(&mut out, meta);
                assert(out@ =~= seq![0u8] + se_topic_meta(meta@));
            },
            PubSubMsg::TopicMsg(id, payload) => {
                out.push(1u8);
                enc_u128(&mut out, id.0);
                enc_bytes(&mut out, payload);
                assert(out@ =~= seq![1u8] + se_u128(id.0) + se_bytes(payload@));
            },
            PubSubMsg::SubscribeTo(id) => {
                out.push(2u8);
                enc_u128(&mut out, id.0);
                assert(out@ =~= seq![2u8] + se_u128(id.0));
            },
            PubSubMsg::ListTopics => {
                out.push(3u8);
                assert(out@ =~= seq![3u8]);
            },
            PubSubMsg::AllTopics(metas) => {
                out.push(4u8);
                enc_metas(&mut out, metas);
                assert(out@ =~= seq![4u8] + se_seq(
                    metas@.map_values(|m: TopicMeta| m@),
                    f_meta(),
                ));
            },
        }
        out
    }

    /// Decodes a frame; strict: the bytes must be exactly one encoding.
    pub fn decode(bytes: &[u8]) -> (r: Result<PubSubMsg, DecodeError>)
        ensures
            match r {
                Ok(m) => strict_decode_pub_sub_msg(bytes@) == Some(m@),
                Err(_) => strict_decode_pub_sub_msg(bytes@) is None,
            },
    {
        match dec_pub_sub_msg(bytes, 0) {
            Some((m, p)) => if p == bytes.len() {
                Ok(m)
            } else {
                Err(DecodeError)
            },
            None => Err(DecodeError),
        }
    }
}

// ---------------------------------------------------------------------------
// Canonicity: a value that decodes successfully re-encodes to exactly
// the bytes it was decoded from, so each value has one byte form.

/// Splices two adjacent subranges back together.
proof fn lemma_join2(s: Seq<u8>, i: int, j: int, k: int)
    requires
        0 <= i <= j <= k <= s.len(),
    ensures
        s.subrange(i, k) == s.subrange(i, j) + s.subrange(j, k),
{
    assert(s.subrange(i, k) =~= s.subrange(i, j) + s.subrange(j, k));
}

proof fn lemma_cano_u8(s: Seq<u8>, i: int, x: u8, j: int)
    requires
        sd_u8(s, i) == Some((x, j)),
    ensures
        0 <= i <= j <= s.len(),
        s.subrange(i, j) == se_u8(x),
{
    assert(s.subrange(i, j) =~= seq![s[i]]);
}

proof fn lemma_u32_le_bytes(b0: u8, b1: u8, b2: u8, b3: u8)
    ensures
        se_u32(u32_of_le(b0, b1, b2, b3)) == seq![b0, b1, b2, b3],
{
    assert((((b0 as u32) | ((b1 as u32) << 8) | ((b2 as u32) << 16) | ((b3 as u32) << 24)) & 0xff)
        as u8 == b0 && ((((b0 as u32) | ((b1 as u32) << 8) | ((b2 as u32) << 16) | ((b3
        as u32) << 24)) >> 8) & 0xff) as u8 == b1 && ((((b0 as u32) | ((b1 as u32) << 8) | ((b2
        as u32) << 16) | ((b3 as u32) << 24)) >> 16) & 0xff) as u8 == b2 && ((((b0 as u32) | ((b1
        as u32) << 8) | ((b2 as u32) << 16) | ((b3 as u32) << 24)) >> 24) & 0xff) as u8 == b3)
        by (bit_vector);
    assert(se_u32(u32_of_le(b0, b1, b2, b3)) =~= seq![b0, b1, b2, b3]);
}

proof fn lemma_cano_u32(s: Seq<u8>, i: int, x: u32, j: int)
    requires
        sd_u32(s, i) == Some((x, j)),
    ensures
        0 <= i <= j <= s.len(),
        s.subrange(i, j) == se_u32(x),
{
    lemma_u32_le_bytes(s[i], s[i + 1], s[i + 2], s[i + 3]);
    assert(s.subrange(i, j) =~= seq![s[i], s[i + 1], s[i + 2], s[i + 3]]);
}

proof fn lemma_u64_le_bytes(b0: u8, b1: u8, b2: u8, b3: u8, b4: u8, b5: u8, b6: u8, b7: u8)
    ensures
        se_u64((b0 as u64) | ((b1 as u64) << 8) | ((b2 as u64) << 16) | ((b3 as u64) << 24) | ((b4 as u64) << 32) | ((b5 as u64) << 40) | ((b6 as u64) << 48) | ((b7 as u64) << 56)) == seq![b0, b1, b2, b3, b4, b5, b6, b7],
{
    assert((((b0 as u64) | ((b1 as u64) << 8) | ((b2 as u64) << 16) | ((b3 as u64) << 24) | ((b4 as u64) << 32) | ((b5 as u64) << 40) | ((b6 as u64) << 48) | ((b7 as u64) << 56)) & 0xff) as u8 == b0) by (bit_vector);
    assert(((((b0 as u64) | ((b1 as u64) << 8) | ((b2 as u64) << 16) | ((b3 as u64) << 24) | ((b4 as u64) << 32) | ((b5 as u64) << 40) | ((b6 as u64) << 48) | ((b7 as u64) << 56)) >> 8) & 0xff) as u8 == b1) by (bit_vector);
    assert(((((b0 as u64) | ((b1 as u64) << 8) | ((b2 as u64) << 16) | ((b3 as u64) << 24) | ((b4 as u64) << 32) | ((b5 as u64) << 40) | ((b6 as u64) << 48) | ((b7 as u64) << 56)) >> 16) & 0xff) as u8 == b2) by (bit_vector);
    assert(((((b0 as u64) | ((b1 as u64) << 8) | ((b2 as u64) << 16) | ((b3 as u64) << 24) | ((b4 as u64) << 32) | ((b5 as u64) << 40) | ((b6 as u64) << 48) | ((b7 as u64) << 56)) >> 24) & 0xff) as u8 == b3) by (bit_vector);
    assert(((((b0 as u64) | ((b1 as u64) << 8) | ((b2 as u64) << 16) | ((b3 as u64) << 24) | ((b4 as u64) << 32) | ((b5 as u64) << 40) | ((b6 as u64) << 48) | ((b7 as u64) << 56)) >> 32) & 0xff) as u8 == b4) by (bit_vector);
    assert(((((b0 as u64) | ((b1 as u64) << 8) | ((b2 as u64) << 16) | ((b3 as u64) << 24) | ((b4 as u64) << 32) | ((b5 as u64) << 40) | ((b6 as u64) << 48) | ((b7 as u64) << 56)) >> 40) & 0xff) as u8 == b5) by (bit_vector);
    assert(((((b0 as u64) | ((b1 as u64) << 8) | ((b2 as u64) << 16) | ((b3 as u64) << 24) | ((b4 as u64) << 32) | ((b5 as u64) << 40) | ((b6 as u64) << 48) | ((b7 as u64) << 56)) >> 48) & 0xff) as u8 == b6) by (bit_vector);
    assert(((((b0 as u64) | ((b1 as u64) << 8) | ((b2 as u64) << 16) | ((b3 as u64) << 24) | ((b4 as u64) << 32) | ((b5 as u64) << 40) | ((b6 as u64) << 48) | ((b7 as u64) << 56)) >> 56) & 0xff) as u8 == b7) by (bit_vector);
    assert(se_u64((b0 as u64) | ((b1 as u64) << 8) | ((b2 as u64) << 16) | ((b3 as u64) << 24) | ((b4 as u64) << 32) | ((b5 as u64) << 40) | ((b6 as u64) << 48) | ((b7 as u64) << 56)) =~= seq![b0, b1, b2, b3, b4, b5, b6, b7]);
}

proof fn lemma_cano_u64(s: Seq<u8>, i: int, x: u64, j: int)
    requires
        sd_u64(s, i) == Some((x, j)),
    ensures
        0 <= i <= j <= s.len(),
        s.subrange(i, j) == se_u64(x),
{
    let bs = s.subrange(i, i + 8);
    assert(bs =~= seq![s[i], s[i + 1], s[i + 2], s[i + 3], s[i + 4], s[i + 5], s[i + 6], s[i + 7]]);
    lemma_u64_le_bytes(s[i], s[i + 1], s[i + 2], s[i + 3], s[i + 4], s[i + 5], s[i + 6], s[i + 7]);
    assert(u64_of_le(bs) == (s[i] as u64) | ((s[i + 1] as u64) << 8) | ((s[i + 2] as u64) << 16)
        | ((s[i + 3] as u64) << 24) | ((s[i + 4] as u64) << 32) | ((s[i + 5] as u64) << 40) | ((s[i
        + 6] as u64) << 48) | ((s[i + 7] as u64) << 56));
}

proof fn lemma_cano_u128(s: Seq<u8>, i: int, x: u128, j: int)
    requires
        sd_u128(s, i) == Some((x, j)),
    ensures
        0 <= i <= j <= s.len(),
        s.subrange(i, j) == se_u128(x),
{
    let (lo, j0) = sd_u64(s, i).unwrap();
    let (hi, j1) = sd_u64(s, j0).unwrap();
    lemma_cano_u64(s, i, lo, j0);
    lemma_cano_u64(s, j0, hi, j1);
    lemma_join2(s, i, j0, j);
    assert(((((lo as u128) | ((hi as u128) << 64)) & 0xffff_ffff_ffff_ffff) as u64) == lo
        && ((((lo as u128) | ((hi as u128) << 64)) >> 64) as u64) == hi) by (bit_vector);
}

proof fn lemma_cano_i64(s: Seq<u8>, i: int, x: i64, j: int)
    requires
        sd_i64(s, i) == Some((x, j)),
    ensures
        0 <= i <= j <= s.len(),
        s.subrange(i, j) == se_i64(x),
{
    let (y, _) = sd_u64(s, i).unwrap();
    lemma_cano_u64(s, i, y, j);
    assert(((y as i64) as u64) == y) by (bit_vector);
}

proof fn lemma_cano_bool(s: Seq<u8>, i: int, b: bool, j: int)
    requires
        sd_bool(s, i) == Some((b, j)),
    ensures
        0 <= i <= j <= s.len(),
        s.subrange(i, j) == se_bool(b),
{
    assert(s.subrange(i, j) =~= seq![s[i]]);
}

proof fn lemma_cano_len(s: Seq<u8>, i: int, n: nat, j: int)
    requires
        sd_len(s, i) == Some((n, j)),
    ensures
        0 <= i <= j <= s.len(),
        n <= u64::MAX,
        s.subrange(i, j) == se_len(n),
{
    let (y, _) = sd_u64(s, i).unwrap();
    lemma_cano_u64(s, i, y, j);
}

proof fn lemma_cano_bytes(s: Seq<u8>, i: int, b: Seq<u8>, j: int)
    requires
        sd_bytes(s, i) == Some((b, j)),
    ensures
        0 <= i <= j <= s.len(),
        s.subrange(i, j) == se_bytes(b),
{
    let (n, j0) = sd_len(s, i).unwrap();
    lemma_cano_len(s, i, n, j0);
    lemma_join2(s, i, j0, j);
    assert(se_len(b.len()) == se_len(n));
}

proof fn lemma_cano_chars(s: Seq<u8>, i: int, n: nat, cs: Seq<char>, j: int)
    requires
        0 <= i <= s.len(),
        sd_chars(s, i, n) == Some((cs, j)),
    ensures
        i <= j <= s.len(),
        cs.len() == n,
        s.subrange(i, j) == se_chars(cs),
    decreases n,
{
    if n == 0 {
        assert(s.subrange(i, i) =~= se_chars(cs));
    } else {
        let (u, j0) = sd_u32(s, i).unwrap();
        let (rest, _) = sd_chars(s, j0, (n - 1) as nat).unwrap();
        lemma_cano_u32(s, i, u, j0);
        lemma_cano_chars(s, j0, (n - 1) as nat, rest, j);
        lemma_join2(s, i, j0, j);
        let c = char_of_scalar(u);
        assert((u as char) as u32 == u);
        assert(cs[0] == c);
        assert(cs.skip(1) =~= rest);
        assert(se_chars(cs) == se_u32(cs[0] as u32) + se_chars(cs.skip(1)));
    }
}

proof fn lemma_cano_str(s: Seq<u8>, i: int, cs: Seq<char>, j: int)
    requires
        sd_str(s, i) == Some((cs, j)),
    ensures
        0 <= i <= j <= s.len(),
        s.subrange(i, j) == se_str(cs),
{
    let (n, j0) = sd_len(s, i).unwrap();
    lemma_cano_len(s, i, n, j0);
    lemma_cano_chars(s, j0, n, cs, j);
    lemma_join2(s, i, j0, j);
    assert(se_len(cs.len()) == se_len(n));
}

/// What it means for a decoder `g` to be canonical for an encoder `f`:
/// whatever it accepts re-encodes to the bytes it consumed.
pub open spec fn canonical_on<T>(
    f: spec_fn(T) -> Seq<u8>,
    g: spec_fn(Seq<u8>, int) -> Option<(T, int)>,
) -> bool {
    forall|s: Seq<u8>, i: int|
        match #[trigger] g(s, i) {
            Some((x, j)) => 0 <= i <= j <= s.len() && s.subrange(i, j) == f(x),
            None => true,
        }
}

proof fn lemma_canonical_str()
    ensures
        canonical_on(f_str(), g_str()),
{
    assert forall|s: Seq<u8>, i: int|
        match #[trigger] g_str()(s, i) {
            Some((x, j)) => 0 <= i <= j <= s.len() && s.subrange(i, j) == f_str()(x),
            None => true,
        } by {
        if let Some((x, j)) = sd_str(s, i) {
            lemma_cano_str(s, i, x, j);
        }
    }
}

proof fn lemma_canonical_sid()
    ensures
        canonical_on(f_sid(), g_sid()),
{
    assert forall|s: Seq<u8>, i: int|
        match #[trigger] g_sid()(s, i) {
            Some((x, j)) => 0 <= i <= j <= s.len() && s.subrange(i, j) == f_sid()(x),
            None => true,
        } by {
        if let Some((y, j)) = sd_u64(s, i) {
            lemma_cano_u64(s, i, y, j);
        }
    }
}

proof fn lemma_canonical_u32()
    ensures
        canonical_on(f_u32(), g_u32()),
{
    assert forall|s: Seq<u8>, i: int|
        match #[trigger] g_u32()(s, i) {
            Some((x, j)) => 0 <= i <= j <= s.len() && s.subrange(i, j) == f_u32()(x),
            None => true,
        } by {
        if let Some((x, j)) = sd_u32(s, i) {
            lemma_cano_u32(s, i, x, j);
        }
    }
}

proof fn lemma_cano_opt<T>(
    s: Seq<u8>,
    i: int,
    o: Option<T>,
    j: int,
    f: spec_fn(T) -> Seq<u8>,
    g: spec_fn(Seq<u8>, int) -> Option<(T, int)>,
)
    requires
        canonical_on(f, g),
        sd_opt(s, i, g) == Some((o, j)),
    ensures
        0 <= i <= j <= s.len(),
        s.subrange(i, j) == se_opt(o, f),
{
    match o {
        None => {
            assert(s.subrange(i, j) =~= seq![s[i]]);
        },
        Some(x) => {
            assert(g(s, i + 1) == Some::<(T, int)>((x, j)));
            lemma_join2(s, i, i + 1, j);
            assert(s.subrange(i, i + 1) =~= seq![1u8]);
        },
    }
}

proof fn lemma_cano_list<T>(
    s: Seq<u8>,
    i: int,
    n: nat,
    xs: Seq<T>,
    j: int,
    f: spec_fn(T) -> Seq<u8>,
    g: spec_fn(Seq<u8>, int) -> Option<(T, int)>,
)
    requires
        canonical_on(f, g),
        0 <= i <= s.len(),
        sd_list(s, i, n, g) == Some((xs, j)),
    ensures
        i <= j <= s.len(),
        xs.len() == n,
        s.subrange(i, j) == se_list(xs, f),
    decreases n,
{
    if n == 0 {
        assert(s.subrange(i, i) =~= se_list(xs, f));
    } else {
        let (x, j0) = g(s, i).unwrap();
        let (rest, _) = sd_list(s, j0, (n - 1) as nat, g).unwrap();
        lemma_cano_list(s, j0, (n - 1) as nat, rest, j, f, g);
        lemma_join2(s, i, j0, j);
        assert(xs[0] == x);
        assert(xs.skip(1) =~= rest);
        assert(se_list(xs, f) == f(xs[0]) + se_list(xs.skip(1), f));
    }
}

proof fn lemma_cano_seq<T>(
    s: Seq<u8>,
    i: int,
    xs: Seq<T>,
    j: int,
    f: spec_fn(T) -> Seq<u8>,
    g: spec_fn(Seq<u8>, int) -> Option<(T, int)>,
)
    requires
        canonical_on(f, g),
        sd_seq(s, i, g) == Some((xs, j)),
    ensures
        0 <= i <= j <= s.len(),
        s.subrange(i, j) == se_seq(xs, f),
{
    let (n, j0) = sd_len(s, i).unwrap();
    lemma_cano_len(s, i, n, j0);
    lemma_cano_list(s, j0, n, xs, j, f, g);
    lemma_join2(s, i, j0, j);
    assert(se_len(xs.len()) == se_len(n));
}

proof fn lemma_cano_level(s: Seq<u8>, i: int, l: LogLevel, j: int)
    requires
        sd_level(s, i) == Some((l, j)),
    ensures
        0 <= i <= j <= s.len(),
        s.subrange(i, j) == se_level(l),
{
    assert(s.subrange(i, j) =~= seq![s[i]]);
}

proof fn lemma_cano_kind(s: Seq<u8>, i: int, k: CallsiteKind, j: int)
    requires
        sd_kind(s, i) == Some((k, j)),
    ensures
        0 <= i <= j <= s.len(),
        s.subrange(i, j) == se_kind(k),
{
    assert(s.subrange(i, j) =~= seq![s[i]]);
}

proof fn lemma_cano_location(s: Seq<u8>, i: int, l: LocationV, j: int)
    requires
        sd_location(s, i) == Some((l, j)),
    ensures
        0 <= i <= j <= s.len(),
        s.subrange(i, j) == se_location(l),
{
    let (module, p1) = sd_str(s, i).unwrap();
    let (file, p2) = sd_opt(s, p1, g_str()).unwrap();
    let (line, p3) = sd_opt(s, p2, g_u32()).unwrap();
    lemma_cano_str(s, i, module, p1);
    lemma_canonical_str();
    lemma_cano_opt(s, p1, file, p2, f_str(), g_str());
    lemma_canonical_u32();
    lemma_cano_opt(s, p2, line, p3, f_u32(), g_u32());
    lemma_join2(s, i, p2, j);
    lemma_join2(s, i, p1, p2);
}

proof fn lemma_cano_callsite(s: Seq<u8>, i: int, c: CallsiteV, j: int)
    requires
        sd_callsite(s, i) == Some((c, j)),
    ensures
        0 <= i <= j <= s.len(),
        s.subrange(i, j) == se_callsite(c),
{
    let (id, p1) = sd_u64(s, i).unwrap();
    let (kind, p2) = sd_kind(s, p1).unwrap();
    let (name, p3) = sd_str(s, p2).unwrap();
    let (level, p4) = sd_level(s, p3).unwrap();
    let (location, p5) = sd_location(s, p4).unwrap();
    let (field_names, p6) = sd_seq(s, p5, g_str()).unwrap();
    lemma_cano_u64(s, i, id, p1);
    lemma_cano_kind(s, p1, kind, p2);
    lemma_cano_str(s, p2, name, p3);
    lemma_cano_level(s, p3, level, p4);
    lemma_cano_location(s, p4, location, p5);
    lemma_canonical_str();
    lemma_cano_seq(s, p5, field_names, p6, f_str(), g_str());
    lemma_join2(s, i, p5, j);
    lemma_join2(s, i, p4, p5);
    lemma_join2(s, i, p3, p4);
    lemma_join2(s, i, p2, p3);
    lemma_join2(s, i, p1, p2);
}

proof fn lemma_cano_value(s: Seq<u8>, i: int, v: ValueV, j: int)
    requires
        sd_value(s, i) == Some((v, j)),
    ensures
        0 <= i <= j <= s.len(),
        s.subrange(i, j) == se_value(v),
{
    let (t, p0) = sd_u8(s, i).unwrap();
    assert(s.subrange(i, i + 1) =~= seq![s[i]]);
    match v {
        ValueV::String(x) => {
            let (x2, p1) = sd_str(s, p0).unwrap();
            lemma_cano_str(s, p0, x2, p1);
            lemma_join2(s, i, p0, j);
        },
        ValueV::I64(x) => {
            let (x2, p1) = sd_i64(s, p0).unwrap();
            lemma_cano_i64(s, p0, x2, p1);
            lemma_join2(s, i, p0, j);
        },
        ValueV::U64(x) => {
            let (x2, p1) = sd_u64(s, p0).unwrap();
            lemma_cano_u64(s, p0, x2, p1);
            lemma_join2(s, i, p0, j);
        },
        ValueV::F64Bits(x) => {
            let (x2, p1) = sd_u64(s, p0).unwrap();
            lemma_cano_u64(s, p0, x2, p1);
            lemma_join2(s, i, p0, j);
        },
        ValueV::Bool(x) => {
            let (x2, p1) = sd_bool(s, p0).unwrap();
            lemma_cano_bool(s, p0, x2, p1);
            lemma_join2(s, i, p0, j);
        },
        ValueV::Debug(x) => {
            let (x2, p1) = sd_str(s, p0).unwrap();
            lemma_cano_str(s, p0, x2, p1);
            lemma_join2(s, i, p0, j);
        },
        ValueV::Error { description, details } => {
            let (d2, p1) = sd_str(s, p0).unwrap();
            let (t2, p2) = sd_str(s, p1).unwrap();
            lemma_cano_str(s, p0, d2, p1);
            lemma_cano_str(s, p1, t2, p2);
            lemma_join2(s, i, p1, j);
            lemma_join2(s, i, p0, p1);
        },
    }
}

proof fn lemma_canonical_field()
    ensures
        canonical_on(f_field(), g_field()),
{
    assert forall|s: Seq<u8>, i: int|
        match #[trigger] g_field()(s, i) {
            Some((x, j)) => 0 <= i <= j <= s.len() && s.subrange(i, j) == f_field()(x),
            None => true,
        } by {
        if let Some((x, j)) = sd_field(s, i) {
            let (name, p1) = sd_str(s, i).unwrap();
            let (v, p2) = sd_value(s, p1).unwrap();
            lemma_cano_str(s, i, name, p1);
            lemma_cano_value(s, p1, v, p2);
            lemma_join2(s, i, p1, j);
        }
    }
}

proof fn lemma_cano_fields(s: Seq<u8>, i: int, fields: Seq<(Seq<char>, ValueV)>, j: int)
    requires
        sd_fields(s, i) == Some((fields, j)),
    ensures
        0 <= i <= j <= s.len(),
        s.subrange(i, j) == se_fields(fields),
{
    lemma_canonical_field();
    lemma_cano_seq(s, i, fields, j, f_field(), g_field());
}

proof fn lemma_cano_span(s: Seq<u8>, i: int, sp: SpanV, j: int)
    requires
        sd_span(s, i) == Some((sp, j)),
    ensures
        0 <= i <= j <= s.len(),
        s.subrange(i, j) == se_span(sp),
{
    let (id, p1) = sd_u64(s, i).unwrap();
    let (parent, p2) = sd_opt(s, p1, g_sid()).unwrap();
    let (callsite, p3) = sd_u64(s, p2).unwrap();
    let (fields, p4) = sd_fields(s, p3).unwrap();
    lemma_cano_u64(s, i, id, p1);
    lemma_canonical_sid();
    lemma_cano_opt(s, p1, parent, p2, f_sid(), g_sid());
    lemma_cano_u64(s, p2, callsite, p3);
    lemma_cano_fields(s, p3, fields, p4);
    lemma_join2(s, i, p3, j);
    lemma_join2(s, i, p2, p3);
    lemma_join2(s, i, p1, p2);
}

proof fn lemma_cano_data_event(s: Seq<u8>, i: int, e: DataEventV, j: int)
    requires
        sd_data_event(s, i) == Some((e, j)),
    ensures
        0 <= i <= j <= s.len(),
        s.subrange(i, j) == se_data_event(e),
{
    let (callsite, p1) = sd_u64(s, i).unwrap();
    let (parent, p2) = sd_opt(s, p1, g_sid()).unwrap();
    let (fields, p3) = sd_fields(s, p2).unwrap();
    lemma_cano_u64(s, i, callsite, p1);
    lemma_canonical_sid();
    lemma_cano_opt(s, p1, parent, p2, f_sid(), g_sid());
    lemma_cano_fields(s, p2, fields, p3);
    lemma_join2(s, i, p2, j);
    lemma_join2(s, i, p1, p2);
}

#[verifier::rlimit(80)]
proof fn lemma_cano_msg_enum(s: Seq<u8>, i: int, m: MessageEnumV, j: int)
    requires
        sd_msg_enum(s, i) == Some((m, j)),
    ensures
        0 <= i <= j <= s.len(),
        s.subrange(i, j) == se_msg_enum(m),
{
    let (t, p0) = sd_u8(s, i).unwrap();
    assert(s.subrange(i, i + 1) =~= seq![s[i]]);
    match m {
        MessageEnumV::NewCallsite(c) => {
            let (c2, p1) = sd_callsite(s, p0).unwrap();
            lemma_cano_callsite(s, p0, c2, p1);
            lemma_join2(s, i, p0, j);
        },
        MessageEnumV::NewSpan(sp) => {
            let (sp2, p1) = sd_span(s, p0).unwrap();
            lemma_cano_span(s, p0, sp2, p1);
            lemma_join2(s, i, p0, j);
        },
        MessageEnumV::EnterSpan(id) => {
            let (y, p1) = sd_u64(s, p0).unwrap();
            lemma_cano_u64(s, p0, y, p1);
            lemma_join2(s, i, p0, j);
        },
        MessageEnumV::ExitSpan(id) => {
            let (y, p1) = sd_u64(s, p0).unwrap();
            lemma_cano_u64(s, p0, y, p1);
            lemma_join2(s, i, p0, j);
        },
        MessageEnumV::DestroySpan(id) => {
            let (y, p1) = sd_u64(s, p0).unwrap();
            lemma_cano_u64(s, p0, y, p1);
            lemma_join2(s, i, p0, j);
        },
        MessageEnumV::SpanFollowsFrom { span, follows } => {
            let (y1, p1) = sd_u64(s, p0).unwrap();
            let (y2, p2) = sd_u64(s, p1).unwrap();
            lemma_cano_u64(s, p0, y1, p1);
            lemma_cano_u64(s, p1, y2, p2);
            lemma_join2(s, i, p1, j);
            lemma_join2(s, i, p0, p1);
        },
        MessageEnumV::DataEvent(e) => {
            let (e2, p1) = sd_data_event(s, p0).unwrap();
            lemma_cano_data_event(s, p0, e2, p1);
            lemma_join2(s, i, p0, j);
        },
    }
}

proof fn lemma_cano_message(s: Seq<u8>, i: int, m: MessageV, j: int)
    requires
        sd_message(s, i) == Some((m, j)),
    ensures
        0 <= i <= j <= s.len(),
        s.subrange(i, j) == se_message(m),
{
    let (t, p1) = sd_i64(s, i).unwrap();
    let (body, p2) = sd_msg_enum(s, p1).unwrap();
    lemma_cano_i64(s, i, t, p1);
    lemma_cano_msg_enum(s, p1, body, p2);
    lemma_join2(s, i, p1, j);
}

proof fn lemma_cano_topic_meta(s: Seq<u8>, i: int, m: TopicMetaV, j: int)
    requires
        sd_topic_meta(s, i) == Some((m, j)),
    ensures
        0 <= i <= j <= s.len(),
        s.subrange(i, j) == se_topic_meta(m),
{
    let (id, p1) = sd_u128(s, i).unwrap();
    let (created, p2) = sd_i64(s, p1).unwrap();
    let (name, p3) = sd_str(s, p2).unwrap();
    lemma_cano_u128(s, i, id, p1);
    lemma_cano_i64(s, p1, created, p2);
    lemma_cano_str(s, p2, name, p3);
    lemma_join2(s, i, p2, j);
    lemma_join2(s, i, p1, p2);
}

proof fn lemma_canonical_meta()
    ensures
        canonical_on(f_meta(), g_meta()),
{
    assert forall|s: Seq<u8>, i: int|
        match #[trigger] g_meta()(s, i) {
            Some((x, j)) => 0 <= i <= j <= s.len() && s.subrange(i, j) == f_meta()(x),
            None => true,
        } by {
        if let Some((x, j)) = sd_topic_meta(s, i) {
            lemma_cano_topic_meta(s, i, x, j);
        }
    }
}

proof fn lemma_cano_pub_sub_msg(s: Seq<u8>, i: int, p: PubSubMsgV, j: int)
    requires
        sd_pub_sub_msg(s, i) == Some((p, j)),
    ensures
        0 <= i <= j <= s.len(),
        s.subrange(i, j) == se_pub_sub_msg(p),
{
    let (t, p0) = sd_u8(s, i).unwrap();
    assert(s.subrange(i, i + 1) =~= seq![s[i]]);
    match p {
        PubSubMsgV::NewTopic(meta) => {
            let (m2, p1) = sd_topic_meta(s, p0).unwrap();
            lemma_cano_topic_meta(s, p0, m2, p1);
            lemma_join2(s, i, p0, j);
        },
        PubSubMsgV::TopicMsg(id, payload) => {
            let (y, p1) = sd_u128(s, p0).unwrap();
            let (b, p2) = sd_bytes(s, p1).unwrap();
            lemma_cano_u128(s, p0, y, p1);
            lemma_cano_bytes(s, p1, b, p2);
            lemma_join2(s, i, p1, j);
            lemma_join2(s, i, p0, p1);
        },
        PubSubMsgV::SubscribeTo(id) => {
            let (y, p1) = sd_u128(s, p0).unwrap();
            lemma_cano_u128(s, p0, y, p1);
            lemma_join2(s, i, p0, j);
        },
        PubSubMsgV::ListTopics => {
            assert(s.subrange(i, j) =~= seq![s[i]]);
        },
        PubSubMsgV::AllTopics(metas) => {
            let (ms, p1) = sd_seq(s, p0, g_meta()).unwrap();
            lemma_canonical_meta();
            lemma_cano_seq(s, p0, ms, p1, f_meta(), g_meta());
            lemma_join2(s, i, p0, j);
        },
    }
}

/// Decode canonicity: a record that decodes successfully re-encodes to
/// exactly the bytes it came from, so each record has one byte form.
pub proof fn lemma_decode_canonical_message(s: Seq<u8>, m: MessageV)
    requires
        strict_decode_message(s) == Some(m),
    ensures
        se_message(m) == s,
{
    let (m2, j) = sd_message(s, 0).unwrap();
    lemma_cano_message(s, 0, m2, j);
    assert(s.subrange(0, s.len() as int) =~= s);
}

/// Decode canonicity: a broker frame that decodes successfully
/// re-encodes to exactly the bytes it came from.
pub proof fn lemma_decode_canonical_pub_sub_msg(s: Seq<u8>, p: PubSubMsgV)
    requires
        strict_decode_pub_sub_msg(s) == Some(p),
    ensures
        se_pub_sub_msg(p) == s,
{
    let (p2, j) = sd_pub_sub_msg(s, 0).unwrap();
    lemma_cano_pub_sub_msg(s, 0, p2, j);
    assert(s.subrange(0, s.len() as int) =~= s);
}

} // verus!
