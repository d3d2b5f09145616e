use rr_core::data::{
    Callsite, CallsiteId, CallsiteKind, Location, LogLevel, Message, MessageEnum, Span, SpanId,
    Time, Value, hash, to_callsite_id, to_span_id,
};
use rr_core::fmt::{i64_to_string, u64_to_hex, u64_to_string};
use rr_core::span_tree::{SpanTree, TimeInterval};

fn msg(t: i64, body: MessageEnum) -> Message {
    Message {
        log_time: Time(t),
        msg_enum: body,
    }
}

#[test]
fn decimal_rendering() {
    assert_eq!(u64_to_string(0), "0");
    assert_eq!(u64_to_string(7), "7");
    assert_eq!(u64_to_string(1234567890), "1234567890");
    assert_eq!(u64_to_string(u64::MAX), "18446744073709551615");
    assert_eq!(i64_to_string(-1), "-1");
    assert_eq!(i64_to_string(0), "0");
    assert_eq!(i64_to_string(i64::MIN), "-9223372036854775808");
    assert_eq!(i64_to_string(i64::MAX), "9223372036854775807");
}

#[test]
fn hex_rendering() {
    assert_eq!(u64_to_hex(0, true), "0000000000000000");
    assert_eq!(u64_to_hex(0xdead_beef, true), "00000000DEADBEEF");
    assert_eq!(u64_to_hex(0xdead_beef, false), "00000000deadbeef");
    assert_eq!(SpanId(15).to_hex_string(), "000000000000000F");
    assert_eq!(CallsiteId(15).to_hex_string(), "000000000000000f");
}

#[test]
fn value_strings() {
    assert_eq!(
        Value::String("hi".to_owned()).to_display_string(),
        "\"hi\""
    );
    assert_eq!(Value::I64(-3).to_display_string(), "-3");
    assert_eq!(Value::U64(8).to_display_string(), "8");
    assert_eq!(Value::Bool(true).to_display_string(), "true");
    assert_eq!(Value::Bool(false).to_display_string(), "false");
    assert_eq!(Value::Debug("x y".to_owned()).to_display_string(), "x y");
    assert_eq!(
        Value::Error {
            description: "broke".to_owned(),
            details: "badly".to_owned()
        }
        .to_display_string(),
        "Error: broke, badly"
    );
    assert_eq!(
        Value::F64Bits(1).to_display_string(),
        "f64:0x0000000000000001"
    );
}

#[test]
fn location_strings() {
    let module = "app".to_owned();
    let l = |file: Option<&str>, line: Option<u32>| Location {
        module: module.clone(),
        file: file.map(|f| f.to_owned()),
        line,
    };
    assert_eq!(l(None, None).to_display_string(), "app");
    assert_eq!(l(Some("f.rs"), None).to_display_string(), "app f.rs");
    assert_eq!(l(None, Some(3)).to_display_string(), "app, line 3");
    assert_eq!(l(Some("f.rs"), Some(3)).to_display_string(), "app f.rs:3");
}

#[test]
fn interval_strings() {
    let iv = TimeInterval {
        min: Some(Time(5)),
        max: None,
    };
    assert_eq!(iv.to_display_string(), "[5 - ?]");
    let iv = TimeInterval {
        min: None,
        max: Some(Time(-7)),
    };
    assert_eq!(iv.to_display_string(), "[? - -7]");
}

#[test]
fn level_and_kind_names() {
    assert_eq!(LogLevel::Warn.name_string(), "Warn");
    assert_eq!(CallsiteKind::Span.name_string(), "Span");
}

#[test]
fn span_name_falls_back_to_hex() {
    let mut tree = SpanTree::new();
    assert_eq!(tree.span_name(&SpanId(0xAB)), "00000000000000AB");
    tree.on_mesage(&msg(
        0,
        MessageEnum::NewSpan(Span {
            id: SpanId(0xAB),
            parent_span_id: None,
            callsite_id: CallsiteId(1),
            fields: vec![],
        }),
    ));
    // Node known but callsite missing: still the hex id.
    assert_eq!(tree.span_name(&SpanId(0xAB)), "00000000000000AB");
    tree.on_mesage(&msg(
        1,
        MessageEnum::NewCallsite(Callsite {
            id: CallsiteId(1),
            kind: CallsiteKind::Span,
            name: "work".to_owned(),
            level: LogLevel::Info,
            location: Location {
                module: "m".to_owned(),
                file: None,
                line: None,
            },
            field_names: vec![],
        }),
    ));
    assert_eq!(tree.span_name(&SpanId(0xAB)), "work");
}

#[test]
fn span_description_appends_fields() {
    let mut tree = SpanTree::new();
    tree.on_mesage(&msg(
        0,
        MessageEnum::NewSpan(Span {
            id: SpanId(1),
            parent_span_id: None,
            callsite_id: CallsiteId(9),
            fields: vec![
                ("a".to_owned(), Value::I64(1)),
                ("b".to_owned(), Value::Bool(false)),
            ],
        }),
    ));
    assert_eq!(
        tree.span_description(&SpanId(1)),
        "0000000000000001 a=1, b=false"
    );
}

#[test]
fn span_ancestry_walks_to_the_root() {
    let mut tree = SpanTree::new();
    let mk = |id: u64, parent: Option<u64>| {
        MessageEnum::NewSpan(Span {
            id: SpanId(id),
            parent_span_id: parent.map(SpanId),
            callsite_id: CallsiteId(9),
            fields: vec![],
        })
    };
    tree.on_mesage(&msg(0, mk(1, None)));
    tree.on_mesage(&msg(1, mk(2, Some(1))));
    tree.on_mesage(&msg(2, mk(3, Some(2))));
    assert_eq!(
        tree.span_ancestry(&SpanId(3)),
        "0000000000000001 ➡ 0000000000000002 ➡ 0000000000000003"
    );
}

#[test]
fn stable_hash_matches_the_digest() {
    // The library's stable hash is the digest of the bytes with seed 0.
    assert_eq!(hash(b"hello"), wyhash::wyhash(b"hello", 0));
    assert_eq!(hash(b""), wyhash::wyhash(b"", 0));
    assert_eq!(to_callsite_id(b"site").0, hash(b"site"));
    assert_eq!(to_span_id(b"span").0, hash(b"span"));
    // Same input, same id; the digest actually depends on the input.
    assert_eq!(to_span_id(b"span"), to_span_id(b"span"));
    assert_ne!(hash(b"hello"), hash(b"world"));
}
