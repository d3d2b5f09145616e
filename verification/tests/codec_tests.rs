use rr_core::data::{
    Callsite, CallsiteId, CallsiteKind, DataEvent, Location, LogLevel, Message, MessageEnum,
    PubSubMsg, Span, SpanId, Time, TopicId, TopicMeta, Value,
};

fn sample_callsite() -> Callsite {
    Callsite {
        id: CallsiteId(0x1234_5678_9abc_def0),
        kind: CallsiteKind::Span,
        name: "müßig ➡ work".to_owned(),
        level: LogLevel::Warn,
        location: Location {
            module: "app::engine".to_owned(),
            file: Some("engine.rs".to_owned()),
            line: Some(42),
        },
        field_names: vec!["x".to_owned(), "label".to_owned()],
    }
}

fn sample_fields() -> Vec<(String, Value)> {
    vec![
        ("s".to_owned(), Value::String("hi \"there\"".to_owned())),
        ("i".to_owned(), Value::I64(-40)),
        ("u".to_owned(), Value::U64(u64::MAX)),
        ("f".to_owned(), Value::F64Bits(2.5f64.to_bits())),
        ("b".to_owned(), Value::Bool(true)),
        ("d".to_owned(), Value::Debug("Dbg".to_owned())),
        (
            "e".to_owned(),
            Value::Error {
                description: "broke".to_owned(),
                details: "badly".to_owned(),
            },
        ),
    ]
}

#[test]
fn round_trip_every_message_variant() {
    let bodies = vec![
        MessageEnum::NewCallsite(sample_callsite()),
        MessageEnum::NewSpan(Span {
            id: SpanId(7),
            parent_span_id: Some(SpanId(3)),
            callsite_id: CallsiteId(9),
            fields: sample_fields(),
        }),
        MessageEnum::EnterSpan(SpanId(7)),
        MessageEnum::ExitSpan(SpanId(7)),
        MessageEnum::DestroySpan(SpanId(7)),
        MessageEnum::SpanFollowsFrom {
            span: SpanId(7),
            follows: SpanId(3),
        },
        MessageEnum::DataEvent(DataEvent {
            callsite_id: CallsiteId(9),
            parent_span_id: None,
            fields: sample_fields(),
        }),
    ];
    let mut t = -5i64;
    for msg_enum in bodies {
        let msg = Message {
            log_time: Time(t),
            msg_enum,
        };
        let bytes = msg.encode();
        let back = Message::decode(&bytes).expect("round trip should decode");
        assert_eq!(back, msg);
        t += 1000;
    }
}

#[test]
fn round_trip_every_pub_sub_variant() {
    let meta = TopicMeta {
        id: TopicId(0xdead_beef_dead_beef_dead_beef_dead_beef),
        created: Time(123),
        name: "topic one".to_owned(),
    };
    let meta2 = TopicMeta {
        id: TopicId(2),
        created: Time(-1),
        name: String::new(),
    };
    let frames = vec![
        PubSubMsg::NewTopic(meta),
        PubSubMsg::TopicMsg(TopicId(5), vec![0, 1, 2, 255]),
        PubSubMsg::SubscribeTo(TopicId(5)),
        PubSubMsg::ListTopics,
        PubSubMsg::AllTopics(vec![meta2]),
    ];
    for frame in frames {
        let bytes = frame.encode();
        let back = PubSubMsg::decode(&bytes).expect("round trip should decode");
        assert_eq!(back, frame);
    }
}

#[test]
fn exact_bytes_of_simple_frames() {
    // ListTopics is a single discriminant byte.
    assert_eq!(PubSubMsg::ListTopics.encode(), vec![3u8]);

    // SubscribeTo: discriminant, then the 128-bit id little-endian.
    let mut expected = vec![2u8, 7u8];
    expected.extend_from_slice(&[0u8; 15]);
    assert_eq!(PubSubMsg::SubscribeTo(TopicId(7)).encode(), expected);

    // EnterSpan at t=1: the time as 8 little-endian bytes, the body
    // discriminant, then the span id.
    let msg = Message {
        log_time: Time(1),
        msg_enum: MessageEnum::EnterSpan(SpanId(2)),
    };
    let mut expected = vec![1u8, 0, 0, 0, 0, 0, 0, 0];
    expected.push(2u8);
    expected.extend_from_slice(&[2u8, 0, 0, 0, 0, 0, 0, 0]);
    assert_eq!(msg.encode(), expected);
}

#[test]
fn strings_count_characters_not_bytes() {
    // A two-character name: the count prefix says 2, and each character
    // takes four bytes.
    let meta = TopicMeta {
        id: TopicId(0),
        created: Time(0),
        name: "é!".to_owned(),
    };
    let bytes = PubSubMsg::NewTopic(meta).encode();
    // tag(1) + id(16) + created(8) + count(8) + 2*4
    assert_eq!(bytes.len(), 1 + 16 + 8 + 8 + 8);
    assert_eq!(bytes[25], 2u8);
    assert_eq!(&bytes[33..37], &('é' as u32).to_le_bytes());
}

#[test]
fn decode_rejects_truncated_frames() {
    let msg = Message {
        log_time: Time(10),
        msg_enum: MessageEnum::NewCallsite(sample_callsite()),
    };
    let bytes = msg.encode();
    for cut in 0..bytes.len() {
        assert!(Message::decode(&bytes[..cut]).is_err());
    }
}

#[test]
fn decode_rejects_trailing_bytes() {
    let msg = Message {
        log_time: Time(10),
        msg_enum: MessageEnum::ExitSpan(SpanId(1)),
    };
    let mut bytes = msg.encode();
    bytes.push(0);
    assert!(Message::decode(&bytes).is_err());
}

#[test]
fn decode_rejects_unknown_tags() {
    // A frame whose top-level discriminant no variant uses.
    assert!(PubSubMsg::decode(&[200u8]).is_err());
    // A message body tag no variant uses.
    let mut bytes = vec![0u8; 8];
    bytes.push(99u8);
    assert!(Message::decode(&bytes).is_err());
}

#[test]
fn decode_rejects_invalid_bool_and_scalar() {
    // A Value::Bool must be encoded as 0 or 1.
    let msg = Message {
        log_time: Time(0),
        msg_enum: MessageEnum::DataEvent(DataEvent {
            callsite_id: CallsiteId(1),
            parent_span_id: None,
            fields: vec![("b".to_owned(), Value::Bool(false))],
        }),
    };
    let mut bytes = msg.encode();
    let last = bytes.len() - 1;
    bytes[last] = 2; // neither 0 nor 1
    assert!(Message::decode(&bytes).is_err());

    // A surrogate code point is not a character.
    let msg = Message {
        log_time: Time(0),
        msg_enum: MessageEnum::DataEvent(DataEvent {
            callsite_id: CallsiteId(1),
            parent_span_id: None,
            fields: vec![("s".to_owned(), Value::String("A".to_owned()))],
        }),
    };
    let mut bytes = msg.encode();
    let n = bytes.len();
    // The last four bytes are the scalar of 'A'; turn it into 0xD800.
    bytes[n - 4..].copy_from_slice(&0xD800u32.to_le_bytes());
    assert!(Message::decode(&bytes).is_err());
}

#[test]
fn each_value_has_one_canonical_encoding() {
    // Equal values encode to equal bytes; different values differ.
    let a = PubSubMsg::TopicMsg(TopicId(1), vec![1, 2, 3]);
    let b = PubSubMsg::TopicMsg(TopicId(1), vec![1, 2, 3]);
    let c = PubSubMsg::TopicMsg(TopicId(1), vec![1, 2]);
    assert_eq!(a.encode(), b.encode());
    assert_ne!(a.encode(), c.encode());
}

#[test]
fn decoded_frames_reencode_to_the_same_bytes() {
    // Decode canonicity: whatever decodes, re-encodes byte for byte.
    let frames = vec![
        PubSubMsg::NewTopic(TopicMeta {
            id: TopicId(42),
            created: Time(7),
            name: "päron".to_owned(),
        }),
        PubSubMsg::TopicMsg(TopicId(5), vec![9, 8, 7]),
        PubSubMsg::ListTopics,
    ];
    for frame in frames {
        let bytes = frame.encode();
        let back = PubSubMsg::decode(&bytes).unwrap();
        assert_eq!(back.encode(), bytes);
    }
    let msg = Message {
        log_time: Time(-3),
        msg_enum: MessageEnum::NewCallsite(sample_callsite()),
    };
    let bytes = msg.encode();
    let back = Message::decode(&bytes).unwrap();
    assert_eq!(back.encode(), bytes);
}
