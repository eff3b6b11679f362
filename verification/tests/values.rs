//! Values: how they are read, how they are written, and what they are called.
use cardbox::blobs::{blob_of, is_blob_name, temporary_name};
use cardbox::digest::{canonical_json, digest};
use cardbox::json::{Json, Number, Real, Value, num, real_number, text, truncated_bits};
use cardbox::print::json_encode;
use cardbox::root::{Root, root_choice};
use cardbox::wire::json_decode;
use cardbox::record::{
    Committed, Stored, alias_stream, card_stream, envelope, event_kind, field, note_data,
    recorded_from, recorded_of, signed_word,
};
use cardbox::text::{comes_before, decimal_text, padded_text, signed_text, strip_prefix};

fn string(s: &str) -> Json {
    Json::String(s.to_string())
}

fn count(n: u64) -> Json {
    Json::Number(Number::PosInt(n))
}

fn float(x: f64) -> Json {
    Json::Number(Number::Float(Real {
        bits: x.to_bits(),
        text: format!("{x}"),
    }))
}

fn object(fields: Vec<(&str, Json)>) -> Json {
    Json::Object(fields.into_iter().map(|(k, v)| (k.to_string(), v)).collect())
}

#[test]
fn json_is_written_without_a_space() {
    let rows = Json::Array(vec![object(vec![("a", count(1))]), object(vec![("a", count(2))])]);
    assert_eq!(json_encode(&rows), r#"[{"a":1},{"a":2}]"#);
    assert_eq!(json_encode(&Json::Null), "null");
    assert_eq!(json_encode(&Json::Bool(false)), "false");
    assert_eq!(json_encode(&Json::Number(Number::NegInt(-7))), "-7");
    assert_eq!(json_encode(&float(0.5)), "0.5");
    assert_eq!(json_encode(&Json::Array(vec![])), "[]");
    assert_eq!(json_encode(&object(vec![])), "{}");
    assert_eq!(
        json_encode(&object(vec![("b", Json::Bool(true)), ("a", Json::Null)])),
        r#"{"b":true,"a":null}"#
    );
}

#[test]
fn a_quoted_text_escapes_what_json_escapes() {
    assert_eq!(
        json_encode(&string("a\"b\\c\n\t\r\u{8}\u{c}\u{1}\u{1f}/é\u{7f}\u{2028}")),
        "\"a\\\"b\\\\c\\n\\t\\r\\b\\f\\u0001\\u001f/é\u{7f}\u{2028}\""
    );
}

#[test]
fn what_is_encoded_reads_back_as_what_serde_json_reads() {
    let v = object(vec![
        ("a", Json::Array(vec![count(u64::MAX), Json::Number(Number::NegInt(i64::MIN))])),
        ("b", string("quote \" and \u{0}")),
        ("c", object(vec![("deep", Json::Array(vec![Json::Null]))])),
    ]);
    let read: serde_json::Value = serde_json::from_str(&json_encode(&v)).unwrap();
    assert_eq!(read.to_string(), json_encode(&v));
    assert_eq!(read["a"][0].as_u64(), Some(u64::MAX));
    assert_eq!(read["a"][1].as_i64(), Some(i64::MIN));
    assert_eq!(read["b"], "quote \" and \u{0}");
}

#[test]
fn the_fingerprint_does_not_depend_on_the_order_of_the_fields() {
    let one = object(vec![
        ("b", count(1)),
        ("a", Json::Array(vec![Json::Bool(true), Json::Null])),
    ]);
    let other = object(vec![
        ("a", Json::Array(vec![Json::Bool(true), Json::Null])),
        ("b", count(1)),
    ]);
    assert_eq!(canonical_json(&one), r#"{"a":[true,null],"b":1}"#);
    assert_eq!(canonical_json(&other), canonical_json(&one));
    assert_eq!(digest(&Value(one)), "51705a2c9eb3e7e4");
    assert_eq!(digest(&Value(other)), "51705a2c9eb3e7e4");

    let nested = object(vec![
        ("b", string("z")),
        ("a", object(vec![("y", count(2)), ("x", count(1))])),
    ]);
    assert_eq!(canonical_json(&nested), r#"{"a":{"x":1,"y":2},"b":"z"}"#);
    assert_eq!(digest(&Value(nested)), "dda8a7ac969fb231");
    assert_eq!(digest(&Value::default()), "74234e98afe7498f");
}

#[test]
fn keys_sort_character_by_character() {
    assert!(comes_before("", "a"));
    assert!(comes_before("a", "ab"));
    assert!(comes_before("Z", "a"));
    assert!(comes_before("a", "é"));
    assert!(!comes_before("b", "ab"));
    assert!(!comes_before("a", "a"));
    let v = object(vec![("é", count(1)), ("b", count(2)), ("a\u{10000}", count(3)), ("a", count(4))]);
    assert_eq!(canonical_json(&v), "{\"a\":4,\"a\u{10000}\":3,\"b\":2,\"é\":1}");
}

#[test]
fn a_blob_is_named_by_its_bytes() {
    let b = blob_of(b"the bytes");
    assert_eq!(b.size, 9);
    assert_eq!(
        b.hash,
        "ed589341c9fd5da96aaff4c5efa008226282a716186608d5a032ac75895a9c2f"
    );
    assert_eq!(blob_of(b"the bytes").hash, b.hash, "the same bytes are the same blob");
    assert_ne!(blob_of(b"other bytes").hash, b.hash);
    let none = blob_of(b"");
    assert_eq!(none.size, 0);
    assert_eq!(
        none.hash,
        "e3b0c44298fc1c149afbf4c8996fb92427ae41e4649b934ca495991b7852b855"
    );
    assert_eq!(temporary_name("abc", 42), ".abc.42");
}

#[test]
fn a_number_is_cut_towards_zero() {
    for x in [
        0.0,
        -0.0,
        0.5,
        -0.5,
        1.0,
        2.9,
        -2.9,
        123456789.75,
        -123456789.75,
        1e15,
        9.007199254740993e15,
        9.223372036854774784e18,
        9.223372036854775808e18,
        -9.223372036854775808e18,
        9.3e18,
        -9.3e18,
        1e300,
        -1e300,
        1e-310,
        f64::MIN_POSITIVE,
        f64::MAX,
        f64::INFINITY,
        f64::NEG_INFINITY,
        f64::NAN,
    ] {
        assert_eq!(truncated_bits(x.to_bits()), x as i64, "{x}");
    }
    let mut bits: u64 = 0x3ff0_0000_0000_0001;
    for _ in 0..2000 {
        bits = bits.wrapping_mul(6_364_136_223_846_793_005).wrapping_add(1);
        assert_eq!(truncated_bits(bits), f64::from_bits(bits) as i64, "{bits:x}");
    }
    for exponent in 0..2047u64 {
        let bits = (exponent << 52) | 0x000f_1234_5678_9abc;
        assert_eq!(truncated_bits(bits), f64::from_bits(bits) as i64, "{bits:x}");
    }
}

#[test]
fn num_and_text_answer_only_what_they_are_asked() {
    let o = object(vec![
        ("n", float(2.9)),
        ("big", count(u64::MAX)),
        ("neg", Json::Number(Number::NegInt(-3))),
        ("s", string("x")),
    ]);
    assert_eq!(num(o.get("n")), Some(2));
    assert_eq!(num(o.get("big")), Some(i64::MAX));
    assert_eq!(num(o.get("neg")), Some(-3));
    assert_eq!(num(o.get("s")), None);
    assert_eq!(num(o.get("absent")), None);
    assert_eq!(text(Some(&o), "s").as_deref(), Some("x"));
    assert_eq!(text(Some(&o), "n"), None);
    assert_eq!(text(None, "s"), None);
    assert_eq!(text(Some(&Json::Array(vec![])), "s"), None);
    assert_eq!(real_number(o.get("neg")), Some(Number::NegInt(-3)));
    assert_eq!(real_number(o.get("s")), None);
    assert_eq!(count(3).as_u64(), Some(3));
    assert_eq!(count(u64::MAX).as_i64(), None);
    assert_eq!(float(3.0).as_i64(), None);
}

#[test]
fn numbers_are_written_out() {
    assert_eq!(decimal_text(0), "0");
    assert_eq!(decimal_text(u64::MAX), "18446744073709551615");
    assert_eq!(signed_text(i64::MIN), "-9223372036854775808");
    for n in [-12345, -7, 0, 7, 42, 2025, 12345] {
        assert_eq!(padded_text(n, 4), format!("{n:04}"));
        assert_eq!(padded_text(n, 0), format!("{n}"));
    }
    assert_eq!(signed_word(u64::MAX), -1);
    assert_eq!(signed_word(1 << 63), i64::MIN);
    assert_eq!(signed_word(7), 7);
}

#[test]
fn a_prefix_comes_off_once() {
    assert_eq!(strip_prefix("card-card-1", "card-").as_deref(), Some("card-1"));
    assert_eq!(strip_prefix("card-", "card-").as_deref(), Some(""));
    assert_eq!(strip_prefix("car", "card-"), None);
    assert_eq!(strip_prefix("Card-1", "card-"), None);
    assert_eq!(card_stream("1"), "card-1");
    assert_eq!(alias_stream("champion"), "alias-champion");
}

#[test]
fn an_envelope_leaves_a_null_out() {
    let event = envelope("card_opened", Json::Null, Json::Null);
    assert_eq!(event.len(), 1);
    assert_eq!(event_kind(&event), "card_opened");
    assert_eq!(field(&event, "meta"), Json::Null);
    let event = envelope("k", object(vec![("a", count(1))]), note_data(Some("why".to_string())));
    assert_eq!(event.len(), 3);
    assert_eq!(field(&event, "data"), object(vec![("note", string("why"))]));
    assert_eq!(note_data(None), Json::Null);
}

#[test]
fn a_write_is_recorded_with_its_coordinates() {
    let event = envelope("k", object(vec![("a", count(1))]), Json::Null);
    let at = Committed {
        seq: 4,
        epoch_ms: 1_757_592_000_000,
        position: Some(9),
    };
    let r = recorded_of("card-1", &event, at);
    assert_eq!((r.stream.as_str(), r.seq, r.position), ("card-1", 4, 9));
    assert_eq!(r.epoch_ms, 1_757_592_000_000);
    assert_eq!(r.kind, "k");
    assert_eq!(r.meta.0, object(vec![("a", count(1))]));
    assert_eq!(r.data.0, Json::Null);
    let unplaced = Committed {
        position: None,
        ..at
    };
    assert_eq!(recorded_of("s", &event, unplaced).position, 0);
}

#[test]
fn an_event_is_read_back_with_what_it_carries() {
    let mut event = envelope("k", Json::Null, object(vec![("n", count(3))]));
    event.push(("seq".to_string(), count(5)));
    event.push(("epoch_ms".to_string(), count(77)));
    let r = recorded_from(Stored {
        position: 12,
        stream: "s".to_string(),
        event,
    });
    assert_eq!((r.seq, r.position, r.epoch_ms), (5, 12, 77));
    assert_eq!(r.data.0, object(vec![("n", count(3))]));
    let bare = recorded_from(Stored {
        position: 1,
        stream: "s".to_string(),
        event: vec![("kind".to_string(), count(1))],
    });
    assert_eq!((bare.seq, bare.epoch_ms, bare.kind.as_str()), (0, 0, ""));
}

#[test]
fn json_goes_out_and_comes_back() {
    let rows = Json::Array(vec![
        object(vec![("a", Json::Number(Number::PosInt(1)))]),
        object(vec![("a", Json::Number(Number::PosInt(2)))]),
    ]);
    let text = json_encode(&rows);
    let back = json_decode(&text).unwrap();
    match &back.0 {
        Json::Array(items) => {
            assert_eq!(items.len(), 2);
            assert_eq!(items[1].get("a"), Some(&Json::Number(Number::PosInt(2))));
        }
        other => panic!("{other:?}"),
    }
    assert!(json_decode("{not json").is_err(), "a parse failure is an error, not a nil");
    assert_eq!(text, r#"[{"a":1},{"a":2}]"#);
}

#[test]
fn every_shape_of_value_is_decoded() {
    let text = r#"{"a":[null,true,-7,18446744073709551615,0.5,"x\ny"],"b":{}}"#;
    let value = json_decode(text).unwrap().0;
    let expected = object(vec![
        (
            "a",
            Json::Array(vec![
                Json::Null,
                Json::Bool(true),
                Json::Number(Number::NegInt(-7)),
                Json::Number(Number::PosInt(u64::MAX)),
                float(0.5),
                string("x\ny"),
            ]),
        ),
        ("b", object(vec![])),
    ]);
    assert_eq!(value, expected);
    assert_eq!(json_encode(&value), text, "and encodes to the same text");
    assert_eq!(
        json_decode(r#"{"b":1,"a":2}"#).unwrap().0,
        json_decode(r#"{"a":2,"b":1}"#).unwrap().0,
        "an object hands its fields out in the order of their names"
    );
    let why = json_decode("[1,").unwrap_err();
    assert!(why.contains("EOF"), "{why}");
}

#[test]
fn only_a_hash_names_a_blob() {
    let hash = blob_of(b"the bytes").hash;
    assert!(is_blob_name(&hash));
    assert!(!is_blob_name(&hash.to_uppercase()));
    assert!(!is_blob_name(&hash[1..]));
    assert!(!is_blob_name("../cards.db"));
    assert!(!is_blob_name(""));
}

#[test]
fn a_root_that_is_set_wins_over_the_home() {
    assert_eq!(root_choice(Some("/box"), Some("/home/x")), Some(Root::Given("/box")));
    assert_eq!(root_choice(Some("/box"), None), Some(Root::Given("/box")));
    assert_eq!(root_choice(None, Some("/home/x")), Some(Root::BelowHome("/home/x")));
    assert_eq!(root_choice(None::<&str>, None), None);
}
