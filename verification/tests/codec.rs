use pledge::codec::decode;
use pledge::codec::encode;
use pledge::codec::encode_array;
use pledge::codec::encode_into;
use pledge::codec::encode_text_into;
use pledge::codec::DecodeError;
use pledge::value::PostcardValue;

fn text(s: &str) -> PostcardValue {
    PostcardValue::String(s.to_string())
}

fn sample() -> PostcardValue {
    PostcardValue::Object(vec![
        ("id".to_string(), PostcardValue::Integer64(-9_000_000_000)),
        ("name".to_string(), text("Zo\u{eb} \u{1f600}")),
        (
            "tags".to_string(),
            PostcardValue::Array(vec![
                PostcardValue::Null,
                PostcardValue::Bool(true),
                PostcardValue::Bool(false),
                PostcardValue::Integer8(i8::MIN),
                PostcardValue::Integer16(i16::MAX),
                PostcardValue::Integer32(-1),
                PostcardValue::Float32(f32::NAN.to_bits()),
                PostcardValue::Float64((-1.25f64).to_bits()),
                PostcardValue::Array(Vec::new()),
                PostcardValue::Object(Vec::new()),
            ]),
        ),
        ("name".to_string(), text("")),
    ])
}

#[test]
fn scalars_have_their_byte_form() {
    assert_eq!(encode(&PostcardValue::Null), vec![0]);
    assert_eq!(encode(&PostcardValue::Bool(false)), vec![1, 0]);
    assert_eq!(encode(&PostcardValue::Bool(true)), vec![1, 1]);
    assert_eq!(encode(&PostcardValue::Integer8(-1)), vec![2, 0xff]);
    assert_eq!(encode(&PostcardValue::Integer8(127)), vec![2, 0x7f]);
    assert_eq!(encode(&PostcardValue::Integer16(-2)), vec![3, 0xfe, 0xff]);
    assert_eq!(encode(&PostcardValue::Integer32(1)), vec![4, 1, 0, 0, 0]);
    assert_eq!(encode(&PostcardValue::Integer32(i32::MIN)), vec![4, 0, 0, 0, 0x80]);
    assert_eq!(
        encode(&PostcardValue::Integer64(0x0102_0304_0506_0708)),
        vec![5, 8, 7, 6, 5, 4, 3, 2, 1]
    );
    assert_eq!(
        encode(&PostcardValue::Integer64(i64::MIN)),
        vec![5, 0, 0, 0, 0, 0, 0, 0, 0x80]
    );
    assert_eq!(encode(&PostcardValue::Float32(0x3fc0_0000)), vec![6, 0, 0, 0xc0, 0x3f]);
    assert_eq!(
        encode(&PostcardValue::Float64(u64::MAX)),
        vec![7, 0xff, 0xff, 0xff, 0xff, 0xff, 0xff, 0xff, 0xff]
    );
}

#[test]
fn text_array_and_object_have_their_byte_form() {
    assert_eq!(encode(&text("hi")), vec![8, 2, 0, 0, 0, 0, 0, 0, 0, b'h', b'i']);
    assert_eq!(encode(&text("\u{e9}")), vec![8, 2, 0, 0, 0, 0, 0, 0, 0, 0xc3, 0xa9]);
    assert_eq!(
        encode(&PostcardValue::Array(vec![PostcardValue::Null, PostcardValue::Bool(true)])),
        vec![9, 2, 0, 0, 0, 0, 0, 0, 0, 0, 1, 1]
    );
    assert_eq!(
        encode(&PostcardValue::Object(vec![("x".to_string(), PostcardValue::Integer16(-2))])),
        vec![10, 1, 0, 0, 0, 0, 0, 0, 0, 1, 0, 0, 0, 0, 0, 0, 0, b'x', 3, 0xfe, 0xff]
    );
}

#[test]
fn decode_gives_back_what_was_encoded() {
    let values = vec![
        sample(),
        PostcardValue::Null,
        PostcardValue::Integer8(-128),
        PostcardValue::Integer16(-32768),
        PostcardValue::Integer32(i32::MAX),
        PostcardValue::Integer64(i64::MAX),
        PostcardValue::Integer64(-1),
        PostcardValue::Float32(f32::INFINITY.to_bits()),
        PostcardValue::Float64(0),
        text("\u{10ffff}\u{0}"),
        PostcardValue::Array(vec![sample(), sample()]),
    ];
    for value in values {
        assert_eq!(decode(&encode(&value)), Ok(value));
    }
}

#[test]
fn field_order_and_repeated_names_are_kept() {
    let object = PostcardValue::Object(vec![
        ("b".to_string(), PostcardValue::Integer32(1)),
        ("a".to_string(), PostcardValue::Integer32(2)),
        ("b".to_string(), PostcardValue::Integer32(3)),
    ]);
    let reordered = PostcardValue::Object(vec![
        ("a".to_string(), PostcardValue::Integer32(2)),
        ("b".to_string(), PostcardValue::Integer32(1)),
        ("b".to_string(), PostcardValue::Integer32(3)),
    ]);
    assert_eq!(decode(&encode(&object)), Ok(object));
    assert_ne!(decode(&encode(&reordered)), decode(&encode(&sample())));
    assert_ne!(
        encode(&reordered),
        encode(&PostcardValue::Object(vec![
            ("b".to_string(), PostcardValue::Integer32(1)),
            ("a".to_string(), PostcardValue::Integer32(2)),
            ("b".to_string(), PostcardValue::Integer32(3)),
        ]))
    );
}

#[test]
fn deep_nesting_round_trips() {
    let mut value = PostcardValue::Integer8(1);
    for depth in 0..200 {
        value = if depth % 2 == 0 {
            PostcardValue::Array(vec![value])
        } else {
            PostcardValue::Object(vec![(depth.to_string(), value)])
        };
    }
    assert_eq!(decode(&encode(&value)), Ok(value));
}

#[test]
fn clone_is_equal() {
    let value = sample();
    assert_eq!(value.clone(), value);
}

#[test]
fn encode_into_appends() {
    let mut out = vec![0xaa];
    encode_into(&PostcardValue::Bool(true), &mut out);
    encode_text_into("a", &mut out);
    assert_eq!(out, vec![0xaa, 1, 1, 1, 0, 0, 0, 0, 0, 0, 0, b'a']);
}

#[test]
fn encode_array_is_the_byte_form_of_the_array() {
    let items = vec![PostcardValue::Integer32(5), text("x")];
    assert_eq!(encode_array(&items), encode(&PostcardValue::Array(items.clone())));
    assert_eq!(encode_array(&[]), vec![9, 0, 0, 0, 0, 0, 0, 0, 0]);
}

#[test]
fn empty_bytes_are_malformed() {
    assert_eq!(decode(&[]), Err(DecodeError::Malformed));
}

#[test]
fn unknown_tag_is_malformed() {
    assert_eq!(decode(&[11]), Err(DecodeError::Malformed));
    assert_eq!(decode(&[255, 0, 0]), Err(DecodeError::Malformed));
}

#[test]
fn truth_value_other_than_zero_and_one_is_malformed() {
    assert_eq!(decode(&[1, 2]), Err(DecodeError::Malformed));
    assert_eq!(decode(&[1]), Err(DecodeError::Malformed));
}

#[test]
fn short_number_is_malformed() {
    assert_eq!(decode(&[2]), Err(DecodeError::Malformed));
    assert_eq!(decode(&[3, 0]), Err(DecodeError::Malformed));
    assert_eq!(decode(&[4, 1, 0]), Err(DecodeError::Malformed));
    assert_eq!(decode(&[5, 1, 2, 3, 4, 5, 6, 7]), Err(DecodeError::Malformed));
    assert_eq!(decode(&[6, 1, 2, 3]), Err(DecodeError::Malformed));
    assert_eq!(decode(&[7]), Err(DecodeError::Malformed));
}

#[test]
fn text_that_is_not_utf8_is_malformed() {
    assert_eq!(decode(&[8, 1, 0, 0, 0, 0, 0, 0, 0, 0xff]), Err(DecodeError::Malformed));
    assert_eq!(decode(&[8, 2, 0, 0, 0, 0, 0, 0, 0, 0xc3]), Err(DecodeError::Malformed));
    assert_eq!(
        decode(&[8, 3, 0, 0, 0, 0, 0, 0, 0, 0xed, 0xa0, 0x80]),
        Err(DecodeError::Malformed)
    );
    assert_eq!(decode(&[8, 2, 0, 0, 0, 0, 0, 0, 0, 0xc0, 0x80]), Err(DecodeError::Malformed));
}

#[test]
fn length_beyond_the_bytes_is_malformed() {
    assert_eq!(decode(&[8, 5, 0, 0, 0, 0, 0, 0, 0, b'a']), Err(DecodeError::Malformed));
    assert_eq!(
        decode(&[8, 0xff, 0xff, 0xff, 0xff, 0xff, 0xff, 0xff, 0xff, b'a']),
        Err(DecodeError::Malformed)
    );
    assert_eq!(decode(&[9, 2, 0, 0, 0, 0, 0, 0, 0, 0]), Err(DecodeError::Malformed));
    assert_eq!(
        decode(&[9, 0xff, 0xff, 0xff, 0xff, 0xff, 0xff, 0xff, 0xff]),
        Err(DecodeError::Malformed)
    );
    assert_eq!(decode(&[10, 1, 0, 0, 0, 0, 0, 0, 0]), Err(DecodeError::Malformed));
    assert_eq!(
        decode(&[10, 1, 0, 0, 0, 0, 0, 0, 0, 1, 0, 0, 0, 0, 0, 0, 0, b'x']),
        Err(DecodeError::Malformed)
    );
}

#[test]
fn bytes_after_the_value_are_trailing() {
    assert_eq!(decode(&[0, 0]), Err(DecodeError::TrailingBytes));
    assert_eq!(decode(&[1, 1, 7]), Err(DecodeError::TrailingBytes));
    let mut bytes = encode(&sample());
    bytes.push(0);
    assert_eq!(decode(&bytes), Err(DecodeError::TrailingBytes));
}

#[test]
fn every_cut_of_a_byte_form_is_malformed() {
    let bytes = encode(&sample());
    for cut in 0..bytes.len() {
        assert_eq!(decode(&bytes[..cut]), Err(DecodeError::Malformed), "cut at {}", cut);
    }
}
