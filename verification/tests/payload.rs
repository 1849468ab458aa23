use nft_loader::error::DecodeError;
use nft_loader::payload::decode;
use nft_loader::schema::{heads_size_within, FieldType};
use nft_loader::value::{numbers_from_values, DecodedValue};
use nft_loader::word::Integer;

fn word(value: u64) -> [u8; 32] {
    let mut word = [0u8; 32];
    word[24..].copy_from_slice(&value.to_be_bytes());
    word
}

fn address_word(fill: u8) -> [u8; 32] {
    let mut word = [fill; 32];
    for byte in word.iter_mut().take(12) {
        *byte = 0;
    }
    word
}

fn payload(words: &[[u8; 32]]) -> Vec<u8> {
    let mut bytes = Vec::new();
    for word in words {
        bytes.extend_from_slice(word);
    }
    bytes
}

fn number(value: u64) -> Integer {
    Integer { negative: false, word: word(value) }
}

fn uint(value: u64) -> DecodedValue {
    DecodedValue::UnsignedInt(number(value))
}

fn uint256() -> FieldType {
    FieldType::UnsignedInt(256)
}

#[test]
fn decode_reads_each_scalar_from_its_word() {
    let schema = vec![
        FieldType::Address,
        uint256(),
        FieldType::SignedInt(256),
        FieldType::FixedBytes(4),
        FieldType::UnsignedInt(16),
    ];
    let mut text = [0u8; 32];
    text[..4].copy_from_slice(&[0xde, 0xad, 0xbe, 0xef]);
    text[4] = 0x77;
    let data = payload(&[address_word(0x11), word(5), [0xff; 32], text, word(0x1_2345)]);
    assert_eq!(
        decode(&schema, &data),
        Ok(vec![
            DecodedValue::Address([0x11; 20]),
            uint(5),
            DecodedValue::SignedInt(Integer { negative: true, word: [0xff; 32] }),
            DecodedValue::FixedBytes(vec![0xde, 0xad, 0xbe, 0xef]),
            uint(0x2345),
        ])
    );
}

#[test]
fn decode_of_nothing_gives_nothing() {
    assert_eq!(decode(&vec![], &[]), Ok(vec![]));
    assert_eq!(decode(&vec![], &[1, 2, 3]), Ok(vec![]));
}

#[test]
fn decode_ignores_what_follows_the_fields() {
    let mut data = payload(&[word(1), word(2)]);
    data.extend_from_slice(&[9, 9, 9]);
    assert_eq!(decode(&vec![uint256(), uint256()], &data), Ok(vec![uint(1), uint(2)]));
}

#[test]
fn decode_reads_static_tuples_and_arrays_in_place() {
    let schema = vec![
        FieldType::Tuple(vec![uint256(), FieldType::Address]),
        FieldType::FixedArray(Box::new(uint256()), 2),
        uint256(),
    ];
    let data = payload(&[word(1), address_word(0x22), word(2), word(3), word(4)]);
    assert_eq!(
        decode(&schema, &data),
        Ok(vec![
            DecodedValue::Tuple(vec![uint(1), DecodedValue::Address([0x22; 20])]),
            DecodedValue::FixedArray(vec![uint(2), uint(3)]),
            uint(4),
        ])
    );
}

#[test]
fn decode_follows_the_offset_of_a_dynamic_array() {
    let schema = vec![FieldType::DynamicArray(Box::new(uint256()))];
    let data = payload(&[word(32), word(3), word(10), word(20), word(30)]);
    assert_eq!(
        decode(&schema, &data),
        Ok(vec![DecodedValue::DynamicArray(vec![uint(10), uint(20), uint(30)])])
    );
}

#[test]
fn decode_reads_an_empty_dynamic_array() {
    let schema = vec![FieldType::DynamicArray(Box::new(uint256()))];
    let data = payload(&[word(32), word(0)]);
    assert_eq!(decode(&schema, &data), Ok(vec![DecodedValue::DynamicArray(vec![])]));
}

#[test]
fn decode_keeps_static_fields_between_dynamic_ones() {
    let schema = vec![
        FieldType::DynamicArray(Box::new(uint256())),
        uint256(),
        FieldType::DynamicArray(Box::new(FieldType::Address)),
    ];
    let data = payload(&[
        word(96),
        word(7),
        word(192),
        word(2),
        word(100),
        word(200),
        word(1),
        address_word(0x33),
    ]);
    assert_eq!(
        decode(&schema, &data),
        Ok(vec![
            DecodedValue::DynamicArray(vec![uint(100), uint(200)]),
            uint(7),
            DecodedValue::DynamicArray(vec![DecodedValue::Address([0x33; 20])]),
        ])
    );
}

#[test]
fn decode_reads_an_array_of_static_tuples() {
    let schema = vec![FieldType::DynamicArray(Box::new(FieldType::Tuple(vec![
        FieldType::UnsignedInt(8),
        FieldType::Address,
    ])))];
    let data =
        payload(&[word(32), word(2), word(1), address_word(0x44), word(2), address_word(0x55)]);
    assert_eq!(
        decode(&schema, &data),
        Ok(vec![DecodedValue::DynamicArray(vec![
            DecodedValue::Tuple(vec![uint(1), DecodedValue::Address([0x44; 20])]),
            DecodedValue::Tuple(vec![uint(2), DecodedValue::Address([0x55; 20])]),
        ])])
    );
}

#[test]
fn decode_counts_nested_offsets_from_the_inner_frame() {
    let schema =
        vec![FieldType::DynamicArray(Box::new(FieldType::DynamicArray(Box::new(uint256()))))];
    let data = payload(&[
        word(32),
        word(2),
        word(64),
        word(128),
        word(1),
        word(5),
        word(2),
        word(6),
        word(7),
    ]);
    assert_eq!(
        decode(&schema, &data),
        Ok(vec![DecodedValue::DynamicArray(vec![
            DecodedValue::DynamicArray(vec![uint(5)]),
            DecodedValue::DynamicArray(vec![uint(6), uint(7)]),
        ])])
    );
}

#[test]
fn decode_reads_a_dynamic_tuple_in_its_own_frame() {
    let schema = vec![FieldType::Tuple(vec![
        uint256(),
        FieldType::DynamicArray(Box::new(uint256())),
    ])];
    let data = payload(&[word(32), word(9), word(64), word(1), word(42)]);
    assert_eq!(
        decode(&schema, &data),
        Ok(vec![DecodedValue::Tuple(vec![uint(9), DecodedValue::DynamicArray(vec![uint(42)])])])
    );
}

#[test]
fn decode_reads_a_fixed_array_of_dynamic_elements() {
    let schema = vec![FieldType::FixedArray(
        Box::new(FieldType::DynamicArray(Box::new(uint256()))),
        2,
    )];
    let data = payload(&[word(32), word(64), word(96), word(0), word(1), word(8)]);
    assert_eq!(
        decode(&schema, &data),
        Ok(vec![DecodedValue::FixedArray(vec![
            DecodedValue::DynamicArray(vec![]),
            DecodedValue::DynamicArray(vec![uint(8)]),
        ])])
    );
}

#[test]
fn decode_twice_gives_the_same() {
    let schema = vec![FieldType::DynamicArray(Box::new(uint256())), FieldType::Address];
    let good = payload(&[word(64), address_word(1), word(1), word(3)]);
    assert_eq!(decode(&schema, &good), decode(&schema, &good));
    assert!(decode(&schema, &good).is_ok());
    let bad = payload(&[word(64), address_word(1), word(2), word(3)]);
    assert_eq!(decode(&schema, &bad), decode(&schema, &bad));
    assert!(decode(&schema, &bad).is_err());
}

#[test]
fn payload_below_a_word_for_each_field_is_truncated() {
    let schema = vec![uint256(), FieldType::Address];
    assert_eq!(decode(&schema, &[]), Err(DecodeError::TruncatedPayload));
    assert_eq!(decode(&schema, &payload(&[word(1)])), Err(DecodeError::TruncatedPayload));
    assert_eq!(decode(&schema, &[0u8; 63]), Err(DecodeError::TruncatedPayload));
    assert!(decode(&schema, &[0u8; 64]).is_ok());
}

#[test]
fn payload_below_a_word_for_each_field_is_truncated_whatever_the_schema() {
    let schema = vec![FieldType::UnsignedInt(7), FieldType::Tuple(vec![])];
    assert_eq!(decode(&schema, &[0u8; 63]), Err(DecodeError::TruncatedPayload));
    assert_eq!(decode(&schema, &[0u8; 64]), Err(DecodeError::UnsupportedType));
}

#[test]
fn payload_shorter_than_its_static_fields_is_truncated() {
    let schema = vec![FieldType::FixedArray(Box::new(uint256()), 3)];
    assert_eq!(decode(&schema, &[0u8; 64]), Err(DecodeError::TruncatedPayload));
    assert_eq!(decode(&schema, &[0u8; 95]), Err(DecodeError::TruncatedPayload));
    assert!(decode(&schema, &[0u8; 96]).is_ok());
    let huge = vec![FieldType::FixedArray(Box::new(uint256()), usize::MAX)];
    assert_eq!(decode(&huge, &[0u8; 96]), Err(DecodeError::TruncatedPayload));
}

#[test]
fn array_longer_than_the_payload_is_truncated() {
    let schema = vec![FieldType::DynamicArray(Box::new(uint256()))];
    let missing_element = payload(&[word(32), word(3), word(10), word(20)]);
    assert_eq!(decode(&schema, &missing_element), Err(DecodeError::TruncatedPayload));
    let missing_count = payload(&[word(32)]);
    assert_eq!(decode(&schema, &missing_count), Err(DecodeError::TruncatedPayload));
    let endless = payload(&[word(32), [0xff; 32], word(1)]);
    assert_eq!(decode(&schema, &endless), Err(DecodeError::TruncatedPayload));
}

#[test]
fn offset_into_the_head_is_invalid() {
    let schema = vec![FieldType::DynamicArray(Box::new(uint256())), uint256()];
    assert_eq!(
        decode(&schema, &payload(&[word(0), word(1), word(0)])),
        Err(DecodeError::InvalidOffset)
    );
    assert_eq!(
        decode(&schema, &payload(&[word(32), word(1), word(0)])),
        Err(DecodeError::InvalidOffset)
    );
    assert_eq!(
        decode(&schema, &payload(&[word(64), word(1), word(0)])),
        Ok(vec![DecodedValue::DynamicArray(vec![]), uint(1)])
    );
}

#[test]
fn offset_past_the_payload_is_invalid() {
    let schema = vec![FieldType::DynamicArray(Box::new(uint256()))];
    assert_eq!(decode(&schema, &payload(&[word(33)])), Err(DecodeError::InvalidOffset));
    assert_eq!(decode(&schema, &payload(&[[0xff; 32], word(0)])), Err(DecodeError::InvalidOffset));
    let mut high = [0u8; 32];
    high[0] = 1;
    assert_eq!(decode(&schema, &payload(&[high, word(0)])), Err(DecodeError::InvalidOffset));
}

#[test]
fn nested_offset_out_of_its_frame_is_invalid() {
    let schema =
        vec![FieldType::DynamicArray(Box::new(FieldType::DynamicArray(Box::new(uint256()))))];
    let into_head = payload(&[word(32), word(1), word(0), word(0)]);
    assert_eq!(decode(&schema, &into_head), Err(DecodeError::InvalidOffset));
    let past_end = payload(&[word(32), word(1), word(65), word(0)]);
    assert_eq!(decode(&schema, &past_end), Err(DecodeError::InvalidOffset));
}

#[test]
fn schema_outside_the_supported_types_is_refused() {
    let data = [0u8; 256];
    for field in [
        FieldType::UnsignedInt(7),
        FieldType::UnsignedInt(257),
        FieldType::SignedInt(0),
        FieldType::FixedBytes(33),
        FieldType::DynamicArray(Box::new(FieldType::Tuple(vec![]))),
        FieldType::DynamicArray(Box::new(FieldType::FixedArray(Box::new(FieldType::Address), 0))),
        FieldType::Tuple(vec![FieldType::Address, FieldType::UnsignedInt(300)]),
    ] {
        assert!(!field.is_supported());
        assert_eq!(
            decode(&vec![FieldType::Address, field], &data),
            Err(DecodeError::UnsupportedType)
        );
    }
}

#[test]
fn decode_reads_fields_that_take_no_room() {
    let schema = vec![
        FieldType::Tuple(vec![]),
        uint256(),
        FieldType::FixedArray(Box::new(uint256()), 0),
        FieldType::FixedArray(Box::new(FieldType::DynamicArray(Box::new(uint256()))), 0),
        uint256(),
    ];
    let data = payload(&[word(1), word(96), word(2), word(0), word(0)]);
    assert_eq!(
        decode(&schema, &data),
        Ok(vec![
            DecodedValue::Tuple(vec![]),
            uint(1),
            DecodedValue::FixedArray(vec![]),
            DecodedValue::FixedArray(vec![]),
            uint(2),
        ])
    );
    assert_eq!(FieldType::Tuple(vec![]).head_size(), 0);
    assert_eq!(FieldType::FixedArray(Box::new(uint256()), 0).head_size_within(0), Some(0));
    let huge = FieldType::FixedArray(Box::new(uint256()), usize::MAX);
    assert_eq!(FieldType::FixedArray(Box::new(huge), 0).head_size(), 0);
}

#[test]
fn supported_types_are_told() {
    for field in [
        FieldType::Address,
        FieldType::UnsignedInt(8),
        FieldType::UnsignedInt(256),
        FieldType::SignedInt(128),
        FieldType::FixedBytes(0),
        FieldType::FixedBytes(32),
        FieldType::Tuple(vec![]),
        FieldType::Tuple(vec![FieldType::Address]),
        FieldType::FixedArray(Box::new(FieldType::Address), 0),
        FieldType::FixedArray(Box::new(FieldType::Address), 1),
        FieldType::DynamicArray(Box::new(FieldType::Tuple(vec![FieldType::Address]))),
    ] {
        assert!(field.is_supported());
    }
}

#[test]
fn dynamic_types_are_those_that_hold_a_dynamic_array() {
    assert!(!FieldType::Address.is_dynamic());
    assert!(!uint256().is_dynamic());
    assert!(!FieldType::FixedBytes(32).is_dynamic());
    assert!(!FieldType::Tuple(vec![uint256(), FieldType::Address]).is_dynamic());
    assert!(!FieldType::FixedArray(Box::new(uint256()), 2).is_dynamic());
    assert!(FieldType::DynamicArray(Box::new(uint256())).is_dynamic());
    assert!(FieldType::FixedArray(Box::new(FieldType::DynamicArray(Box::new(uint256()))), 2)
        .is_dynamic());
    assert!(FieldType::Tuple(vec![uint256(), FieldType::DynamicArray(Box::new(uint256()))])
        .is_dynamic());
}

#[test]
fn head_takes_a_word_for_each_static_scalar_and_each_offset() {
    assert_eq!(FieldType::Address.head_size(), 32);
    assert_eq!(FieldType::DynamicArray(Box::new(uint256())).head_size(), 32);
    assert_eq!(FieldType::FixedArray(Box::new(uint256()), 3).head_size(), 96);
    let pair = FieldType::Tuple(vec![uint256(), FieldType::FixedArray(Box::new(uint256()), 2)]);
    assert_eq!(pair.head_size(), 96);
    assert_eq!(FieldType::FixedArray(Box::new(pair), 2).head_size(), 192);
    let dynamic = FieldType::Tuple(vec![uint256(), FieldType::DynamicArray(Box::new(uint256()))]);
    assert_eq!(dynamic.head_size(), 32);
}

#[test]
fn head_size_is_given_within_the_limit_only() {
    let triple = FieldType::FixedArray(Box::new(uint256()), 3);
    assert_eq!(triple.head_size_within(96), Some(96));
    assert_eq!(triple.head_size_within(95), None);
    assert_eq!(FieldType::Address.head_size_within(31), None);
    let huge = FieldType::FixedArray(Box::new(uint256()), usize::MAX);
    assert_eq!(huge.head_size_within(usize::MAX), None);
    let fields = vec![uint256(), triple, FieldType::DynamicArray(Box::new(uint256()))];
    assert_eq!(heads_size_within(&fields, 160), Some(160));
    assert_eq!(heads_size_within(&fields, 159), None);
    assert_eq!(heads_size_within(&vec![], 0), Some(0));
}

#[test]
fn builders_make_the_composite_types() {
    assert_eq!(
        FieldType::tuple(vec![FieldType::Address]),
        FieldType::Tuple(vec![FieldType::Address])
    );
    assert_eq!(
        FieldType::fixed_array(FieldType::Address, 2),
        FieldType::FixedArray(Box::new(FieldType::Address), 2)
    );
    assert_eq!(
        FieldType::dynamic_array(FieldType::Address),
        FieldType::DynamicArray(Box::new(FieldType::Address))
    );
}

#[test]
fn accessors_give_what_a_value_of_their_kind_holds() {
    assert_eq!(DecodedValue::Address([7; 20]).address(), Ok(vec![7; 20]));
    assert_eq!(uint(3).unsigned(), Ok(number(3)));
    assert_eq!(DecodedValue::SignedInt(number(3)).signed(), Ok(number(3)));
    assert_eq!(DecodedValue::FixedBytes(vec![1, 2]).fixed_bytes(), Ok(vec![1, 2]));
    assert_eq!(DecodedValue::Tuple(vec![uint(1)]).tuple(), Ok(&vec![uint(1)]));
    assert_eq!(DecodedValue::FixedArray(vec![uint(1)]).fixed_array(), Ok(&vec![uint(1)]));
    assert_eq!(DecodedValue::DynamicArray(vec![uint(1)]).dynamic_array(), Ok(&vec![uint(1)]));
}

#[test]
fn accessors_refuse_a_value_of_another_kind() {
    assert_eq!(uint(3).address(), Err(DecodeError::UnsupportedType));
    assert_eq!(DecodedValue::SignedInt(number(3)).unsigned(), Err(DecodeError::UnsupportedType));
    assert_eq!(uint(3).signed(), Err(DecodeError::UnsupportedType));
    assert_eq!(DecodedValue::Address([7; 20]).fixed_bytes(), Err(DecodeError::UnsupportedType));
    assert_eq!(DecodedValue::FixedArray(vec![]).tuple(), Err(DecodeError::UnsupportedType));
    assert_eq!(DecodedValue::DynamicArray(vec![]).fixed_array(), Err(DecodeError::UnsupportedType));
    assert_eq!(DecodedValue::Tuple(vec![]).dynamic_array(), Err(DecodeError::UnsupportedType));
}

#[test]
fn numbers_are_those_of_unsigned_values() {
    let values =
        vec![uint(1), DecodedValue::UnsignedInt(Integer { negative: false, word: [0xff; 32] })];
    assert_eq!(
        numbers_from_values(&values),
        Ok(vec![number(1), Integer { negative: false, word: [0xff; 32] }])
    );
    assert_eq!(numbers_from_values(&vec![]), Ok(vec![]));
    assert_eq!(
        numbers_from_values(&vec![uint(1), DecodedValue::Address([0; 20])]),
        Err(DecodeError::UnsupportedType)
    );
}

#[test]
fn copies_of_types_and_values_are_equal_to_them() {
    let field = FieldType::Tuple(vec![
        FieldType::DynamicArray(Box::new(FieldType::FixedArray(Box::new(uint256()), 2))),
        FieldType::FixedBytes(3),
        FieldType::SignedInt(64),
        FieldType::Address,
    ]);
    assert_eq!(field.clone(), field);
    let value = DecodedValue::Tuple(vec![
        DecodedValue::DynamicArray(vec![DecodedValue::FixedArray(vec![uint(1), uint(2)])]),
        DecodedValue::FixedBytes(vec![1, 2, 3]),
        DecodedValue::SignedInt(Integer { negative: true, word: [0xff; 32] }),
        DecodedValue::Address([9; 20]),
    ]);
    assert_eq!(value.clone(), value);
}
