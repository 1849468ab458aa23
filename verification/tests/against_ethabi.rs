use ethabi::{ParamType, Token};
use nft_loader::payload::decode;
use nft_loader::schema::FieldType;
use nft_loader::value::DecodedValue;
use nft_loader::word::{to_signed_int, Integer};

fn param(field: &FieldType) -> ParamType {
    match field {
        FieldType::Address => ParamType::Address,
        FieldType::UnsignedInt(bits) => ParamType::Uint(*bits),
        FieldType::SignedInt(bits) => ParamType::Int(*bits),
        FieldType::FixedBytes(len) => ParamType::FixedBytes(*len),
        FieldType::Tuple(members) => ParamType::Tuple(members.iter().map(param).collect()),
        FieldType::FixedArray(element, count) => {
            ParamType::FixedArray(Box::new(param(element)), *count)
        }
        FieldType::DynamicArray(element) => ParamType::Array(Box::new(param(element))),
    }
}

fn value(token: &Token) -> DecodedValue {
    match token {
        Token::Address(address) => DecodedValue::Address(address.0),
        Token::Uint(number) => {
            let mut word = [0u8; 32];
            number.to_big_endian(&mut word);
            DecodedValue::UnsignedInt(Integer { negative: false, word })
        }
        Token::Int(number) => {
            let mut word = [0u8; 32];
            number.to_big_endian(&mut word);
            DecodedValue::SignedInt(to_signed_int(&word))
        }
        Token::FixedBytes(bytes) => DecodedValue::FixedBytes(bytes.clone()),
        Token::Tuple(members) => DecodedValue::Tuple(members.iter().map(value).collect()),
        Token::FixedArray(elements) => {
            DecodedValue::FixedArray(elements.iter().map(value).collect())
        }
        Token::Array(elements) => DecodedValue::DynamicArray(elements.iter().map(value).collect()),
        other => panic!("no field type gives {:?}", other),
    }
}

fn uint(value: u64) -> Token {
    Token::Uint(ethabi::Uint::from(value))
}

fn address(fill: u8) -> Token {
    Token::Address(ethabi::Address::from([fill; 20]))
}

fn uint256() -> FieldType {
    FieldType::UnsignedInt(256)
}

fn agree_on(schema: Vec<FieldType>, tokens: Vec<Token>) {
    let params: Vec<ParamType> = schema.iter().map(param).collect();
    let data = ethabi::encode(&tokens);
    assert_eq!(ethabi::decode(&params, &data).unwrap(), tokens);
    let expected: Vec<DecodedValue> = tokens.iter().map(value).collect();
    assert_eq!(decode(&schema, &data), Ok(expected));
    for cut in 0..data.len() {
        if ethabi::decode(&params, &data[..cut]).is_err() {
            assert!(decode(&schema, &data[..cut]).is_err(), "cut at {}", cut);
        }
    }
}

#[test]
fn agrees_on_scalars() {
    agree_on(
        vec![FieldType::Address, uint256(), FieldType::SignedInt(256), FieldType::FixedBytes(32)],
        vec![
            address(0xaa),
            uint(123_456_789),
            Token::Int(ethabi::Int::MAX),
            Token::FixedBytes(vec![7; 32]),
        ],
    );
}

#[test]
fn agrees_on_short_fixed_bytes() {
    agree_on(vec![FieldType::FixedBytes(3)], vec![Token::FixedBytes(vec![1, 2, 3])]);
}

#[test]
fn agrees_on_dynamic_arrays() {
    agree_on(
        vec![
            FieldType::DynamicArray(Box::new(uint256())),
            uint256(),
            FieldType::DynamicArray(Box::new(FieldType::Address)),
        ],
        vec![
            Token::Array(vec![uint(1), uint(2), uint(3)]),
            uint(4),
            Token::Array(vec![address(1), address(2)]),
        ],
    );
}

#[test]
fn agrees_on_nested_dynamic_arrays() {
    agree_on(
        vec![FieldType::DynamicArray(Box::new(FieldType::DynamicArray(Box::new(uint256()))))],
        vec![Token::Array(vec![
            Token::Array(vec![uint(1)]),
            Token::Array(vec![]),
            Token::Array(vec![uint(2), uint(3)]),
        ])],
    );
}

#[test]
fn agrees_on_static_and_dynamic_tuples() {
    agree_on(
        vec![
            FieldType::Tuple(vec![uint256(), FieldType::Address]),
            FieldType::Tuple(vec![uint256(), FieldType::DynamicArray(Box::new(uint256()))]),
        ],
        vec![
            Token::Tuple(vec![uint(1), address(3)]),
            Token::Tuple(vec![uint(2), Token::Array(vec![uint(5), uint(6)])]),
        ],
    );
}

#[test]
fn agrees_on_fixed_arrays() {
    agree_on(
        vec![
            FieldType::FixedArray(Box::new(FieldType::Address), 2),
            FieldType::FixedArray(Box::new(FieldType::DynamicArray(Box::new(uint256()))), 2),
            FieldType::FixedArray(Box::new(uint256()), 3),
        ],
        vec![
            Token::FixedArray(vec![address(1), address(2)]),
            Token::FixedArray(vec![Token::Array(vec![uint(9)]), Token::Array(vec![])]),
            Token::FixedArray(vec![uint(1), uint(2), uint(3)]),
        ],
    );
}

#[test]
fn agrees_on_arrays_of_tuples_that_hold_arrays() {
    let item = FieldType::Tuple(vec![
        FieldType::UnsignedInt(256),
        FieldType::DynamicArray(Box::new(FieldType::Tuple(vec![uint256(), FieldType::Address]))),
        FieldType::Address,
    ]);
    agree_on(
        vec![FieldType::DynamicArray(Box::new(item)), uint256()],
        vec![
            Token::Array(vec![
                Token::Tuple(vec![
                    uint(1),
                    Token::Array(vec![Token::Tuple(vec![uint(2), address(3)])]),
                    address(4),
                ]),
                Token::Tuple(vec![uint(5), Token::Array(vec![]), address(6)]),
            ]),
            uint(7),
        ],
    );
}

#[test]
fn agrees_on_the_low_bytes_of_a_narrow_number() {
    let schema = vec![FieldType::UnsignedInt(8), FieldType::UnsignedInt(64)];
    let params: Vec<ParamType> = schema.iter().map(param).collect();
    let data = ethabi::encode(&[uint(200), uint(u64::MAX)]);
    assert_eq!(ethabi::decode(&params, &data).unwrap(), vec![uint(200), uint(u64::MAX)]);
    assert_eq!(decode(&schema, &data), Ok(vec![value(&uint(200)), value(&uint(u64::MAX))]));
}

#[test]
fn refuses_an_offset_into_the_head_where_ethabi_follows_it() {
    let schema = vec![FieldType::DynamicArray(Box::new(uint256())), uint256()];
    let params: Vec<ParamType> = schema.iter().map(param).collect();
    let mut data = vec![0u8; 64];
    data[31] = 32;
    assert_eq!(
        ethabi::decode(&params, &data).unwrap(),
        vec![Token::Array(vec![]), uint(0)]
    );
    assert_eq!(decode(&schema, &data), Err(nft_loader::error::DecodeError::InvalidOffset));
}

struct Dice(u64);

impl Dice {
    fn roll(&mut self, sides: u64) -> u64 {
        self.0 = self.0.wrapping_mul(6364136223846793005).wrapping_add(1442695040888963407);
        (self.0 >> 33) % sides
    }
}

fn some_field(dice: &mut Dice, depth: u32) -> FieldType {
    let kinds = if depth == 0 { 4 } else { 7 };
    match dice.roll(kinds) {
        0 => FieldType::Address,
        1 => FieldType::UnsignedInt(256),
        2 => FieldType::SignedInt(256),
        3 => FieldType::FixedBytes(1 + dice.roll(32) as usize),
        4 => {
            let count = 1 + dice.roll(3);
            FieldType::Tuple((0..count).map(|_| some_field(dice, depth - 1)).collect())
        }
        5 => FieldType::FixedArray(
            Box::new(some_field(dice, depth - 1)),
            1 + dice.roll(3) as usize,
        ),
        _ => FieldType::DynamicArray(Box::new(some_field(dice, depth - 1))),
    }
}

fn some_word(dice: &mut Dice) -> [u8; 32] {
    let mut word = [0u8; 32];
    for byte in word.iter_mut() {
        *byte = dice.roll(256) as u8;
    }
    word
}

fn some_token(dice: &mut Dice, field: &FieldType) -> Token {
    match field {
        FieldType::Address => {
            let word = some_word(dice);
            let mut bytes = [0u8; 20];
            bytes.copy_from_slice(&word[12..]);
            Token::Address(ethabi::Address::from(bytes))
        }
        FieldType::UnsignedInt(_) => Token::Uint(ethabi::Uint::from_big_endian(&some_word(dice))),
        FieldType::SignedInt(_) => Token::Int(ethabi::Int::from_big_endian(&some_word(dice))),
        FieldType::FixedBytes(len) => Token::FixedBytes(some_word(dice)[..*len].to_vec()),
        FieldType::Tuple(members) => {
            Token::Tuple(members.iter().map(|member| some_token(dice, member)).collect())
        }
        FieldType::FixedArray(element, count) => {
            Token::FixedArray((0..*count).map(|_| some_token(dice, element)).collect())
        }
        FieldType::DynamicArray(element) => {
            let count = dice.roll(4);
            Token::Array((0..count).map(|_| some_token(dice, element)).collect())
        }
    }
}

#[test]
fn agrees_on_payloads_drawn_at_random() {
    let mut dice = Dice(20261028);
    for _ in 0..300 {
        let count = dice.roll(4);
        let schema: Vec<FieldType> = (0..count).map(|_| some_field(&mut dice, 3)).collect();
        let tokens: Vec<Token> = schema.iter().map(|field| some_token(&mut dice, field)).collect();
        let params: Vec<ParamType> = schema.iter().map(param).collect();
        let data = ethabi::encode(&tokens);
        assert_eq!(ethabi::decode(&params, &data).unwrap(), tokens);
        let expected: Vec<DecodedValue> = tokens.iter().map(value).collect();
        assert_eq!(decode(&schema, &data), Ok(expected), "schema {:?}", schema);
    }
}

#[test]
fn fails_on_cut_payloads_where_ethabi_fails() {
    let mut dice = Dice(7);
    for _ in 0..40 {
        let count = 1 + dice.roll(3);
        let schema: Vec<FieldType> = (0..count).map(|_| some_field(&mut dice, 2)).collect();
        let tokens: Vec<Token> = schema.iter().map(|field| some_token(&mut dice, field)).collect();
        let params: Vec<ParamType> = schema.iter().map(param).collect();
        let data = ethabi::encode(&tokens);
        for cut in 0..data.len() {
            if ethabi::decode(&params, &data[..cut]).is_err() {
                assert!(decode(&schema, &data[..cut]).is_err(), "schema {:?} cut {}", schema, cut);
            }
        }
    }
}
