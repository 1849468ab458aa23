use ethabi::Token;
use nft_loader::abi::blur::{
    bytes_from_values, split_halves, Execution, Fee, Input, Order, OrderCancelledEvent,
    OrdersMatchedEvent, Side,
};
use nft_loader::error::DecodeError;
use nft_loader::log::LogRecord;
use nft_loader::payload::decode;
use nft_loader::value::DecodedValue;
use nft_loader::word::Integer;

fn word(value: u64) -> [u8; 32] {
    let mut word = [0u8; 32];
    word[24..].copy_from_slice(&value.to_be_bytes());
    word
}

fn number(value: u64) -> Integer {
    Integer { negative: false, word: word(value) }
}

fn uint(value: u64) -> Token {
    Token::Uint(ethabi::Uint::from(value))
}

fn address(fill: u8) -> Token {
    Token::Address(ethabi::Address::from([fill; 20]))
}

fn order_payload(side: u64, seed: u8) -> Vec<u8> {
    ethabi::encode(&[
        address(seed),
        uint(side),
        address(seed + 1),
        address(seed + 2),
        uint(7804),
        uint(1),
        address(0),
        uint(1_000_000),
        uint(1_700_000_000),
        uint(1_800_000_000),
        Token::Array(vec![Token::Tuple(vec![uint(250), address(seed + 3)])]),
        uint(99),
        Token::Array(vec![uint(0x01), uint(0xfe)]),
    ])
}

fn order(side: Side, seed: u8) -> Order {
    Order {
        trader: vec![seed; 20],
        side,
        matching_policy: vec![seed + 1; 20],
        collection: vec![seed + 2; 20],
        token_id: number(7804),
        amount: number(1),
        payment_token: vec![0; 20],
        price: number(1_000_000),
        listing_time: number(1_700_000_000),
        expiration_time: number(1_800_000_000),
        fees: vec![Fee { rate: 250, recipient: vec![seed + 3; 20] }],
        salt: number(99),
        extra_params: vec![0x01, 0xfe],
    }
}

fn input(order: Order) -> Input {
    Input {
        order,
        v: None,
        r: None,
        s: None,
        extra_signature: None,
        signature_version: None,
        block_number: None,
    }
}

fn matched(data: Vec<u8>) -> LogRecord {
    LogRecord { topics: vec![OrdersMatchedEvent::TOPIC_ID], data }
}

#[test]
fn side_is_selected_by_zero_and_one() {
    assert_eq!(Side::from_discriminant(&number(0)), Ok(Side::Buy));
    assert_eq!(Side::from_discriminant(&number(1)), Ok(Side::Sell));
}

#[test]
fn side_with_discriminant_two_is_unknown() {
    assert_eq!(Side::from_discriminant(&number(2)), Err(DecodeError::UnknownDiscriminant));
    assert_eq!(
        Side::from_discriminant(&Integer { negative: true, word: word(1) }),
        Err(DecodeError::UnknownDiscriminant)
    );
}

#[test]
fn halves_are_cut_at_the_midpoint() {
    assert_eq!(split_halves(&[1, 2, 3, 4]), Ok((vec![1, 2], vec![3, 4])));
    assert_eq!(split_halves(&[7, 8]), Ok((vec![7], vec![8])));
    assert_eq!(split_halves(&[]), Ok((vec![], vec![])));
}

#[test]
fn payload_of_odd_length_has_no_halves() {
    assert_eq!(split_halves(&[1]), Err(DecodeError::OddLengthSplit));
    assert_eq!(split_halves(&[1, 2, 3]), Err(DecodeError::OddLengthSplit));
    assert_eq!(split_halves(&[0; 831]), Err(DecodeError::OddLengthSplit));
}

#[test]
fn fee_keeps_the_low_bits_of_its_rate() {
    let value = DecodedValue::Tuple(vec![
        DecodedValue::UnsignedInt(number(0x1_00fa)),
        DecodedValue::Address([4; 20]),
    ]);
    assert_eq!(Fee::from_value(&value), Ok(Fee { rate: 0xfa, recipient: vec![4; 20] }));
    assert_eq!(
        Fee::from_value(&DecodedValue::UnsignedInt(number(1))),
        Err(DecodeError::UnsupportedType)
    );
    assert_eq!(
        Fee::list_from_values(&vec![value, DecodedValue::Tuple(vec![])]),
        Err(DecodeError::UnsupportedType)
    );
    assert_eq!(Fee::list_from_values(&vec![]), Ok(vec![]));
}

#[test]
fn extra_parameters_are_one_byte_to_a_value() {
    let values = vec![
        DecodedValue::UnsignedInt(number(1)),
        DecodedValue::UnsignedInt(number(0x1ff)),
    ];
    assert_eq!(bytes_from_values(&values), Ok(vec![1, 0xff]));
    assert_eq!(
        bytes_from_values(&vec![DecodedValue::Address([0; 20])]),
        Err(DecodeError::UnsupportedType)
    );
}

#[test]
fn order_is_read_from_its_encoding() {
    assert_eq!(Order::try_from_bytes(&order_payload(0, 10)), Ok(order(Side::Buy, 10)));
    assert_eq!(Order::try_from_bytes(&order_payload(1, 20)), Ok(order(Side::Sell, 20)));
}

#[test]
fn order_with_side_two_is_unknown() {
    assert_eq!(Order::try_from_bytes(&order_payload(2, 10)), Err(DecodeError::UnknownDiscriminant));
}

#[test]
fn order_needs_its_whole_encoding() {
    assert_eq!(Order::try_from_bytes(&[]), Err(DecodeError::TruncatedPayload));
    let mut data = order_payload(1, 10);
    data.pop();
    assert_eq!(Order::try_from_bytes(&data), Err(DecodeError::TruncatedPayload));
}

#[test]
fn order_refuses_values_of_another_form() {
    let mut values = decode(&Order::schema(), &order_payload(1, 10)).unwrap();
    assert_eq!(Order::from_values(&values), Ok(order(Side::Sell, 10)));
    values[10] = DecodedValue::DynamicArray(vec![DecodedValue::Address([0; 20])]);
    assert_eq!(Order::from_values(&values), Err(DecodeError::UnsupportedType));
    let mut values = decode(&Order::schema(), &order_payload(2, 10)).unwrap();
    values[12] = DecodedValue::Address([0; 20]);
    assert_eq!(Order::from_values(&values), Err(DecodeError::UnsupportedType));
}

#[test]
fn input_of_an_order_knows_nothing_else() {
    assert_eq!(Input::from_order(order(Side::Buy, 1)), input(order(Side::Buy, 1)));
}

#[test]
fn orders_matched_is_recognized_by_one_topic_and_hash() {
    assert!(OrdersMatchedEvent::match_log(&matched(vec![])));
    assert!(!OrdersMatchedEvent::match_log(&LogRecord { topics: vec![], data: vec![] }));
    assert!(!OrdersMatchedEvent::match_log(&LogRecord {
        topics: vec![OrdersMatchedEvent::TOPIC_ID, [1; 32], [2; 32]],
        data: vec![]
    }));
    assert!(!OrdersMatchedEvent::match_log(&LogRecord {
        topics: vec![OrderCancelledEvent::TOPIC_ID],
        data: vec![]
    }));
}

#[test]
fn orders_matched_holds_the_orders_of_both_halves() {
    let mut data = order_payload(1, 10);
    data.extend_from_slice(&order_payload(0, 20));
    assert_eq!(
        OrdersMatchedEvent::decode(&matched(data)),
        Ok(OrdersMatchedEvent {
            maker: None,
            taker: None,
            execution: Execution {
                sell: input(order(Side::Sell, 10)),
                buy: input(order(Side::Buy, 20)),
            },
        })
    );
}

#[test]
fn orders_matched_of_odd_payload_is_refused() {
    let mut data = order_payload(1, 10);
    data.extend_from_slice(&order_payload(0, 20));
    data.push(0);
    assert_eq!(OrdersMatchedEvent::decode(&matched(data)), Err(DecodeError::OddLengthSplit));
    assert_eq!(OrdersMatchedEvent::decode(&matched(vec![0])), Err(DecodeError::OddLengthSplit));
}

#[test]
fn orders_matched_of_one_topic_and_no_payload_is_truncated() {
    assert_eq!(OrdersMatchedEvent::decode(&matched(vec![])), Err(DecodeError::TruncatedPayload));
}

#[test]
fn orders_matched_fails_with_the_fault_of_the_first_bad_order() {
    let mut data = order_payload(2, 10);
    data.extend_from_slice(&vec![0; data.len()]);
    assert_eq!(OrdersMatchedEvent::decode(&matched(data)), Err(DecodeError::UnknownDiscriminant));
    let mut data = order_payload(1, 10);
    data.extend_from_slice(&order_payload(3, 20));
    assert_eq!(OrdersMatchedEvent::decode(&matched(data)), Err(DecodeError::UnknownDiscriminant));
    let mut data = order_payload(1, 10);
    data.extend_from_slice(&vec![0; data.len()]);
    assert_eq!(OrdersMatchedEvent::decode(&matched(data)), Err(DecodeError::InvalidOffset));
}

#[test]
fn orders_matched_refuses_a_record_of_another_event() {
    let mut data = order_payload(1, 10);
    data.extend_from_slice(&order_payload(0, 20));
    let log = LogRecord { topics: vec![OrderCancelledEvent::TOPIC_ID], data: data.clone() };
    assert_eq!(OrdersMatchedEvent::decode(&log), Err(DecodeError::SignatureMismatch));
    let log = LogRecord { topics: vec![OrdersMatchedEvent::TOPIC_ID, [0; 32]], data };
    assert_eq!(OrdersMatchedEvent::decode(&log), Err(DecodeError::SignatureMismatch));
}

#[test]
fn order_cancelled_is_recognized_by_one_topic_and_hash() {
    let log = LogRecord { topics: vec![OrderCancelledEvent::TOPIC_ID], data: vec![] };
    assert!(OrderCancelledEvent::match_log(&log));
    assert!(!OrderCancelledEvent::match_log(&matched(vec![])));
    assert!(!OrderCancelledEvent::match_log(&LogRecord {
        topics: vec![OrderCancelledEvent::TOPIC_ID, [1; 32]],
        data: vec![]
    }));
    assert!(!OrderCancelledEvent::match_log(&LogRecord { topics: vec![], data: vec![] }));
}

#[test]
fn order_cancelled_of_one_topic_has_no_word_for_the_hash() {
    let log = LogRecord { topics: vec![OrderCancelledEvent::TOPIC_ID], data: vec![] };
    assert_eq!(OrderCancelledEvent::decode(&log), Err(DecodeError::TruncatedPayload));
    let log = LogRecord { topics: vec![OrderCancelledEvent::TOPIC_ID], data: vec![7; 32] };
    assert_eq!(OrderCancelledEvent::decode(&log), Err(DecodeError::TruncatedPayload));
}

#[test]
fn order_keeps_a_large_number_unsigned() {
    let mut data = order_payload(1, 10);
    for byte in data[7 * 32..8 * 32].iter_mut() {
        *byte = 0xff;
    }
    let order = Order::try_from_bytes(&data).unwrap();
    assert_eq!(order.price, Integer { negative: false, word: [0xff; 32] });
    assert!(!order.price.is_negative());
}

#[test]
fn order_reads_the_side_at_full_width() {
    let mut data = order_payload(1, 10);
    data[32 + 30] = 1;
    assert_eq!(Order::try_from_bytes(&data), Err(DecodeError::UnknownDiscriminant));
}

#[test]
fn order_cancelled_refuses_a_record_of_another_shape() {
    let log = LogRecord { topics: vec![OrderCancelledEvent::TOPIC_ID, [1; 32]], data: vec![] };
    assert_eq!(OrderCancelledEvent::decode(&log), Err(DecodeError::SignatureMismatch));
    assert_eq!(OrderCancelledEvent::decode(&matched(vec![])), Err(DecodeError::SignatureMismatch));
}

#[test]
fn order_cancelled_is_read_from_two_topics() {
    let log = LogRecord { topics: vec![[0; 32], [0xab; 32]], data: vec![] };
    assert_eq!(
        OrderCancelledEvent::from_topics(&log),
        Ok(OrderCancelledEvent { hash: vec![0xab; 32] })
    );
    let bare = LogRecord { topics: vec![[0; 32]], data: vec![] };
    assert_eq!(OrderCancelledEvent::from_topics(&bare), Err(DecodeError::TruncatedPayload));
    let none = LogRecord { topics: vec![], data: vec![] };
    assert_eq!(OrderCancelledEvent::from_topics(&none), Err(DecodeError::TruncatedPayload));
}
