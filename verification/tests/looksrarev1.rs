use nft_loader::abi::looksrarev1::{TakerEvent, TakerEventTrait, TakerEventType};
use nft_loader::error::DecodeError;
use nft_loader::log::LogRecord;
use nft_loader::payload::decode;
use nft_loader::value::DecodedValue;
use nft_loader::word::Integer;

fn word(value: u64) -> [u8; 32] {
    let mut word = [0u8; 32];
    word[24..].copy_from_slice(&value.to_be_bytes());
    word
}

fn address_word(fill: u8) -> [u8; 32] {
    let mut word = [fill; 32];
    for byte in word.iter_mut().take(12) {
        *byte = 0;
    }
    word
}

fn number(value: u64) -> Integer {
    Integer { negative: false, word: word(value) }
}

fn payload() -> Vec<u8> {
    let words = [
        [0xab; 32],
        word(17),
        address_word(1),
        address_word(2),
        address_word(3),
        address_word(4),
        address_word(5),
        word(8000),
        word(1),
        [0xff; 32],
    ];
    words.concat()
}

fn record(id: [u8; 32], data: Vec<u8>) -> LogRecord {
    LogRecord { topics: vec![id, [1; 32], [2; 32], [3; 32]], data }
}

fn event(event_type: TakerEventType) -> TakerEvent {
    TakerEvent {
        event_type,
        order_hash: vec![0xab; 32],
        order_nonce: number(17),
        taker: vec![1; 20],
        maker: vec![2; 20],
        strategy: vec![3; 20],
        currency: vec![4; 20],
        collection: vec![5; 20],
        token_id: number(8000),
        amount: number(1),
        price: Integer { negative: false, word: [0xff; 32] },
    }
}

#[test]
fn taker_events_have_their_names() {
    assert_eq!(<TakerEvent as TakerEventTrait>::NAME_BID, "TakerBid");
    assert_eq!(<TakerEvent as TakerEventTrait>::NAME_ASK, "TakerAsk");
}

#[test]
fn taker_event_is_told_by_its_hash() {
    assert_eq!(
        TakerEvent::match_log(&record(TakerEvent::TOPIC_ID_BID, vec![])),
        Some(TakerEventType::TakerBid)
    );
    assert_eq!(
        TakerEvent::match_log(&record(TakerEvent::TOPIC_ID_ASK, vec![])),
        Some(TakerEventType::TakerAsk)
    );
    assert_eq!(TakerEvent::match_log(&record([0; 32], vec![])), None);
}

#[test]
fn taker_event_needs_four_topics() {
    for count in [0usize, 1, 3, 5] {
        let mut topics = vec![[9u8; 32]; count];
        if count > 0 {
            topics[0] = TakerEvent::TOPIC_ID_BID;
        }
        assert_eq!(TakerEvent::match_log(&LogRecord { topics, data: vec![] }), None);
    }
}

#[test]
fn taker_bid_is_read_from_the_payload() {
    let log = record(TakerEvent::TOPIC_ID_BID, payload());
    assert_eq!(
        TakerEvent::decode(TakerEventType::TakerBid, &log),
        Ok(event(TakerEventType::TakerBid))
    );
}

#[test]
fn taker_ask_is_read_from_the_payload() {
    let log = record(TakerEvent::TOPIC_ID_ASK, payload());
    assert_eq!(
        TakerEvent::decode(TakerEventType::TakerAsk, &log),
        Ok(event(TakerEventType::TakerAsk))
    );
}

#[test]
fn taker_bid_with_the_top_bit_in_its_price_keeps_it_unsigned() {
    let mut top = [0u8; 32];
    top[0] = 0x80;
    let mut words = vec![[0u8; 32]; 9];
    words.push(top);
    let topics = vec![TakerEvent::TOPIC_ID_BID, [0; 32], [0; 32], [0; 32]];
    let event =
        TakerEvent::decode(TakerEventType::TakerBid, &LogRecord { topics, data: words.concat() })
            .unwrap();
    assert_eq!(event.price, Integer { negative: false, word: top });
    assert!(!event.price.is_negative());
    assert_eq!(event.price.to_be_bytes(), top);
    assert_eq!(event.order_nonce, number(0));
    assert_eq!(event.token_id, number(0));
    assert_eq!(event.amount, number(0));
}

#[test]
fn taker_event_decodes_whenever_it_is_recognized_and_has_ten_words() {
    for len in [0usize, 1, 319, 320, 321, 400] {
        let log = record(TakerEvent::TOPIC_ID_ASK, vec![0x5a; len]);
        assert_eq!(TakerEvent::decode(TakerEventType::TakerAsk, &log).is_ok(), len >= 320);
    }
}

#[test]
fn taker_event_refuses_the_other_kind() {
    let log = record(TakerEvent::TOPIC_ID_ASK, payload());
    assert_eq!(
        TakerEvent::decode(TakerEventType::TakerBid, &log),
        Err(DecodeError::SignatureMismatch)
    );
    let log = record(TakerEvent::TOPIC_ID_BID, payload());
    assert_eq!(
        TakerEvent::decode(TakerEventType::TakerAsk, &log),
        Err(DecodeError::SignatureMismatch)
    );
}

#[test]
fn taker_event_rejects_a_record_without_topics() {
    let log = LogRecord { topics: vec![], data: payload() };
    assert_eq!(TakerEvent::match_log(&log), None);
    assert_eq!(
        TakerEvent::decode(TakerEventType::TakerBid, &log),
        Err(DecodeError::SignatureMismatch)
    );
}

#[test]
fn taker_event_needs_its_whole_payload() {
    let mut data = payload();
    data.pop();
    let log = record(TakerEvent::TOPIC_ID_BID, data);
    assert_eq!(
        TakerEvent::decode(TakerEventType::TakerBid, &log),
        Err(DecodeError::TruncatedPayload)
    );
    let empty = record(TakerEvent::TOPIC_ID_BID, vec![]);
    assert_eq!(
        TakerEvent::decode(TakerEventType::TakerBid, &empty),
        Err(DecodeError::TruncatedPayload)
    );
}

#[test]
fn taker_event_is_made_of_the_schema_s_values() {
    let values = decode(&TakerEvent::schema(), &payload()).unwrap();
    assert_eq!(values.len(), 10);
    assert_eq!(
        TakerEvent::from_values(TakerEventType::TakerAsk, &values),
        Ok(event(TakerEventType::TakerAsk))
    );
}

#[test]
fn taker_event_refuses_values_of_another_form() {
    let mut values = decode(&TakerEvent::schema(), &payload()).unwrap();
    values[3] = DecodedValue::UnsignedInt(number(1));
    assert_eq!(
        TakerEvent::from_values(TakerEventType::TakerAsk, &values),
        Err(DecodeError::UnsupportedType)
    );
    let mut values = decode(&TakerEvent::schema(), &payload()).unwrap();
    values.pop();
    assert_eq!(
        TakerEvent::from_values(TakerEventType::TakerAsk, &values),
        Err(DecodeError::UnsupportedType)
    );
}
