use nft_loader::abi::blur;
use nft_loader::abi::cryptopunks::{
    PunkBidEnteredEvent, PunkBidWithdrawnEvent, PunkBoughtEvent, PunkNoLongerForSaleEvent,
    PunkOfferedEvent,
};
use nft_loader::abi::looksrarev1::TakerEvent;
use nft_loader::abi::looksrarev2::{TakerAskV2Event, TakerBidV2Event};
use nft_loader::abi::seaport::OrderFulfilledEvent;
use nft_loader::abi::wyvern;
use nft_loader::log::{match_signature, EventSignature, LogRecord};

fn signatures() -> Vec<EventSignature> {
    let signature = |hash: [u8; 32], topic_count: usize| EventSignature { hash, topic_count };
    vec![
        signature(blur::OrdersMatchedEvent::TOPIC_ID, blur::OrdersMatchedEvent::TOPIC_COUNT),
        signature(blur::OrderCancelledEvent::TOPIC_ID, blur::OrderCancelledEvent::TOPIC_COUNT),
        signature(PunkOfferedEvent::TOPIC_ID, PunkOfferedEvent::TOPIC_COUNT),
        signature(PunkBidEnteredEvent::TOPIC_ID, PunkBidEnteredEvent::TOPIC_COUNT),
        signature(PunkBidWithdrawnEvent::TOPIC_ID, PunkBidWithdrawnEvent::TOPIC_COUNT),
        signature(PunkBoughtEvent::TOPIC_ID, PunkBoughtEvent::TOPIC_COUNT),
        signature(PunkNoLongerForSaleEvent::TOPIC_ID, PunkNoLongerForSaleEvent::TOPIC_COUNT),
        signature(TakerEvent::TOPIC_ID_BID, TakerEvent::TOPIC_COUNT),
        signature(TakerEvent::TOPIC_ID_ASK, TakerEvent::TOPIC_COUNT),
        signature(TakerAskV2Event::TOPIC_ID, TakerAskV2Event::TOPIC_COUNT),
        signature(TakerBidV2Event::TOPIC_ID, TakerBidV2Event::TOPIC_COUNT),
        signature(OrderFulfilledEvent::TOPIC_ID, OrderFulfilledEvent::TOPIC_COUNT),
        signature(wyvern::OrdersMatchedEvent::TOPIC_ID, wyvern::OrdersMatchedEvent::TOPIC_COUNT),
    ]
}

fn record_of(signature: &EventSignature) -> LogRecord {
    let mut topics = vec![[0x5a; 32]; signature.topic_count];
    topics[0] = signature.hash;
    LogRecord { topics, data: vec![] }
}

fn recognizers(log: &LogRecord) -> Vec<bool> {
    vec![
        blur::OrdersMatchedEvent::match_log(log),
        blur::OrderCancelledEvent::match_log(log),
        PunkOfferedEvent::match_log(log),
        PunkBidEnteredEvent::match_log(log),
        PunkBidWithdrawnEvent::match_log(log),
        PunkBoughtEvent::match_log(log),
        PunkNoLongerForSaleEvent::match_log(log),
        TakerEvent::match_log(log) == Some(nft_loader::abi::looksrarev1::TakerEventType::TakerBid),
        TakerEvent::match_log(log) == Some(nft_loader::abi::looksrarev1::TakerEventType::TakerAsk),
        TakerAskV2Event::match_log(log),
        TakerBidV2Event::match_log(log),
        OrderFulfilledEvent::match_log(log),
        wyvern::OrdersMatchedEvent::match_log(log),
    ]
}

#[test]
fn every_event_recognizes_its_own_record_and_no_other() {
    let signatures = signatures();
    for (i, signature) in signatures.iter().enumerate() {
        let recognized = recognizers(&record_of(signature));
        for (k, by) in recognized.iter().enumerate() {
            assert_eq!(*by, i == k, "record {} and event {}", i, k);
        }
    }
}

#[test]
fn no_event_recognizes_a_record_with_another_topic_count() {
    for signature in signatures() {
        let mut log = record_of(&signature);
        log.topics.push([0; 32]);
        assert!(recognizers(&log).iter().all(|by| !by));
        log.topics.pop();
        log.topics.pop();
        assert!(recognizers(&log).iter().all(|by| !by));
    }
}

#[test]
fn no_event_recognizes_a_record_without_topics() {
    let log = LogRecord { topics: vec![], data: vec![0; 64] };
    assert!(recognizers(&log).iter().all(|by| !by));
}

#[test]
fn the_table_of_all_events_finds_each() {
    let signatures = signatures();
    for signature in signatures.iter() {
        assert_eq!(match_signature(&record_of(signature), &signatures), Some(*signature));
    }
    let unknown = LogRecord { topics: vec![[1; 32]; 4], data: vec![] };
    assert_eq!(match_signature(&unknown, &signatures), None);
}
