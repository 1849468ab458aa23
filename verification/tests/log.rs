use nft_loader::error::DecodeError;
use nft_loader::log::{match_signature, words_equal, EventSignature, LogRecord};

fn hash(seed: u8) -> [u8; 32] {
    let mut word = [seed; 32];
    word[31] = seed.wrapping_add(1);
    word
}

fn record(topics: Vec<[u8; 32]>) -> LogRecord {
    LogRecord { topics, data: vec![] }
}

#[test]
fn words_are_equal_byte_for_byte() {
    assert!(words_equal(&hash(1), &hash(1)));
    assert!(!words_equal(&hash(1), &hash(2)));
    let mut other = hash(1);
    other[0] ^= 1;
    assert!(!words_equal(&hash(1), &other));
}

#[test]
fn signature_recognizes_count_and_hash() {
    let signature = EventSignature { hash: hash(1), topic_count: 2 };
    assert!(signature.recognizes(&record(vec![hash(1), hash(9)])));
}

#[test]
fn signature_refuses_another_count() {
    let signature = EventSignature { hash: hash(1), topic_count: 2 };
    assert!(!signature.recognizes(&record(vec![hash(1)])));
    assert!(!signature.recognizes(&record(vec![hash(1), hash(9), hash(9)])));
}

#[test]
fn signature_refuses_another_hash() {
    let signature = EventSignature { hash: hash(1), topic_count: 2 };
    assert!(!signature.recognizes(&record(vec![hash(2), hash(9)])));
    assert!(!signature.recognizes(&record(vec![hash(9), hash(1)])));
}

#[test]
fn signature_refuses_a_record_without_topics() {
    assert!(!EventSignature { hash: hash(1), topic_count: 0 }.recognizes(&record(vec![])));
    assert!(!EventSignature { hash: hash(1), topic_count: 1 }.recognizes(&record(vec![])));
}

#[test]
fn signatures_that_differ_never_both_recognize() {
    let first = EventSignature { hash: hash(1), topic_count: 2 };
    let by_count = EventSignature { hash: hash(1), topic_count: 3 };
    let by_hash = EventSignature { hash: hash(2), topic_count: 2 };
    for log in [
        record(vec![]),
        record(vec![hash(1)]),
        record(vec![hash(1), hash(0)]),
        record(vec![hash(2), hash(0)]),
        record(vec![hash(1), hash(0), hash(0)]),
    ] {
        assert!(!(first.recognizes(&log) && by_count.recognizes(&log)));
        assert!(!(first.recognizes(&log) && by_hash.recognizes(&log)));
    }
}

#[test]
fn table_gives_the_first_signature_that_matches() {
    let table = vec![
        EventSignature { hash: hash(1), topic_count: 1 },
        EventSignature { hash: hash(2), topic_count: 2 },
        EventSignature { hash: hash(2), topic_count: 2 },
        EventSignature { hash: hash(3), topic_count: 2 },
    ];
    assert_eq!(match_signature(&record(vec![hash(2), hash(7)]), &table), Some(table[1]));
    assert_eq!(match_signature(&record(vec![hash(3), hash(7)]), &table), Some(table[3]));
    assert_eq!(match_signature(&record(vec![hash(1)]), &table), Some(table[0]));
}

#[test]
fn table_gives_nothing_where_no_signature_matches() {
    let table = vec![
        EventSignature { hash: hash(1), topic_count: 1 },
        EventSignature { hash: hash(2), topic_count: 2 },
    ];
    assert_eq!(match_signature(&record(vec![hash(2)]), &table), None);
    assert_eq!(match_signature(&record(vec![]), &table), None);
    assert_eq!(match_signature(&record(vec![hash(1)]), &vec![]), None);
}

#[test]
fn topic_is_read_within_bounds_only() {
    let log = record(vec![hash(1), hash(2)]);
    assert_eq!(log.topic(0), Ok(hash(1)));
    assert_eq!(log.topic(1), Ok(hash(2)));
    assert_eq!(log.topic(2), Err(DecodeError::TruncatedPayload));
    assert_eq!(record(vec![]).topic(0), Err(DecodeError::TruncatedPayload));
}
