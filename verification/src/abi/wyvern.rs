//! The generic auction exchange, at 0x7f268357A8c2552623316e2562D90e642bB538E5 and, in
//! its earlier deployment, at 0x7Be8076f4EA4A4AD08075C2508e481d6C946D12b.

use crate::error::{view_result, DecodeError};
use crate::log::{optional_bytes_view, recognized, topic_bytes, EventSignature, LogRecord};
use crate::word::{copy_bytes, to_unsigned_int, unsigned_value, Integer};
use vstd::prelude::*;

verus! {

/// Two orders matched. The metadata stands in the topic at 6, and is `None` where a
/// record has no such topic: the event still holds the fields of the topics at 1 to 5.
#[derive(Clone, Debug, PartialEq, Eq)]
pub struct OrdersMatchedEvent {
    pub buy_hash: Vec<u8>,
    pub sell_hash: Vec<u8>,
    pub maker: Vec<u8>,
    pub taker: Vec<u8>,
    pub price: Integer,
    pub metadata: Option<Vec<u8>>,
}

/// An `OrdersMatchedEvent` as a mathematical value.
pub struct OrdersMatchedEventView {
    pub buy_hash: Seq<u8>,
    pub sell_hash: Seq<u8>,
    pub maker: Seq<u8>,
    pub taker: Seq<u8>,
    pub price: int,
    pub metadata: Option<Seq<u8>>,
}

impl View for OrdersMatchedEvent {
    type V = OrdersMatchedEventView;

    open spec fn view(&self) -> OrdersMatchedEventView {
        OrdersMatchedEventView {
            buy_hash: self.buy_hash@,
            sell_hash: self.sell_hash@,
            maker: self.maker@,
            taker: self.taker@,
            price: self.price@,
            metadata: optional_bytes_view(self.metadata),
        }
    }
}

impl OrdersMatchedEvent {
    /// The hash of the event.
    pub const TOPIC_ID: [u8; 32] = [
        0xc4, 0x10, 0x98, 0x43, 0xe0, 0xb7, 0xd5, 0x14,
        0xe4, 0xc0, 0x93, 0x11, 0x4b, 0x86, 0x3f, 0x8e,
        0x7d, 0x8d, 0x9a, 0x45, 0x8c, 0x37, 0x2c, 0xd5,
        0x1b, 0xfe, 0x52, 0x6b, 0x58, 0x80, 0x06, 0xc9,
    ];

    /// The number of topics of a record of the event.
    pub const TOPIC_COUNT: usize = 6;

    /// Whether a record with these topics is of this event: it has 6 topics, and the
    /// first is the event's hash.
    pub open spec fn recognizes(topics: Seq<[u8; 32]>) -> bool {
        recognized(topics, Self::TOPIC_ID@, Self::TOPIC_COUNT as nat)
    }

    /// The event whose fields these topics hold: hashes, maker and taker in the topics at
    /// 1 to 4, the price as the unsigned number of the topic at 5, and the metadata in
    /// the topic at 6 where there is one. Fewer topics than a record of the event has
    /// make a truncated record.
    pub open spec fn projected(topics: Seq<[u8; 32]>) -> Result<
        OrdersMatchedEventView,
        DecodeError,
    > {
        if topics.len() < Self::TOPIC_COUNT {
            Err(DecodeError::TruncatedPayload)
        } else {
            Ok(
                OrdersMatchedEventView {
                    buy_hash: topics[1]@,
                    sell_hash: topics[2]@,
                    maker: topics[3]@,
                    taker: topics[4]@,
                    price: unsigned_value(topics[5]@, 256) as int,
                    metadata: topic_bytes(topics, 6),
                },
            )
        }
    }

    /// What decoding a record with these topics gives: a mismatch where the record is
    /// not of this event, else the event whose fields the topics hold. A record of the
    /// event has 6 topics, so the event's metadata is absent.
    pub open spec fn decoded(topics: Seq<[u8; 32]>) -> Result<OrdersMatchedEventView, DecodeError> {
        if !Self::recognizes(topics) {
            Err(DecodeError::SignatureMismatch)
        } else {
            Self::projected(topics)
        }
    }

    /// Whether `log` is a record of this event.
    pub fn match_log(log: &LogRecord) -> (matched: bool)
        ensures
            matched == Self::recognizes(log.topics@),
    {
        let signature = EventSignature { hash: Self::TOPIC_ID, topic_count: Self::TOPIC_COUNT };
        signature.recognizes(log)
    }

    /// The event whose fields the topics of `log` hold, whatever event `log` is a
    /// record of.
    pub fn from_topics(log: &LogRecord) -> (result: Result<OrdersMatchedEvent, DecodeError>)
        ensures
            view_result(result) == Self::projected(log.topics@),
    {
        let buy_hash = copy_bytes(log.topic(1)?.as_slice());
        let sell_hash = copy_bytes(log.topic(2)?.as_slice());
        let maker = copy_bytes(log.topic(3)?.as_slice());
        let taker = copy_bytes(log.topic(4)?.as_slice());
        let price = to_unsigned_int(&log.topic(5)?, 256);
        let metadata = log.topic_bytes(6);
        Ok(OrdersMatchedEvent { buy_hash, sell_hash, maker, taker, price, metadata })
    }

    /// Decodes `log` as a record of this event. A record of the event decodes to an
    /// event without metadata.
    pub fn decode(log: &LogRecord) -> (result: Result<OrdersMatchedEvent, DecodeError>)
        ensures
            view_result(result) == Self::decoded(log.topics@),
            match result {
                Ok(event) => Self::recognizes(log.topics@) && event.metadata is None,
                Err(error) => !Self::recognizes(log.topics@) && error
                    == DecodeError::SignatureMismatch,
            },
    {
        if !Self::match_log(log) {
            return Err(DecodeError::SignatureMismatch);
        }
        Self::from_topics(log)
    }
}

} // verus!
