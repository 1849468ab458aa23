//! The events of the punk marketplace.
//!
//! Every field of these events stands in a topic: the punk's index in the low-order 4
//! bytes of the first topic after the hash, a value in the low-order 16 bytes of the
//! next, and addresses in the low-order 20 bytes of those that follow.

use crate::error::{view_result, DecodeError};
use crate::log::{recognized, EventSignature, LogRecord};
use crate::word::{to_u128, to_u32, unsigned_value};
use vstd::prelude::*;

verus! {

/// The address that a topic carries in its bytes 12 to 31.
pub fn extract_address_from_topic(topic: &[u8]) -> (address: [u8; 20])
    requires
        topic@.len() >= 32,
    ensures
        address@ == topic@.subrange(12, 32),
{
    let mut address = [0u8; 20];
    let mut i: usize = 0;
    while i < 20
        invariant
            i <= 20,
            topic@.len() >= 32,
            forall|k: int| 0 <= k < i ==> address@[k] == topic@[12 + k],
        decreases 20 - i,
    {
        address[i] = topic[12 + i];
        i += 1;
    }
    address
}

/// A punk offered for sale.
#[derive(Clone, Debug, PartialEq, Eq)]
pub struct PunkOfferedEvent {
    pub punk_index: u32,
    pub min_value: u128,
    pub to_address: [u8; 20],
}

/// A `PunkOfferedEvent` as a mathematical value.
pub struct PunkOfferedEventView {
    pub punk_index: nat,
    pub min_value: nat,
    pub to_address: Seq<u8>,
}

impl View for PunkOfferedEvent {
    type V = PunkOfferedEventView;

    open spec fn view(&self) -> PunkOfferedEventView {
        PunkOfferedEventView {
            punk_index: self.punk_index as nat,
            min_value: self.min_value as nat,
            to_address: self.to_address@,
        }
    }
}

impl PunkOfferedEvent {
    /// The hash of the event.
    pub const TOPIC_ID: [u8; 32] = [
        0x3c, 0x7b, 0x68, 0x2d, 0x5d, 0xa9, 0x80, 0x01, 0xa9, 0xb8, 0xcb, 0xda, 0x6c, 0x64, 0x7d,
        0x2c, 0x63, 0xd6, 0x98, 0xa4, 0x18, 0x4f, 0xd1, 0xd5, 0x5e, 0x2c, 0xe7, 0xb6, 0x6f, 0x5d,
        0x21, 0xeb,
    ];

    /// The number of topics of a record of the event.
    pub const TOPIC_COUNT: usize = 4;

    /// Whether a record with these topics is of this event: it has 4 topics, and the
    /// first is the event's hash.
    pub open spec fn recognizes(topics: Seq<[u8; 32]>) -> bool {
        recognized(topics, Self::TOPIC_ID@, Self::TOPIC_COUNT as nat)
    }

    /// What decoding a record with these topics gives: a mismatch where the record is
    /// not of this event, else the event whose fields its topics hold.
    pub open spec fn decoded(topics: Seq<[u8; 32]>) -> Result<PunkOfferedEventView, DecodeError> {
        if !Self::recognizes(topics) {
            Err(DecodeError::SignatureMismatch)
        } else {
            Ok(
                PunkOfferedEventView {
                    punk_index: unsigned_value(topics[1]@, 32),
                    min_value: unsigned_value(topics[2]@, 128),
                    to_address: topics[3]@.subrange(12, 32),
                },
            )
        }
    }

    /// Whether `log` is a record of this event.
    pub fn match_log(log: &LogRecord) -> (matched: bool)
        ensures
            matched == Self::recognizes(log.topics@),
    {
        let signature = EventSignature { hash: Self::TOPIC_ID, topic_count: Self::TOPIC_COUNT };
        signature.recognizes(log)
    }

    /// Decodes `log` as a record of this event.
    pub fn decode(log: &LogRecord) -> (result: Result<PunkOfferedEvent, DecodeError>)
        ensures
            view_result(result) == Self::decoded(log.topics@),
    {
        if !Self::match_log(log) {
            return Err(DecodeError::SignatureMismatch);
        }
        let punk_index = to_u32(&log.topics[1]);
        let min_value = to_u128(&log.topics[2]);
        let to_address = extract_address_from_topic(log.topics[3].as_slice());
        Ok(PunkOfferedEvent { punk_index, min_value, to_address })
    }
}

/// A bid entered for a punk.
#[derive(Clone, Debug, PartialEq, Eq)]
pub struct PunkBidEnteredEvent {
    pub punk_index: u32,
    pub value: u128,
    pub from_address: [u8; 20],
}

/// A `PunkBidEnteredEvent` as a mathematical value.
pub struct PunkBidEnteredEventView {
    pub punk_index: nat,
    pub value: nat,
    pub from_address: Seq<u8>,
}

impl View for PunkBidEnteredEvent {
    type V = PunkBidEnteredEventView;

    open spec fn view(&self) -> PunkBidEnteredEventView {
        PunkBidEnteredEventView {
            punk_index: self.punk_index as nat,
            value: self.value as nat,
            from_address: self.from_address@,
        }
    }
}

impl PunkBidEnteredEvent {
    /// The hash of the event.
    pub const TOPIC_ID: [u8; 32] = [
        0x5b, 0x85, 0x93, 0x94, 0xfa, 0xba, 0xe0, 0xc1, 0xba, 0x88, 0xba, 0xff, 0xe6, 0x7e, 0x75,
        0x1a, 0xb5, 0x24, 0x8d, 0x2e, 0x87, 0x90, 0x28, 0xb8, 0xc8, 0xd6, 0x89, 0x7b, 0x05, 0x19,
        0xf5, 0x6a,
    ];

    /// The number of topics of a record of the event.
    pub const TOPIC_COUNT: usize = 4;

    /// Whether a record with these topics is of this event: it has 4 topics, and the
    /// first is the event's hash.
    pub open spec fn recognizes(topics: Seq<[u8; 32]>) -> bool {
        recognized(topics, Self::TOPIC_ID@, Self::TOPIC_COUNT as nat)
    }

    /// What decoding a record with these topics gives: a mismatch where the record is
    /// not of this event, else the event whose fields its topics hold.
    pub open spec fn decoded(topics: Seq<[u8; 32]>) -> Result<
        PunkBidEnteredEventView,
        DecodeError,
    > {
        if !Self::recognizes(topics) {
            Err(DecodeError::SignatureMismatch)
        } else {
            Ok(
                PunkBidEnteredEventView {
                    punk_index: unsigned_value(topics[1]@, 32),
                    value: unsigned_value(topics[2]@, 128),
                    from_address: topics[3]@.subrange(12, 32),
                },
            )
        }
    }

    /// Whether `log` is a record of this event.
    pub fn match_log(log: &LogRecord) -> (matched: bool)
        ensures
            matched == Self::recognizes(log.topics@),
    {
        let signature = EventSignature { hash: Self::TOPIC_ID, topic_count: Self::TOPIC_COUNT };
        signature.recognizes(log)
    }

    /// Decodes `log` as a record of this event.
    pub fn decode(log: &LogRecord) -> (result: Result<PunkBidEnteredEvent, DecodeError>)
        ensures
            view_result(result) == Self::decoded(log.topics@),
    {
        if !Self::match_log(log) {
            return Err(DecodeError::SignatureMismatch);
        }
        let punk_index = to_u32(&log.topics[1]);
        let value = to_u128(&log.topics[2]);
        let from_address = extract_address_from_topic(log.topics[3].as_slice());
        Ok(PunkBidEnteredEvent { punk_index, value, from_address })
    }
}

/// A bid for a punk withdrawn.
#[derive(Clone, Debug, PartialEq, Eq)]
pub struct PunkBidWithdrawnEvent {
    pub punk_index: u32,
    pub value: u128,
    pub from_address: [u8; 20],
}

/// A `PunkBidWithdrawnEvent` as a mathematical value.
pub struct PunkBidWithdrawnEventView {
    pub punk_index: nat,
    pub value: nat,
    pub from_address: Seq<u8>,
}

impl View for PunkBidWithdrawnEvent {
    type V = PunkBidWithdrawnEventView;

    open spec fn view(&self) -> PunkBidWithdrawnEventView {
        PunkBidWithdrawnEventView {
            punk_index: self.punk_index as nat,
            value: self.value as nat,
            from_address: self.from_address@,
        }
    }
}

impl PunkBidWithdrawnEvent {
    /// The hash of the event.
    pub const TOPIC_ID: [u8; 32] = [
        0x6f, 0x30, 0xe1, 0xee, 0x4d, 0x81, 0xdc, 0xc7, 0xa8, 0xa4, 0x78, 0x57, 0x7f, 0x65, 0xd2,
        0xed, 0x2e, 0xdb, 0x12, 0x05, 0x65, 0x96, 0x0a, 0xc4, 0x5f, 0xe7, 0xc5, 0x05, 0x51, 0xc8,
        0x79, 0x32,
    ];

    /// The number of topics of a record of the event.
    pub const TOPIC_COUNT: usize = 4;

    /// Whether a record with these topics is of this event: it has 4 topics, and the
    /// first is the event's hash.
    pub open spec fn recognizes(topics: Seq<[u8; 32]>) -> bool {
        recognized(topics, Self::TOPIC_ID@, Self::TOPIC_COUNT as nat)
    }

    /// What decoding a record with these topics gives: a mismatch where the record is
    /// not of this event, else the event whose fields its topics hold.
    pub open spec fn decoded(topics: Seq<[u8; 32]>) -> Result<
        PunkBidWithdrawnEventView,
        DecodeError,
    > {
        if !Self::recognizes(topics) {
            Err(DecodeError::SignatureMismatch)
        } else {
            Ok(
                PunkBidWithdrawnEventView {
                    punk_index: unsigned_value(topics[1]@, 32),
                    value: unsigned_value(topics[2]@, 128),
                    from_address: topics[3]@.subrange(12, 32),
                },
            )
        }
    }

    /// Whether `log` is a record of this event.
    pub fn match_log(log: &LogRecord) -> (matched: bool)
        ensures
            matched == Self::recognizes(log.topics@),
    {
        let signature = EventSignature { hash: Self::TOPIC_ID, topic_count: Self::TOPIC_COUNT };
        signature.recognizes(log)
    }

    /// Decodes `log` as a record of this event.
    pub fn decode(log: &LogRecord) -> (result: Result<PunkBidWithdrawnEvent, DecodeError>)
        ensures
            view_result(result) == Self::decoded(log.topics@),
    {
        if !Self::match_log(log) {
            return Err(DecodeError::SignatureMismatch);
        }
        let punk_index = to_u32(&log.topics[1]);
        let value = to_u128(&log.topics[2]);
        let from_address = extract_address_from_topic(log.topics[3].as_slice());
        Ok(PunkBidWithdrawnEvent { punk_index, value, from_address })
    }
}

/// A punk bought.
#[derive(Clone, Debug, PartialEq, Eq)]
pub struct PunkBoughtEvent {
    pub punk_index: u32,
    pub value: u128,
    pub from_address: [u8; 20],
    pub to_address: [u8; 20],
}

/// A `PunkBoughtEvent` as a mathematical value.
pub struct PunkBoughtEventView {
    pub punk_index: nat,
    pub value: nat,
    pub from_address: Seq<u8>,
    pub to_address: Seq<u8>,
}

impl View for PunkBoughtEvent {
    type V = PunkBoughtEventView;

    open spec fn view(&self) -> PunkBoughtEventView {
        PunkBoughtEventView {
            punk_index: self.punk_index as nat,
            value: self.value as nat,
            from_address: self.from_address@,
            to_address: self.to_address@,
        }
    }
}

impl PunkBoughtEvent {
    /// The hash of the event.
    pub const TOPIC_ID: [u8; 32] = [
        0x58, 0xe5, 0xd5, 0xa5, 0x25, 0xe3, 0xb4, 0x0b, 0xc1, 0x5a, 0xba, 0xa3, 0x8b, 0x58, 0x82,
        0x67, 0x8d, 0xb1, 0xee, 0x68, 0xbe, 0xfd, 0x2f, 0x60, 0xba, 0xfe, 0x3a, 0x7f, 0xd0, 0x6d,
        0xb9, 0xe3,
    ];

    /// The number of topics of a record of the event.
    pub const TOPIC_COUNT: usize = 5;

    /// Whether a record with these topics is of this event: it has 5 topics, and the
    /// first is the event's hash.
    pub open spec fn recognizes(topics: Seq<[u8; 32]>) -> bool {
        recognized(topics, Self::TOPIC_ID@, Self::TOPIC_COUNT as nat)
    }

    /// What decoding a record with these topics gives: a mismatch where the record is
    /// not of this event, else the event whose fields its topics hold.
    pub open spec fn decoded(topics: Seq<[u8; 32]>) -> Result<PunkBoughtEventView, DecodeError> {
        if !Self::recognizes(topics) {
            Err(DecodeError::SignatureMismatch)
        } else {
            Ok(
                PunkBoughtEventView {
                    punk_index: unsigned_value(topics[1]@, 32),
                    value: unsigned_value(topics[2]@, 128),
                    from_address: topics[3]@.subrange(12, 32),
                    to_address: topics[4]@.subrange(12, 32),
                },
            )
        }
    }

    /// Whether `log` is a record of this event.
    pub fn match_log(log: &LogRecord) -> (matched: bool)
        ensures
            matched == Self::recognizes(log.topics@),
    {
        let signature = EventSignature { hash: Self::TOPIC_ID, topic_count: Self::TOPIC_COUNT };
        signature.recognizes(log)
    }

    /// Decodes `log` as a record of this event.
    pub fn decode(log: &LogRecord) -> (result: Result<PunkBoughtEvent, DecodeError>)
        ensures
            view_result(result) == Self::decoded(log.topics@),
    {
        if !Self::match_log(log) {
            return Err(DecodeError::SignatureMismatch);
        }
        let punk_index = to_u32(&log.topics[1]);
        let value = to_u128(&log.topics[2]);
        let from_address = extract_address_from_topic(log.topics[3].as_slice());
        let to_address = extract_address_from_topic(log.topics[4].as_slice());
        Ok(PunkBoughtEvent { punk_index, value, from_address, to_address })
    }
}

/// A punk taken off sale.
#[derive(Clone, Debug, PartialEq, Eq)]
pub struct PunkNoLongerForSaleEvent {
    pub punk_index: u32,
}

/// A `PunkNoLongerForSaleEvent` as a mathematical value.
pub struct PunkNoLongerForSaleEventView {
    pub punk_index: nat,
}

impl View for PunkNoLongerForSaleEvent {
    type V = PunkNoLongerForSaleEventView;

    open spec fn view(&self) -> PunkNoLongerForSaleEventView {
        PunkNoLongerForSaleEventView {
            punk_index: self.punk_index as nat,
        }
    }
}

impl PunkNoLongerForSaleEvent {
    /// The hash of the event.
    pub const TOPIC_ID: [u8; 32] = [
        0xb0, 0xe0, 0xa6, 0x60, 0xb4, 0xe5, 0x0f, 0x26, 0xf0, 0xb7, 0xce, 0x75, 0xc2, 0x46, 0x55,
        0xfc, 0x76, 0xcc, 0x66, 0xe3, 0x33, 0x4a, 0x54, 0xff, 0x41, 0x02, 0x77, 0x22, 0x9f, 0xa1,
        0x0b, 0xd4,
    ];

    /// The number of topics of a record of the event.
    pub const TOPIC_COUNT: usize = 2;

    /// Whether a record with these topics is of this event: it has 2 topics, and the
    /// first is the event's hash.
    pub open spec fn recognizes(topics: Seq<[u8; 32]>) -> bool {
        recognized(topics, Self::TOPIC_ID@, Self::TOPIC_COUNT as nat)
    }

    /// What decoding a record with these topics gives: a mismatch where the record is
    /// not of this event, else the event whose fields its topics hold.
    pub open spec fn decoded(topics: Seq<[u8; 32]>) -> Result<
        PunkNoLongerForSaleEventView,
        DecodeError,
    > {
        if !Self::recognizes(topics) {
            Err(DecodeError::SignatureMismatch)
        } else {
            Ok(
                PunkNoLongerForSaleEventView {
                    punk_index: unsigned_value(topics[1]@, 32),
                },
            )
        }
    }

    /// Whether `log` is a record of this event.
    pub fn match_log(log: &LogRecord) -> (matched: bool)
        ensures
            matched == Self::recognizes(log.topics@),
    {
        let signature = EventSignature { hash: Self::TOPIC_ID, topic_count: Self::TOPIC_COUNT };
        signature.recognizes(log)
    }

    /// Decodes `log` as a record of this event.
    pub fn decode(log: &LogRecord) -> (result: Result<PunkNoLongerForSaleEvent, DecodeError>)
        ensures
            view_result(result) == Self::decoded(log.topics@),
    {
        if !Self::match_log(log) {
            return Err(DecodeError::SignatureMismatch);
        }
        let punk_index = to_u32(&log.topics[1]);
        Ok(PunkNoLongerForSaleEvent { punk_index })
    }
}

} // verus!
