//! The first version of the order-book exchange, at
//! 0x59728544B08AB483533076417FbBB2fD0B17CE3a.

use crate::error::{view_result, DecodeError};
use crate::log::{recognized, words_equal, LogRecord};
use crate::payload::{
    decode, decoded, decoded_field, decoded_members, lemma_decoded_members_by_field, word_at,
};
use crate::schema::{
    all_supported, first_supported, head_size, heads_size, shapes_of, FieldType, Shape,
};
use crate::value::{values_of, DecodedValue, Value};
use crate::word::{be_value, Integer};
use vstd::prelude::*;

verus! {

/// Which side took the order.
#[derive(Clone, Copy, Debug, PartialEq, Eq, Structural)]
pub enum TakerEventType {
    TakerBid,
    TakerAsk,
}

/// The names of the two taker events.
pub trait TakerEventTrait {
    const NAME_BID: &'static str;

    const NAME_ASK: &'static str;
}

impl TakerEventTrait for TakerEvent {
    const NAME_BID: &'static str = "TakerBid";

    const NAME_ASK: &'static str = "TakerAsk";
}

/// An order taken by a bid or by an ask.
#[derive(Clone, Debug, PartialEq, Eq)]
pub struct TakerEvent {
    pub event_type: TakerEventType,
    pub order_hash: Vec<u8>,
    pub order_nonce: Integer,
    pub taker: Vec<u8>,
    pub maker: Vec<u8>,
    pub strategy: Vec<u8>,
    pub currency: Vec<u8>,
    pub collection: Vec<u8>,
    pub token_id: Integer,
    pub amount: Integer,
    pub price: Integer,
}

/// A `TakerEvent` as a mathematical value.
pub struct TakerEventView {
    pub event_type: TakerEventType,
    pub order_hash: Seq<u8>,
    pub order_nonce: int,
    pub taker: Seq<u8>,
    pub maker: Seq<u8>,
    pub strategy: Seq<u8>,
    pub currency: Seq<u8>,
    pub collection: Seq<u8>,
    pub token_id: int,
    pub amount: int,
    pub price: int,
}

impl View for TakerEvent {
    type V = TakerEventView;

    open spec fn view(&self) -> TakerEventView {
        TakerEventView {
            event_type: self.event_type,
            order_hash: self.order_hash@,
            order_nonce: self.order_nonce@,
            taker: self.taker@,
            maker: self.maker@,
            strategy: self.strategy@,
            currency: self.currency@,
            collection: self.collection@,
            token_id: self.token_id@,
            amount: self.amount@,
            price: self.price@,
        }
    }
}

impl TakerEvent {
    /// The hash of the event of an order taken by a bid.
    pub const TOPIC_ID_BID: [u8; 32] = [
        0x95, 0xfb, 0x62, 0x05, 0xe2, 0x3f, 0xf6, 0xbd, 0xa1, 0x6a, 0x2d, 0x1d, 0xba, 0x56, 0xb9,
        0xad, 0x7c, 0x78, 0x3f, 0x67, 0xc9, 0x6f, 0xa1, 0x49, 0x78, 0x50, 0x52, 0xf4, 0x76, 0x96,
        0xf2, 0xbe,
    ];

    /// The hash of the event of an order taken by an ask.
    pub const TOPIC_ID_ASK: [u8; 32] = [
        0x68, 0xcd, 0x25, 0x1d, 0x4d, 0x26, 0x7c, 0x6e, 0x20, 0x34, 0xff, 0x00, 0x88, 0xb9, 0x90,
        0x35, 0x2b, 0x97, 0xb2, 0x00, 0x2c, 0x04, 0x76, 0x58, 0x7d, 0x0c, 0x4d, 0xa8, 0x89, 0xc1,
        0x13, 0x30,
    ];

    /// The number of topics of a record of either event.
    pub const TOPIC_COUNT: usize = 4;

    /// Which of the two events a record with these topics is of.
    pub open spec fn matched(topics: Seq<[u8; 32]>) -> Option<TakerEventType> {
        if recognized(topics, Self::TOPIC_ID_BID@, Self::TOPIC_COUNT as nat) {
            Some(TakerEventType::TakerBid)
        } else if recognized(topics, Self::TOPIC_ID_ASK@, Self::TOPIC_COUNT as nat) {
            Some(TakerEventType::TakerAsk)
        } else {
            None
        }
    }

    /// The shapes of the payload's fields.
    pub open spec fn schema_shapes() -> Seq<Shape> {
        seq![
            Shape::FixedBytes(32),
            Shape::UnsignedInt(256),
            Shape::Address,
            Shape::Address,
            Shape::Address,
            Shape::Address,
            Shape::Address,
            Shape::UnsignedInt(256),
            Shape::UnsignedInt(256),
            Shape::UnsignedInt(256),
        ]
    }

    /// The event that these payload values make: the order's hash and nonce, five
    /// addresses, and the token, amount and price, each number as the payload holds it.
    /// Values of other kinds or in another number are not supported.
    pub open spec fn projected(event_type: TakerEventType, values: Seq<Value>) -> Result<
        TakerEventView,
        DecodeError,
    > {
        if values.len() == 10 && values[0] is FixedBytes && values[1] is UnsignedInt
            && values[2] is Address && values[3] is Address && values[4] is Address
            && values[5] is Address && values[6] is Address && values[7] is UnsignedInt
            && values[8] is UnsignedInt && values[9] is UnsignedInt {
            Ok(
                TakerEventView {
                    event_type,
                    order_hash: values[0]->FixedBytes_0,
                    order_nonce: values[1]->UnsignedInt_0,
                    taker: values[2]->Address_0,
                    maker: values[3]->Address_0,
                    strategy: values[4]->Address_0,
                    currency: values[5]->Address_0,
                    collection: values[6]->Address_0,
                    token_id: values[7]->UnsignedInt_0,
                    amount: values[8]->UnsignedInt_0,
                    price: values[9]->UnsignedInt_0,
                },
            )
        } else {
            Err(DecodeError::UnsupportedType)
        }
    }

    /// What decoding a record with these topics and this payload as an event of
    /// `event_type` gives: a mismatch where the record is not of that event, else the
    /// fault of the payload, else the event that its values make.
    pub open spec fn decoded(event_type: TakerEventType, topics: Seq<[u8; 32]>, data: Seq<u8>)
        -> Result<TakerEventView, DecodeError> {
        if Self::matched(topics) != Some(event_type) {
            Err(DecodeError::SignatureMismatch)
        } else {
            match decoded(Self::schema_shapes(), data) {
                Err(error) => Err(error),
                Ok(values) => Self::projected(event_type, values),
            }
        }
    }

    /// A record of the event whose payload holds ten words decodes, and the event holds
    /// what the words hold: the hash is the first word, each address the last 20 bytes
    /// of its word, and each number the unsigned number of its word, so that none is
    /// negative.
    pub proof fn lemma_decoded_by_words(
        event_type: TakerEventType,
        topics: Seq<[u8; 32]>,
        data: Seq<u8>,
    )
        requires
            Self::matched(topics) == Some(event_type),
            data.len() >= 320,
        ensures
            Self::decoded(event_type, topics, data) == Ok::<TakerEventView, DecodeError>(
                TakerEventView {
                    event_type,
                    order_hash: data.subrange(0, 32),
                    order_nonce: be_value(data.subrange(32, 64)) as int,
                    taker: data.subrange(76, 96),
                    maker: data.subrange(108, 128),
                    strategy: data.subrange(140, 160),
                    currency: data.subrange(172, 192),
                    collection: data.subrange(204, 224),
                    token_id: be_value(data.subrange(224, 256)) as int,
                    amount: be_value(data.subrange(256, 288)) as int,
                    price: be_value(data.subrange(288, 320)) as int,
                },
            ),
    {
        let schema = Self::schema_shapes();
        assert(all_supported(schema)) by {
            reveal_with_fuel(first_supported, 11);
        }
        Self::lemma_slots();
        assert forall|i: int| 0 <= i < 10 implies (#[trigger] decoded_field(
            schema[i],
            data,
            0 + heads_size(schema, i as nat),
            320,
        )) is Ok by {}
        lemma_decoded_members_by_field(schema, data, 0, 320, 10);
        let values = decoded_members(schema, data, 0, 320, 10)->Ok_0;
        assert(decoded(schema, data) == Ok::<Seq<Value>, DecodeError>(values));
        assert(values[0] == Value::FixedBytes(data.subrange(0, 32))) by {
            assert(word_at(data, 0).subrange(0, 32) == data.subrange(0, 32));
        }
        assert(values[1] == Value::UnsignedInt(be_value(data.subrange(32, 64)) as int)) by {
            assert(word_at(data, 32).subrange(0, 32) == data.subrange(32, 64));
        }
        assert(values[2] == Value::Address(data.subrange(76, 96))) by {
            assert(word_at(data, 64).subrange(12, 32) == data.subrange(76, 96));
        }
        assert(values[3] == Value::Address(data.subrange(108, 128))) by {
            assert(word_at(data, 96).subrange(12, 32) == data.subrange(108, 128));
        }
        assert(values[4] == Value::Address(data.subrange(140, 160))) by {
            assert(word_at(data, 128).subrange(12, 32) == data.subrange(140, 160));
        }
        assert(values[5] == Value::Address(data.subrange(172, 192))) by {
            assert(word_at(data, 160).subrange(12, 32) == data.subrange(172, 192));
        }
        assert(values[6] == Value::Address(data.subrange(204, 224))) by {
            assert(word_at(data, 192).subrange(12, 32) == data.subrange(204, 224));
        }
        assert(values[7] == Value::UnsignedInt(be_value(data.subrange(224, 256)) as int)) by {
            assert(word_at(data, 224).subrange(0, 32) == data.subrange(224, 256));
        }
        assert(values[8] == Value::UnsignedInt(be_value(data.subrange(256, 288)) as int)) by {
            assert(word_at(data, 256).subrange(0, 32) == data.subrange(256, 288));
        }
        assert(values[9] == Value::UnsignedInt(be_value(data.subrange(288, 320)) as int)) by {
            assert(word_at(data, 288).subrange(0, 32) == data.subrange(288, 320));
        }
    }

    /// A record decodes exactly when it is of the event and its payload holds ten words;
    /// a record of another event is a mismatch, and a shorter payload is truncated.
    pub proof fn lemma_decode_outcome(
        event_type: TakerEventType,
        topics: Seq<[u8; 32]>,
        data: Seq<u8>,
    )
        ensures
            Self::decoded(event_type, topics, data) is Ok <==> Self::matched(topics) == Some(
                event_type,
            ) && data.len() >= 320,
            Self::matched(topics) != Some(event_type) ==> Self::decoded(event_type, topics, data)
                == Err::<TakerEventView, DecodeError>(DecodeError::SignatureMismatch),
            Self::matched(topics) == Some(event_type) && data.len() < 320 ==> Self::decoded(
                event_type,
                topics,
                data,
            ) == Err::<TakerEventView, DecodeError>(DecodeError::TruncatedPayload),
    {
        if Self::matched(topics) == Some(event_type) && data.len() >= 320 {
            Self::lemma_decoded_by_words(event_type, topics, data);
        }
    }

    /// The slot of each field of the payload: one word for each field before it.
    pub proof fn lemma_slots()
        ensures
            forall|i: nat| i <= 10 ==> #[trigger] heads_size(Self::schema_shapes(), i) == 32 * i,
    {
        let schema = Self::schema_shapes();
        assert(head_size(Shape::FixedBytes(32)) == 32);
        assert(head_size(Shape::UnsignedInt(256)) == 32);
        assert(head_size(Shape::Address) == 32);
        assert(heads_size(schema, 0) == 0);
        assert(heads_size(schema, 1) == 32);
        assert(heads_size(schema, 2) == 64);
        assert(heads_size(schema, 3) == 96);
        assert(heads_size(schema, 4) == 128);
        assert(heads_size(schema, 5) == 160);
        assert(heads_size(schema, 6) == 192);
        assert(heads_size(schema, 7) == 224);
        assert(heads_size(schema, 8) == 256);
        assert(heads_size(schema, 9) == 288);
        assert(heads_size(schema, 10) == 320);
    }

    /// Which of the two events `log` is a record of, if any.
    pub fn match_log(log: &LogRecord) -> (event_type: Option<TakerEventType>)
        ensures
            event_type == Self::matched(log.topics@),
    {
        if log.topics.len() != Self::TOPIC_COUNT {
            return None;
        }
        if words_equal(&log.topics[0], &Self::TOPIC_ID_BID) {
            Some(TakerEventType::TakerBid)
        } else if words_equal(&log.topics[0], &Self::TOPIC_ID_ASK) {
            Some(TakerEventType::TakerAsk)
        } else {
            None
        }
    }

    /// The types of the payload's fields.
    pub fn schema() -> (schema: Vec<FieldType>)
        ensures
            shapes_of(schema@) == Self::schema_shapes(),
    {
        let schema = vec![
            FieldType::FixedBytes(32),
            FieldType::UnsignedInt(256),
            FieldType::Address,
            FieldType::Address,
            FieldType::Address,
            FieldType::Address,
            FieldType::Address,
            FieldType::UnsignedInt(256),
            FieldType::UnsignedInt(256),
            FieldType::UnsignedInt(256),
        ];
        schema
    }

    /// The event that decoded payload values make.
    pub fn from_values(event_type: TakerEventType, values: &Vec<DecodedValue>) -> (result: Result<
        TakerEvent,
        DecodeError,
    >)
        ensures
            view_result(result) == Self::projected(event_type, values_of(values@)),
    {
        if values.len() != 10 {
            return Err(DecodeError::UnsupportedType);
        }
        let order_hash = values[0].fixed_bytes()?;
        let order_nonce = values[1].unsigned()?;
        let taker = values[2].address()?;
        let maker = values[3].address()?;
        let strategy = values[4].address()?;
        let currency = values[5].address()?;
        let collection = values[6].address()?;
        let token_id = values[7].unsigned()?;
        let amount = values[8].unsigned()?;
        let price = values[9].unsigned()?;
        Ok(
            TakerEvent {
                event_type,
                order_hash,
                order_nonce,
                taker,
                maker,
                strategy,
                currency,
                collection,
                token_id,
                amount,
                price,
            },
        )
    }

    /// Decodes `log` as an event of `event_type`.
    pub fn decode(event_type: TakerEventType, log: &LogRecord) -> (result: Result<
        TakerEvent,
        DecodeError,
    >)
        ensures
            view_result(result) == Self::decoded(event_type, log.topics@, log.data@),
            result is Ok <==> Self::matched(log.topics@) == Some(event_type) && log.data@.len()
                >= 320,
            result matches Ok(event) ==> event.order_nonce@ == be_value(
                log.data@.subrange(32, 64),
            ) && event.token_id@ == be_value(log.data@.subrange(224, 256)) && event.amount@
                == be_value(log.data@.subrange(256, 288)) && event.price@ == be_value(
                log.data@.subrange(288, 320),
            ),
            result matches Err(error) ==> error == DecodeError::SignatureMismatch || error
                == DecodeError::TruncatedPayload,
    {
        proof {
            Self::lemma_decode_outcome(event_type, log.topics@, log.data@);
            if Self::matched(log.topics@) == Some(event_type) && log.data@.len() >= 320 {
                Self::lemma_decoded_by_words(event_type, log.topics@, log.data@);
            }
        }
        match Self::match_log(log) {
            Some(found) if found == event_type => {},
            _ => {
                return Err(DecodeError::SignatureMismatch);
            },
        }
        let schema = Self::schema();
        let values = decode(&schema, log.data.as_slice())?;
        Self::from_values(event_type, &values)
    }
}

} // verus!
