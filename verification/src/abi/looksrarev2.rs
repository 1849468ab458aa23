//! The second version of the order-book exchange.

use crate::error::{view_result, DecodeError};
use crate::log::{recognized, EventSignature, LogRecord};
use crate::payload::{
    decode, decoded, decoded_elements, decoded_field, decoded_members, lemma_decoded_elements_each,
    lemma_decoded_has_shapes, lemma_decoded_members_each, word_at,
};
use crate::schema::{
    all_supported, any_dynamic, head_size, heads_size, is_dynamic, lemma_first_supported,
    shapes_of, supported, FieldType, Shape,
};
use crate::value::{
    all_unsigned, all_word_numbers, byte_strings_view, has_shape, is_word_number,
    lemma_first_have_shape, lemma_first_have_shapes,
    numbers_from_values, numbers_view, unsigned_numbers, values_of, DecodedValue, Value,
};
use crate::word::{be_value, Integer};
use vstd::prelude::*;

verus! {

/// The nonce of an order, and the time span in which it holds.
#[derive(Clone, Debug, PartialEq, Eq)]
pub struct NonceInvalidationParameters {
    pub nonce: Integer,
    pub minimum_timestamp: u64,
    pub maximum_timestamp: u64,
}

/// `NonceInvalidationParameters` as a mathematical value.
pub struct NonceInvalidationParametersView {
    pub nonce: int,
    pub minimum_timestamp: nat,
    pub maximum_timestamp: nat,
}

impl View for NonceInvalidationParameters {
    type V = NonceInvalidationParametersView;

    open spec fn view(&self) -> NonceInvalidationParametersView {
        NonceInvalidationParametersView {
            nonce: self.nonce@,
            minimum_timestamp: self.minimum_timestamp as nat,
            maximum_timestamp: self.maximum_timestamp as nat,
        }
    }
}

/// What the payload of a taker event holds. A taker ask and a taker bid differ in what
/// they call the two users.
#[derive(Clone, Debug, PartialEq, Eq)]
pub struct TakerFields {
    pub nonce_invalidation_parameters: NonceInvalidationParameters,
    pub first_user: Vec<u8>,
    pub second_user: Vec<u8>,
    pub strategy_id: Integer,
    pub currency: Vec<u8>,
    pub collection: Vec<u8>,
    pub item_ids: Vec<Integer>,
    pub amounts: Vec<Integer>,
    pub fee_recipients: [Vec<u8>; 2],
    pub fee_amounts: [Integer; 3],
}

/// `TakerFields` as a mathematical value.
pub struct TakerFieldsView {
    pub nonce_invalidation_parameters: NonceInvalidationParametersView,
    pub first_user: Seq<u8>,
    pub second_user: Seq<u8>,
    pub strategy_id: int,
    pub currency: Seq<u8>,
    pub collection: Seq<u8>,
    pub item_ids: Seq<int>,
    pub amounts: Seq<int>,
    pub fee_recipients: Seq<Seq<u8>>,
    pub fee_amounts: Seq<int>,
}

impl TakerFieldsView {
    /// Whether every number of these fields is one that a word holds unsigned, and the
    /// fee recipients are two and the fee amounts three.
    pub open spec fn well_formed(self) -> bool {
        &&& is_word_number(self.nonce_invalidation_parameters.nonce)
        &&& is_word_number(self.strategy_id)
        &&& all_word_numbers(self.item_ids)
        &&& all_word_numbers(self.amounts)
        &&& all_word_numbers(self.fee_amounts)
        &&& self.fee_recipients.len() == 2
        &&& self.fee_amounts.len() == 3
    }
}

impl View for TakerFields {
    type V = TakerFieldsView;

    open spec fn view(&self) -> TakerFieldsView {
        TakerFieldsView {
            nonce_invalidation_parameters: self.nonce_invalidation_parameters@,
            first_user: self.first_user@,
            second_user: self.second_user@,
            strategy_id: self.strategy_id@,
            currency: self.currency@,
            collection: self.collection@,
            item_ids: numbers_view(self.item_ids@),
            amounts: numbers_view(self.amounts@),
            fee_recipients: byte_strings_view(self.fee_recipients@),
            fee_amounts: numbers_view(self.fee_amounts@),
        }
    }
}

/// An order taken by an ask.
#[derive(Clone, Debug, PartialEq, Eq)]
pub struct TakerAskV2Event {
    pub nonce_invalidation_parameters: NonceInvalidationParameters,
    pub ask_user: Vec<u8>,
    pub bid_user: Vec<u8>,
    pub strategy_id: Integer,
    pub currency: Vec<u8>,
    pub collection: Vec<u8>,
    pub item_ids: Vec<Integer>,
    pub amounts: Vec<Integer>,
    pub fee_recipients: [Vec<u8>; 2],
    pub fee_amounts: [Integer; 3],
}

/// A `TakerAskV2Event` as a mathematical value.
pub struct TakerAskV2EventView {
    pub nonce_invalidation_parameters: NonceInvalidationParametersView,
    pub ask_user: Seq<u8>,
    pub bid_user: Seq<u8>,
    pub strategy_id: int,
    pub currency: Seq<u8>,
    pub collection: Seq<u8>,
    pub item_ids: Seq<int>,
    pub amounts: Seq<int>,
    pub fee_recipients: Seq<Seq<u8>>,
    pub fee_amounts: Seq<int>,
}

impl View for TakerAskV2Event {
    type V = TakerAskV2EventView;

    open spec fn view(&self) -> TakerAskV2EventView {
        TakerAskV2EventView {
            nonce_invalidation_parameters: self.nonce_invalidation_parameters@,
            ask_user: self.ask_user@,
            bid_user: self.bid_user@,
            strategy_id: self.strategy_id@,
            currency: self.currency@,
            collection: self.collection@,
            item_ids: numbers_view(self.item_ids@),
            amounts: numbers_view(self.amounts@),
            fee_recipients: byte_strings_view(self.fee_recipients@),
            fee_amounts: numbers_view(self.fee_amounts@),
        }
    }
}

/// An order taken by a bid.
#[derive(Clone, Debug, PartialEq, Eq)]
pub struct TakerBidV2Event {
    pub nonce_invalidation_parameters: NonceInvalidationParameters,
    pub bid_user: Vec<u8>,
    pub bid_recipient: Vec<u8>,
    pub strategy_id: Integer,
    pub currency: Vec<u8>,
    pub collection: Vec<u8>,
    pub item_ids: Vec<Integer>,
    pub amounts: Vec<Integer>,
    pub fee_recipients: [Vec<u8>; 2],
    pub fee_amounts: [Integer; 3],
}

/// A `TakerBidV2Event` as a mathematical value.
pub struct TakerBidV2EventView {
    pub nonce_invalidation_parameters: NonceInvalidationParametersView,
    pub bid_user: Seq<u8>,
    pub bid_recipient: Seq<u8>,
    pub strategy_id: int,
    pub currency: Seq<u8>,
    pub collection: Seq<u8>,
    pub item_ids: Seq<int>,
    pub amounts: Seq<int>,
    pub fee_recipients: Seq<Seq<u8>>,
    pub fee_amounts: Seq<int>,
}

impl View for TakerBidV2Event {
    type V = TakerBidV2EventView;

    open spec fn view(&self) -> TakerBidV2EventView {
        TakerBidV2EventView {
            nonce_invalidation_parameters: self.nonce_invalidation_parameters@,
            bid_user: self.bid_user@,
            bid_recipient: self.bid_recipient@,
            strategy_id: self.strategy_id@,
            currency: self.currency@,
            collection: self.collection@,
            item_ids: numbers_view(self.item_ids@),
            amounts: numbers_view(self.amounts@),
            fee_recipients: byte_strings_view(self.fee_recipients@),
            fee_amounts: numbers_view(self.fee_amounts@),
        }
    }
}

impl NonceInvalidationParameters {
    /// Whether a payload value holds the parameters: a tuple of three unsigned numbers.
    pub open spec fn conforms(value: Value) -> bool {
        value is Tuple && value->Tuple_0.len() == 3 && all_unsigned(value->Tuple_0)
    }

    /// Whether both timestamps of a payload value are numbers of 64 bits.
    pub open spec fn fits(value: Value) -> bool {
        0 <= value->Tuple_0[1]->UnsignedInt_0 <= u64::MAX && 0
            <= value->Tuple_0[2]->UnsignedInt_0 <= u64::MAX
    }

    /// The parameters that a payload value holds: the nonce and the two timestamps, each
    /// as the payload holds it.
    pub open spec fn projected(value: Value) -> NonceInvalidationParametersView {
        NonceInvalidationParametersView {
            nonce: value->Tuple_0[0]->UnsignedInt_0,
            minimum_timestamp: value->Tuple_0[1]->UnsignedInt_0 as nat,
            maximum_timestamp: value->Tuple_0[2]->UnsignedInt_0 as nat,
        }
    }

    /// The three numbers of a decoded payload value that holds the parameters.
    pub fn numbers(value: &DecodedValue) -> (result: Result<
        (Integer, Integer, Integer),
        DecodeError,
    >)
        ensures
            match result {
                Ok((nonce, minimum, maximum)) => Self::conforms(value@) && nonce@
                    == value@->Tuple_0[0]->UnsignedInt_0 && minimum@
                    == value@->Tuple_0[1]->UnsignedInt_0 && maximum@
                    == value@->Tuple_0[2]->UnsignedInt_0,
                Err(error) => !Self::conforms(value@) && error == DecodeError::UnsupportedType,
            },
    {
        let members = value.tuple()?;
        if members.len() != 3 {
            return Err(DecodeError::UnsupportedType);
        }
        assert(value@->Tuple_0[0] == members@[0]@ && value@->Tuple_0[1] == members@[1]@
            && value@->Tuple_0[2] == members@[2]@);
        let nonce = members[0].unsigned()?;
        let minimum = members[1].unsigned()?;
        let maximum = members[2].unsigned()?;
        Ok((nonce, minimum, maximum))
    }

    /// The parameters of a nonce and two timestamps. A timestamp of more than 64 bits
    /// is refused, not cut.
    pub fn from_numbers(nonce: Integer, minimum: &Integer, maximum: &Integer) -> (result: Result<
        NonceInvalidationParameters,
        DecodeError,
    >)
        ensures
            match result {
                Ok(parameters) => parameters.nonce == nonce && parameters.minimum_timestamp
                    == minimum@ && parameters.maximum_timestamp == maximum@,
                Err(error) => error == DecodeError::MalformedScalar && !(0 <= minimum@
                    <= u64::MAX && 0 <= maximum@ <= u64::MAX),
            },
    {
        match (minimum.try_u64(), maximum.try_u64()) {
            (Some(minimum_timestamp), Some(maximum_timestamp)) => Ok(
                NonceInvalidationParameters { nonce, minimum_timestamp, maximum_timestamp },
            ),
            _ => Err(DecodeError::MalformedScalar),
        }
    }

    /// The parameters that a decoded payload value holds. A value of another form is not
    /// supported; a timestamp of more than 64 bits is refused.
    pub fn from_value(value: &DecodedValue) -> (result: Result<
        NonceInvalidationParameters,
        DecodeError,
    >)
        ensures
            match result {
                Ok(parameters) => Self::conforms(value@) && Self::fits(value@) && parameters@
                    == Self::projected(value@),
                Err(error) => if Self::conforms(value@) {
                    !Self::fits(value@) && error == DecodeError::MalformedScalar
                } else {
                    error == DecodeError::UnsupportedType
                },
            },
    {
        let (nonce, minimum, maximum) = Self::numbers(value)?;
        Self::from_numbers(nonce, &minimum, &maximum)
    }
}

impl TakerFields {
    /// The shapes of the payload's fields.
    pub open spec fn schema_shapes() -> Seq<Shape> {
        seq![
            Shape::Tuple(
                seq![Shape::UnsignedInt(256), Shape::UnsignedInt(256), Shape::UnsignedInt(256)],
            ),
            Shape::Address,
            Shape::Address,
            Shape::UnsignedInt(256),
            Shape::Address,
            Shape::Address,
            Shape::DynamicArray(Box::new(Shape::UnsignedInt(256))),
            Shape::DynamicArray(Box::new(Shape::UnsignedInt(256))),
            Shape::FixedArray(Box::new(Shape::Address), 2),
            Shape::FixedArray(Box::new(Shape::UnsignedInt(256)), 3),
        ]
    }

    /// Whether these payload values hold the fields of a taker event: the nonce
    /// parameters, two users, the strategy, currency and collection, the lists of item
    /// identifiers and amounts, two fee recipients and three fee amounts.
    pub open spec fn conforms(values: Seq<Value>) -> bool {
        &&& values.len() == 10
        &&& NonceInvalidationParameters::conforms(values[0])
        &&& values[1] is Address
        &&& values[2] is Address
        &&& values[3] is UnsignedInt
        &&& values[4] is Address
        &&& values[5] is Address
        &&& values[6] is DynamicArray
        &&& all_unsigned(values[6]->DynamicArray_0)
        &&& values[7] is DynamicArray
        &&& all_unsigned(values[7]->DynamicArray_0)
        &&& values[8] is FixedArray
        &&& values[8]->FixedArray_0.len() == 2
        &&& values[8]->FixedArray_0[0] is Address
        &&& values[8]->FixedArray_0[1] is Address
        &&& values[9] is FixedArray
        &&& values[9]->FixedArray_0.len() == 3
        &&& all_unsigned(values[9]->FixedArray_0)
    }

    /// The fields that payload values hold, every number as the payload holds it.
    /// Values that do not conform are not supported; a timestamp of more than 64 bits
    /// is refused.
    pub open spec fn projected(values: Seq<Value>) -> Result<TakerFieldsView, DecodeError> {
        if !Self::conforms(values) {
            Err(DecodeError::UnsupportedType)
        } else if !NonceInvalidationParameters::fits(values[0]) {
            Err(DecodeError::MalformedScalar)
        } else {
            Ok(
                TakerFieldsView {
                    nonce_invalidation_parameters: NonceInvalidationParameters::projected(
                        values[0],
                    ),
                    first_user: values[1]->Address_0,
                    second_user: values[2]->Address_0,
                    strategy_id: values[3]->UnsignedInt_0,
                    currency: values[4]->Address_0,
                    collection: values[5]->Address_0,
                    item_ids: unsigned_numbers(values[6]->DynamicArray_0),
                    amounts: unsigned_numbers(values[7]->DynamicArray_0),
                    fee_recipients: seq![
                        values[8]->FixedArray_0[0]->Address_0,
                        values[8]->FixedArray_0[1]->Address_0,
                    ],
                    fee_amounts: unsigned_numbers(values[9]->FixedArray_0),
                },
            )
        }
    }

    /// What decoding a payload gives: its fault, else the fields that its values hold.
    pub open spec fn decoded(data: Seq<u8>) -> Result<TakerFieldsView, DecodeError> {
        match decoded(Self::schema_shapes(), data) {
            Err(error) => Err(error),
            Ok(values) => Self::projected(values),
        }
    }

    /// Decoding fails for three reasons only: the payload is truncated, an offset in it
    /// is invalid, or a timestamp has more than 64 bits. The fields of a payload that
    /// decodes hold unsigned numbers, none of them negative.
    pub proof fn lemma_decode_outcome(data: Seq<u8>)
        ensures
            match Self::decoded(data) {
                Ok(fields) => fields.well_formed(),
                Err(error) => error == DecodeError::TruncatedPayload || error
                    == DecodeError::InvalidOffset || error == DecodeError::MalformedScalar,
            },
    {
        let schema = Self::schema_shapes();
        assert(all_supported(schema)) by {
            lemma_first_supported(schema[0]->Tuple_0, 3);
            assert(supported(schema[0]));
            assert(supported(Shape::Address) && supported(Shape::UnsignedInt(256)));
            assert(supported(schema[6]) && supported(schema[7]));
            assert(supported(schema[8]) && supported(schema[9]));
            lemma_first_supported(schema, 10);
        }
        lemma_decoded_has_shapes(schema, data);
        if decoded(schema, data) is Ok {
            let values = decoded(schema, data)->Ok_0;
            lemma_first_have_shapes(values, schema, 10);
            let number = Shape::UnsignedInt(256);
            lemma_first_have_shapes(values[0]->Tuple_0, schema[0]->Tuple_0, 3);
            assert(forall|i: int|
                0 <= i < 3 ==> has_shape(values[0]->Tuple_0[i], schema[0]->Tuple_0[i]));
            let item_ids = values[6]->DynamicArray_0;
            let amounts = values[7]->DynamicArray_0;
            lemma_first_have_shape(item_ids, number, item_ids.len());
            lemma_first_have_shape(amounts, number, amounts.len());
            lemma_first_have_shape(values[8]->FixedArray_0, Shape::Address, 2);
            lemma_first_have_shape(values[9]->FixedArray_0, number, 3);
            assert(has_shape(values[3], number));
            assert(has_shape(values[0]->Tuple_0[0], number));
            assert(Self::conforms(values));
            if NonceInvalidationParameters::fits(values[0]) {
                assert(Self::projected(values)->Ok_0.well_formed());
            }
        }
    }

    /// The slot of each field in the head of the payload: three words for the nonce
    /// parameters, one for each user, the strategy, the currency and the collection,
    /// one for the offset of either list, two for the fee recipients and three for the
    /// fee amounts, 480 bytes in all.
    pub proof fn lemma_slots()
        ensures
            heads_size(Self::schema_shapes(), 0) == 0,
            heads_size(Self::schema_shapes(), 1) == 96,
            heads_size(Self::schema_shapes(), 2) == 128,
            heads_size(Self::schema_shapes(), 3) == 160,
            heads_size(Self::schema_shapes(), 4) == 192,
            heads_size(Self::schema_shapes(), 5) == 224,
            heads_size(Self::schema_shapes(), 6) == 256,
            heads_size(Self::schema_shapes(), 7) == 288,
            heads_size(Self::schema_shapes(), 8) == 320,
            heads_size(Self::schema_shapes(), 9) == 384,
            heads_size(Self::schema_shapes(), 10) == 480,
            heads_size(Self::schema_shapes()[0]->Tuple_0, 0) == 0,
            heads_size(Self::schema_shapes()[0]->Tuple_0, 1) == 32,
            heads_size(Self::schema_shapes()[0]->Tuple_0, 2) == 64,
            !is_dynamic(Self::schema_shapes()[0]),
            !is_dynamic(Self::schema_shapes()[8]),
            !is_dynamic(Self::schema_shapes()[9]),
    {
        let schema = Self::schema_shapes();
        let parameters = schema[0]->Tuple_0;
        let number = Shape::UnsignedInt(256);
        assert(head_size(number) == 32 && head_size(Shape::Address) == 32);
        assert(!is_dynamic(number) && !is_dynamic(Shape::Address));
        assert(!any_dynamic(parameters, 3)) by {
            assert(!any_dynamic(parameters, 0));
            assert(!any_dynamic(parameters, 1));
            assert(!any_dynamic(parameters, 2));
        }
        assert(heads_size(parameters, 3) == 96) by {
            assert(heads_size(parameters, 0) == 0);
            assert(heads_size(parameters, 1) == 32);
            assert(heads_size(parameters, 2) == 64);
        }
        assert(head_size(schema[0]) == 96);
        assert(head_size(schema[6]) == 32 && head_size(schema[7]) == 32);
        assert(!is_dynamic(schema[8]) && !is_dynamic(schema[9]));
        assert(head_size(schema[8]) == 2 * head_size(Shape::Address));
        assert(head_size(schema[9]) == 3 * head_size(number));
        assert(heads_size(schema, 0) == 0);
        assert(heads_size(schema, 1) == 96);
        assert(heads_size(schema, 2) == 128);
        assert(heads_size(schema, 3) == 160);
        assert(heads_size(schema, 4) == 192);
        assert(heads_size(schema, 5) == 224);
        assert(heads_size(schema, 6) == 256);
        assert(heads_size(schema, 7) == 288);
        assert(heads_size(schema, 8) == 320);
        assert(heads_size(schema, 9) == 384);
        assert(heads_size(schema, 10) == 480);
    }

    /// The fields of a payload that decodes hold what the words of its head hold: each
    /// number is the unsigned number of its word, each address the last 20 bytes of
    /// its word.
    pub proof fn lemma_decoded_by_words(data: Seq<u8>)
        requires
            Self::decoded(data) is Ok,
        ensures
            data.len() >= 480,
            ({
                let fields = Self::decoded(data)->Ok_0;
                &&& fields.nonce_invalidation_parameters.nonce == be_value(data.subrange(0, 32))
                &&& fields.nonce_invalidation_parameters.minimum_timestamp == be_value(
                    data.subrange(32, 64),
                )
                &&& fields.nonce_invalidation_parameters.maximum_timestamp == be_value(
                    data.subrange(64, 96),
                )
                &&& fields.first_user == data.subrange(108, 128)
                &&& fields.second_user == data.subrange(140, 160)
                &&& fields.strategy_id == be_value(data.subrange(160, 192))
                &&& fields.currency == data.subrange(204, 224)
                &&& fields.collection == data.subrange(236, 256)
                &&& fields.fee_recipients == seq![
                    data.subrange(332, 352),
                    data.subrange(364, 384),
                ]
                &&& fields.fee_amounts == seq![
                    be_value(data.subrange(384, 416)) as int,
                    be_value(data.subrange(416, 448)) as int,
                    be_value(data.subrange(448, 480)) as int,
                ]
            }),
    {
        let schema = Self::schema_shapes();
        Self::lemma_slots();
        Self::lemma_decode_outcome(data);
        let values = decoded(schema, data)->Ok_0;
        assert(data.len() >= 480);
        assert(decoded_members(schema, data, 0, 480, 10) == Ok::<Seq<Value>, DecodeError>(values));
        lemma_decoded_members_each(schema, data, 0, 480, 10);
        let number = Shape::UnsignedInt(256);
        let parameters = schema[0]->Tuple_0;
        assert(decoded_field(schema[0], data, 0 + heads_size(schema, 0), 480) == Ok::<
            Value,
            DecodeError,
        >(values[0]));
        assert(decoded_members(parameters, data, 0, 480, 3) == Ok::<Seq<Value>, DecodeError>(
            values[0]->Tuple_0,
        ));
        lemma_decoded_members_each(parameters, data, 0, 480, 3);
        assert(values[0]->Tuple_0[0] == Value::UnsignedInt(be_value(data.subrange(0, 32)) as int))
            by {
            assert(decoded_field(parameters[0], data, 0 + heads_size(parameters, 0), 480) is Ok);
            assert(word_at(data, 0).subrange(0, 32) == data.subrange(0, 32));
        }
        assert(values[0]->Tuple_0[1] == Value::UnsignedInt(be_value(data.subrange(32, 64)) as int))
            by {
            assert(decoded_field(parameters[1], data, 0 + heads_size(parameters, 1), 480) is Ok);
            assert(word_at(data, 32).subrange(0, 32) == data.subrange(32, 64));
        }
        assert(values[0]->Tuple_0[2] == Value::UnsignedInt(be_value(data.subrange(64, 96)) as int))
            by {
            assert(decoded_field(parameters[2], data, 0 + heads_size(parameters, 2), 480) is Ok);
            assert(word_at(data, 64).subrange(0, 32) == data.subrange(64, 96));
        }
        assert(values[1] == Value::Address(data.subrange(108, 128))) by {
            assert(decoded_field(schema[1], data, 0 + heads_size(schema, 1), 480) is Ok);
            assert(word_at(data, 96).subrange(12, 32) == data.subrange(108, 128));
        }
        assert(values[2] == Value::Address(data.subrange(140, 160))) by {
            assert(decoded_field(schema[2], data, 0 + heads_size(schema, 2), 480) is Ok);
            assert(word_at(data, 128).subrange(12, 32) == data.subrange(140, 160));
        }
        assert(values[3] == Value::UnsignedInt(be_value(data.subrange(160, 192)) as int)) by {
            assert(decoded_field(schema[3], data, 0 + heads_size(schema, 3), 480) is Ok);
            assert(word_at(data, 160).subrange(0, 32) == data.subrange(160, 192));
        }
        assert(values[4] == Value::Address(data.subrange(204, 224))) by {
            assert(decoded_field(schema[4], data, 0 + heads_size(schema, 4), 480) is Ok);
            assert(word_at(data, 192).subrange(12, 32) == data.subrange(204, 224));
        }
        assert(values[5] == Value::Address(data.subrange(236, 256))) by {
            assert(decoded_field(schema[5], data, 0 + heads_size(schema, 5), 480) is Ok);
            assert(word_at(data, 224).subrange(12, 32) == data.subrange(236, 256));
        }
        assert(decoded_field(schema[8], data, 0 + heads_size(schema, 8), 480) == Ok::<
            Value,
            DecodeError,
        >(values[8]));
        assert(decoded_elements(Shape::Address, data, 320, 480, 2) == Ok::<Seq<Value>, DecodeError>(
            values[8]->FixedArray_0,
        ));
        lemma_decoded_elements_each(Shape::Address, data, 320, 480, 2);
        assert(values[8]->FixedArray_0[0] == Value::Address(data.subrange(332, 352))) by {
            assert(decoded_field(
                Shape::Address,
                data,
                (320 + 0 * head_size(Shape::Address)) as nat,
                480,
            ) is Ok);
            assert(word_at(data, 320).subrange(12, 32) == data.subrange(332, 352));
        }
        assert(values[8]->FixedArray_0[1] == Value::Address(data.subrange(364, 384))) by {
            assert(decoded_field(
                Shape::Address,
                data,
                (320 + 1 * head_size(Shape::Address)) as nat,
                480,
            ) is Ok);
            assert(word_at(data, 352).subrange(12, 32) == data.subrange(364, 384));
        }
        assert(decoded_field(schema[9], data, 0 + heads_size(schema, 9), 480) == Ok::<
            Value,
            DecodeError,
        >(values[9]));
        assert(decoded_elements(number, data, 384, 480, 3) == Ok::<Seq<Value>, DecodeError>(
            values[9]->FixedArray_0,
        ));
        lemma_decoded_elements_each(number, data, 384, 480, 3);
        assert(values[9]->FixedArray_0[0] == Value::UnsignedInt(
            be_value(data.subrange(384, 416)) as int,
        )) by {
            assert(decoded_field(number, data, (384 + 0 * head_size(number)) as nat, 480) is Ok);
            assert(word_at(data, 384).subrange(0, 32) == data.subrange(384, 416));
        }
        assert(values[9]->FixedArray_0[1] == Value::UnsignedInt(
            be_value(data.subrange(416, 448)) as int,
        )) by {
            assert(decoded_field(number, data, (384 + 1 * head_size(number)) as nat, 480) is Ok);
            assert(word_at(data, 416).subrange(0, 32) == data.subrange(416, 448));
        }
        assert(values[9]->FixedArray_0[2] == Value::UnsignedInt(
            be_value(data.subrange(448, 480)) as int,
        )) by {
            assert(decoded_field(number, data, (384 + 2 * head_size(number)) as nat, 480) is Ok);
            assert(word_at(data, 448).subrange(0, 32) == data.subrange(448, 480));
        }
        let fields = Self::decoded(data)->Ok_0;
        assert(fields.fee_amounts =~= seq![
            be_value(data.subrange(384, 416)) as int,
            be_value(data.subrange(416, 448)) as int,
            be_value(data.subrange(448, 480)) as int,
        ]);
    }

    /// What the list whose offset stands at `slot` in a payload holds, where the payload
    /// decodes as a list of unsigned numbers there: the word at the offset is the
    /// count, and the words after it are the numbers, in their order.
    pub open spec fn list_by_words(data: Seq<u8>, slot: int, numbers: Seq<int>) -> bool {
        let offset = be_value(data.subrange(slot, slot + 32)) as int;
        &&& 480 <= offset
        &&& offset + 32 + 32 * numbers.len() <= data.len()
        &&& numbers.len() == be_value(data.subrange(offset, offset + 32))
        &&& forall|i: int|
            0 <= i < numbers.len() ==> #[trigger] numbers[i] == be_value(
                data.subrange(offset + 32 + 32 * i, offset + 64 + 32 * i),
            )
    }

    /// A dynamic array of unsigned numbers that decodes holds the words after its count.
    proof fn lemma_list_by_words(data: Seq<u8>, slot: nat, value: Value)
        requires
            slot + 32 <= data.len(),
            decoded_field(
                Shape::DynamicArray(Box::new(Shape::UnsignedInt(256))),
                data,
                slot,
                480,
            ) == Ok::<Value, DecodeError>(value),
        ensures
            value is DynamicArray,
            all_unsigned(value->DynamicArray_0),
            Self::list_by_words(data, slot as int, unsigned_numbers(value->DynamicArray_0)),
    {
        let number = Shape::UnsignedInt(256);
        assert(head_size(number) == 32 && !is_dynamic(number));
        assert(word_at(data, slot) == data.subrange(slot as int, slot as int + 32));
        let offset = be_value(word_at(data, slot));
        let inner = data.skip(offset as int);
        assert(word_at(inner, 0) == data.subrange(offset as int, offset as int + 32));
        let count = be_value(word_at(inner, 0));
        let tail = inner.skip(32);
        let size = count * head_size(number);
        assert(size == 32 * count) by (nonlinear_arith)
            requires
                size == count * head_size(number),
                head_size(number) == 32,
        ;
        let elements = value->DynamicArray_0;
        assert(decoded_elements(number, tail, 0, size, count) == Ok::<Seq<Value>, DecodeError>(
            elements,
        ));
        lemma_decoded_elements_each(number, tail, 0, size, count);
        let numbers = unsigned_numbers(elements);
        assert forall|i: int| 0 <= i < elements.len() implies (#[trigger] elements[i])
            == Value::UnsignedInt(
            be_value(data.subrange(offset + 32 + 32 * i, offset + 64 + 32 * i)) as int,
        ) by {
            assert(i * head_size(number) == 32 * i) by (nonlinear_arith)
                requires
                    head_size(number) == 32,
            ;
            assert(decoded_field(number, tail, (0 + i * head_size(number)) as nat, size) is Ok);
            assert(word_at(tail, (32 * i) as nat).subrange(0, 32) == data.subrange(
                offset + 32 + 32 * i,
                offset + 64 + 32 * i,
            ));
        }
        assert forall|i: int| 0 <= i < numbers.len() implies #[trigger] numbers[i] == be_value(
            data.subrange(offset + 32 + 32 * i, offset + 64 + 32 * i),
        ) by {
            assert(elements[i] is UnsignedInt);
        }
    }

    /// The lists of a payload that decodes hold the words that their offsets point at:
    /// the item identifiers through the offset in the word at 256, the amounts through
    /// the offset in the word at 288, each list in the order of the payload.
    pub proof fn lemma_lists_by_words(data: Seq<u8>)
        requires
            Self::decoded(data) is Ok,
        ensures
            Self::list_by_words(data, 256, Self::decoded(data)->Ok_0.item_ids),
            Self::list_by_words(data, 288, Self::decoded(data)->Ok_0.amounts),
    {
        let schema = Self::schema_shapes();
        Self::lemma_slots();
        Self::lemma_decode_outcome(data);
        let values = decoded(schema, data)->Ok_0;
        assert(decoded_members(schema, data, 0, 480, 10) == Ok::<Seq<Value>, DecodeError>(values));
        lemma_decoded_members_each(schema, data, 0, 480, 10);
        assert(decoded_field(schema[6], data, 0 + heads_size(schema, 6), 480) == Ok::<
            Value,
            DecodeError,
        >(values[6]));
        assert(decoded_field(schema[7], data, 0 + heads_size(schema, 7), 480) == Ok::<
            Value,
            DecodeError,
        >(values[7]));
        Self::lemma_list_by_words(data, 256, values[6]);
        Self::lemma_list_by_words(data, 288, values[7]);
    }

    /// The types of the payload's fields.
    pub fn schema() -> (schema: Vec<FieldType>)
        ensures
            shapes_of(schema@) == Self::schema_shapes(),
    {
        let parameters = vec![
            FieldType::UnsignedInt(256),
            FieldType::UnsignedInt(256),
            FieldType::UnsignedInt(256),
        ];
        assert(shapes_of(parameters@) =~= seq![
            Shape::UnsignedInt(256),
            Shape::UnsignedInt(256),
            Shape::UnsignedInt(256),
        ]);
        let schema = vec![
            FieldType::tuple(parameters),
            FieldType::Address,
            FieldType::Address,
            FieldType::UnsignedInt(256),
            FieldType::Address,
            FieldType::Address,
            FieldType::dynamic_array(FieldType::UnsignedInt(256)),
            FieldType::dynamic_array(FieldType::UnsignedInt(256)),
            FieldType::fixed_array(FieldType::Address, 2),
            FieldType::fixed_array(FieldType::UnsignedInt(256), 3),
        ];
        schema
    }

    /// The fields that decoded payload values hold.
    pub fn from_values(values: &Vec<DecodedValue>) -> (result: Result<TakerFields, DecodeError>)
        ensures
            view_result(result) == Self::projected(values_of(values@)),
    {
        if values.len() != 10 {
            return Err(DecodeError::UnsupportedType);
        }
        let ghost given = values_of(values@);
        let (nonce, minimum, maximum) = NonceInvalidationParameters::numbers(&values[0])?;
        let first_user = values[1].address()?;
        let second_user = values[2].address()?;
        let strategy_id = values[3].unsigned()?;
        let currency = values[4].address()?;
        let collection = values[5].address()?;
        let item_ids = numbers_from_values(values[6].dynamic_array()?)?;
        let amounts = numbers_from_values(values[7].dynamic_array()?)?;
        let recipients = values[8].fixed_array()?;
        if recipients.len() != 2 {
            return Err(DecodeError::UnsupportedType);
        }
        let first_recipient = recipients[0].address()?;
        let second_recipient = recipients[1].address()?;
        let fees = numbers_from_values(values[9].fixed_array()?)?;
        assert(given[9]->FixedArray_0.len() == numbers_view(fees@).len());
        if fees.len() != 3 {
            return Err(DecodeError::UnsupportedType);
        }
        assert(Self::conforms(given));
        let nonce_invalidation_parameters = NonceInvalidationParameters::from_numbers(
            nonce,
            &minimum,
            &maximum,
        )?;
        let fee_recipients = [first_recipient, second_recipient];
        let fee_amounts = [fees[0], fees[1], fees[2]];
        proof {
            let projected = Self::projected(given)->Ok_0;
            assert(byte_strings_view(fee_recipients@) =~= projected.fee_recipients);
            assert(numbers_view(fee_amounts@) =~= projected.fee_amounts);
        }
        Ok(
            TakerFields {
                nonce_invalidation_parameters,
                first_user,
                second_user,
                strategy_id,
                currency,
                collection,
                item_ids,
                amounts,
                fee_recipients,
                fee_amounts,
            },
        )
    }

    /// Decodes a payload to the fields of a taker event.
    pub fn decode(data: &[u8]) -> (result: Result<TakerFields, DecodeError>)
        ensures
            view_result(result) == Self::decoded(data@),
            match result {
                Ok(fields) => fields@.well_formed(),
                Err(error) => error == DecodeError::TruncatedPayload || error
                    == DecodeError::InvalidOffset || error == DecodeError::MalformedScalar,
            },
    {
        proof {
            Self::lemma_decode_outcome(data@);
        }
        let schema = Self::schema();
        let values = decode(&schema, data)?;
        Self::from_values(&values)
    }
}

impl TakerAskV2Event {
    /// The hash of the event.
    pub const TOPIC_ID: [u8; 32] = [
        0x9a, 0xaa, 0x45, 0xd6, 0xdb, 0x2e, 0xf7, 0x4e, 0xad, 0x07, 0x51, 0xea, 0x91, 0x13, 0x26,
        0x3d, 0x1d, 0xec, 0x1b, 0x50, 0xce, 0xa0, 0x5f, 0x0c, 0xa2, 0x00, 0x2c, 0xb8, 0x06, 0x35,
        0x64, 0xa4,
    ];

    /// The number of topics of a record of the event.
    pub const TOPIC_COUNT: usize = 4;

    /// Whether a record with these topics is of this event: it has 4 topics, and the
    /// first is the event's hash.
    pub open spec fn recognizes(topics: Seq<[u8; 32]>) -> bool {
        recognized(topics, Self::TOPIC_ID@, Self::TOPIC_COUNT as nat)
    }

    /// The event that the fields of a payload make: the first user asks, the second
    /// bids.
    pub open spec fn from_fields(fields: TakerFieldsView) -> TakerAskV2EventView {
        TakerAskV2EventView {
            nonce_invalidation_parameters: fields.nonce_invalidation_parameters,
            ask_user: fields.first_user,
            bid_user: fields.second_user,
            strategy_id: fields.strategy_id,
            currency: fields.currency,
            collection: fields.collection,
            item_ids: fields.item_ids,
            amounts: fields.amounts,
            fee_recipients: fields.fee_recipients,
            fee_amounts: fields.fee_amounts,
        }
    }

    /// What decoding a record with these topics and this payload gives: a mismatch
    /// where the record is not of this event, else the fault of the payload, else the
    /// event that its fields make.
    pub open spec fn decoded(topics: Seq<[u8; 32]>, data: Seq<u8>) -> Result<
        TakerAskV2EventView,
        DecodeError,
    > {
        if !Self::recognizes(topics) {
            Err(DecodeError::SignatureMismatch)
        } else {
            match TakerFields::decoded(data) {
                Err(error) => Err(error),
                Ok(fields) => Ok(Self::from_fields(fields)),
            }
        }
    }

    /// Whether `log` is a record of this event.
    pub fn match_log(log: &LogRecord) -> (matched: bool)
        ensures
            matched == Self::recognizes(log.topics@),
    {
        let signature = EventSignature { hash: Self::TOPIC_ID, topic_count: Self::TOPIC_COUNT };
        signature.recognizes(log)
    }

    /// Decodes `log` as a record of this event.
    pub fn decode(log: &LogRecord) -> (result: Result<TakerAskV2Event, DecodeError>)
        ensures
            view_result(result) == Self::decoded(log.topics@, log.data@),
            match result {
                Ok(event) => is_word_number(event.nonce_invalidation_parameters.nonce@)
                    && is_word_number(event.strategy_id@) && all_word_numbers(
                    numbers_view(event.item_ids@),
                ) && all_word_numbers(numbers_view(event.amounts@)) && all_word_numbers(
                    numbers_view(event.fee_amounts@),
                ),
                Err(error) => error == DecodeError::SignatureMismatch || error
                    == DecodeError::TruncatedPayload || error == DecodeError::InvalidOffset
                    || error == DecodeError::MalformedScalar,
            },
    {
        if !Self::match_log(log) {
            return Err(DecodeError::SignatureMismatch);
        }
        let fields = TakerFields::decode(log.data.as_slice())?;
        Ok(
            TakerAskV2Event {
                nonce_invalidation_parameters: fields.nonce_invalidation_parameters,
                ask_user: fields.first_user,
                bid_user: fields.second_user,
                strategy_id: fields.strategy_id,
                currency: fields.currency,
                collection: fields.collection,
                item_ids: fields.item_ids,
                amounts: fields.amounts,
                fee_recipients: fields.fee_recipients,
                fee_amounts: fields.fee_amounts,
            },
        )
    }
}

impl TakerBidV2Event {
    /// The hash of the event.
    pub const TOPIC_ID: [u8; 32] = [
        0x3e, 0xe3, 0xde, 0x46, 0x84, 0x41, 0x36, 0x90, 0xde, 0xe6, 0xff, 0xf1, 0xa0, 0xa4, 0xf9,
        0x29, 0x16, 0xa1, 0xb9, 0x7d, 0x1c, 0x5a, 0x83, 0xcd, 0xf2, 0x46, 0x71, 0x84, 0x43, 0x06,
        0xb2, 0xe3,
    ];

    /// The number of topics of a record of the event.
    pub const TOPIC_COUNT: usize = 4;

    /// Whether a record with these topics is of this event: it has 4 topics, and the
    /// first is the event's hash.
    pub open spec fn recognizes(topics: Seq<[u8; 32]>) -> bool {
        recognized(topics, Self::TOPIC_ID@, Self::TOPIC_COUNT as nat)
    }

    /// The event that the fields of a payload make: the first user bids, the second
    /// receives.
    pub open spec fn from_fields(fields: TakerFieldsView) -> TakerBidV2EventView {
        TakerBidV2EventView {
            nonce_invalidation_parameters: fields.nonce_invalidation_parameters,
            bid_user: fields.first_user,
            bid_recipient: fields.second_user,
            strategy_id: fields.strategy_id,
            currency: fields.currency,
            collection: fields.collection,
            item_ids: fields.item_ids,
            amounts: fields.amounts,
            fee_recipients: fields.fee_recipients,
            fee_amounts: fields.fee_amounts,
        }
    }

    /// What decoding a record with these topics and this payload gives: a mismatch
    /// where the record is not of this event, else the fault of the payload, else the
    /// event that its fields make.
    pub open spec fn decoded(topics: Seq<[u8; 32]>, data: Seq<u8>) -> Result<
        TakerBidV2EventView,
        DecodeError,
    > {
        if !Self::recognizes(topics) {
            Err(DecodeError::SignatureMismatch)
        } else {
            match TakerFields::decoded(data) {
                Err(error) => Err(error),
                Ok(fields) => Ok(Self::from_fields(fields)),
            }
        }
    }

    /// Whether `log` is a record of this event.
    pub fn match_log(log: &LogRecord) -> (matched: bool)
        ensures
            matched == Self::recognizes(log.topics@),
    {
        let signature = EventSignature { hash: Self::TOPIC_ID, topic_count: Self::TOPIC_COUNT };
        signature.recognizes(log)
    }

    /// Decodes `log` as a record of this event.
    pub fn decode(log: &LogRecord) -> (result: Result<TakerBidV2Event, DecodeError>)
        ensures
            view_result(result) == Self::decoded(log.topics@, log.data@),
            match result {
                Ok(event) => is_word_number(event.nonce_invalidation_parameters.nonce@)
                    && is_word_number(event.strategy_id@) && all_word_numbers(
                    numbers_view(event.item_ids@),
                ) && all_word_numbers(numbers_view(event.amounts@)) && all_word_numbers(
                    numbers_view(event.fee_amounts@),
                ),
                Err(error) => error == DecodeError::SignatureMismatch || error
                    == DecodeError::TruncatedPayload || error == DecodeError::InvalidOffset
                    || error == DecodeError::MalformedScalar,
            },
    {
        if !Self::match_log(log) {
            return Err(DecodeError::SignatureMismatch);
        }
        let fields = TakerFields::decode(log.data.as_slice())?;
        Ok(
            TakerBidV2Event {
                nonce_invalidation_parameters: fields.nonce_invalidation_parameters,
                bid_user: fields.first_user,
                bid_recipient: fields.second_user,
                strategy_id: fields.strategy_id,
                currency: fields.currency,
                collection: fields.collection,
                item_ids: fields.item_ids,
                amounts: fields.amounts,
                fee_recipients: fields.fee_recipients,
                fee_amounts: fields.fee_amounts,
            },
        )
    }
}

} // verus!
