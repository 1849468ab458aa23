//! The marketplace behind the proxy at 0x000000000000ad05ccc4f10045630fb830b95127.

use crate::error::{view_result, DecodeError};
use crate::log::{optional_bytes_view, recognized, topic_bytes, EventSignature, LogRecord};
use crate::payload::{decode, decoded, lemma_decoded_has_shapes};
use crate::schema::{
    all_supported, head_size, lemma_first_supported, lemma_heads_size_covers, shapes_of,
    supported, FieldType, Shape,
};
use crate::value::{
    all_unsigned, has_shape, is_word_number, lemma_first_have_shape, lemma_first_have_shapes,
    values_of, DecodedValue, Value,
};
use crate::word::{copy_bytes, Integer};
use vstd::prelude::*;

verus! {

/// The side of an order.
#[derive(Clone, Copy, Debug, PartialEq, Eq, Structural)]
pub enum Side {
    Buy,
    Sell,
}

/// A fee: its rate, and who receives it.
#[derive(Clone, Debug, PartialEq, Eq)]
pub struct Fee {
    pub rate: u16,
    pub recipient: Vec<u8>,
}

/// A `Fee` as a mathematical value.
pub struct FeeView {
    pub rate: nat,
    pub recipient: Seq<u8>,
}

impl View for Fee {
    type V = FeeView;

    open spec fn view(&self) -> FeeView {
        FeeView { rate: self.rate as nat, recipient: self.recipient@ }
    }
}

/// Fees as mathematical values.
pub open spec fn fees_view(fees: Seq<Fee>) -> Seq<FeeView> {
    Seq::new(fees.len(), |i: int| fees[i]@)
}

/// An order.
#[derive(Clone, Debug, PartialEq, Eq)]
pub struct Order {
    pub trader: Vec<u8>,
    pub side: Side,
    pub matching_policy: Vec<u8>,
    pub collection: Vec<u8>,
    pub token_id: Integer,
    pub amount: Integer,
    pub payment_token: Vec<u8>,
    pub price: Integer,
    pub listing_time: Integer,
    pub expiration_time: Integer,
    pub fees: Vec<Fee>,
    pub salt: Integer,
    pub extra_params: Vec<u8>,
}

/// An `Order` as a mathematical value.
pub struct OrderView {
    pub trader: Seq<u8>,
    pub side: Side,
    pub matching_policy: Seq<u8>,
    pub collection: Seq<u8>,
    pub token_id: int,
    pub amount: int,
    pub payment_token: Seq<u8>,
    pub price: int,
    pub listing_time: int,
    pub expiration_time: int,
    pub fees: Seq<FeeView>,
    pub salt: int,
    pub extra_params: Seq<u8>,
}

impl OrderView {
    /// Whether every number of the order is one that a word holds unsigned.
    pub open spec fn unsigned(self) -> bool {
        &&& is_word_number(self.token_id)
        &&& is_word_number(self.amount)
        &&& is_word_number(self.price)
        &&& is_word_number(self.listing_time)
        &&& is_word_number(self.expiration_time)
        &&& is_word_number(self.salt)
    }
}

impl View for Order {
    type V = OrderView;

    open spec fn view(&self) -> OrderView {
        OrderView {
            trader: self.trader@,
            side: self.side,
            matching_policy: self.matching_policy@,
            collection: self.collection@,
            token_id: self.token_id@,
            amount: self.amount@,
            payment_token: self.payment_token@,
            price: self.price@,
            listing_time: self.listing_time@,
            expiration_time: self.expiration_time@,
            fees: fees_view(self.fees@),
            salt: self.salt@,
            extra_params: self.extra_params@,
        }
    }
}

/// How an order was signed.
#[derive(Clone, Copy, Debug, PartialEq, Eq, Structural)]
pub enum SignatureVersion {
    Single,
    Bulk,
}

/// An order as it was put in, with its signature. What a record does not carry is
/// `None`.
#[derive(Clone, Debug, PartialEq, Eq)]
pub struct Input {
    pub order: Order,
    pub v: Option<u8>,
    pub r: Option<Vec<u8>>,
    pub s: Option<Vec<u8>>,
    pub extra_signature: Option<Vec<u8>>,
    pub signature_version: Option<SignatureVersion>,
    pub block_number: Option<u64>,
}

/// An `Input` as a mathematical value.
pub struct InputView {
    pub order: OrderView,
    pub v: Option<u8>,
    pub r: Option<Seq<u8>>,
    pub s: Option<Seq<u8>>,
    pub extra_signature: Option<Seq<u8>>,
    pub signature_version: Option<SignatureVersion>,
    pub block_number: Option<u64>,
}

impl View for Input {
    type V = InputView;

    open spec fn view(&self) -> InputView {
        InputView {
            order: self.order@,
            v: self.v,
            r: optional_bytes_view(self.r),
            s: optional_bytes_view(self.s),
            extra_signature: optional_bytes_view(self.extra_signature),
            signature_version: self.signature_version,
            block_number: self.block_number,
        }
    }
}

/// The two orders of a match.
#[derive(Clone, Debug, PartialEq, Eq)]
pub struct Execution {
    pub sell: Input,
    pub buy: Input,
}

/// An `Execution` as a mathematical value.
pub struct ExecutionView {
    pub sell: InputView,
    pub buy: InputView,
}

impl View for Execution {
    type V = ExecutionView;

    open spec fn view(&self) -> ExecutionView {
        ExecutionView { sell: self.sell@, buy: self.buy@ }
    }
}

/// Two orders matched. Maker and taker stand in the topics at 1 and 2, and are `None`
/// where a record has no such topic: the event still holds the two orders of its
/// payload.
#[derive(Clone, Debug, PartialEq, Eq)]
pub struct OrdersMatchedEvent {
    pub maker: Option<Vec<u8>>,
    pub taker: Option<Vec<u8>>,
    pub execution: Execution,
}

/// An `OrdersMatchedEvent` as a mathematical value.
pub struct OrdersMatchedEventView {
    pub maker: Option<Seq<u8>>,
    pub taker: Option<Seq<u8>>,
    pub execution: ExecutionView,
}

impl View for OrdersMatchedEvent {
    type V = OrdersMatchedEventView;

    open spec fn view(&self) -> OrdersMatchedEventView {
        OrdersMatchedEventView {
            maker: optional_bytes_view(self.maker),
            taker: optional_bytes_view(self.taker),
            execution: self.execution@,
        }
    }
}

/// An order cancelled. The order's hash, the event's only field, stands in the topic
/// at 1.
#[derive(Clone, Debug, PartialEq, Eq)]
pub struct OrderCancelledEvent {
    pub hash: Vec<u8>,
}

/// An `OrderCancelledEvent` as a mathematical value.
pub struct OrderCancelledEventView {
    pub hash: Seq<u8>,
}

impl View for OrderCancelledEvent {
    type V = OrderCancelledEventView;

    open spec fn view(&self) -> OrderCancelledEventView {
        OrderCancelledEventView { hash: self.hash@ }
    }
}

/// The two halves of a payload that holds two encodings of equal length back to back.
/// A payload of odd length has no such halves.
pub open spec fn halves(payload: Seq<u8>) -> Result<(Seq<u8>, Seq<u8>), DecodeError> {
    if payload.len() % 2 == 1 {
        Err(DecodeError::OddLengthSplit)
    } else {
        Ok(
            (
                payload.subrange(0, payload.len() as int / 2),
                payload.subrange(payload.len() as int / 2, payload.len() as int),
            ),
        )
    }
}

/// Cuts a payload at its midpoint.
pub fn split_halves(payload: &[u8]) -> (result: Result<(Vec<u8>, Vec<u8>), DecodeError>)
    ensures
        match result {
            Ok((first, second)) => halves(payload@) == Ok::<(Seq<u8>, Seq<u8>), DecodeError>(
                (first@, second@),
            ),
            Err(error) => halves(payload@) == Err::<(Seq<u8>, Seq<u8>), DecodeError>(error),
        },
        payload@.len() % 2 == 1 ==> result == Err::<(Vec<u8>, Vec<u8>), DecodeError>(
            DecodeError::OddLengthSplit,
        ),
{
    let len = payload.len();
    if len % 2 == 1 {
        return Err(DecodeError::OddLengthSplit);
    }
    let middle = len / 2;
    let mut first: Vec<u8> = Vec::new();
    let mut second: Vec<u8> = Vec::new();
    let mut i: usize = 0;
    while i < middle
        invariant
            i <= middle,
            len == payload@.len(),
            middle == len / 2,
            len % 2 == 0,
            first@ == payload@.subrange(0, i as int),
            second@ == payload@.subrange(middle as int, middle + i),
        decreases middle - i,
    {
        first.push(payload[i]);
        second.push(payload[middle + i]);
        i += 1;
    }
    Ok((first, second))
}

impl Side {
    /// The side that a discriminant selects: 0 and 1 are declared, and no other number
    /// selects any.
    pub open spec fn selected(discriminant: int) -> Result<Side, DecodeError> {
        if discriminant == 0 {
            Ok(Side::Buy)
        } else if discriminant == 1 {
            Ok(Side::Sell)
        } else {
            Err(DecodeError::UnknownDiscriminant)
        }
    }

    /// The side that a discriminant selects.
    pub fn from_discriminant(discriminant: &Integer) -> (side: Result<Side, DecodeError>)
        ensures
            side == Self::selected(discriminant@),
    {
        match discriminant.try_u64() {
            Some(0) => Ok(Side::Buy),
            Some(1) => Ok(Side::Sell),
            _ => Err(DecodeError::UnknownDiscriminant),
        }
    }
}

impl Fee {
    /// The shape of a fee in the payload.
    pub open spec fn shape() -> Shape {
        Shape::Tuple(seq![Shape::UnsignedInt(16), Shape::Address])
    }

    /// Whether a payload value holds a fee: a tuple of an unsigned number and an
    /// address.
    pub open spec fn conforms(value: Value) -> bool {
        value is Tuple && value->Tuple_0.len() == 2 && value->Tuple_0[0] is UnsignedInt
            && value->Tuple_0[1] is Address
    }

    /// The fee that a payload value holds: the 16 low-order bits of the rate, and the
    /// recipient.
    pub open spec fn projected(value: Value) -> FeeView {
        FeeView {
            rate: (value->Tuple_0[0]->UnsignedInt_0 % 0x1_0000) as nat,
            recipient: value->Tuple_0[1]->Address_0,
        }
    }

    /// Whether every one of these payload values holds a fee.
    pub open spec fn all_conform(values: Seq<Value>) -> bool {
        forall|i: int| 0 <= i < values.len() ==> Self::conforms(values[i])
    }

    /// The fees that these payload values hold.
    pub open spec fn all_projected(values: Seq<Value>) -> Seq<FeeView> {
        Seq::new(values.len(), |i: int| Self::projected(values[i]))
    }

    /// The type of a fee in the payload.
    pub fn field_type() -> (field: FieldType)
        ensures
            field@ == Self::shape(),
    {
        let members = vec![FieldType::UnsignedInt(16), FieldType::Address];
        assert(shapes_of(members@) =~= Self::shape()->Tuple_0);
        FieldType::tuple(members)
    }

    /// The fee that a decoded payload value holds.
    pub fn from_value(value: &DecodedValue) -> (result: Result<Fee, DecodeError>)
        ensures
            match result {
                Ok(fee) => Self::conforms(value@) && fee@ == Self::projected(value@),
                Err(error) => !Self::conforms(value@) && error == DecodeError::UnsupportedType,
            },
    {
        let members = value.tuple()?;
        if members.len() != 2 {
            return Err(DecodeError::UnsupportedType);
        }
        let rate = members[0].unsigned()?.low_u16();
        let recipient = members[1].address()?;
        Ok(Fee { rate, recipient })
    }

    /// The fees that decoded payload values hold.
    pub fn list_from_values(values: &Vec<DecodedValue>) -> (result: Result<Vec<Fee>, DecodeError>)
        ensures
            match result {
                Ok(fees) => Self::all_conform(values_of(values@)) && fees_view(fees@)
                    == Self::all_projected(values_of(values@)),
                Err(error) => !Self::all_conform(values_of(values@)) && error
                    == DecodeError::UnsupportedType,
            },
    {
        let mut fees: Vec<Fee> = Vec::new();
        let mut i: usize = 0;
        while i < values.len()
            invariant
                i <= values.len(),
                fees@.len() == i,
                forall|k: int| 0 <= k < i ==> Self::conforms(#[trigger] values_of(values@)[k]),
                forall|k: int|
                    0 <= k < i ==> (#[trigger] fees@[k])@ == Self::projected(
                        values_of(values@)[k],
                    ),
            decreases values.len() - i,
        {
            assert(values_of(values@)[i as int] == values[i as int]@);
            match Self::from_value(&values[i]) {
                Err(error) => {
                    return Err(error);
                },
                Ok(fee) => {
                    fees.push(fee);
                },
            }
            i += 1;
        }
        Ok(fees)
    }
}

/// The 8 low-order bits of each of these numbers.
pub open spec fn low_bytes(values: Seq<Value>) -> Seq<u8> {
    Seq::new(values.len(), |i: int| (values[i]->UnsignedInt_0 % 0x100) as u8)
}

/// The 8 low-order bits of each of these unsigned values.
pub fn bytes_from_values(values: &Vec<DecodedValue>) -> (result: Result<Vec<u8>, DecodeError>)
    ensures
        match result {
            Ok(bytes) => all_unsigned(values_of(values@)) && bytes@ == low_bytes(
                values_of(values@),
            ),
            Err(error) => !all_unsigned(values_of(values@)) && error
                == DecodeError::UnsupportedType,
        },
{
    let mut bytes: Vec<u8> = Vec::new();
    let mut i: usize = 0;
    while i < values.len()
        invariant
            i <= values.len(),
            bytes@.len() == i,
            forall|k: int| 0 <= k < i ==> (#[trigger] values_of(values@)[k]) is UnsignedInt,
            forall|k: int|
                0 <= k < i ==> (#[trigger] bytes@[k]) == values_of(values@)[k]->UnsignedInt_0
                    % 0x100,
        decreases values.len() - i,
    {
        assert(values_of(values@)[i as int] == values[i as int]@);
        match values[i].unsigned() {
            Err(error) => {
                return Err(error);
            },
            Ok(number) => {
                bytes.push(number.low_u8());
            },
        }
        i += 1;
    }
    assert(bytes@ =~= low_bytes(values_of(values@)));
    Ok(bytes)
}

impl Order {
    /// The shapes of the fields of an encoded order.
    pub open spec fn schema_shapes() -> Seq<Shape> {
        seq![
            Shape::Address,
            Shape::UnsignedInt(256),
            Shape::Address,
            Shape::Address,
            Shape::UnsignedInt(256),
            Shape::UnsignedInt(256),
            Shape::Address,
            Shape::UnsignedInt(256),
            Shape::UnsignedInt(256),
            Shape::UnsignedInt(256),
            Shape::DynamicArray(Box::new(Fee::shape())),
            Shape::UnsignedInt(256),
            Shape::DynamicArray(Box::new(Shape::UnsignedInt(8))),
        ]
    }

    /// Whether these payload values hold the fields of an order.
    pub open spec fn conforms(values: Seq<Value>) -> bool {
        &&& values.len() == 13
        &&& values[0] is Address
        &&& values[1] is UnsignedInt
        &&& values[2] is Address
        &&& values[3] is Address
        &&& values[4] is UnsignedInt
        &&& values[5] is UnsignedInt
        &&& values[6] is Address
        &&& values[7] is UnsignedInt
        &&& values[8] is UnsignedInt
        &&& values[9] is UnsignedInt
        &&& values[10] is DynamicArray
        &&& Fee::all_conform(values[10]->DynamicArray_0)
        &&& values[11] is UnsignedInt
        &&& values[12] is DynamicArray
        &&& all_unsigned(values[12]->DynamicArray_0)
    }

    /// The order that payload values hold, its numbers as the payload holds them and
    /// its extra parameters one byte to a value. The side's discriminant is the whole
    /// of its word, so that no word but 0 and 1 selects a side. Values that do not conform are not
    /// supported; a side with an undeclared discriminant is refused.
    pub open spec fn projected(values: Seq<Value>) -> Result<OrderView, DecodeError> {
        if !Self::conforms(values) {
            Err(DecodeError::UnsupportedType)
        } else {
            match Side::selected(values[1]->UnsignedInt_0) {
                Err(error) => Err(error),
                Ok(side) => Ok(
                    OrderView {
                        trader: values[0]->Address_0,
                        side,
                        matching_policy: values[2]->Address_0,
                        collection: values[3]->Address_0,
                        token_id: values[4]->UnsignedInt_0,
                        amount: values[5]->UnsignedInt_0,
                        payment_token: values[6]->Address_0,
                        price: values[7]->UnsignedInt_0,
                        listing_time: values[8]->UnsignedInt_0,
                        expiration_time: values[9]->UnsignedInt_0,
                        fees: Fee::all_projected(values[10]->DynamicArray_0),
                        salt: values[11]->UnsignedInt_0,
                        extra_params: low_bytes(values[12]->DynamicArray_0),
                    },
                ),
            }
        }
    }

    /// What decoding an encoded order gives: the fault of the encoding, else the order
    /// that its values hold.
    pub open spec fn decoded(data: Seq<u8>) -> Result<OrderView, DecodeError> {
        match decoded(Self::schema_shapes(), data) {
            Err(error) => Err(error),
            Ok(values) => Self::projected(values),
        }
    }

    /// Decoding an order fails for three reasons only: the encoding is truncated, an
    /// offset in it is invalid, or the side has an undeclared discriminant. The numbers
    /// of an order that decodes are unsigned, none of them negative.
    pub proof fn lemma_decode_outcome(data: Seq<u8>)
        ensures
            match Self::decoded(data) {
                Ok(order) => order.unsigned(),
                Err(error) => error == DecodeError::TruncatedPayload || error
                    == DecodeError::InvalidOffset || error == DecodeError::UnknownDiscriminant,
            },
    {
        let schema = Self::schema_shapes();
        let number = Shape::UnsignedInt(8);
        assert(all_supported(schema)) by {
            lemma_first_supported(Fee::shape()->Tuple_0, 2);
            lemma_heads_size_covers(Fee::shape()->Tuple_0, 0, 2);
            assert(head_size(Fee::shape()) > 0 && head_size(number) > 0);
            assert(supported(Fee::shape()) && supported(number));
            assert(supported(schema[10]) && supported(schema[12]));
            assert(forall|i: int| 0 <= i < 13 ==> supported(schema[i]));
            lemma_first_supported(schema, 13);
        }
        lemma_decoded_has_shapes(schema, data);
        if decoded(schema, data) is Ok {
            let values = decoded(schema, data)->Ok_0;
            lemma_first_have_shapes(values, schema, 13);
            let fees = values[10]->DynamicArray_0;
            lemma_first_have_shape(fees, Fee::shape(), fees.len());
            assert forall|i: int| 0 <= i < fees.len() implies Fee::conforms(fees[i]) by {
                lemma_first_have_shapes(fees[i]->Tuple_0, Fee::shape()->Tuple_0, 2);
            }
            let extra = values[12]->DynamicArray_0;
            lemma_first_have_shape(extra, number, extra.len());
            assert(forall|i: int| 0 <= i < 13 ==> has_shape(values[i], schema[i]));
        }
    }

    /// The types of the fields of an encoded order.
    pub fn schema() -> (schema: Vec<FieldType>)
        ensures
            shapes_of(schema@) == Self::schema_shapes(),
    {
        let schema = vec![
            FieldType::Address,
            FieldType::UnsignedInt(256),
            FieldType::Address,
            FieldType::Address,
            FieldType::UnsignedInt(256),
            FieldType::UnsignedInt(256),
            FieldType::Address,
            FieldType::UnsignedInt(256),
            FieldType::UnsignedInt(256),
            FieldType::UnsignedInt(256),
            FieldType::dynamic_array(Fee::field_type()),
            FieldType::UnsignedInt(256),
            FieldType::dynamic_array(FieldType::UnsignedInt(8)),
        ];
        schema
    }

    /// The order that decoded payload values hold.
    pub fn from_values(values: &Vec<DecodedValue>) -> (result: Result<Order, DecodeError>)
        ensures
            view_result(result) == Self::projected(values_of(values@)),
    {
        if values.len() != 13 {
            return Err(DecodeError::UnsupportedType);
        }
        let trader = values[0].address()?;
        let discriminant = values[1].unsigned()?;
        let matching_policy = values[2].address()?;
        let collection = values[3].address()?;
        let token_id = values[4].unsigned()?;
        let amount = values[5].unsigned()?;
        let payment_token = values[6].address()?;
        let price = values[7].unsigned()?;
        let listing_time = values[8].unsigned()?;
        let expiration_time = values[9].unsigned()?;
        let fees = Fee::list_from_values(values[10].dynamic_array()?)?;
        let salt = values[11].unsigned()?;
        let extra_params = bytes_from_values(values[12].dynamic_array()?)?;
        let side = Side::from_discriminant(&discriminant)?;
        Ok(
            Order {
                trader,
                side,
                matching_policy,
                collection,
                token_id,
                amount,
                payment_token,
                price,
                listing_time,
                expiration_time,
                fees,
                salt,
                extra_params,
            },
        )
    }

    /// Decodes an encoded order.
    pub fn try_from_bytes(data: &[u8]) -> (result: Result<Order, DecodeError>)
        ensures
            view_result(result) == Self::decoded(data@),
            match result {
                Ok(order) => order@.unsigned(),
                Err(error) => error == DecodeError::TruncatedPayload || error
                    == DecodeError::InvalidOffset || error == DecodeError::UnknownDiscriminant,
            },
    {
        proof {
            Self::lemma_decode_outcome(data@);
        }
        let schema = Self::schema();
        let values = decode(&schema, data)?;
        Self::from_values(&values)
    }
}

impl Input {
    /// The input of which only the order is known.
    pub open spec fn of_order(order: OrderView) -> InputView {
        InputView {
            order,
            v: None,
            r: None,
            s: None,
            extra_signature: None,
            signature_version: None,
            block_number: None,
        }
    }

    /// The input of which only the order is known.
    pub fn from_order(order: Order) -> (input: Input)
        ensures
            input@ == Self::of_order(order@),
    {
        Input {
            order,
            v: None,
            r: None,
            s: None,
            extra_signature: None,
            signature_version: None,
            block_number: None,
        }
    }
}

impl OrdersMatchedEvent {
    /// The hash of the event.
    pub const TOPIC_ID: [u8; 32] = [
        0x61, 0xcb, 0xb2, 0xa3, 0xde, 0xe0, 0xb6, 0x06,
        0x4c, 0x2e, 0x68, 0x1a, 0xad, 0xd6, 0x16, 0x77,
        0xfb, 0x4e, 0xf3, 0x19, 0xf0, 0xb5, 0x47, 0x50,
        0x8d, 0x49, 0x56, 0x26, 0xf5, 0xa6, 0x2f, 0x64,
    ];

    /// The number of topics of a record of the event.
    pub const TOPIC_COUNT: usize = 1;

    /// Whether a record with these topics is of this event: it has 1 topic, and the
    /// first is the event's hash.
    pub open spec fn recognizes(topics: Seq<[u8; 32]>) -> bool {
        recognized(topics, Self::TOPIC_ID@, Self::TOPIC_COUNT as nat)
    }

    /// What decoding a record with these topics and this payload gives: a mismatch
    /// where the record is not of this event; a refusal where the payload has odd
    /// length; else the fault of the sell order in the first half of the payload, else
    /// that of the buy order in the second half, else the match of the two. A record of
    /// the event has 1 topic, so the event's maker and taker are absent.
    pub open spec fn decoded(topics: Seq<[u8; 32]>, data: Seq<u8>) -> Result<
        OrdersMatchedEventView,
        DecodeError,
    > {
        if !Self::recognizes(topics) {
            Err(DecodeError::SignatureMismatch)
        } else {
            match halves(data) {
                Err(error) => Err(error),
                Ok((first, second)) => match Order::decoded(first) {
                    Err(error) => Err(error),
                    Ok(sell) => match Order::decoded(second) {
                        Err(error) => Err(error),
                        Ok(buy) => Ok(
                            OrdersMatchedEventView {
                                maker: topic_bytes(topics, 1),
                                taker: topic_bytes(topics, 2),
                                execution: ExecutionView {
                                    sell: Input::of_order(sell),
                                    buy: Input::of_order(buy),
                                },
                            },
                        ),
                    },
                },
            }
        }
    }

    /// Whether `log` is a record of this event.
    pub fn match_log(log: &LogRecord) -> (matched: bool)
        ensures
            matched == Self::recognizes(log.topics@),
    {
        let signature = EventSignature { hash: Self::TOPIC_ID, topic_count: Self::TOPIC_COUNT };
        signature.recognizes(log)
    }

    /// Decodes `log` as a record of this event.
    pub fn decode(log: &LogRecord) -> (result: Result<OrdersMatchedEvent, DecodeError>)
        ensures
            view_result(result) == Self::decoded(log.topics@, log.data@),
            match result {
                Ok(event) => event.maker is None && event.taker is None
                    && event@.execution.sell.order.unsigned()
                    && event@.execution.buy.order.unsigned(),
                Err(error) => error == DecodeError::SignatureMismatch || error
                    == DecodeError::OddLengthSplit || error == DecodeError::TruncatedPayload
                    || error == DecodeError::InvalidOffset || error
                    == DecodeError::UnknownDiscriminant,
            },
    {
        if !Self::match_log(log) {
            return Err(DecodeError::SignatureMismatch);
        }
        let (first, second) = split_halves(log.data.as_slice())?;
        let sell = Order::try_from_bytes(first.as_slice())?;
        let buy = Order::try_from_bytes(second.as_slice())?;
        Ok(
            OrdersMatchedEvent {
                maker: log.topic_bytes(1),
                taker: log.topic_bytes(2),
                execution: Execution { sell: Input::from_order(sell), buy: Input::from_order(buy) },
            },
        )
    }
}

impl OrderCancelledEvent {
    /// The hash of the event.
    pub const TOPIC_ID: [u8; 32] = [
        0x51, 0x52, 0xab, 0xf9, 0x59, 0xf6, 0x56, 0x46,
        0x62, 0x35, 0x8c, 0x2e, 0x52, 0xb7, 0x02, 0x25,
        0x9b, 0x78, 0xba, 0xc5, 0xee, 0x78, 0x42, 0xa0,
        0xf0, 0x19, 0x37, 0xe6, 0x70, 0xef, 0xcc, 0x7d,
    ];

    /// The number of topics of a record of the event.
    pub const TOPIC_COUNT: usize = 1;

    /// Whether a record with these topics is of this event: it has 1 topic, and the
    /// first is the event's hash.
    pub open spec fn recognizes(topics: Seq<[u8; 32]>) -> bool {
        recognized(topics, Self::TOPIC_ID@, Self::TOPIC_COUNT as nat)
    }

    /// The topic in which the order's hash stands.
    pub const HASH_TOPIC: usize = 1;

    /// The event whose field these topics hold: the order's hash in the topic at 1.
    /// The hash is the event's only field, so where there is no such topic there is
    /// nothing to make an event of: the record is truncated.
    pub open spec fn projected(topics: Seq<[u8; 32]>) -> Result<
        OrderCancelledEventView,
        DecodeError,
    > {
        if topics.len() <= Self::HASH_TOPIC {
            Err(DecodeError::TruncatedPayload)
        } else {
            Ok(OrderCancelledEventView { hash: topics[Self::HASH_TOPIC as int]@ })
        }
    }

    /// What decoding a record with these topics gives: a mismatch where the record is
    /// not of this event, else what its topics hold. A record of the event has 1 topic
    /// and so none for the hash: it is truncated.
    pub open spec fn decoded(topics: Seq<[u8; 32]>) -> Result<
        OrderCancelledEventView,
        DecodeError,
    > {
        if !Self::recognizes(topics) {
            Err(DecodeError::SignatureMismatch)
        } else {
            Self::projected(topics)
        }
    }

    /// Whether `log` is a record of this event.
    pub fn match_log(log: &LogRecord) -> (matched: bool)
        ensures
            matched == Self::recognizes(log.topics@),
    {
        let signature = EventSignature { hash: Self::TOPIC_ID, topic_count: Self::TOPIC_COUNT };
        signature.recognizes(log)
    }

    /// The event whose field the topics of `log` hold, whatever event `log` is a record
    /// of: a truncated record where `log` has no topic at 1.
    pub fn from_topics(log: &LogRecord) -> (result: Result<OrderCancelledEvent, DecodeError>)
        ensures
            view_result(result) == Self::projected(log.topics@),
    {
        let hash = copy_bytes(log.topic(Self::HASH_TOPIC)?.as_slice());
        Ok(OrderCancelledEvent { hash })
    }

    /// Decodes `log` as a record of this event: a mismatch exactly where `log` is not a
    /// record of the event, and a truncated record where it is, for a record of the
    /// event has no topic for the hash.
    pub fn decode(log: &LogRecord) -> (result: Result<OrderCancelledEvent, DecodeError>)
        ensures
            view_result(result) == Self::decoded(log.topics@),
            result == Err::<OrderCancelledEvent, DecodeError>(
                if Self::recognizes(log.topics@) {
                    DecodeError::TruncatedPayload
                } else {
                    DecodeError::SignatureMismatch
                },
            ),
    {
        if !Self::match_log(log) {
            return Err(DecodeError::SignatureMismatch);
        }
        Self::from_topics(log)
    }
}

} // verus!
