//! The order aggregator, at 0x00000000006c3852cbEf3e08E8dF289169EdE581 (1.1) and
//! 0x00000000000001ad428e4906aE43D8F9852d0dD6 (1.4).

use crate::error::{view_result, DecodeError};
use crate::log::{optional_bytes_view, recognized, topic_bytes, EventSignature, LogRecord};
use crate::payload::{decode, decoded, lemma_decoded_has_shapes};
use crate::schema::{
    all_supported, head_size, lemma_first_supported, lemma_heads_size_covers, shapes_of,
    supported, FieldType, Shape,
};
use crate::value::{
    first_have_shape, has_shape, is_word_number, lemma_first_have_shapes, values_of,
    DecodedValue, Value,
};
use crate::word::Integer;
use vstd::prelude::*;

verus! {

/// What kind of thing an item of an order is.
#[derive(Clone, Copy, Debug, PartialEq, Eq, Structural)]
pub enum ItemType {
    Nft,
    Erc20,
}

/// An item that an order offers or asks for.
#[derive(Clone, Debug, PartialEq, Eq)]
pub struct OrderItem {
    pub item_type: ItemType,
    pub token: Vec<u8>,
    pub identifier: Integer,
    pub amount: Integer,
    pub recipient: Option<Vec<u8>>,
}

/// An `OrderItem` as a mathematical value.
pub struct OrderItemView {
    pub item_type: ItemType,
    pub token: Seq<u8>,
    pub identifier: int,
    pub amount: int,
    pub recipient: Option<Seq<u8>>,
}

impl View for OrderItem {
    type V = OrderItemView;

    open spec fn view(&self) -> OrderItemView {
        OrderItemView {
            item_type: self.item_type,
            token: self.token@,
            identifier: self.identifier@,
            amount: self.amount@,
            recipient: match self.recipient {
                Some(recipient) => Some(recipient@),
                None => None,
            },
        }
    }
}

/// Whether the identifier and the amount of each item are numbers that a word holds
/// unsigned.
pub open spec fn items_unsigned(items: Seq<OrderItemView>) -> bool {
    forall|i: int|
        0 <= i < items.len() ==> is_word_number((#[trigger] items[i]).identifier)
            && is_word_number(items[i].amount)
}

/// Items as mathematical values.
pub open spec fn items_view(items: Seq<OrderItem>) -> Seq<OrderItemView> {
    Seq::new(items.len(), |i: int| items[i]@)
}

/// An order fulfilled. Hash, maker, taker and relayer stand in the topics at 1 to 4;
/// what a record has no topic for is `None`: the event still holds the items of its
/// payload.
#[derive(Clone, Debug, PartialEq, Eq)]
pub struct OrderFulfilledEvent {
    pub hash: Option<Vec<u8>>,
    pub maker: Option<Vec<u8>>,
    pub taker: Option<Vec<u8>>,
    pub relayer: Option<Vec<u8>>,
    pub items_offered: Vec<OrderItem>,
    pub consideration: Vec<OrderItem>,
}

/// An `OrderFulfilledEvent` as a mathematical value.
pub struct OrderFulfilledEventView {
    pub hash: Option<Seq<u8>>,
    pub maker: Option<Seq<u8>>,
    pub taker: Option<Seq<u8>>,
    pub relayer: Option<Seq<u8>>,
    pub items_offered: Seq<OrderItemView>,
    pub consideration: Seq<OrderItemView>,
}

impl View for OrderFulfilledEvent {
    type V = OrderFulfilledEventView;

    open spec fn view(&self) -> OrderFulfilledEventView {
        OrderFulfilledEventView {
            hash: optional_bytes_view(self.hash),
            maker: optional_bytes_view(self.maker),
            taker: optional_bytes_view(self.taker),
            relayer: optional_bytes_view(self.relayer),
            items_offered: items_view(self.items_offered@),
            consideration: items_view(self.consideration@),
        }
    }
}

impl ItemType {
    /// The item type that a discriminant selects: 0 and 1 are declared, and no other
    /// number selects any.
    pub open spec fn selected(discriminant: int) -> Result<ItemType, DecodeError> {
        if discriminant == 0 {
            Ok(ItemType::Nft)
        } else if discriminant == 1 {
            Ok(ItemType::Erc20)
        } else {
            Err(DecodeError::UnknownDiscriminant)
        }
    }

    /// The item type that a discriminant selects.
    pub fn from_discriminant(discriminant: &Integer) -> (item_type: Result<ItemType, DecodeError>)
        ensures
            item_type == Self::selected(discriminant@),
    {
        match discriminant.try_u64() {
            Some(0) => Ok(ItemType::Nft),
            Some(1) => Ok(ItemType::Erc20),
            _ => Err(DecodeError::UnknownDiscriminant),
        }
    }
}

impl OrderItem {
    /// The shape of an item in the payload.
    pub open spec fn shape() -> Shape {
        Shape::Tuple(
            seq![
                Shape::UnsignedInt(256),
                Shape::FixedBytes(32),
                Shape::UnsignedInt(256),
                Shape::UnsignedInt(256),
                Shape::Address,
            ],
        )
    }

    /// The item that a payload value makes: a tuple of discriminant, token, identifier,
    /// amount and recipient. The discriminant is the whole of its word, so that no word
    /// but 0 and 1 selects an item type. A value of another form is not supported; one
    /// with an undeclared discriminant is refused.
    pub open spec fn projected(value: Value) -> Result<OrderItemView, DecodeError> {
        if value is Tuple && value->Tuple_0.len() == 5 && value->Tuple_0[0] is UnsignedInt
            && value->Tuple_0[1] is FixedBytes && value->Tuple_0[2] is UnsignedInt
            && value->Tuple_0[3] is UnsignedInt && value->Tuple_0[4] is Address {
            let members = value->Tuple_0;
            match ItemType::selected(members[0]->UnsignedInt_0) {
                Err(error) => Err(error),
                Ok(item_type) => Ok(
                    OrderItemView {
                        item_type,
                        token: members[1]->FixedBytes_0,
                        identifier: members[2]->UnsignedInt_0,
                        amount: members[3]->UnsignedInt_0,
                        recipient: Some(members[4]->Address_0),
                    },
                ),
            }
        } else {
            Err(DecodeError::UnsupportedType)
        }
    }

    /// The items that the first `n` payload values make, or the fault of the first
    /// value that makes none.
    pub open spec fn first_projected(values: Seq<Value>, n: nat) -> Result<
        Seq<OrderItemView>,
        DecodeError,
    >
        decreases n,
    {
        if n == 0 || n > values.len() {
            Ok(Seq::empty())
        } else {
            match Self::first_projected(values, (n - 1) as nat) {
                Err(error) => Err(error),
                Ok(items) => match Self::projected(values[n - 1]) {
                    Err(error) => Err(error),
                    Ok(item) => Ok(items.push(item)),
                },
            }
        }
    }

    /// The items that a payload value makes: those of the elements of a dynamic array.
    pub open spec fn list_projected(value: Value) -> Result<Seq<OrderItemView>, DecodeError> {
        match value {
            Value::DynamicArray(elements) => Self::first_projected(elements, elements.len()),
            _ => Err(DecodeError::UnsupportedType),
        }
    }

    /// Whether a value of an item's shape has an undeclared discriminant.
    pub open spec fn undeclared(value: Value) -> bool {
        value->Tuple_0[0]->UnsignedInt_0 != 0 && value->Tuple_0[0]->UnsignedInt_0 != 1
    }

    /// Values of an item's shape of which one has an undeclared discriminant make no
    /// items, wherever that one stands and whatever the others hold.
    pub proof fn lemma_undeclared_is_unknown(values: Seq<Value>, n: nat, i: int)
        requires
            0 <= i < n <= values.len(),
            first_have_shape(values, Self::shape(), n),
            Self::undeclared(values[i]),
        ensures
            Self::first_projected(values, n) == Err::<Seq<OrderItemView>, DecodeError>(
                DecodeError::UnknownDiscriminant,
            ),
        decreases n,
    {
        Self::lemma_first_projected_of_shape(values, n);
        Self::lemma_first_projected_of_shape(values, (n - 1) as nat);
        Self::lemma_projected_of_shape(values[n - 1]);
        if i < n - 1 {
            Self::lemma_undeclared_is_unknown(values, (n - 1) as nat, i);
        }
    }

    /// Values of an item's shape whose discriminants are all declared make as many
    /// items, each the item of the value at its place.
    pub proof fn lemma_declared_are_items(values: Seq<Value>, n: nat)
        requires
            n <= values.len(),
            first_have_shape(values, Self::shape(), n),
            forall|i: int| 0 <= i < n ==> !Self::undeclared(#[trigger] values[i]),
        ensures
            Self::first_projected(values, n) is Ok,
            Self::first_projected(values, n)->Ok_0.len() == n,
            forall|i: int|
                0 <= i < n ==> Self::projected(values[i]) == Ok::<OrderItemView, DecodeError>(
                    #[trigger] Self::first_projected(values, n)->Ok_0[i],
                ),
        decreases n,
    {
        if n > 0 {
            Self::lemma_declared_are_items(values, (n - 1) as nat);
            Self::lemma_projected_of_shape(values[n - 1]);
            let shapes = Self::shape()->Tuple_0;
            lemma_first_have_shapes(values[n - 1]->Tuple_0, shapes, 5);
        }
    }

    /// Once a value makes no item, the values after it do not change the fault.
    pub proof fn lemma_fault_stays(values: Seq<Value>, i: nat, n: nat)
        requires
            i <= n <= values.len(),
            Self::first_projected(values, i) is Err,
        ensures
            Self::first_projected(values, n) == Self::first_projected(values, i),
        decreases n,
    {
        if i < n {
            Self::lemma_fault_stays(values, i, (n - 1) as nat);
        }
    }

    /// A value of an item's shape makes an item, unless its discriminant is undeclared;
    /// the item's identifier and amount are unsigned.
    pub proof fn lemma_projected_of_shape(value: Value)
        requires
            has_shape(value, Self::shape()),
        ensures
            match Self::projected(value) {
                Ok(item) => is_word_number(item.identifier) && is_word_number(item.amount),
                Err(error) => error == DecodeError::UnknownDiscriminant,
            },
    {
        let shapes = Self::shape()->Tuple_0;
        lemma_first_have_shapes(value->Tuple_0, shapes, 5);
        assert(has_shape(value->Tuple_0[2], shapes[2]) && has_shape(value->Tuple_0[3], shapes[3]));
    }

    /// Values of an item's shape make as many items, in their order, unless a
    /// discriminant is undeclared; the items' identifiers and amounts are unsigned.
    pub proof fn lemma_first_projected_of_shape(values: Seq<Value>, n: nat)
        requires
            n <= values.len(),
            first_have_shape(values, Self::shape(), n),
        ensures
            match Self::first_projected(values, n) {
                Ok(items) => items.len() == n && items_unsigned(items),
                Err(error) => error == DecodeError::UnknownDiscriminant,
            },
        decreases n,
    {
        if n > 0 {
            Self::lemma_first_projected_of_shape(values, (n - 1) as nat);
            Self::lemma_projected_of_shape(values[n - 1]);
        }
    }

    /// An item's shape is supported.
    pub proof fn lemma_shape_supported()
        ensures
            supported(Self::shape()),
    {
        let shapes = Self::shape()->Tuple_0;
        lemma_first_supported(shapes, 5);
    }

    /// The type of an item in the payload.
    pub fn field_type() -> (field: FieldType)
        ensures
            field@ == Self::shape(),
    {
        let members = vec![
            FieldType::UnsignedInt(256),
            FieldType::FixedBytes(32),
            FieldType::UnsignedInt(256),
            FieldType::UnsignedInt(256),
            FieldType::Address,
        ];
        assert(shapes_of(members@) =~= Self::shape()->Tuple_0);
        FieldType::Tuple(members)
    }

    /// The item that a decoded payload value makes.
    pub fn from_value(value: &DecodedValue) -> (result: Result<OrderItem, DecodeError>)
        ensures
            view_result(result) == Self::projected(value@),
    {
        let members = value.tuple()?;
        if members.len() != 5 {
            return Err(DecodeError::UnsupportedType);
        }
        let discriminant = members[0].unsigned()?;
        let token = members[1].fixed_bytes()?;
        let identifier = members[2].unsigned()?;
        let amount = members[3].unsigned()?;
        let recipient = members[4].address()?;
        let item_type = ItemType::from_discriminant(&discriminant)?;
        Ok(OrderItem { item_type, token, identifier, amount, recipient: Some(recipient) })
    }

    /// The items that a decoded payload value makes.
    pub fn list_from_value(value: &DecodedValue) -> (result: Result<Vec<OrderItem>, DecodeError>)
        ensures
            match result {
                Ok(items) => Self::list_projected(value@) == Ok::<Seq<OrderItemView>, DecodeError>(
                    items_view(items@),
                ),
                Err(error) => Self::list_projected(value@) == Err::<
                    Seq<OrderItemView>,
                    DecodeError,
                >(error),
            },
    {
        let elements = value.dynamic_array()?;
        let ghost values = values_of(elements@);
        let mut items: Vec<OrderItem> = Vec::new();
        let mut i: usize = 0;
        assert(items_view(items@) == Seq::<OrderItemView>::empty());
        while i < elements.len()
            invariant
                i <= elements.len(),
                values == values_of(elements@),
                value@ == Value::DynamicArray(values),
                Self::first_projected(values, i as nat) == Ok::<Seq<OrderItemView>, DecodeError>(
                    items_view(items@),
                ),
            decreases elements.len() - i,
        {
            match Self::from_value(&elements[i]) {
                Err(error) => {
                    proof {
                        Self::lemma_fault_stays(values, (i + 1) as nat, values.len());
                    }
                    return Err(error);
                },
                Ok(item) => {
                    assert(items_view(items@.push(item)) == items_view(items@).push(item@));
                    items.push(item);
                },
            }
            i += 1;
        }
        Ok(items)
    }
}

impl OrderFulfilledEvent {
    /// The hash of the event.
    pub const TOPIC_ID: [u8; 32] = [
        0x9d, 0x9a, 0xf8, 0xe3, 0x8d, 0x66, 0xc6, 0x2e,
        0x2c, 0x12, 0xf0, 0x22, 0x52, 0x49, 0xfd, 0x9d,
        0x72, 0x1c, 0x54, 0xb8, 0x3f, 0x48, 0xd9, 0x35,
        0x2c, 0x97, 0xc6, 0xca, 0xcd, 0xcb, 0x6f, 0x31,
    ];

    /// The number of topics of a record of the event.
    pub const TOPIC_COUNT: usize = 1;

    /// Whether a record with these topics is of this event: it has 1 topic, and the
    /// first is the event's hash.
    pub open spec fn recognizes(topics: Seq<[u8; 32]>) -> bool {
        recognized(topics, Self::TOPIC_ID@, Self::TOPIC_COUNT as nat)
    }

    /// The shapes of the payload's fields: the items offered and the consideration.
    pub open spec fn schema_shapes() -> Seq<Shape> {
        seq![
            Shape::DynamicArray(Box::new(OrderItem::shape())),
            Shape::DynamicArray(Box::new(OrderItem::shape())),
        ]
    }

    /// The event that topics and payload values make: hash, maker, taker and relayer
    /// are the topics at 1 to 4, each absent where there is no such topic; the items of
    /// the first value are those offered, the items of the second the consideration.
    pub open spec fn projected(topics: Seq<[u8; 32]>, values: Seq<Value>) -> Result<
        OrderFulfilledEventView,
        DecodeError,
    > {
        if values.len() != 2 {
            Err(DecodeError::UnsupportedType)
        } else {
            match OrderItem::list_projected(values[0]) {
                Err(error) => Err(error),
                Ok(items_offered) => match OrderItem::list_projected(values[1]) {
                    Err(error) => Err(error),
                    Ok(consideration) => Ok(
                        OrderFulfilledEventView {
                            hash: topic_bytes(topics, 1),
                            maker: topic_bytes(topics, 2),
                            taker: topic_bytes(topics, 3),
                            relayer: topic_bytes(topics, 4),
                            items_offered,
                            consideration,
                        },
                    ),
                },
            }
        }
    }

    /// What decoding a record with these topics and this payload gives: a mismatch
    /// where the record is not of this event; else the fault of the payload; else the
    /// fault of the first item with an undeclared discriminant; else the event with the
    /// items offered and the consideration in the order of the payload. A record of the
    /// event has 1 topic, so the event's hash, maker, taker and relayer are absent.
    pub open spec fn decoded(topics: Seq<[u8; 32]>, data: Seq<u8>) -> Result<
        OrderFulfilledEventView,
        DecodeError,
    > {
        if !Self::recognizes(topics) {
            Err(DecodeError::SignatureMismatch)
        } else {
            match decoded(Self::schema_shapes(), data) {
                Err(error) => Err(error),
                Ok(values) => Self::projected(topics, values),
            }
        }
    }

    /// The schema is supported.
    pub proof fn lemma_schema_supported()
        ensures
            all_supported(Self::schema_shapes()),
    {
        let schema = Self::schema_shapes();
        OrderItem::lemma_shape_supported();
        lemma_heads_size_covers(OrderItem::shape()->Tuple_0, 0, 5);
        assert(head_size(OrderItem::shape()) > 0);
        assert(supported(schema[0]) && supported(schema[1]));
        lemma_first_supported(schema, 2);
    }

    /// Decoding fails for four reasons only: the record is of another event, its
    /// payload is truncated, an offset in it is invalid, or an item has an undeclared
    /// discriminant. An event that comes out has no hash, maker, taker or relayer.
    pub proof fn lemma_decode_outcome(topics: Seq<[u8; 32]>, data: Seq<u8>)
        ensures
            match Self::decoded(topics, data) {
                Ok(event) => event.hash is None && event.maker is None && event.taker is None
                    && event.relayer is None && items_unsigned(event.items_offered)
                    && items_unsigned(event.consideration),
                Err(error) => error == DecodeError::SignatureMismatch || error
                    == DecodeError::TruncatedPayload || error == DecodeError::InvalidOffset
                    || error == DecodeError::UnknownDiscriminant,
            },
    {
        let schema = Self::schema_shapes();
        Self::lemma_schema_supported();
        lemma_decoded_has_shapes(schema, data);
        if decoded(schema, data) is Ok {
            let values = decoded(schema, data)->Ok_0;
            lemma_first_have_shapes(values, schema, 2);
            assert(has_shape(values[0], schema[0]) && has_shape(values[1], schema[1]));
            OrderItem::lemma_first_projected_of_shape(
                values[0]->DynamicArray_0,
                values[0]->DynamicArray_0.len(),
            );
            OrderItem::lemma_first_projected_of_shape(
                values[1]->DynamicArray_0,
                values[1]->DynamicArray_0.len(),
            );
        }
    }

    /// A record of the event whose payload decodes and holds an item with an undeclared
    /// discriminant, offered or in the consideration and at whatever place, is refused
    /// for that discriminant.
    pub proof fn lemma_undeclared_item(topics: Seq<[u8; 32]>, data: Seq<u8>, list: int, i: int)
        requires
            Self::recognizes(topics),
            decoded(Self::schema_shapes(), data) is Ok,
            list == 0 || list == 1,
            0 <= i < decoded(Self::schema_shapes(), data)->Ok_0[list]->DynamicArray_0.len(),
            OrderItem::undeclared(
                decoded(Self::schema_shapes(), data)->Ok_0[list]->DynamicArray_0[i],
            ),
        ensures
            Self::decoded(topics, data) == Err::<OrderFulfilledEventView, DecodeError>(
                DecodeError::UnknownDiscriminant,
            ),
    {
        let schema = Self::schema_shapes();
        let values = decoded(schema, data)->Ok_0;
        lemma_decoded_has_shapes(schema, data);
        lemma_first_have_shapes(values, schema, 2);
        assert(has_shape(values[0], schema[0]) && has_shape(values[1], schema[1]));
        let offered = values[0]->DynamicArray_0;
        let consideration = values[1]->DynamicArray_0;
        OrderItem::lemma_first_projected_of_shape(offered, offered.len());
        if list == 0 {
            OrderItem::lemma_undeclared_is_unknown(offered, offered.len(), i);
        } else {
            OrderItem::lemma_undeclared_is_unknown(consideration, consideration.len(), i);
        }
    }

    /// A record of the event whose payload decodes and whose items all have declared
    /// discriminants decodes to an event: as many items offered and as much
    /// consideration as the payload holds, each item that of the value at its place.
    pub proof fn lemma_declared_items(topics: Seq<[u8; 32]>, data: Seq<u8>)
        requires
            Self::recognizes(topics),
            decoded(Self::schema_shapes(), data) is Ok,
            forall|list: int, i: int|
                0 <= list < 2 && 0 <= i < decoded(
                    Self::schema_shapes(),
                    data,
                )->Ok_0[list]->DynamicArray_0.len() ==> !OrderItem::undeclared(
                    #[trigger] decoded(Self::schema_shapes(), data)->Ok_0[list]->DynamicArray_0[i],
                ),
        ensures
            Self::decoded(topics, data) is Ok,
            Self::decoded(topics, data)->Ok_0.items_offered.len() == decoded(
                Self::schema_shapes(),
                data,
            )->Ok_0[0]->DynamicArray_0.len(),
            Self::decoded(topics, data)->Ok_0.consideration.len() == decoded(
                Self::schema_shapes(),
                data,
            )->Ok_0[1]->DynamicArray_0.len(),
            forall|i: int|
                0 <= i < Self::decoded(topics, data)->Ok_0.items_offered.len()
                    ==> OrderItem::projected(
                    decoded(Self::schema_shapes(), data)->Ok_0[0]->DynamicArray_0[i],
                ) == Ok::<OrderItemView, DecodeError>(
                    #[trigger] Self::decoded(topics, data)->Ok_0.items_offered[i],
                ),
            forall|i: int|
                0 <= i < Self::decoded(topics, data)->Ok_0.consideration.len()
                    ==> OrderItem::projected(
                    decoded(Self::schema_shapes(), data)->Ok_0[1]->DynamicArray_0[i],
                ) == Ok::<OrderItemView, DecodeError>(
                    #[trigger] Self::decoded(topics, data)->Ok_0.consideration[i],
                ),
    {
        let schema = Self::schema_shapes();
        let values = decoded(schema, data)->Ok_0;
        lemma_decoded_has_shapes(schema, data);
        lemma_first_have_shapes(values, schema, 2);
        assert(has_shape(values[0], schema[0]) && has_shape(values[1], schema[1]));
        let offered = values[0]->DynamicArray_0;
        let consideration = values[1]->DynamicArray_0;
        assert forall|i: int| 0 <= i < offered.len() implies !OrderItem::undeclared(
            #[trigger] offered[i],
        ) by {
            assert(!OrderItem::undeclared(values[0]->DynamicArray_0[i]));
        }
        assert forall|i: int| 0 <= i < consideration.len() implies !OrderItem::undeclared(
            #[trigger] consideration[i],
        ) by {
            assert(!OrderItem::undeclared(values[1]->DynamicArray_0[i]));
        }
        OrderItem::lemma_declared_are_items(offered, offered.len());
        OrderItem::lemma_declared_are_items(consideration, consideration.len());
    }

    /// Whether `log` is a record of this event.
    pub fn match_log(log: &LogRecord) -> (matched: bool)
        ensures
            matched == Self::recognizes(log.topics@),
    {
        let signature = EventSignature { hash: Self::TOPIC_ID, topic_count: Self::TOPIC_COUNT };
        signature.recognizes(log)
    }

    /// The types of the payload's fields.
    pub fn schema() -> (schema: Vec<FieldType>)
        ensures
            shapes_of(schema@) == Self::schema_shapes(),
    {
        let schema = vec![
            FieldType::DynamicArray(Box::new(OrderItem::field_type())),
            FieldType::DynamicArray(Box::new(OrderItem::field_type())),
        ];
        schema
    }

    /// The event that the topics of `log` and decoded payload values make, whatever
    /// event `log` is a record of.
    pub fn from_parts(log: &LogRecord, values: &Vec<DecodedValue>) -> (result: Result<
        OrderFulfilledEvent,
        DecodeError,
    >)
        ensures
            view_result(result) == Self::projected(log.topics@, values_of(values@)),
    {
        if values.len() != 2 {
            return Err(DecodeError::UnsupportedType);
        }
        let items_offered = OrderItem::list_from_value(&values[0])?;
        let consideration = OrderItem::list_from_value(&values[1])?;
        Ok(
            OrderFulfilledEvent {
                hash: log.topic_bytes(1),
                maker: log.topic_bytes(2),
                taker: log.topic_bytes(3),
                relayer: log.topic_bytes(4),
                items_offered,
                consideration,
            },
        )
    }

    /// Decodes `log` as a record of this event.
    pub fn decode(log: &LogRecord) -> (result: Result<OrderFulfilledEvent, DecodeError>)
        ensures
            view_result(result) == Self::decoded(log.topics@, log.data@),
            match result {
                Ok(event) => event.hash is None && event.maker is None && event.taker is None
                    && event.relayer is None && items_unsigned(event@.items_offered)
                    && items_unsigned(event@.consideration),
                Err(error) => error == DecodeError::SignatureMismatch || error
                    == DecodeError::TruncatedPayload || error == DecodeError::InvalidOffset
                    || error == DecodeError::UnknownDiscriminant,
            },
    {
        proof {
            Self::lemma_decode_outcome(log.topics@, log.data@);
        }
        if !Self::match_log(log) {
            return Err(DecodeError::SignatureMismatch);
        }
        let schema = Self::schema();
        let values = decode(&schema, log.data.as_slice())?;
        Self::from_parts(log, &values)
    }
}

} // verus!
