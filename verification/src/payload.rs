//! Decoding of a payload against a schema of field types.
//!
//! A payload is laid out in frames. A frame starts with a head, in which every field
//! has a slot: a static field stands in its slot, word by word, and a dynamic field
//! leaves there the offset, counted from the start of the frame, at which a frame of
//! its own begins. The payload as a whole is the frame of the schema's fields.

use crate::error::DecodeError;
use crate::schema::{
    all_supported, first_supported, head_size, heads_size, heads_size_within, is_dynamic,
    lemma_first_supported, lemma_heads_size_monotonic, shapes_of,
    supported, FieldType, Shape,
};
use crate::value::{
    first_have_shape, first_have_shapes, has_shape, lemma_first_have_shape,
    lemma_first_have_shapes, values_of, DecodedValue, Value,
};
use crate::word::{
    be_value, lemma_be_value_bound, lemma_top_bit, lemma_unsigned_value_is_remainder,
    signed_value, to_address, to_fixed_bytes, to_signed_int, to_unsigned_int, to_usize,
    unsigned_value,
};
use vstd::prelude::*;

verus! {

/// The value in a word of a field that is neither tuple nor array.
pub open spec fn scalar_value(shape: Shape, word: Seq<u8>) -> Value {
    match shape {
        Shape::UnsignedInt(bits) => Value::UnsignedInt(unsigned_value(word, bits) as int),
        Shape::SignedInt(_) => Value::SignedInt(signed_value(word)),
        Shape::FixedBytes(len) => Value::FixedBytes(word.subrange(0, len as int)),
        _ => Value::Address(word.subrange(12, 32)),
    }
}

/// The word that starts at `at`.
pub open spec fn word_at(frame: Seq<u8>, at: nat) -> Seq<u8> {
    frame.subrange(at as int, at + 32 as int)
}

/// The result `decoded` with one more value, or the first error met.
pub open spec fn and_then_push(
    decoded: Result<Seq<Value>, DecodeError>,
    next: Result<Value, DecodeError>,
) -> Result<Seq<Value>, DecodeError> {
    match decoded {
        Err(error) => Err(error),
        Ok(values) => match next {
            Err(error) => Err(error),
            Ok(value) => Ok(values.push(value)),
        },
    }
}

/// The frame of `count` fields whose head takes `size` bytes: too short a frame is an
/// error, and the fields are decoded from its start.
pub open spec fn frame_checked(
    frame: Seq<u8>,
    size: nat,
    decoded: Result<Seq<Value>, DecodeError>,
) -> Result<Seq<Value>, DecodeError> {
    if frame.len() < size {
        Err(DecodeError::TruncatedPayload)
    } else {
        decoded
    }
}

/// The first `n` of the fields `members`, whose slots start at `at` in `frame`. `head`
/// is the size of the head of `frame`.
pub open spec fn decoded_members(
    members: Seq<Shape>,
    frame: Seq<u8>,
    at: nat,
    head: nat,
    n: nat,
) -> Result<Seq<Value>, DecodeError>
    decreases members, 0nat, n,
{
    if n == 0 || n > members.len() {
        Ok(Seq::empty())
    } else {
        and_then_push(
            decoded_members(members, frame, at, head, (n - 1) as nat),
            decoded_field(members[n - 1], frame, at + heads_size(members, (n - 1) as nat), head),
        )
    }
}

/// `n` fields of shape `element`, whose slots start at `at` in `frame`. `head` is the
/// size of the head of `frame`.
pub open spec fn decoded_elements(
    element: Shape,
    frame: Seq<u8>,
    at: nat,
    head: nat,
    n: nat,
) -> Result<Seq<Value>, DecodeError>
    decreases element, 2nat, n,
{
    if n == 0 {
        Ok(Seq::empty())
    } else {
        and_then_push(
            decoded_elements(element, frame, at, head, (n - 1) as nat),
            decoded_field(
                element,
                frame,
                (at + (n - 1) * head_size(element)) as nat,
                head,
            ),
        )
    }
}

/// The field of shape `shape` whose slot starts at `at` in `frame`. `head` is the size
/// of the head of `frame`: an offset below it, or beyond the end of `frame`, is refused.
pub open spec fn decoded_field(shape: Shape, frame: Seq<u8>, at: nat, head: nat) -> Result<
    Value,
    DecodeError,
>
    decreases shape, 1nat, 0nat,
{
    if is_dynamic(shape) {
        let offset = be_value(word_at(frame, at));
        if offset < head || offset > frame.len() {
            Err(DecodeError::InvalidOffset)
        } else {
            let inner = frame.skip(offset as int);
            match shape {
                Shape::Tuple(members) => {
                    let size = heads_size(members, members.len());
                    match frame_checked(
                        inner,
                        size,
                        decoded_members(members, inner, 0, size, members.len()),
                    ) {
                        Ok(values) => Ok(Value::Tuple(values)),
                        Err(error) => Err(error),
                    }
                },
                Shape::FixedArray(element, count) => {
                    let size = count * head_size(*element);
                    match frame_checked(
                        inner,
                        size,
                        decoded_elements(*element, inner, 0, size, count),
                    ) {
                        Ok(values) => Ok(Value::FixedArray(values)),
                        Err(error) => Err(error),
                    }
                },
                Shape::DynamicArray(element) => {
                    if inner.len() < 32 {
                        Err(DecodeError::TruncatedPayload)
                    } else {
                        let count = be_value(word_at(inner, 0));
                        let size = count * head_size(*element);
                        let tail = inner.skip(32);
                        match frame_checked(
                            tail,
                            size,
                            decoded_elements(*element, tail, 0, size, count),
                        ) {
                            Ok(values) => Ok(Value::DynamicArray(values)),
                            Err(error) => Err(error),
                        }
                    }
                },
                _ => Err(DecodeError::UnsupportedType),
            }
        }
    } else {
        match shape {
            Shape::Tuple(members) => match decoded_members(
                members,
                frame,
                at,
                head,
                members.len(),
            ) {
                Ok(values) => Ok(Value::Tuple(values)),
                Err(error) => Err(error),
            },
            Shape::FixedArray(element, count) => match decoded_elements(
                *element,
                frame,
                at,
                head,
                count,
            ) {
                Ok(values) => Ok(Value::FixedArray(values)),
                Err(error) => Err(error),
            },
            _ => Ok(scalar_value(shape, word_at(frame, at))),
        }
    }
}

/// What decoding `payload` against `schema` gives.
///
/// A payload with fewer than 32 bytes for each field of the schema is truncated. A
/// schema with a shape that is not supported is refused. Otherwise the payload is the
/// frame of the schema's fields.
pub open spec fn decoded(schema: Seq<Shape>, payload: Seq<u8>) -> Result<
    Seq<Value>,
    DecodeError,
> {
    if payload.len() < 32 * schema.len() {
        Err(DecodeError::TruncatedPayload)
    } else if !all_supported(schema) {
        Err(DecodeError::UnsupportedType)
    } else {
        let size = heads_size(schema, schema.len());
        frame_checked(payload, size, decoded_members(schema, payload, 0, size, schema.len()))
    }
}

/// A decoded field or an error, as a mathematical value.
pub open spec fn result_value(result: Result<DecodedValue, DecodeError>) -> Result<
    Value,
    DecodeError,
> {
    match result {
        Ok(value) => Ok(value@),
        Err(error) => Err(error),
    }
}

/// Decoded fields or an error, as a mathematical value.
pub open spec fn result_values(result: Result<Vec<DecodedValue>, DecodeError>) -> Result<
    Seq<Value>,
    DecodeError,
> {
    match result {
        Ok(values) => Ok(values_of(values@)),
        Err(error) => Err(error),
    }
}

/// Decoding one payload against one schema twice gives the same values, or the same
/// error, both times: whatever two runs of `decode` return stands for one result.
pub proof fn lemma_decode_is_repeatable(
    schema: Seq<FieldType>,
    payload: Seq<u8>,
    first: Result<Vec<DecodedValue>, DecodeError>,
    second: Result<Vec<DecodedValue>, DecodeError>,
)
    requires
        result_values(first) == decoded(shapes_of(schema), payload),
        result_values(second) == decoded(shapes_of(schema), payload),
    ensures
        result_values(first) == result_values(second),
{
}

/// A field that decodes has the shape it was decoded against, and one that does not
/// is truncated or has an invalid offset.
pub proof fn lemma_decoded_field_has_shape(shape: Shape, frame: Seq<u8>, at: nat, head: nat)
    requires
        supported(shape),
        at + head_size(shape) <= frame.len(),
    ensures
        decoded_field(shape, frame, at, head) matches Ok(value) ==> has_shape(value, shape),
        decoded_field(shape, frame, at, head) matches Err(error) ==> error
            == DecodeError::TruncatedPayload || error == DecodeError::InvalidOffset,
    decreases shape, 1nat, 0nat,
{
    if is_dynamic(shape) {
        let offset = be_value(word_at(frame, at));
        if !(offset < head || offset > frame.len()) {
            let inner = frame.skip(offset as int);
            match shape {
                Shape::Tuple(members) => {
                    let size = heads_size(members, members.len());
                    if inner.len() >= size {
                        lemma_decoded_members_have_shapes(members, inner, 0, size, members.len());
                    }
                },
                Shape::FixedArray(element, count) => {
                    let size = count * head_size(*element);
                    if inner.len() >= size {
                        lemma_decoded_elements_have_shape(*element, inner, 0, size, count);
                    }
                },
                Shape::DynamicArray(element) => {
                    if inner.len() >= 32 {
                        let count = be_value(word_at(inner, 0));
                        let size = count * head_size(*element);
                        let tail = inner.skip(32);
                        if tail.len() >= size {
                            lemma_decoded_elements_have_shape(*element, tail, 0, size, count);
                        }
                    }
                },
                _ => {},
            }
        }
    } else {
        let word = word_at(frame, at);
        match shape {
            Shape::Tuple(members) => {
                lemma_decoded_members_have_shapes(members, frame, at, head, members.len());
            },
            Shape::FixedArray(element, count) => {
                lemma_decoded_elements_have_shape(*element, frame, at, head, count);
            },
            Shape::UnsignedInt(bits) => {
                lemma_unsigned_value_is_remainder(word, bits);
            },
            Shape::SignedInt(_) => {
                lemma_be_value_bound(word);
                lemma_top_bit(word);
            },
            _ => {},
        }
    }
}

/// Members that decode are as many as were asked for, and have the shapes they were
/// decoded against; where one does not decode, it is truncated or has an invalid
/// offset.
pub proof fn lemma_decoded_members_have_shapes(
    members: Seq<Shape>,
    frame: Seq<u8>,
    at: nat,
    head: nat,
    n: nat,
)
    requires
        n <= members.len(),
        first_supported(members, n),
        at + heads_size(members, n) <= frame.len(),
    ensures
        decoded_members(members, frame, at, head, n) matches Ok(values) ==> values.len() == n
            && first_have_shapes(values, members, n),
        decoded_members(members, frame, at, head, n) matches Err(error) ==> error
            == DecodeError::TruncatedPayload || error == DecodeError::InvalidOffset,
    decreases members, 0nat, n,
{
    if n > 0 {
        let before = (n - 1) as nat;
        lemma_decoded_members_have_shapes(members, frame, at, head, before);
        lemma_decoded_field_has_shape(
            members[n - 1],
            frame,
            at + heads_size(members, before),
            head,
        );
        if decoded_members(members, frame, at, head, n) is Ok {
            let values = decoded_members(members, frame, at, head, n)->Ok_0;
            let init = decoded_members(members, frame, at, head, before)->Ok_0;
            lemma_first_have_shapes(init, members, before);
            lemma_first_have_shapes(values, members, n);
        }
    }
}

/// Elements that decode are as many as were asked for, and have the shape they were
/// decoded against; where one does not decode, it is truncated or has an invalid
/// offset.
pub proof fn lemma_decoded_elements_have_shape(
    element: Shape,
    frame: Seq<u8>,
    at: nat,
    head: nat,
    n: nat,
)
    requires
        supported(element),
        at + n * head_size(element) <= frame.len(),
    ensures
        decoded_elements(element, frame, at, head, n) matches Ok(values) ==> values.len() == n
            && first_have_shape(values, element, n),
        decoded_elements(element, frame, at, head, n) matches Err(error) ==> error
            == DecodeError::TruncatedPayload || error == DecodeError::InvalidOffset,
    decreases element, 2nat, n,
{
    if n > 0 {
        let before = (n - 1) as nat;
        assert(n * head_size(element) == before * head_size(element) + head_size(element))
            by (nonlinear_arith)
            requires
                before == n - 1,
        ;
        lemma_decoded_elements_have_shape(element, frame, at, head, before);
        lemma_decoded_field_has_shape(
            element,
            frame,
            (at + before * head_size(element)) as nat,
            head,
        );
        if decoded_elements(element, frame, at, head, n) is Ok {
            let values = decoded_elements(element, frame, at, head, n)->Ok_0;
            let init = decoded_elements(element, frame, at, head, before)->Ok_0;
            lemma_first_have_shape(init, element, before);
            lemma_first_have_shape(values, element, n);
        }
    }
}

/// The values that a payload decodes to are as many as the schema's fields, and have
/// their shapes. A payload that does not decode is truncated, has an invalid offset,
/// or is held against a schema that is not supported.
pub proof fn lemma_decoded_has_shapes(schema: Seq<Shape>, payload: Seq<u8>)
    ensures
        decoded(schema, payload) matches Ok(values) ==> values.len() == schema.len()
            && first_have_shapes(values, schema, schema.len()),
        decoded(schema, payload) matches Err(error) ==> error == DecodeError::TruncatedPayload
            || error == DecodeError::InvalidOffset || (error == DecodeError::UnsupportedType
            && !all_supported(schema)),
{
    if payload.len() >= 32 * schema.len() && all_supported(schema) {
        let size = heads_size(schema, schema.len());
        if payload.len() >= size {
            lemma_decoded_members_have_shapes(schema, payload, 0, size, schema.len());
        }
    }
}

/// Where each of the first `n` members decodes, they decode together, each value
/// being that of the member at its place, whose slot follows those of the members
/// before it.
pub proof fn lemma_decoded_members_by_field(
    members: Seq<Shape>,
    frame: Seq<u8>,
    at: nat,
    head: nat,
    n: nat,
)
    requires
        n <= members.len(),
        forall|i: int|
            0 <= i < n ==> (#[trigger] decoded_field(
                members[i],
                frame,
                at + heads_size(members, i as nat),
                head,
            )) is Ok,
    ensures
        decoded_members(members, frame, at, head, n) is Ok,
        decoded_members(members, frame, at, head, n)->Ok_0.len() == n,
        forall|i: int|
            0 <= i < n ==> (#[trigger] decoded_members(members, frame, at, head, n)->Ok_0[i])
                == decoded_field(
                members[i],
                frame,
                at + heads_size(members, i as nat),
                head,
            )->Ok_0,
    decreases n,
{
    if n > 0 {
        let before = (n - 1) as nat;
        lemma_decoded_members_by_field(members, frame, at, head, before);
        assert(decoded_field(members[n - 1], frame, at + heads_size(members, before), head) is Ok);
    }
}

/// Where the first `n` members decode together, each of them decodes, and each value
/// is that of the member at its place.
pub proof fn lemma_decoded_members_each(
    members: Seq<Shape>,
    frame: Seq<u8>,
    at: nat,
    head: nat,
    n: nat,
)
    requires
        n <= members.len(),
        decoded_members(members, frame, at, head, n) is Ok,
    ensures
        decoded_members(members, frame, at, head, n)->Ok_0.len() == n,
        forall|i: int|
            0 <= i < n ==> (#[trigger] decoded_field(
                members[i],
                frame,
                at + heads_size(members, i as nat),
                head,
            )) == Ok::<Value, DecodeError>(
                decoded_members(members, frame, at, head, n)->Ok_0[i],
            ),
    decreases n,
{
    if n > 0 {
        lemma_decoded_members_each(members, frame, at, head, (n - 1) as nat);
    }
}

/// Where each of `n` elements decodes, they decode together, each value being that of
/// the element at its place, whose slot follows those of the elements before it.
pub proof fn lemma_decoded_elements_by_field(
    element: Shape,
    frame: Seq<u8>,
    at: nat,
    head: nat,
    n: nat,
)
    requires
        forall|i: int|
            0 <= i < n ==> (#[trigger] decoded_field(
                element,
                frame,
                (at + i * head_size(element)) as nat,
                head,
            )) is Ok,
    ensures
        decoded_elements(element, frame, at, head, n) is Ok,
        decoded_elements(element, frame, at, head, n)->Ok_0.len() == n,
        forall|i: int|
            0 <= i < n ==> (#[trigger] decoded_elements(element, frame, at, head, n)->Ok_0[i])
                == decoded_field(
                element,
                frame,
                (at + i * head_size(element)) as nat,
                head,
            )->Ok_0,
    decreases n,
{
    if n > 0 {
        let before = (n - 1) as nat;
        lemma_decoded_elements_by_field(element, frame, at, head, before);
        assert(decoded_field(
            element,
            frame,
            (at + (n - 1) * head_size(element)) as nat,
            head,
        ) is Ok);
    }
}

/// Where `n` elements decode together, each of them decodes, and each value is that
/// of the element at its place.
pub proof fn lemma_decoded_elements_each(
    element: Shape,
    frame: Seq<u8>,
    at: nat,
    head: nat,
    n: nat,
)
    requires
        decoded_elements(element, frame, at, head, n) is Ok,
    ensures
        decoded_elements(element, frame, at, head, n)->Ok_0.len() == n,
        forall|i: int|
            0 <= i < n ==> (#[trigger] decoded_field(
                element,
                frame,
                (at + i * head_size(element)) as nat,
                head,
            )) == Ok::<Value, DecodeError>(
                decoded_elements(element, frame, at, head, n)->Ok_0[i],
            ),
    decreases n,
{
    if n > 0 {
        lemma_decoded_elements_each(element, frame, at, head, (n - 1) as nat);
    }
}

/// Once a member fails to decode, the members after it do not change the error.
pub proof fn lemma_members_error_stays(
    members: Seq<Shape>,
    frame: Seq<u8>,
    at: nat,
    head: nat,
    i: nat,
    n: nat,
)
    requires
        i <= n <= members.len(),
        decoded_members(members, frame, at, head, i) is Err,
    ensures
        decoded_members(members, frame, at, head, n) == decoded_members(
            members,
            frame,
            at,
            head,
            i,
        ),
    decreases n,
{
    if i < n {
        lemma_members_error_stays(members, frame, at, head, i, (n - 1) as nat);
    }
}

/// Once an element fails to decode, the elements after it do not change the error.
pub proof fn lemma_elements_error_stays(
    element: Shape,
    frame: Seq<u8>,
    at: nat,
    head: nat,
    i: nat,
    n: nat,
)
    requires
        i <= n,
        decoded_elements(element, frame, at, head, i) is Err,
    ensures
        decoded_elements(element, frame, at, head, n) == decoded_elements(
            element,
            frame,
            at,
            head,
            i,
        ),
    decreases n,
{
    if i < n {
        lemma_elements_error_stays(element, frame, at, head, i, (n - 1) as nat);
    }
}

/// The word of `data` that starts at `at`.
fn read_word(data: &[u8], at: usize) -> (word: [u8; 32])
    requires
        at + 32 <= data@.len(),
    ensures
        word@ == data@.subrange(at as int, at + 32),
{
    let len = data.len();
    let mut word = [0u8; 32];
    let mut i: usize = 0;
    while i < 32
        invariant
            i <= 32,
            at + 32 <= data@.len() == len,
            forall|k: int| 0 <= k < i ==> word@[k] == data@[at + k],
        decreases 32 - i,
    {
        word[i] = data[at + i];
        i += 1;
    }
    word
}

/// The fields `members` whose slots start at `at` in the frame that starts at `base`.
fn decode_members(
    members: &Vec<FieldType>,
    data: &[u8],
    base: usize,
    at: usize,
    head: usize,
) -> (result: Result<Vec<DecodedValue>, DecodeError>)
    requires
        all_supported(shapes_of(members@)),
        base + at + heads_size(shapes_of(members@), members@.len()) <= data@.len(),
    ensures
        result_values(result) == decoded_members(
            shapes_of(members@),
            data@.skip(base as int),
            at as nat,
            head as nat,
            members@.len(),
        ),
    decreases members, 0nat, 0nat,
{
    let ghost shapes = shapes_of(members@);
    let ghost frame = data@.skip(base as int);
    let len = data.len();
    let mut values: Vec<DecodedValue> = Vec::new();
    let mut slot: usize = at;
    let mut i: usize = 0;
    assert(values_of(values@) == Seq::<Value>::empty());
    while i < members.len()
        invariant
            i <= members.len(),
            shapes == shapes_of(members@),
            frame == data@.skip(base as int),
            all_supported(shapes),
            base + at + heads_size(shapes, members@.len()) <= data@.len() == len,
            slot == at + heads_size(shapes, i as nat),
            decoded_members(shapes, frame, at as nat, head as nat, i as nat) == Ok::<
                Seq<Value>,
                DecodeError,
            >(values_of(values@)),
        decreases members.len() - i,
    {
        proof {
            lemma_first_supported(shapes, members@.len());
            lemma_heads_size_monotonic(shapes, (i + 1) as nat, members@.len());
        }
        let size = members[i].head_size();
        match decode_field(&members[i], data, base, slot, head) {
            Err(error) => {
                proof {
                    lemma_members_error_stays(
                        shapes,
                        frame,
                        at as nat,
                        head as nat,
                        (i + 1) as nat,
                        members@.len(),
                    );
                }
                return Err(error);
            },
            Ok(value) => {
                assert(values_of(values@.push(value)) == values_of(values@).push(value@));
                values.push(value);
            },
        }
        slot = slot + size;
        i += 1;
    }
    Ok(values)
}

/// `count` fields of type `element`, of `each` bytes in the head, whose slots start at
/// `at` in the frame that starts at `base`.
fn decode_elements(
    element: &FieldType,
    data: &[u8],
    base: usize,
    at: usize,
    head: usize,
    count: usize,
    each: usize,
) -> (result: Result<Vec<DecodedValue>, DecodeError>)
    requires
        supported(element@),
        each == head_size(element@),
        base + at + count * each <= data@.len(),
    ensures
        result_values(result) == decoded_elements(
            element@,
            data@.skip(base as int),
            at as nat,
            head as nat,
            count as nat,
        ),
    decreases element, 2nat, 0nat,
{
    let ghost frame = data@.skip(base as int);
    let len = data.len();
    let mut values: Vec<DecodedValue> = Vec::new();
    let mut slot: usize = at;
    let mut i: usize = 0;
    assert(values_of(values@) == Seq::<Value>::empty());
    while i < count
        invariant
            i <= count,
            frame == data@.skip(base as int),
            supported(element@),
            each == head_size(element@),
            base + at + count * each <= data@.len() == len,
            slot == at + i * each,
            decoded_elements(element@, frame, at as nat, head as nat, i as nat) == Ok::<
                Seq<Value>,
                DecodeError,
            >(values_of(values@)),
        decreases count - i,
    {
        proof {
            assert((i + 1) * each <= count * each) by (nonlinear_arith)
                requires
                    i + 1 <= count,
            ;
            assert((i + 1) * each == i * each + each) by (nonlinear_arith);
        }
        match decode_field(element, data, base, slot, head) {
            Err(error) => {
                proof {
                    lemma_elements_error_stays(
                        element@,
                        frame,
                        at as nat,
                        head as nat,
                        (i + 1) as nat,
                        count as nat,
                    );
                }
                return Err(error);
            },
            Ok(value) => {
                assert(values_of(values@.push(value)) == values_of(values@).push(value@));
                values.push(value);
            },
        }
        slot = slot + each;
        i += 1;
    }
    Ok(values)
}

/// The field of type `field` whose slot starts at `at` in the frame that starts at
/// `base`. `head` is the size of the head of that frame.
fn decode_field(field: &FieldType, data: &[u8], base: usize, at: usize, head: usize) -> (result:
    Result<DecodedValue, DecodeError>)
    requires
        supported(field@),
        base + at + head_size(field@) <= data@.len(),
    ensures
        result_value(result) == decoded_field(
            field@,
            data@.skip(base as int),
            at as nat,
            head as nat,
        ),
    decreases field, 1nat, 0nat,
{
    let ghost frame = data@.skip(base as int);
    let len = data.len();
    if field.is_dynamic() {
        let word = read_word(data, base + at);
        assert(word@ == word_at(frame, at as nat));
        let offset = match to_usize(&word) {
            Some(offset) => offset,
            None => {
                return Err(DecodeError::InvalidOffset);
            },
        };
        if offset < head || offset > len - base {
            return Err(DecodeError::InvalidOffset);
        }
        let inner_base = base + offset;
        let inner_len = len - inner_base;
        let ghost inner = frame.skip(offset as int);
        assert(inner == data@.skip(inner_base as int));
        match field {
            FieldType::Tuple(members) => {
                proof {
                    lemma_first_supported(shapes_of(members@), members@.len());
                }
                match heads_size_within(members, inner_len) {
                    None => Err(DecodeError::TruncatedPayload),
                    Some(size) => match decode_members(members, data, inner_base, 0, size) {
                        Ok(values) => Ok(DecodedValue::Tuple(values)),
                        Err(error) => Err(error),
                    },
                }
            },
            FieldType::FixedArray(element, count) => {
                if *count > inner_len / 32 {
                    Err(DecodeError::TruncatedPayload)
                } else {
                    match decode_elements(element, data, inner_base, 0, *count * 32, *count, 32) {
                        Ok(values) => Ok(DecodedValue::FixedArray(values)),
                        Err(error) => Err(error),
                    }
                }
            },
            FieldType::DynamicArray(element) => {
                if inner_len < 32 {
                    return Err(DecodeError::TruncatedPayload);
                }
                let count_word = read_word(data, inner_base);
                assert(count_word@ == word_at(inner, 0));
                let tail_base = inner_base + 32;
                let tail_len = inner_len - 32;
                let ghost tail = inner.skip(32);
                assert(tail == data@.skip(tail_base as int));
                let count = match to_usize(&count_word) {
                    Some(count) => count,
                    None => {
                        assert(be_value(count_word@) * head_size(element@) > tail_len)
                            by (nonlinear_arith)
                            requires
                                be_value(count_word@) > tail_len,
                                head_size(element@) >= 1,
                        ;
                        return Err(DecodeError::TruncatedPayload);
                    },
                };
                if count == 0 {
                    assert(count * head_size(element@) == 0) by (nonlinear_arith)
                        requires
                            count == 0,
                    ;
                    let values: Vec<DecodedValue> = Vec::new();
                    assert(values_of(values@) == Seq::<Value>::empty());
                    return Ok(DecodedValue::DynamicArray(values));
                }
                match element.head_size_within(tail_len) {
                    None => {
                        assert(count * head_size(element@) > tail_len) by (nonlinear_arith)
                            requires
                                count >= 1,
                                head_size(element@) > tail_len,
                        ;
                        Err(DecodeError::TruncatedPayload)
                    },
                    Some(each) => {
                        if count > tail_len / each {
                            assert(count * each > tail_len) by (nonlinear_arith)
                                requires
                                    count > tail_len / each,
                                    each > 0,
                            ;
                            Err(DecodeError::TruncatedPayload)
                        } else {
                            assert(count * each <= tail_len) by (nonlinear_arith)
                                requires
                                    count <= tail_len / each,
                                    each > 0,
                            ;
                            match decode_elements(
                                element,
                                data,
                                tail_base,
                                0,
                                count * each,
                                count,
                                each,
                            ) {
                                Ok(values) => Ok(DecodedValue::DynamicArray(values)),
                                Err(error) => Err(error),
                            }
                        }
                    },
                }
            },
            _ => Err(DecodeError::UnsupportedType),
        }
    } else {
        match field {
            FieldType::Tuple(members) => {
                proof {
                    lemma_first_supported(shapes_of(members@), members@.len());
                }
                match decode_members(members, data, base, at, head) {
                    Ok(values) => Ok(DecodedValue::Tuple(values)),
                    Err(error) => Err(error),
                }
            },
            FieldType::FixedArray(element, count) => {
                if *count == 0 {
                    let values: Vec<DecodedValue> = Vec::new();
                    assert(values_of(values@) == Seq::<Value>::empty());
                    return Ok(DecodedValue::FixedArray(values));
                }
                proof {
                    assert(head_size(element@) <= *count * head_size(element@))
                        by (nonlinear_arith)
                        requires
                            *count >= 1,
                    ;
                }
                let each = element.head_size();
                match decode_elements(element, data, base, at, head, *count, each) {
                    Ok(values) => Ok(DecodedValue::FixedArray(values)),
                    Err(error) => Err(error),
                }
            },
            FieldType::Address => {
                let word = read_word(data, base + at);
                assert(word@ == word_at(frame, at as nat));
                Ok(DecodedValue::Address(to_address(&word)))
            },
            FieldType::UnsignedInt(bits) => {
                let word = read_word(data, base + at);
                assert(word@ == word_at(frame, at as nat));
                Ok(DecodedValue::UnsignedInt(to_unsigned_int(&word, *bits)))
            },
            FieldType::SignedInt(_) => {
                let word = read_word(data, base + at);
                assert(word@ == word_at(frame, at as nat));
                Ok(DecodedValue::SignedInt(to_signed_int(&word)))
            },
            FieldType::FixedBytes(len) => {
                let word = read_word(data, base + at);
                assert(word@ == word_at(frame, at as nat));
                Ok(DecodedValue::FixedBytes(to_fixed_bytes(&word, *len)))
            },
            FieldType::DynamicArray(_) => Err(DecodeError::UnsupportedType),
        }
    }
}

/// Decodes `payload` against `schema`.
///
/// The result is that of `decoded`: the values of the schema's fields in order, or the
/// first fault met. A payload with fewer than 32 bytes for each field is truncated,
/// whatever the schema holds. The values that come out are as many as the schema's
/// fields and have their shapes; a fault is a truncated payload, an invalid offset, or
/// a schema that is not supported.
pub fn decode(schema: &Vec<FieldType>, payload: &[u8]) -> (result: Result<
    Vec<DecodedValue>,
    DecodeError,
>)
    ensures
        result_values(result) == decoded(shapes_of(schema@), payload@),
        payload@.len() < 32 * schema@.len() ==> result_values(result) == Err::<
            Seq<Value>,
            DecodeError,
        >(DecodeError::TruncatedPayload),
        result matches Ok(values) ==> values@.len() == schema@.len() && first_have_shapes(
            values_of(values@),
            shapes_of(schema@),
            schema@.len(),
        ),
        result matches Err(error) ==> error == DecodeError::TruncatedPayload || error
            == DecodeError::InvalidOffset || (error == DecodeError::UnsupportedType
            && !all_supported(shapes_of(schema@))),
{
    proof {
        lemma_decoded_has_shapes(shapes_of(schema@), payload@);
    }
    if payload.len() / 32 < schema.len() {
        return Err(DecodeError::TruncatedPayload);
    }
    let mut i: usize = 0;
    while i < schema.len()
        invariant
            i <= schema.len(),
            payload@.len() >= 32 * schema@.len(),
            first_supported(shapes_of(schema@), i as nat),
        decreases schema.len() - i,
    {
        if !schema[i].is_supported() {
            proof {
                lemma_first_supported(shapes_of(schema@), schema@.len());
                assert(!supported(shapes_of(schema@)[i as int]));
            }
            return Err(DecodeError::UnsupportedType);
        }
        i += 1;
    }
    assert(payload@.skip(0) == payload@);
    match heads_size_within(schema, payload.len()) {
        None => Err(DecodeError::TruncatedPayload),
        Some(size) => decode_members(schema, payload, 0, 0, size),
    }
}

} // verus!
