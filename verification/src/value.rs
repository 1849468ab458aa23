//! The values that the fields of a payload decode to.

use crate::error::DecodeError;
use crate::schema::Shape;
use crate::word::{copy_bytes, pow256, Integer};
use vstd::prelude::*;

verus! {

/// A decoded field.
#[derive(Debug, PartialEq, Eq)]
pub enum DecodedValue {
    Address([u8; 20]),
    UnsignedInt(Integer),
    SignedInt(Integer),
    FixedBytes(Vec<u8>),
    Tuple(Vec<DecodedValue>),
    FixedArray(Vec<DecodedValue>),
    DynamicArray(Vec<DecodedValue>),
}

/// A decoded field as a mathematical value.
pub enum Value {
    Address(Seq<u8>),
    UnsignedInt(int),
    SignedInt(int),
    FixedBytes(Seq<u8>),
    Tuple(Seq<Value>),
    FixedArray(Seq<Value>),
    DynamicArray(Seq<Value>),
}

/// The value that a decoded field stands for.
pub open spec fn value_of(decoded: DecodedValue) -> Value
    decreases decoded,
{
    match decoded {
        DecodedValue::Address(address) => Value::Address(address@),
        DecodedValue::UnsignedInt(number) => Value::UnsignedInt(number@),
        DecodedValue::SignedInt(number) => Value::SignedInt(number@),
        DecodedValue::FixedBytes(bytes) => Value::FixedBytes(bytes@),
        DecodedValue::Tuple(members) => Value::Tuple(values_of(members@)),
        DecodedValue::FixedArray(elements) => Value::FixedArray(values_of(elements@)),
        DecodedValue::DynamicArray(elements) => Value::DynamicArray(values_of(elements@)),
    }
}

/// The values that a list of decoded fields stands for.
pub open spec fn values_of(decoded: Seq<DecodedValue>) -> Seq<Value>
    decreases decoded,
{
    Seq::new(
        decoded.len(),
        |i: int|
            if 0 <= i < decoded.len() {
                value_of(decoded[i])
            } else {
                Value::UnsignedInt(0)
            },
    )
}

impl DecodedValue {
    /// Copies of these values.
    fn clone_all(values: &Vec<DecodedValue>) -> (copies: Vec<DecodedValue>)
        ensures
            values_of(copies@) == values_of(values@),
        decreases values,
    {
        let mut copies: Vec<DecodedValue> = Vec::new();
        let mut i: usize = 0;
        while i < values.len()
            invariant
                i <= values.len(),
                copies@.len() == i,
                forall|k: int| 0 <= k < i ==> (#[trigger] copies@[k])@ == values@[k]@,
            decreases values.len() - i,
        {
            copies.push(values[i].clone());
            i += 1;
        }
        copies
    }
}

impl Clone for DecodedValue {
    fn clone(&self) -> (copy: DecodedValue)
        ensures
            copy@ == self@,
        decreases self,
    {
        match self {
            DecodedValue::Address(address) => DecodedValue::Address(*address),
            DecodedValue::UnsignedInt(number) => DecodedValue::UnsignedInt(*number),
            DecodedValue::SignedInt(number) => DecodedValue::SignedInt(*number),
            DecodedValue::FixedBytes(bytes) => DecodedValue::FixedBytes(
                copy_bytes(bytes.as_slice()),
            ),
            DecodedValue::Tuple(members) => DecodedValue::Tuple(Self::clone_all(members)),
            DecodedValue::FixedArray(elements) => DecodedValue::FixedArray(
                Self::clone_all(elements),
            ),
            DecodedValue::DynamicArray(elements) => DecodedValue::DynamicArray(
                Self::clone_all(elements),
            ),
        }
    }
}

impl View for DecodedValue {
    type V = Value;

    open spec fn view(&self) -> Value {
        value_of(*self)
    }
}

/// Whether a value is one that a field of this shape decodes to: of the shape's kind,
/// an address of 20 bytes, a number within the shape's width, a byte string of the
/// shape's length, members or elements in the shape's number and of its shapes.
pub open spec fn has_shape(value: Value, shape: Shape) -> bool
    decreases shape, 0nat, 0nat,
{
    match shape {
        Shape::Address => value is Address && value->Address_0.len() == 20,
        Shape::UnsignedInt(bits) => value is UnsignedInt && 0 <= value->UnsignedInt_0 < pow256(
            bits / 8,
        ),
        Shape::SignedInt(_) => value is SignedInt && -pow256(32) <= 2 * value->SignedInt_0
            < pow256(32),
        Shape::FixedBytes(len) => value is FixedBytes && value->FixedBytes_0.len() == len,
        Shape::Tuple(members) => value is Tuple && value->Tuple_0.len() == members.len()
            && first_have_shapes(value->Tuple_0, members, members.len()),
        Shape::FixedArray(element, count) => value is FixedArray && value->FixedArray_0.len()
            == count && first_have_shape(value->FixedArray_0, *element, count),
        Shape::DynamicArray(element) => value is DynamicArray && first_have_shape(
            value->DynamicArray_0,
            *element,
            value->DynamicArray_0.len(),
        ),
    }
}

/// Whether each of the first `n` values has the shape at its place.
pub open spec fn first_have_shapes(values: Seq<Value>, shapes: Seq<Shape>, n: nat) -> bool
    decreases shapes, 0nat, n,
{
    n == 0 || (n <= values.len() && n <= shapes.len() && first_have_shapes(
        values,
        shapes,
        (n - 1) as nat,
    ) && has_shape(values[n - 1], shapes[n - 1]))
}

/// Whether each of the first `n` values has the shape `shape`.
pub open spec fn first_have_shape(values: Seq<Value>, shape: Shape, n: nat) -> bool
    decreases shape, 1nat, n,
{
    n == 0 || (n <= values.len() && first_have_shape(values, shape, (n - 1) as nat) && has_shape(
        values[n - 1],
        shape,
    ))
}

/// The first `n` values have the shapes at their places exactly when each of them has.
pub proof fn lemma_first_have_shapes(values: Seq<Value>, shapes: Seq<Shape>, n: nat)
    requires
        n <= values.len(),
        n <= shapes.len(),
    ensures
        first_have_shapes(values, shapes, n) <==> forall|i: int|
            0 <= i < n ==> has_shape(values[i], shapes[i]),
    decreases n,
{
    if n > 0 {
        lemma_first_have_shapes(values, shapes, (n - 1) as nat);
    }
}

/// The first `n` values have one shape exactly when each of them has.
pub proof fn lemma_first_have_shape(values: Seq<Value>, shape: Shape, n: nat)
    requires
        n <= values.len(),
    ensures
        first_have_shape(values, shape, n) <==> forall|i: int|
            0 <= i < n ==> has_shape(values[i], shape),
    decreases n,
{
    if n > 0 {
        lemma_first_have_shape(values, shape, (n - 1) as nat);
    }
}

impl DecodedValue {
    /// The bytes of an address.
    pub fn address(&self) -> (bytes: Result<Vec<u8>, DecodeError>)
        ensures
            match bytes {
                Ok(bytes) => self@ is Address && bytes@ == self@->Address_0,
                Err(error) => !(self@ is Address) && error == DecodeError::UnsupportedType,
            },
    {
        match self {
            DecodedValue::Address(address) => Ok(copy_bytes(address.as_slice())),
            _ => Err(DecodeError::UnsupportedType),
        }
    }

    /// The number of an unsigned field.
    pub fn unsigned(&self) -> (number: Result<Integer, DecodeError>)
        ensures
            match number {
                Ok(number) => self@ is UnsignedInt && number@ == self@->UnsignedInt_0,
                Err(error) => !(self@ is UnsignedInt) && error == DecodeError::UnsupportedType,
            },
    {
        match self {
            DecodedValue::UnsignedInt(number) => Ok(*number),
            _ => Err(DecodeError::UnsupportedType),
        }
    }

    /// The number of a signed field.
    pub fn signed(&self) -> (number: Result<Integer, DecodeError>)
        ensures
            match number {
                Ok(number) => self@ is SignedInt && number@ == self@->SignedInt_0,
                Err(error) => !(self@ is SignedInt) && error == DecodeError::UnsupportedType,
            },
    {
        match self {
            DecodedValue::SignedInt(number) => Ok(*number),
            _ => Err(DecodeError::UnsupportedType),
        }
    }

    /// The bytes of a byte string.
    pub fn fixed_bytes(&self) -> (bytes: Result<Vec<u8>, DecodeError>)
        ensures
            match bytes {
                Ok(bytes) => self@ is FixedBytes && bytes@ == self@->FixedBytes_0,
                Err(error) => !(self@ is FixedBytes) && error == DecodeError::UnsupportedType,
            },
    {
        match self {
            DecodedValue::FixedBytes(bytes) => Ok(copy_bytes(bytes.as_slice())),
            _ => Err(DecodeError::UnsupportedType),
        }
    }

    /// The members of a tuple.
    pub fn tuple(&self) -> (members: Result<&Vec<DecodedValue>, DecodeError>)
        ensures
            match members {
                Ok(members) => self@ is Tuple && values_of(members@) == self@->Tuple_0,
                Err(error) => !(self@ is Tuple) && error == DecodeError::UnsupportedType,
            },
    {
        match self {
            DecodedValue::Tuple(members) => Ok(members),
            _ => Err(DecodeError::UnsupportedType),
        }
    }

    /// The elements of a fixed array.
    pub fn fixed_array(&self) -> (elements: Result<&Vec<DecodedValue>, DecodeError>)
        ensures
            match elements {
                Ok(elements) => self@ is FixedArray && values_of(elements@) == self@->FixedArray_0,
                Err(error) => !(self@ is FixedArray) && error == DecodeError::UnsupportedType,
            },
    {
        match self {
            DecodedValue::FixedArray(elements) => Ok(elements),
            _ => Err(DecodeError::UnsupportedType),
        }
    }

    /// The elements of a dynamic array.
    pub fn dynamic_array(&self) -> (elements: Result<&Vec<DecodedValue>, DecodeError>)
        ensures
            match elements {
                Ok(elements) => self@ is DynamicArray && values_of(elements@)
                    == self@->DynamicArray_0,
                Err(error) => !(self@ is DynamicArray) && error == DecodeError::UnsupportedType,
            },
    {
        match self {
            DecodedValue::DynamicArray(elements) => Ok(elements),
            _ => Err(DecodeError::UnsupportedType),
        }
    }
}

/// Numbers as mathematical values.
pub open spec fn numbers_view(numbers: Seq<Integer>) -> Seq<int> {
    Seq::new(numbers.len(), |i: int| numbers[i]@)
}

/// Byte strings as mathematical values.
pub open spec fn byte_strings_view(strings: Seq<Vec<u8>>) -> Seq<Seq<u8>> {
    Seq::new(strings.len(), |i: int| strings[i]@)
}

/// Whether a number is one that a word holds unsigned: from 0 up to `256^32 - 1`.
pub open spec fn is_word_number(number: int) -> bool {
    0 <= number < pow256(32)
}

/// Whether each of these numbers is one that a word holds unsigned.
pub open spec fn all_word_numbers(numbers: Seq<int>) -> bool {
    forall|i: int| 0 <= i < numbers.len() ==> is_word_number(#[trigger] numbers[i])
}

/// Whether every one of these values is an unsigned number.
pub open spec fn all_unsigned(values: Seq<Value>) -> bool {
    forall|i: int| 0 <= i < values.len() ==> values[i] is UnsignedInt
}

/// The numbers of these unsigned values.
pub open spec fn unsigned_numbers(values: Seq<Value>) -> Seq<int> {
    Seq::new(values.len(), |i: int| values[i]->UnsignedInt_0)
}

/// The numbers of unsigned values.
pub fn numbers_from_values(values: &Vec<DecodedValue>) -> (result: Result<
    Vec<Integer>,
    DecodeError,
>)
    ensures
        match result {
            Ok(numbers) => all_unsigned(values_of(values@)) && numbers_view(numbers@)
                == unsigned_numbers(values_of(values@)),
            Err(error) => !all_unsigned(values_of(values@)) && error
                == DecodeError::UnsupportedType,
        },
{
    let mut numbers: Vec<Integer> = Vec::new();
    let mut i: usize = 0;
    while i < values.len()
        invariant
            i <= values.len(),
            numbers@.len() == i,
            forall|k: int| 0 <= k < i ==> (#[trigger] values_of(values@)[k]) is UnsignedInt,
            forall|k: int|
                0 <= k < i ==> (#[trigger] numbers@[k])@ == values_of(
                    values@,
                )[k]->UnsignedInt_0,
        decreases values.len() - i,
    {
        assert(values_of(values@)[i as int] == values[i as int]@);
        match values[i].unsigned() {
            Err(error) => {
                return Err(error);
            },
            Ok(number) => {
                numbers.push(number);
            },
        }
        i += 1;
    }
    Ok(numbers)
}

} // verus!
