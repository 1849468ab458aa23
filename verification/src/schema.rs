//! The types of the fields of a payload, and how much of a frame's head each takes.

use vstd::prelude::*;

verus! {

/// How a field of a payload is laid out.
#[derive(Debug, PartialEq, Eq)]
pub enum FieldType {
    /// A 20-byte address in the low-order bytes of a word.
    Address,
    /// An unsigned number of the given width in bits.
    UnsignedInt(usize),
    /// A signed number of the given width in bits.
    SignedInt(usize),
    /// A byte string of the given length in the high-order bytes of a word.
    FixedBytes(usize),
    /// Fields of the given types, one after the other.
    Tuple(Vec<FieldType>),
    /// The given number of fields of one type.
    FixedArray(Box<FieldType>, usize),
    /// A count, and as many fields of one type.
    DynamicArray(Box<FieldType>),
}

/// A field type as a mathematical value.
pub enum Shape {
    Address,
    UnsignedInt(nat),
    SignedInt(nat),
    FixedBytes(nat),
    Tuple(Seq<Shape>),
    FixedArray(Box<Shape>, nat),
    DynamicArray(Box<Shape>),
}

/// The shape that a field type stands for.
pub open spec fn shape_of(field: FieldType) -> Shape
    decreases field,
{
    match field {
        FieldType::Address => Shape::Address,
        FieldType::UnsignedInt(bits) => Shape::UnsignedInt(bits as nat),
        FieldType::SignedInt(bits) => Shape::SignedInt(bits as nat),
        FieldType::FixedBytes(len) => Shape::FixedBytes(len as nat),
        FieldType::Tuple(members) => Shape::Tuple(shapes_of(members@)),
        FieldType::FixedArray(element, count) => Shape::FixedArray(
            Box::new(shape_of(*element)),
            count as nat,
        ),
        FieldType::DynamicArray(element) => Shape::DynamicArray(Box::new(shape_of(*element))),
    }
}

/// The shapes that a list of field types stands for.
pub open spec fn shapes_of(fields: Seq<FieldType>) -> Seq<Shape>
    decreases fields,
{
    Seq::new(
        fields.len(),
        |i: int|
            if 0 <= i < fields.len() {
                shape_of(fields[i])
            } else {
                Shape::Address
            },
    )
}

impl Clone for FieldType {
    fn clone(&self) -> (copy: FieldType)
        ensures
            copy@ == self@,
        decreases self,
    {
        match self {
            FieldType::Address => FieldType::Address,
            FieldType::UnsignedInt(bits) => FieldType::UnsignedInt(*bits),
            FieldType::SignedInt(bits) => FieldType::SignedInt(*bits),
            FieldType::FixedBytes(len) => FieldType::FixedBytes(*len),
            FieldType::Tuple(members) => {
                let mut copies: Vec<FieldType> = Vec::new();
                let mut i: usize = 0;
                while i < members.len()
                    invariant
                        i <= members.len(),
                        self is Tuple,
                        self->Tuple_0 == *members,
                        copies@.len() == i,
                        forall|k: int| 0 <= k < i ==> (#[trigger] copies@[k])@ == members@[k]@,
                    decreases members.len() - i,
                {
                    copies.push(members[i].clone());
                    i += 1;
                }
                assert(shapes_of(copies@) =~= shapes_of(members@));
                FieldType::Tuple(copies)
            },
            FieldType::FixedArray(element, count) => {
                let copy: FieldType = (**element).clone();
                FieldType::FixedArray(Box::new(copy), *count)
            },
            FieldType::DynamicArray(element) => {
                let copy: FieldType = (**element).clone();
                FieldType::DynamicArray(Box::new(copy))
            },
        }
    }
}

impl View for FieldType {
    type V = Shape;

    open spec fn view(&self) -> Shape {
        shape_of(*self)
    }
}

/// Whether a field of this shape stands in a frame of its own: a dynamic array, and
/// whatever holds one.
pub open spec fn is_dynamic(shape: Shape) -> bool
    decreases shape, 0nat,
{
    match shape {
        Shape::DynamicArray(_) => true,
        Shape::FixedArray(element, _) => is_dynamic(*element),
        Shape::Tuple(members) => any_dynamic(members, members.len()),
        _ => false,
    }
}

/// Whether one of the first `n` shapes is dynamic.
pub open spec fn any_dynamic(shapes: Seq<Shape>, n: nat) -> bool
    decreases shapes, n,
{
    0 < n <= shapes.len() && (any_dynamic(shapes, (n - 1) as nat) || is_dynamic(shapes[n - 1]))
}

/// One of the first `n` shapes is dynamic exactly when some shape among them is.
pub proof fn lemma_any_dynamic(shapes: Seq<Shape>, n: nat)
    requires
        n <= shapes.len(),
    ensures
        any_dynamic(shapes, n) <==> exists|i: int| 0 <= i < n && is_dynamic(shapes[i]),
    decreases n,
{
    if n > 0 {
        lemma_any_dynamic(shapes, (n - 1) as nat);
        if is_dynamic(shapes[n - 1]) {
        }
    }
}

/// The number of bytes that the first `n` of these shapes take in the head of a frame.
pub open spec fn heads_size(shapes: Seq<Shape>, n: nat) -> nat
    decreases shapes, n,
{
    if n == 0 || n > shapes.len() {
        0
    } else {
        heads_size(shapes, (n - 1) as nat) + head_size(shapes[n - 1])
    }
}

/// The number of bytes that a field of this shape takes in the head of a frame: one
/// word for an offset, or the words of a static field.
pub open spec fn head_size(shape: Shape) -> nat
    decreases shape, 0nat,
{
    if is_dynamic(shape) {
        32
    } else {
        match shape {
            Shape::Tuple(members) => heads_size(members, members.len()),
            Shape::FixedArray(element, count) => count * head_size(*element),
            _ => 32,
        }
    }
}

/// Whether the decoder handles this shape: number widths from 8 to 256 bits, byte
/// strings of at most 32 bytes, and dynamic arrays whose elements take room in the
/// head. Where an element takes none, nothing in the payload bounds the count.
pub open spec fn supported(shape: Shape) -> bool
    decreases shape, 0nat,
{
    match shape {
        Shape::Address => true,
        Shape::UnsignedInt(bits) => 8 <= bits <= 256,
        Shape::SignedInt(bits) => 8 <= bits <= 256,
        Shape::FixedBytes(len) => len <= 32,
        Shape::Tuple(members) => first_supported(members, members.len()),
        Shape::FixedArray(element, _) => supported(*element),
        Shape::DynamicArray(element) => supported(*element) && head_size(*element) > 0,
    }
}

/// Whether the decoder handles the first `n` shapes.
pub open spec fn first_supported(shapes: Seq<Shape>, n: nat) -> bool
    decreases shapes, n,
{
    n == 0 || (n <= shapes.len() && first_supported(shapes, (n - 1) as nat) && supported(
        shapes[n - 1],
    ))
}

/// The first `n` shapes are supported exactly when each of them is.
pub proof fn lemma_first_supported(shapes: Seq<Shape>, n: nat)
    requires
        n <= shapes.len(),
    ensures
        first_supported(shapes, n) <==> forall|i: int| 0 <= i < n ==> supported(shapes[i]),
    decreases n,
{
    if n > 0 {
        lemma_first_supported(shapes, (n - 1) as nat);
    }
}

/// Whether the decoder handles every shape of a list.
pub open spec fn all_supported(shapes: Seq<Shape>) -> bool {
    first_supported(shapes, shapes.len())
}

/// The head of the first `i` shapes is no larger than that of the first `n`.
pub proof fn lemma_heads_size_monotonic(shapes: Seq<Shape>, i: nat, n: nat)
    requires
        i <= n <= shapes.len(),
    ensures
        heads_size(shapes, i) <= heads_size(shapes, n),
    decreases n,
{
    if i < n {
        lemma_heads_size_monotonic(shapes, i, (n - 1) as nat);
    }
}

/// The head of the first `n` shapes is no smaller than that of any one of them.
pub proof fn lemma_heads_size_covers(shapes: Seq<Shape>, i: int, n: nat)
    requires
        0 <= i < n <= shapes.len(),
    ensures
        head_size(shapes[i]) <= heads_size(shapes, n),
    decreases n,
{
    if i < n - 1 {
        lemma_heads_size_covers(shapes, i, (n - 1) as nat);
    }
}

impl FieldType {
    /// The type of a tuple of these members.
    pub fn tuple(members: Vec<FieldType>) -> (field: FieldType)
        ensures
            field@ == Shape::Tuple(shapes_of(members@)),
    {
        FieldType::Tuple(members)
    }

    /// The type of a fixed array of `count` such elements.
    pub fn fixed_array(element: FieldType, count: usize) -> (field: FieldType)
        ensures
            field@ == Shape::FixedArray(Box::new(element@), count as nat),
    {
        FieldType::FixedArray(Box::new(element), count)
    }

    /// The type of a dynamic array of such elements.
    pub fn dynamic_array(element: FieldType) -> (field: FieldType)
        ensures
            field@ == Shape::DynamicArray(Box::new(element@)),
    {
        FieldType::DynamicArray(Box::new(element))
    }

    /// Whether a field of this type stands in a frame of its own.
    pub fn is_dynamic(&self) -> (dynamic: bool)
        ensures
            dynamic == is_dynamic(self@),
        decreases self,
    {
        match self {
            FieldType::DynamicArray(_) => true,
            FieldType::FixedArray(element, _) => element.is_dynamic(),
            FieldType::Tuple(members) => {
                let mut i: usize = 0;
                while i < members.len()
                    invariant
                        i <= members.len(),
                        self is Tuple,
                        self->Tuple_0 == *members,
                        !any_dynamic(shapes_of(members@), i as nat),
                    decreases members.len() - i,
                {
                    if members[i].is_dynamic() {
                        proof {
                            lemma_any_dynamic(shapes_of(members@), members@.len());
                            assert(is_dynamic(shapes_of(members@)[i as int]));
                        }
                        return true;
                    }
                    i += 1;
                }
                false
            },
            _ => false,
        }
    }

    /// Whether the decoder handles this type.
    pub fn is_supported(&self) -> (handled: bool)
        ensures
            handled == supported(self@),
        decreases self,
    {
        match self {
            FieldType::Address => true,
            FieldType::UnsignedInt(bits) => 8 <= *bits && *bits <= 256,
            FieldType::SignedInt(bits) => 8 <= *bits && *bits <= 256,
            FieldType::FixedBytes(len) => *len <= 32,
            FieldType::Tuple(members) => {
                let mut i: usize = 0;
                while i < members.len()
                    invariant
                        i <= members.len(),
                        self is Tuple,
                        self->Tuple_0 == *members,
                        first_supported(shapes_of(members@), i as nat),
                    decreases members.len() - i,
                {
                    if !members[i].is_supported() {
                        proof {
                            lemma_first_supported(shapes_of(members@), members@.len());
                            assert(!supported(shapes_of(members@)[i as int]));
                        }
                        return false;
                    }
                    i += 1;
                }
                true
            },
            FieldType::FixedArray(element, _) => element.is_supported(),
            FieldType::DynamicArray(element) => element.is_supported() && element.head_size_within(
                0,
            ).is_none(),
        }
    }

    /// The number of bytes that a field of this type takes in the head of a frame, if
    /// that is at most `limit`.
    pub fn head_size_within(&self, limit: usize) -> (size: Option<usize>)
        ensures
            match size {
                Some(size) => size == head_size(self@) && size <= limit,
                None => head_size(self@) > limit,
            },
        decreases self,
    {
        if self.is_dynamic() {
            return if limit >= 32 {
                Some(32)
            } else {
                None
            };
        }
        match self {
            FieldType::Tuple(members) => heads_size_within(members, limit),
            FieldType::FixedArray(element, count) => {
                if *count == 0 {
                    assert(*count * head_size(element@) == 0) by (nonlinear_arith)
                        requires
                            *count == 0,
                    ;
                    return Some(0);
                }
                match element.head_size_within(limit) {
                    None => {
                        assert(*count * head_size(element@) > limit) by (nonlinear_arith)
                            requires
                                *count >= 1,
                                head_size(element@) > limit,
                        ;
                        None
                    },
                    Some(each) => {
                        if each == 0 {
                            assert(*count * each == 0) by (nonlinear_arith)
                                requires
                                    each == 0,
                            ;
                            Some(0)
                        } else if *count > limit / each {
                            assert(*count * each > limit) by (nonlinear_arith)
                                requires
                                    *count > limit / each,
                                    each > 0,
                            ;
                            None
                        } else {
                            assert(*count * each <= limit) by (nonlinear_arith)
                                requires
                                    *count <= limit / each,
                                    each > 0,
                            ;
                            Some(*count * each)
                        }
                    },
                }
            },
            _ => if limit >= 32 {
                Some(32)
            } else {
                None
            },
        }
    }

    /// The number of bytes that a field of this type takes in the head of a frame.
    pub fn head_size(&self) -> (size: usize)
        requires
            head_size(self@) <= usize::MAX,
        ensures
            size == head_size(self@),
        decreases self,
    {
        if self.is_dynamic() {
            return 32;
        }
        match self {
            FieldType::Tuple(members) => {
                let mut total: usize = 0;
                let mut i: usize = 0;
                while i < members.len()
                    invariant
                        i <= members.len(),
                        self is Tuple,
                        self->Tuple_0 == *members,
                        heads_size(shapes_of(members@), members@.len()) <= usize::MAX,
                        total == heads_size(shapes_of(members@), i as nat),
                    decreases members.len() - i,
                {
                    proof {
                        lemma_heads_size_monotonic(
                            shapes_of(members@),
                            (i + 1) as nat,
                            members@.len(),
                        );
                    }
                    total = total + members[i].head_size();
                    i += 1;
                }
                total
            },
            FieldType::FixedArray(element, count) => {
                if *count == 0 {
                    assert(*count * head_size(element@) == 0) by (nonlinear_arith)
                        requires
                            *count == 0,
                    ;
                    return 0;
                }
                proof {
                    assert(head_size(element@) <= *count * head_size(element@))
                        by (nonlinear_arith)
                        requires
                            *count >= 1,
                    ;
                }
                *count * element.head_size()
            },
            _ => 32,
        }
    }
}

/// The number of bytes that fields of these types take in the head of a frame, if that
/// is at most `limit`.
pub fn heads_size_within(fields: &Vec<FieldType>, limit: usize) -> (size: Option<usize>)
    ensures
        match size {
            Some(size) => size == heads_size(shapes_of(fields@), fields@.len()) && size <= limit,
            None => heads_size(shapes_of(fields@), fields@.len()) > limit,
        },
    decreases fields,
{
    let mut total: usize = 0;
    let mut i: usize = 0;
    while i < fields.len()
        invariant
            i <= fields.len(),
            total == heads_size(shapes_of(fields@), i as nat),
            total <= limit,
        decreases fields.len() - i,
    {
        match fields[i].head_size_within(limit - total) {
            None => {
                proof {
                    lemma_heads_size_monotonic(
                        shapes_of(fields@),
                        (i + 1) as nat,
                        fields@.len(),
                    );
                }
                return None;
            },
            Some(size) => {
                total = total + size;
            },
        }
        i += 1;
    }
    Some(total)
}

} // verus!
