//! Conversions from 32-byte big-endian words to integers, addresses and byte strings.

use crate::error::DecodeError;
use vstd::arithmetic::div_mod::lemma_fundamental_div_mod_converse;
use vstd::prelude::*;

verus! {

/// The number that a byte string denotes when read big-endian.
pub open spec fn be_value(bytes: Seq<u8>) -> nat
    decreases bytes.len(),
{
    if bytes.len() == 0 {
        0
    } else {
        be_value(bytes.drop_last()) * 256 + bytes.last() as nat
    }
}

/// 256 to the power `n`.
pub open spec fn pow256(n: nat) -> nat
    decreases n,
{
    if n == 0 {
        1
    } else {
        256 * pow256((n - 1) as nat)
    }
}

/// The `len` low-order base-256 digits of `value`, most significant first.
pub open spec fn be_bytes(value: nat, len: nat) -> Seq<u8>
    decreases len,
{
    if len == 0 {
        Seq::empty()
    } else {
        be_bytes(value / 256, (len - 1) as nat).push((value % 256) as u8)
    }
}

/// A byte string of length `n` denotes a number below `256^n`.
pub proof fn lemma_be_value_bound(bytes: Seq<u8>)
    ensures
        be_value(bytes) < pow256(bytes.len()),
    decreases bytes.len(),
{
    if bytes.len() > 0 {
        lemma_be_value_bound(bytes.drop_last());
    }
}

/// Writing a number's digits and reading them back gives the byte string again.
pub proof fn lemma_be_bytes_of_be_value(bytes: Seq<u8>)
    ensures
        be_bytes(be_value(bytes), bytes.len()) == bytes,
    decreases bytes.len(),
{
    if bytes.len() > 0 {
        let init = bytes.drop_last();
        lemma_be_bytes_of_be_value(init);
        let v = be_value(bytes);
        assert(v % 256 == bytes.last() as nat);
        assert(be_bytes(v, bytes.len()) == be_bytes(v / 256, init.len()).push((v % 256) as u8));
        assert(init.push(bytes.last()) == bytes);
    }
}

/// Reading two byte strings one after the other reads the first, shifted, plus the second.
pub proof fn lemma_be_value_concat(high: Seq<u8>, low: Seq<u8>)
    ensures
        be_value(high + low) == be_value(high) * pow256(low.len()) + be_value(low),
    decreases low.len(),
{
    if low.len() == 0 {
        assert(be_value(high) * pow256(0) == be_value(high)) by (nonlinear_arith)
            requires
                pow256(0) == 1,
        ;
    } else {
        let init = low.drop_last();
        lemma_be_value_concat(high, init);
        assert((high + low).drop_last() == high + init);
        let h = be_value(high) as int;
        let p = pow256(init.len()) as int;
        let m = be_value(init) as int;
        assert((h * p + m) * 256 == h * (256 * p) + m * 256) by (nonlinear_arith);
    }
}

/// A byte string denotes zero exactly when all its bytes are zero.
pub proof fn lemma_be_value_zero(bytes: Seq<u8>)
    ensures
        be_value(bytes) == 0 <==> (forall|i: int| 0 <= i < bytes.len() ==> bytes[i] == 0),
    decreases bytes.len(),
{
    if bytes.len() > 0 {
        let init = bytes.drop_last();
        lemma_be_value_zero(init);
        if be_value(bytes) == 0 {
            assert forall|i: int| 0 <= i < bytes.len() implies bytes[i] == 0 by {
                if i < init.len() {
                    assert(init[i] == bytes[i]);
                }
            }
        } else if bytes.last() == 0 {
            let i = choose|i: int| 0 <= i < init.len() && init[i] != 0;
            assert(bytes[i] == init[i]);
        }
    }
}

/// `256^(a + b)` is `256^a * 256^b`, and no power of 256 is zero.
pub proof fn lemma_pow256_add(a: nat, b: nat)
    ensures
        pow256(a + b) == pow256(a) * pow256(b),
        pow256(a) > 0,
    decreases a,
{
    if a > 0 {
        lemma_pow256_add((a - 1) as nat, b);
        let x = pow256((a - 1) as nat) as int;
        let y = pow256(b) as int;
        assert(256 * (x * y) == (256 * x) * y) by (nonlinear_arith);
    } else {
        assert(pow256(a) * pow256(b) == pow256(b)) by (nonlinear_arith)
            requires
                pow256(a) == 1,
        ;
    }
}

/// A larger exponent gives no smaller power of 256.
pub proof fn lemma_pow256_monotonic(a: nat, b: nat)
    requires
        a <= b,
    ensures
        pow256(a) <= pow256(b),
{
    lemma_pow256_add(a, (b - a) as nat);
    lemma_pow256_add((b - a) as nat, 0);
    let x = pow256(a) as int;
    let y = pow256((b - a) as nat) as int;
    assert(x <= x * y) by (nonlinear_arith)
        requires
            x > 0,
            y >= 1,
    ;
}

/// The powers of 256 that bound the machine integers.
pub proof fn lemma_pow256_values()
    ensures
        pow256(0) == 1,
        pow256(1) == 0x100,
        pow256(2) == 0x1_0000,
        pow256(4) == 0x1_0000_0000,
        pow256(8) == 0x1_0000_0000_0000_0000,
        pow256(16) == 0x1_0000_0000_0000_0000_0000_0000_0000_0000,
{
    reveal_with_fuel(pow256, 3);
    lemma_pow256_add(2, 2);
    assert(0x1_0000int * 0x1_0000int == 0x1_0000_0000int) by (nonlinear_arith);
    lemma_pow256_add(4, 4);
    assert(0x1_0000_0000int * 0x1_0000_0000int == 0x1_0000_0000_0000_0000int)
        by (nonlinear_arith);
    lemma_pow256_add(8, 8);
    assert(0x1_0000_0000_0000_0000int * 0x1_0000_0000_0000_0000int
        == 0x1_0000_0000_0000_0000_0000_0000_0000_0000int) by (nonlinear_arith);
}

/// A word denotes a number below `256^keep` exactly when all but its last `keep` bytes
/// are zero.
pub proof fn lemma_fits_width(word: Seq<u8>, keep: nat)
    requires
        word.len() == 32,
        keep <= 32,
    ensures
        be_value(word) < pow256(keep) <==> (forall|k: int| 0 <= k < 32 - keep ==> word[k] == 0),
        (forall|k: int| 0 <= k < 32 - keep ==> word[k] == 0) ==> be_value(word) == be_value(
            word.subrange(32 - keep, 32),
        ),
{
    let high = word.subrange(0, 32 - keep);
    let low = word.subrange(32 - keep, 32);
    assert(high + low == word);
    lemma_be_value_concat(high, low);
    lemma_be_value_bound(low);
    lemma_be_value_zero(high);
    let h = be_value(high) as int;
    let p = pow256(keep) as int;
    if h == 0 {
        assert(h * p == 0) by (nonlinear_arith)
            requires
                h == 0,
        ;
        assert(forall|k: int| 0 <= k < 32 - keep ==> word[k] == high[k]);
    } else {
        assert(h * p >= p) by (nonlinear_arith)
            requires
                h >= 1,
                p >= 0,
        ;
        let k = choose|k: int| 0 <= k < high.len() && high[k] != 0;
        assert(word[k] == high[k]);
    }
}

/// The number held in the last `bits / 8` bytes of a word.
pub open spec fn unsigned_value(word: Seq<u8>, bits: nat) -> nat
    recommends
        word.len() == 32,
        bits <= 256,
{
    be_value(word.subrange(32 - (bits / 8), 32))
}

/// The number that a word denotes in two's complement.
pub open spec fn signed_value(word: Seq<u8>) -> int
    recommends
        word.len() == 32,
{
    if word[0] >= 0x80 {
        be_value(word) - pow256(32)
    } else {
        be_value(word) as int
    }
}

/// The word that holds the 256 low-order bits of `value` in two's complement.
pub open spec fn word_of(value: int) -> Seq<u8> {
    be_bytes((value % (pow256(32) as int)) as nat, 32)
}

/// Keeping the last `bits / 8` bytes of a word keeps its value modulo `256^(bits / 8)`.
pub proof fn lemma_unsigned_value_is_remainder(word: Seq<u8>, bits: nat)
    requires
        word.len() == 32,
        bits <= 256,
    ensures
        unsigned_value(word, bits) == be_value(word) % pow256(bits / 8),
        unsigned_value(word, bits) < pow256(bits / 8),
{
    let keep = bits / 8;
    let high = word.subrange(0, 32 - keep);
    let low = word.subrange(32 - keep, 32);
    assert(high + low == word);
    lemma_be_value_concat(high, low);
    lemma_be_value_bound(low);
    lemma_pow256_add(keep, 0);
    lemma_fundamental_div_mod_converse(
        be_value(word) as int,
        pow256(keep) as int,
        be_value(high) as int,
        be_value(low) as int,
    );
}

/// A word read as an unsigned number of full width and written back is the word.
pub proof fn lemma_unsigned_round_trip(word: Seq<u8>)
    requires
        word.len() == 32,
    ensures
        word_of(unsigned_value(word, 256) as int) == word,
{
    assert(word.subrange(0, 32) == word);
    lemma_be_value_bound(word);
    lemma_fundamental_div_mod_converse(
        be_value(word) as int,
        pow256(32) as int,
        0,
        be_value(word) as int,
    );
    lemma_be_bytes_of_be_value(word);
}

/// A word read in two's complement and written back is the word.
pub proof fn lemma_signed_round_trip(word: Seq<u8>)
    requires
        word.len() == 32,
    ensures
        word_of(signed_value(word)) == word,
{
    lemma_be_value_bound(word);
    let q: int = if word[0] >= 0x80 { -1 } else { 0 };
    lemma_fundamental_div_mod_converse(
        signed_value(word),
        pow256(32) as int,
        q,
        be_value(word) as int,
    );
    lemma_be_bytes_of_be_value(word);
}

/// A word whose first byte is below `0x80` denotes a number below `256^32 / 2`, and any
/// other word one that is not.
pub proof fn lemma_top_bit(word: Seq<u8>)
    requires
        word.len() == 32,
    ensures
        word[0] < 0x80 <==> 2 * be_value(word) < pow256(32),
{
    let high = word.subrange(0, 1);
    let low = word.subrange(1, 32);
    assert(high + low == word);
    lemma_be_value_concat(high, low);
    lemma_be_value_bound(low);
    assert(be_value(high) == word[0] as nat) by {
        reveal_with_fuel(be_value, 2);
    }
    lemma_pow256_add(1, 31);
    let p = pow256(31) as int;
    let b = word[0] as int;
    assert(pow256(1) == 256) by {
        reveal_with_fuel(pow256, 2);
    }
    if b < 0x80 {
        assert(b * p <= 127 * p) by (nonlinear_arith)
            requires
                b <= 127,
                p > 0,
        ;
    } else {
        assert(b * p >= 128 * p) by (nonlinear_arith)
            requires
                b >= 128,
                p > 0,
        ;
    }
}

/// A whole number of at most 257 bits: 256 bits in two's complement and a sign.
///
/// The value is the number that `word` denotes big-endian, less `256^32` when `negative`
/// is set. Every number from `-256^32` up to `256^32 - 1` is held by exactly one `Integer`.
#[derive(Clone, Copy, Debug, PartialEq, Eq)]
pub struct Integer {
    /// Whether `256^32` is to be taken off.
    pub negative: bool,
    /// The 256 low-order bits, most significant byte first.
    pub word: [u8; 32],
}

impl View for Integer {
    type V = int;

    open spec fn view(&self) -> int {
        if self.negative {
            be_value(self.word@) - pow256(32)
        } else {
            be_value(self.word@) as int
        }
    }
}

impl Integer {
    /// The 256 low-order bits of the number in two's complement, most significant byte
    /// first.
    pub fn to_be_bytes(&self) -> (word: [u8; 32])
        ensures
            word@ == word_of(self@),
    {
        proof {
            lemma_be_value_bound(self.word@);
            let q: int = if self.negative { -1 } else { 0 };
            lemma_fundamental_div_mod_converse(
                self@,
                pow256(32) as int,
                q,
                be_value(self.word@) as int,
            );
            lemma_be_bytes_of_be_value(self.word@);
        }
        self.word
    }

    /// Whether the number is below zero.
    pub fn is_negative(&self) -> (negative: bool)
        ensures
            negative == (self@ < 0),
    {
        proof {
            lemma_be_value_bound(self.word@);
        }
        self.negative
    }

    /// The 64 low-order bits of the number.
    pub fn low_u64(&self) -> (low: u64)
        ensures
            low == self@ % 0x1_0000_0000_0000_0000,
    {
        proof {
            lemma_low_bytes(*self, 8);
            lemma_pow256_values();
        }
        to_u64(&self.word)
    }

    /// The 8 low-order bits of the number.
    pub fn low_u8(&self) -> (low: u8)
        ensures
            low == self@ % 0x100,
    {
        proof {
            lemma_low_bytes(*self, 1);
            lemma_pow256_values();
        }
        to_u8(&self.word)
    }

    /// The 16 low-order bits of the number.
    pub fn low_u16(&self) -> (low: u16)
        ensures
            low == self@ % 0x1_0000,
    {
        proof {
            lemma_low_bytes(*self, 2);
            lemma_pow256_values();
        }
        to_u16(&self.word)
    }

    /// The number, where it is one from 0 to `u64::MAX`.
    pub fn try_u64(&self) -> (value: Option<u64>)
        ensures
            match value {
                Some(value) => value == self@,
                None => self@ < 0 || self@ > u64::MAX,
            },
    {
        proof {
            lemma_be_value_bound(self.word@);
            lemma_fits_width(self.word@, 8);
            lemma_pow256_values();
            lemma_pow256_monotonic(8, 32);
        }
        if self.negative {
            return None;
        }
        let mut i: usize = 0;
        while i < 24
            invariant
                i <= 24,
                !self.negative,
                forall|k: int| 0 <= k < i ==> self.word@[k] == 0,
            decreases 24 - i,
        {
            if self.word[i] != 0 {
                proof {
                    lemma_fits_width(self.word@, 8);
                    lemma_pow256_values();
                }
                return None;
            }
            i += 1;
        }
        Some(to_u64(&self.word))
    }
}

/// The last `width` bytes of a number's word denote the number modulo `256^width`.
pub proof fn lemma_low_bytes(number: Integer, width: nat)
    requires
        width <= 32,
    ensures
        be_value(number.word@.subrange(32 - width, 32)) == number@ % (pow256(width) as int),
{
    let word = number.word@;
    let high = word.subrange(0, 32 - width);
    let rest = word.subrange(32 - width, 32);
    assert(high + rest == word);
    lemma_be_value_concat(high, rest);
    lemma_be_value_bound(rest);
    lemma_pow256_add((32 - width) as nat, width);
    lemma_pow256_add(width, 0);
    let p = pow256((32 - width) as nat) as int;
    let m = pow256(width) as int;
    let h = be_value(high) as int;
    let q: int = if number.negative { h - p } else { h };
    assert((h - p) * m == h * m - p * m) by (nonlinear_arith);
    lemma_fundamental_div_mod_converse(number@, m, q, be_value(rest) as int);
}

/// The number held in the last `width` bytes of a word.
fn read_tail(word: &[u8; 32], width: usize) -> (value: u128)
    requires
        width <= 16,
    ensures
        value == be_value(word@.subrange(32 - width, 32)),
        value < pow256(width as nat),
{
    let start = 32 - width;
    let mut value: u128 = 0;
    let mut i: usize = start;
    proof {
        lemma_pow256_values();
    }
    while i < 32
        invariant
            start <= i <= 32,
            start == 32 - width,
            width <= 16,
            value == be_value(word@.subrange(start as int, i as int)),
            value < pow256((i - start) as nat),
        decreases 32 - i,
    {
        proof {
            let next = word@.subrange(start as int, i + 1);
            assert(next.drop_last() == word@.subrange(start as int, i as int));
            lemma_pow256_monotonic((i + 1 - start) as nat, 16);
            lemma_pow256_values();
        }
        value = value * 256 + word[i] as u128;
        i += 1;
    }
    value
}

/// The number held in the last byte of a word.
pub fn to_u8(word: &[u8; 32]) -> (value: u8)
    ensures
        value == unsigned_value(word@, 8),
{
    proof {
        lemma_pow256_values();
    }
    read_tail(word, 1) as u8
}

/// The number held in the last 2 bytes of a word.
pub fn to_u16(word: &[u8; 32]) -> (value: u16)
    ensures
        value == unsigned_value(word@, 16),
{
    proof {
        lemma_pow256_values();
    }
    read_tail(word, 2) as u16
}

/// The number held in the last 4 bytes of a word.
pub fn to_u32(word: &[u8; 32]) -> (value: u32)
    ensures
        value == unsigned_value(word@, 32),
{
    proof {
        lemma_pow256_values();
    }
    read_tail(word, 4) as u32
}

/// The number held in the last 8 bytes of a word.
pub fn to_u64(word: &[u8; 32]) -> (value: u64)
    ensures
        value == unsigned_value(word@, 64),
{
    proof {
        lemma_pow256_values();
    }
    read_tail(word, 8) as u64
}

/// The number held in the last 16 bytes of a word.
pub fn to_u128(word: &[u8; 32]) -> (value: u128)
    ensures
        value == unsigned_value(word@, 128),
{
    read_tail(word, 16)
}

/// The number that a word denotes, where a `usize` holds it.
pub fn to_usize(word: &[u8; 32]) -> (value: Option<usize>)
    ensures
        match value {
            Some(value) => value == be_value(word@),
            None => be_value(word@) > usize::MAX,
        },
{
    proof {
        lemma_fits_width(word@, 8);
        lemma_pow256_values();
    }
    let mut i: usize = 0;
    while i < 24
        invariant
            i <= 24,
            forall|k: int| 0 <= k < i ==> word@[k] == 0,
        decreases 24 - i,
    {
        if word[i] != 0 {
            proof {
                lemma_fits_width(word@, 8);
                lemma_pow256_values();
            }
            return None;
        }
        i += 1;
    }
    let low = to_u64(word);
    if low > usize::MAX as u64 {
        None
    } else {
        Some(low as usize)
    }
}

/// The word with all but its last `keep` bytes set to zero.
fn keep_tail(word: &[u8; 32], keep: usize) -> (out: [u8; 32])
    requires
        keep <= 32,
    ensures
        forall|k: int| 0 <= k < 32 - keep ==> out@[k] == 0,
        out@.subrange(32 - keep, 32) == word@.subrange(32 - keep, 32),
        be_value(out@) == be_value(word@.subrange(32 - keep, 32)),
{
    let start = 32 - keep;
    let mut out = [0u8; 32];
    let mut i: usize = start;
    while i < 32
        invariant
            start <= i <= 32,
            forall|k: int| 0 <= k < start ==> out@[k] == 0,
            forall|k: int| start <= k < i ==> out@[k] == word@[k],
        decreases 32 - i,
    {
        out[i] = word[i];
        i += 1;
    }
    proof {
        let high = out@.subrange(0, start as int);
        let low = out@.subrange(start as int, 32);
        assert(high + low == out@);
        lemma_be_value_concat(high, low);
        lemma_be_value_zero(high);
        assert(be_value(high) * pow256(low.len()) == 0) by (nonlinear_arith)
            requires
                be_value(high) == 0,
        ;
    }
    out
}

/// The low-order `bits` of a word as an unsigned number: the last `bits / 8` bytes are
/// kept, and what stands before them is dropped without a check.
pub fn to_unsigned_int(word: &[u8; 32], bits: usize) -> (value: Integer)
    requires
        8 <= bits <= 256,
    ensures
        value@ == unsigned_value(word@, bits as nat),
{
    Integer { negative: false, word: keep_tail(word, bits / 8) }
}

/// The low-order `bits` of a word as an unsigned number, where nothing may stand before
/// them: a word that denotes `256^(bits / 8)` or more is refused.
pub fn to_unsigned_int_strict(word: &[u8; 32], bits: usize) -> (result: Result<
    Integer,
    DecodeError,
>)
    requires
        8 <= bits <= 256,
    ensures
        be_value(word@) < pow256(bits as nat / 8) ==> result is Ok && result->Ok_0@ == be_value(
            word@,
        ),
        be_value(word@) >= pow256(bits as nat / 8) ==> result == Err::<Integer, DecodeError>(
            DecodeError::MalformedScalar,
        ),
{
    let keep = bits / 8;
    let start = 32 - keep;
    let mut i: usize = 0;
    while i < start
        invariant
            i <= start <= 32,
            start == 32 - keep,
            keep == bits / 8,
            forall|k: int| 0 <= k < i ==> word@[k] == 0,
        decreases start - i,
    {
        if word[i] != 0 {
            proof {
                lemma_fits_width(word@, keep as nat);
            }
            return Err(DecodeError::MalformedScalar);
        }
        i += 1;
    }
    proof {
        lemma_fits_width(word@, keep as nat);
    }
    Ok(Integer { negative: false, word: keep_tail(word, keep) })
}

/// A word as a signed number in two's complement.
pub fn to_signed_int(word: &[u8; 32]) -> (value: Integer)
    ensures
        value@ == signed_value(word@),
        value.word == *word,
{
    Integer { negative: word[0] >= 0x80, word: *word }
}

/// The last 20 bytes of a word, whatever its first 12 bytes hold.
pub fn to_address(word: &[u8; 32]) -> (address: [u8; 20])
    ensures
        address@ == word@.subrange(12, 32),
{
    let mut address = [0u8; 20];
    let mut i: usize = 0;
    while i < 20
        invariant
            i <= 20,
            forall|k: int| 0 <= k < i ==> address@[k] == word@[12 + k],
        decreases 20 - i,
    {
        address[i] = word[12 + i];
        i += 1;
    }
    address
}

/// The first `len` bytes of a word.
pub fn to_fixed_bytes(word: &[u8; 32], len: usize) -> (bytes: Vec<u8>)
    requires
        len <= 32,
    ensures
        bytes@ == word@.subrange(0, len as int),
{
    let mut bytes: Vec<u8> = Vec::new();
    let mut i: usize = 0;
    while i < len
        invariant
            i <= len <= 32,
            bytes@ == word@.subrange(0, i as int),
        decreases len - i,
    {
        bytes.push(word[i]);
        i += 1;
    }
    bytes
}

/// A copy of `bytes`.
pub fn copy_bytes(bytes: &[u8]) -> (copy: Vec<u8>)
    ensures
        copy@ == bytes@,
{
    let mut copy: Vec<u8> = Vec::new();
    let mut i: usize = 0;
    while i < bytes.len()
        invariant
            i <= bytes@.len(),
            copy@ == bytes@.subrange(0, i as int),
        decreases bytes@.len() - i,
    {
        copy.push(bytes[i]);
        i += 1;
    }
    assert(bytes@.subrange(0, bytes@.len() as int) == bytes@);
    copy
}

} // verus!
