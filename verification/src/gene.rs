//! The gene codec: one scalar to and from a fixed-width big-endian byte array.

use vstd::prelude::*;

verus! {

/// The bytes of one gene.
pub type GeneBytes<const GS: usize> = [u8; GS];

/// A scalar with a fixed-width byte form of `GS` bytes.
///
/// The integer types of this module encode big-endian; their own contracts
/// say so in terms of [`be_bytes`] and [`be_value`].
pub trait Gene<const GS: usize>: Sized {
    /// Decodes a value; every byte pattern is accepted.
    fn from_bytes(bytes: [u8; GS]) -> (value: Self);

    /// Encodes the value.
    fn to_bytes(&self) -> (bytes: [u8; GS]);
}

/// The number of values that `width` bytes can tell apart: 256 to the power `width`.
pub open spec fn capacity(width: nat) -> nat
    decreases width,
{
    if width == 0 {
        1
    } else {
        256 * capacity((width - 1) as nat)
    }
}

/// The number that `bytes` denote when read most significant byte first.
pub open spec fn be_value(bytes: Seq<u8>) -> nat
    decreases bytes.len(),
{
    if bytes.len() == 0 {
        0
    } else {
        be_value(bytes.drop_last()) * 256 + bytes.last() as nat
    }
}

/// The `width` bytes that denote `value`, most significant byte first.
/// Where `value` does not fit, its high part is dropped.
pub open spec fn be_bytes(value: nat, width: nat) -> Seq<u8>
    decreases width,
{
    if width == 0 {
        Seq::empty()
    } else {
        be_bytes(value / 256, (width - 1) as nat).push((value % 256) as u8)
    }
}

/// The unsigned number with the same two's complement bit pattern, `width` bytes wide.
pub open spec fn to_unsigned(value: int, width: nat) -> nat {
    if value >= 0 {
        value as nat
    } else {
        (value + capacity(width)) as nat
    }
}

/// The signed number with the same two's complement bit pattern, `width` bytes wide.
pub open spec fn to_signed(raw: nat, width: nat) -> int {
    if 2 * raw < capacity(width) {
        raw as int
    } else {
        raw - capacity(width)
    }
}

/// The capacities of the widths that the scalar types use.
pub proof fn lemma_capacity_values()
    ensures
        capacity(0) == 1,
        capacity(1) == 0x100,
        capacity(2) == 0x1_0000,
        capacity(4) == 0x1_0000_0000,
        capacity(8) == 0x1_0000_0000_0000_0000,
{
    reveal_with_fuel(capacity, 9);
}

/// A wider array holds more values.
pub proof fn lemma_capacity_grows(narrow: nat, wide: nat)
    requires
        narrow <= wide,
    ensures
        0 < capacity(narrow) <= capacity(wide),
    decreases wide,
{
    if wide == 0 {
    } else if narrow == wide {
        lemma_capacity_grows((narrow - 1) as nat, (wide - 1) as nat);
    } else {
        lemma_capacity_grows(narrow, (wide - 1) as nat);
    }
}

/// An encoding has exactly the width asked for.
pub proof fn lemma_be_bytes_len(value: nat, width: nat)
    ensures
        be_bytes(value, width).len() == width,
    decreases width,
{
    if width > 0 {
        lemma_be_bytes_len(value / 256, (width - 1) as nat);
    }
}

/// What bytes denote is below the capacity of their width.
pub proof fn lemma_be_value_bound(bytes: Seq<u8>)
    ensures
        be_value(bytes) < capacity(bytes.len()),
    decreases bytes.len(),
{
    if bytes.len() > 0 {
        lemma_be_value_bound(bytes.drop_last());
    }
}

/// Decoding undoes encoding: every value that fits in `width` bytes is
/// recovered from its encoding.
pub proof fn law_decode_encode(value: nat, width: nat)
    requires
        value < capacity(width),
    ensures
        be_value(be_bytes(value, width)) == value,
    decreases width,
{
    if width > 0 {
        let shorter = be_bytes(value / 256, (width - 1) as nat);
        law_decode_encode(value / 256, (width - 1) as nat);
        assert(be_bytes(value, width).drop_last() =~= shorter);
    }
}

/// Encoding undoes decoding: every byte pattern is the encoding of the
/// value it denotes, so the codec is a bijection between the values below
/// the capacity and the byte arrays of that width.
pub proof fn law_encode_decode(bytes: Seq<u8>)
    ensures
        be_bytes(be_value(bytes), bytes.len()) == bytes,
    decreases bytes.len(),
{
    if bytes.len() > 0 {
        let value = be_value(bytes);
        law_encode_decode(bytes.drop_last());
        assert(value / 256 == be_value(bytes.drop_last()));
        assert(value % 256 == bytes.last() as nat);
        assert(be_bytes(value, bytes.len()) =~= bytes);
    }
}

/// The signed and the unsigned reading of a bit pattern determine each other.
pub proof fn law_signed_unsigned(value: int, raw: nat, width: nat)
    requires
        width > 0,
    ensures
        -(capacity(width) as int) <= 2 * value < capacity(width) ==> to_signed(
            to_unsigned(value, width),
            width,
        ) == value,
        raw < capacity(width) ==> to_unsigned(to_signed(raw, width), width) == raw,
{
    lemma_capacity_grows(1, width);
}

/// Writes `value` as `N` big-endian bytes, dropping what does not fit.
fn encode_be<const N: usize>(value: u64) -> (bytes: [u8; N])
    ensures
        bytes@ == be_bytes(value as nat, N as nat),
{
    let mut bytes: [u8; N] = [0u8; N];
    let mut rest: u64 = value;
    let mut open: usize = N;
    while open > 0
        invariant
            open <= N,
            be_bytes(value as nat, N as nat) == be_bytes(rest as nat, open as nat) + bytes@.subrange(
                open as int,
                N as int,
            ),
        decreases open,
    {
        let ghost before = bytes@;
        open -= 1;
        bytes[open] = (rest % 256) as u8;
        proof {
            let head = be_bytes((rest / 256) as nat, open as nat);
            lemma_be_bytes_len((rest / 256) as nat, open as nat);
            assert(bytes@.subrange(open as int, N as int) =~= seq![(rest % 256) as u8]
                + before.subrange(open + 1, N as int));
            assert(be_bytes(rest as nat, (open + 1) as nat) + before.subrange(open + 1, N as int)
                =~= head + bytes@.subrange(open as int, N as int));
        }
        rest = rest / 256;
    }
    assert(bytes@.subrange(0, N as int) =~= bytes@);
    bytes
}

/// Reads up to eight big-endian bytes as a number.
fn decode_be<const N: usize>(bytes: &[u8; N]) -> (value: u64)
    requires
        N <= 8,
    ensures
        value as nat == be_value(bytes@),
        value < capacity(N as nat),
{
    let mut value: u64 = 0;
    let mut read: usize = 0;
    while read < N
        invariant
            read <= N <= 8,
            value as nat == be_value(bytes@.take(read as int)),
            value < capacity(read as nat),
        decreases N - read,
    {
        proof {
            lemma_capacity_grows((read + 1) as nat, 8);
            lemma_capacity_values();
            assert(bytes@.take(read + 1).drop_last() =~= bytes@.take(read as int));
        }
        value = value * 256 + bytes[read] as u64;
        read += 1;
    }
    assert(bytes@.take(N as int) =~= bytes@);
    value
}

impl Gene<1> for u8 {
    fn from_bytes(bytes: [u8; 1]) -> (value: u8)
        ensures
            value as nat == be_value(bytes@),
    {
        proof {
            lemma_capacity_values();
        }
        decode_be(&bytes) as u8
    }

    fn to_bytes(&self) -> (bytes: [u8; 1])
        ensures
            bytes@ == be_bytes(*self as nat, 1),
    {
        encode_be(*self as u64)
    }
}

impl Gene<2> for u16 {
    fn from_bytes(bytes: [u8; 2]) -> (value: u16)
        ensures
            value as nat == be_value(bytes@),
    {
        proof {
            lemma_capacity_values();
        }
        decode_be(&bytes) as u16
    }

    fn to_bytes(&self) -> (bytes: [u8; 2])
        ensures
            bytes@ == be_bytes(*self as nat, 2),
    {
        encode_be(*self as u64)
    }
}

impl Gene<4> for u32 {
    fn from_bytes(bytes: [u8; 4]) -> (value: u32)
        ensures
            value as nat == be_value(bytes@),
    {
        proof {
            lemma_capacity_values();
        }
        decode_be(&bytes) as u32
    }

    fn to_bytes(&self) -> (bytes: [u8; 4])
        ensures
            bytes@ == be_bytes(*self as nat, 4),
    {
        encode_be(*self as u64)
    }
}

impl Gene<8> for u64 {
    fn from_bytes(bytes: [u8; 8]) -> (value: u64)
        ensures
            value as nat == be_value(bytes@),
    {
        decode_be(&bytes)
    }

    fn to_bytes(&self) -> (bytes: [u8; 8])
        ensures
            bytes@ == be_bytes(*self as nat, 8),
    {
        encode_be(*self)
    }
}

impl Gene<8> for usize {
    /// Where the platform's `usize` is narrower than eight bytes, the high
    /// bytes are dropped.
    fn from_bytes(bytes: [u8; 8]) -> (value: usize)
        ensures
            value as nat == be_value(bytes@) % (usize::MAX as nat + 1),
    {
        let raw: u64 = decode_be(&bytes);
        if raw <= usize::MAX as u64 {
            proof {
                vstd::arithmetic::div_mod::lemma_small_mod(raw as nat, usize::MAX as nat + 1);
            }
            raw as usize
        } else {
            (raw % (usize::MAX as u64 + 1)) as usize
        }
    }

    fn to_bytes(&self) -> (bytes: [u8; 8])
        ensures
            bytes@ == be_bytes(*self as nat, 8),
    {
        encode_be(*self as u64)
    }
}

impl Gene<1> for i8 {
    fn from_bytes(bytes: [u8; 1]) -> (value: i8)
        ensures
            value as int == to_signed(be_value(bytes@), 1),
    {
        let raw: u8 = decode_be(&bytes) as u8;
        proof {
            lemma_capacity_values();
            assert(raw as i8 as int == if raw < 0x80 {
                raw as int
            } else {
                raw as int - 0x100
            }) by (bit_vector);
        }
        raw as i8
    }

    fn to_bytes(&self) -> (bytes: [u8; 1])
        ensures
            bytes@ == be_bytes(to_unsigned(*self as int, 1), 1),
    {
        let value: i8 = *self;
        proof {
            lemma_capacity_values();
            assert(value as u8 as int == if value >= 0 {
                value as int
            } else {
                value as int + 0x100
            }) by (bit_vector);
        }
        encode_be((value as u8) as u64)
    }
}

impl Gene<2> for i16 {
    fn from_bytes(bytes: [u8; 2]) -> (value: i16)
        ensures
            value as int == to_signed(be_value(bytes@), 2),
    {
        let raw: u16 = decode_be(&bytes) as u16;
        proof {
            lemma_capacity_values();
            assert(raw as i16 as int == if raw < 0x8000 {
                raw as int
            } else {
                raw as int - 0x1_0000
            }) by (bit_vector);
        }
        raw as i16
    }

    fn to_bytes(&self) -> (bytes: [u8; 2])
        ensures
            bytes@ == be_bytes(to_unsigned(*self as int, 2), 2),
    {
        let value: i16 = *self;
        proof {
            lemma_capacity_values();
            assert(value as u16 as int == if value >= 0 {
                value as int
            } else {
                value as int + 0x1_0000
            }) by (bit_vector);
        }
        encode_be((value as u16) as u64)
    }
}

impl Gene<4> for i32 {
    fn from_bytes(bytes: [u8; 4]) -> (value: i32)
        ensures
            value as int == to_signed(be_value(bytes@), 4),
    {
        let raw: u32 = decode_be(&bytes) as u32;
        proof {
            lemma_capacity_values();
            assert(raw as i32 as int == if raw < 0x8000_0000 {
                raw as int
            } else {
                raw as int - 0x1_0000_0000
            }) by (bit_vector);
        }
        raw as i32
    }

    fn to_bytes(&self) -> (bytes: [u8; 4])
        ensures
            bytes@ == be_bytes(to_unsigned(*self as int, 4), 4),
    {
        let value: i32 = *self;
        proof {
            lemma_capacity_values();
            assert(value as u32 as int == if value >= 0 {
                value as int
            } else {
                value as int + 0x1_0000_0000
            }) by (bit_vector);
        }
        encode_be((value as u32) as u64)
    }
}

impl Gene<8> for i64 {
    fn from_bytes(bytes: [u8; 8]) -> (value: i64)
        ensures
            value as int == to_signed(be_value(bytes@), 8),
    {
        let raw: u64 = decode_be(&bytes);
        proof {
            lemma_capacity_values();
            assert(raw as i64 as int == if raw < 0x8000_0000_0000_0000 {
                raw as int
            } else {
                raw as int - 0x1_0000_0000_0000_0000
            }) by (bit_vector);
        }
        raw as i64
    }

    fn to_bytes(&self) -> (bytes: [u8; 8])
        ensures
            bytes@ == be_bytes(to_unsigned(*self as int, 8), 8),
    {
        let value: i64 = *self;
        proof {
            lemma_capacity_values();
            assert(value as u64 as int == if value >= 0 {
                value as int
            } else {
                value as int + 0x1_0000_0000_0000_0000
            }) by (bit_vector);
        }
        encode_be(value as u64)
    }
}

/// For the gene type `T`, decoding only ever gives back the value that was
/// encoded.
pub open spec fn gene_round_trips<T: Gene<GS>, const GS: usize>() -> bool {
    forall|value: T, bytes: [u8; GS], decoded: T|
        #![trigger call_ensures(T::to_bytes, (&value,), bytes), call_ensures(T::from_bytes, (bytes,), decoded)]
        call_ensures(T::to_bytes, (&value,), bytes) && call_ensures(
            T::from_bytes,
            (bytes,),
            decoded,
        ) ==> decoded == value
}

/// Every integer type of this module is recovered from its encoding.
pub proof fn law_integers_round_trip()
    ensures
        gene_round_trips::<u8, 1>(),
        gene_round_trips::<u16, 2>(),
        gene_round_trips::<u32, 4>(),
        gene_round_trips::<u64, 8>(),
        gene_round_trips::<usize, 8>(),
        gene_round_trips::<i8, 1>(),
        gene_round_trips::<i16, 2>(),
        gene_round_trips::<i32, 4>(),
        gene_round_trips::<i64, 8>(),
{
    lemma_capacity_values();
    assert forall|value: u8| be_value(be_bytes(value as nat, 1)) == value by {
        law_decode_encode(value as nat, 1);
    }
    assert forall|value: u16| be_value(be_bytes(value as nat, 2)) == value by {
        law_decode_encode(value as nat, 2);
    }
    assert forall|value: u32| be_value(be_bytes(value as nat, 4)) == value by {
        law_decode_encode(value as nat, 4);
    }
    assert forall|value: u64| be_value(be_bytes(value as nat, 8)) == value by {
        law_decode_encode(value as nat, 8);
    }
    assert forall|value: usize| be_value(be_bytes(value as nat, 8)) % (usize::MAX as nat + 1)
        == value by {
        law_decode_encode(value as nat, 8);
        vstd::arithmetic::div_mod::lemma_small_mod(value as nat, usize::MAX as nat + 1);
    }
    assert forall|value: i8|
        to_signed(be_value(be_bytes(to_unsigned(value as int, 1), 1)), 1) == value by {
        law_decode_encode(to_unsigned(value as int, 1), 1);
    }
    assert forall|value: i16|
        to_signed(be_value(be_bytes(to_unsigned(value as int, 2), 2)), 2) == value by {
        law_decode_encode(to_unsigned(value as int, 2), 2);
    }
    assert forall|value: i32|
        to_signed(be_value(be_bytes(to_unsigned(value as int, 4), 4)), 4) == value by {
        law_decode_encode(to_unsigned(value as int, 4), 4);
    }
    assert forall|value: i64|
        to_signed(be_value(be_bytes(to_unsigned(value as int, 8), 8)), 8) == value by {
        law_decode_encode(to_unsigned(value as int, 8), 8);
    }
}

/// Where `usize` is eight bytes wide, every pattern of eight bytes is the
/// encoding of the `usize` that it decodes to. On a narrower `usize` the
/// high bytes of a pattern are dropped, and only the values round-trip.
pub proof fn law_usize_patterns(bytes: Seq<u8>)
    requires
        bytes.len() == 8,
        usize::MAX == u64::MAX,
    ensures
        be_bytes(be_value(bytes) % (usize::MAX as nat + 1), 8) == bytes,
{
    lemma_capacity_values();
    lemma_be_value_bound(bytes);
    law_encode_decode(bytes);
    vstd::arithmetic::div_mod::lemma_small_mod(be_value(bytes), usize::MAX as nat + 1);
}

} // verus!
