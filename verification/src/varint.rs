//! Variable-length integers of the wire protocol.
//!
//! A signed 32-bit integer is taken as its unsigned two's-complement value and
//! written seven bits at a time, least significant group first. Each byte but
//! the last has its top bit set.

use vstd::prelude::*;

verus! {

/// Largest number of bytes that one variable-length integer occupies.
pub const MAX_SIZE: usize = 5;

/// Why a variable-length integer could not be read.
#[derive(Clone, Copy, Debug, PartialEq, Eq, Structural)]
pub enum VarIntDecodeError {
    /// The input ended before a byte without the continuation flag was seen.
    Incomplete,
    /// Five bytes were read and each carried the continuation flag.
    TooLarge,
}

/// The unsigned two's-complement value of `value`.
pub open spec fn unsigned_value(value: i32) -> int {
    if value >= 0 {
        value as int
    } else {
        value + 0x1_0000_0000
    }
}

/// The signed integer whose two's-complement value is `unsigned % 2^32`.
pub open spec fn signed_value(unsigned: int) -> i32 {
    let low = unsigned % 0x1_0000_0000;
    if low < 0x8000_0000 {
        low as i32
    } else {
        (low - 0x1_0000_0000) as i32
    }
}

/// The bytes that stand for the non-negative number `unsigned`.
pub open spec fn encoding(unsigned: int) -> Seq<u8>
    decreases unsigned,
{
    if unsigned < 128 {
        seq![unsigned as u8]
    } else {
        seq![(unsigned % 128 + 128) as u8] + encoding(unsigned / 128)
    }
}

/// The bytes that stand for `value` on the wire.
pub open spec fn varint_bytes(value: i32) -> Seq<u8> {
    encoding(unsigned_value(value))
}

/// The number of bytes in the encoding of `value`.
pub open spec fn encoded_len(value: i32) -> nat {
    let u = unsigned_value(value);
    if u < 0x80 {
        1
    } else if u < 0x4000 {
        2
    } else if u < 0x20_0000 {
        3
    } else if u < 0x1000_0000 {
        4
    } else {
        5
    }
}

/// Whether `byte` announces that another byte follows.
pub open spec fn continues(byte: u8) -> bool {
    byte >= 128
}

/// The seven data bits of `byte`.
pub open spec fn payload(byte: u8) -> int {
    byte as int % 128
}

/// The place value of the group at position `index`: 128 to the power `index`.
pub open spec fn weight(index: int) -> int {
    if index <= 0 {
        1
    } else if index == 1 {
        0x80
    } else if index == 2 {
        0x4000
    } else if index == 3 {
        0x20_0000
    } else {
        0x1000_0000
    }
}

/// The number made of the data bits of the first `count` bytes.
pub open spec fn groups_value(bytes: Seq<u8>, count: int) -> int
    decreases count,
{
    if count <= 0 {
        0
    } else {
        groups_value(bytes, count - 1) + payload(bytes[count - 1]) * weight(count - 1)
    }
}

/// What reading a variable-length integer gives when the bytes before `index`
/// all carry the continuation flag.
pub open spec fn decoded_from(bytes: Seq<u8>, index: int) -> Result<(i32, nat), VarIntDecodeError>
    decreases 5 - index,
{
    if index >= 5 {
        Err(VarIntDecodeError::TooLarge)
    } else if index >= bytes.len() {
        Err(VarIntDecodeError::Incomplete)
    } else if index >= 0 && continues(bytes[index]) {
        decoded_from(bytes, index + 1)
    } else {
        Ok((signed_value(groups_value(bytes, index + 1)), (index + 1) as nat))
    }
}

/// What reading a variable-length integer from the front of `bytes` gives: the
/// value with the number of bytes it took, or the reason why none was read.
pub open spec fn decoded(bytes: Seq<u8>) -> Result<(i32, nat), VarIntDecodeError> {
    decoded_from(bytes, 0)
}

/// The unsigned two's-complement value of `value`.
pub fn to_unsigned(value: i32) -> (unsigned: u32)
    ensures
        unsigned == unsigned_value(value),
{
    if value >= 0 {
        value as u32
    } else {
        (value as i64 + 0x1_0000_0000) as u32
    }
}

/// The signed integer whose two's-complement value is the low 32 bits of
/// `unsigned`.
pub fn to_signed(unsigned: u64) -> (value: i32)
    ensures
        value == signed_value(unsigned as int),
{
    let low: u64 = unsigned % 0x1_0000_0000;
    if low < 0x8000_0000 {
        low as i32
    } else {
        (low as i64 - 0x1_0000_0000) as i32
    }
}

fn weight_of(index: usize) -> (w: u64)
    requires
        index < 5,
    ensures
        w == weight(index as int),
{
    if index == 0 {
        1
    } else if index == 1 {
        0x80
    } else if index == 2 {
        0x4000
    } else if index == 3 {
        0x20_0000
    } else {
        0x1000_0000
    }
}

/// The number of bytes that `encode` writes for `value`.
pub fn written_size(value: i32) -> (size: usize)
    ensures
        size == encoded_len(value),
        size == varint_bytes(value).len(),
        1 <= size <= 5,
{
    proof {
        lemma_encoding_len(value);
    }
    let u = to_unsigned(value);
    if u < 0x80 {
        1
    } else if u < 0x4000 {
        2
    } else if u < 0x20_0000 {
        3
    } else if u < 0x1000_0000 {
        4
    } else {
        5
    }
}

/// Appends the encoding of `value` to `out`.
pub fn encode(value: i32, out: &mut Vec<u8>)
    ensures
        final(out)@ == old(out)@ + varint_bytes(value),
{
    let mut rest: u32 = to_unsigned(value);
    while rest >= 128
        invariant
            out@ + encoding(rest as int) == old(out)@ + varint_bytes(value),
        decreases rest,
    {
        let ghost before = out@;
        out.push((rest % 128 + 128) as u8);
        proof {
            assert(encoding(rest as int) == seq![(rest % 128 + 128) as u8] + encoding(
                rest as int / 128,
            ));
            assert(out@ + encoding(rest as int / 128) == before + encoding(rest as int));
        }
        rest = rest / 128;
    }
    let ghost before = out@;
    out.push(rest as u8);
    proof {
        assert(out@ == before + encoding(rest as int));
    }
}

/// Reads one variable-length integer from the front of `bytes`. Gives the value
/// and the number of bytes it took.
pub fn decode_partial(bytes: &[u8]) -> (r: Result<(i32, usize), VarIntDecodeError>)
    ensures
        match decoded(bytes@) {
            Ok((value, consumed)) => r == Ok::<(i32, usize), VarIntDecodeError>(
                (value, consumed as usize),
            ) && 1 <= consumed <= 5 && consumed <= bytes@.len(),
            Err(e) => r == Err::<(i32, usize), VarIntDecodeError>(e),
        },
{
    let mut total: u64 = 0;
    let mut index: usize = 0;
    while index < MAX_SIZE
        invariant
            index <= 5,
            decoded(bytes@) == decoded_from(bytes@, index as int),
            total == groups_value(bytes@, index as int),
            total < weight(index as int) || index == 5,
            index == 5 ==> total < 0x8_0000_0000,
        decreases 5 - index,
    {
        if index >= bytes.len() {
            return Err(VarIntDecodeError::Incomplete);
        }
        let byte: u8 = bytes[index];
        let group: u64 = (byte % 128) as u64;
        let w = weight_of(index);
        assert(group * w <= 127 * w) by (nonlinear_arith)
            requires
                group <= 127,
                w >= 0,
        ;
        total = total + group * w;
        index = index + 1;
        if byte < 128 {
            return Ok((to_signed(total), index));
        }
    }
    Err(VarIntDecodeError::TooLarge)
}

/// The encoding of a number below 2^32 has the length that the thresholds say,
/// between one and five bytes.
pub proof fn lemma_encoding_len(value: i32)
    ensures
        varint_bytes(value).len() == encoded_len(value),
        1 <= encoded_len(value) <= 5,
{
    let u = unsigned_value(value);
    reveal_with_fuel(encoding, 6);
    if u >= 0x80 {
        let u1 = u / 128;
        if u1 >= 0x80 {
            let u2 = u1 / 128;
            if u2 >= 0x80 {
                let u3 = u2 / 128;
                if u3 >= 0x80 {
                    let u4 = u3 / 128;
                    assert(u4 < 0x80);
                }
            }
        }
    }
}

/// Every byte of an encoding but the last carries the continuation flag, and
/// the data bits of its bytes add up to the number encoded.
proof fn lemma_encoding_shape(unsigned: int)
    requires
        0 <= unsigned < 0x1_0000_0000,
    ensures
        ({
            let e = encoding(unsigned);
            &&& 1 <= e.len() <= 5
            &&& forall|i: int| 0 <= i < e.len() - 1 ==> continues(#[trigger] e[i])
            &&& !continues(e[e.len() - 1])
            &&& groups_value(e, e.len() as int) == unsigned
        }),
{
    reveal_with_fuel(encoding, 6);
    reveal_with_fuel(groups_value, 6);
    let e = encoding(unsigned);
    let u0 = unsigned;
    if u0 >= 0x80 {
        let u1 = u0 / 128;
        assert(e[0] == (u0 % 128 + 128) as u8);
        assert(payload(e[0]) == u0 % 128);
        if u1 >= 0x80 {
            let u2 = u1 / 128;
            assert(e[1] == (u1 % 128 + 128) as u8);
            assert(payload(e[1]) == u1 % 128);
            if u2 >= 0x80 {
                let u3 = u2 / 128;
                assert(e[2] == (u2 % 128 + 128) as u8);
                assert(payload(e[2]) == u2 % 128);
                if u3 >= 0x80 {
                    let u4 = u3 / 128;
                    assert(u4 < 0x80);
                    assert(e[3] == (u3 % 128 + 128) as u8);
                    assert(payload(e[3]) == u3 % 128);
                    assert(e[4] == u4 as u8);
                    assert(e.len() == 5);
                } else {
                    assert(e[3] == u3 as u8);
                    assert(e.len() == 4);
                }
            } else {
                assert(e[2] == u2 as u8);
                assert(e.len() == 3);
            }
        } else {
            assert(e[1] == u1 as u8);
            assert(e.len() == 2);
        }
    } else {
        assert(e[0] == u0 as u8);
        assert(e.len() == 1);
    }
}

/// The value of the first groups of a sequence does not depend on what follows
/// them.
proof fn lemma_groups_value_prefix(a: Seq<u8>, b: Seq<u8>, count: int)
    requires
        count <= a.len(),
        count <= b.len(),
        forall|i: int| 0 <= i < count ==> a[i] == b[i],
    ensures
        groups_value(a, count) == groups_value(b, count),
    decreases count,
{
    if count > 0 {
        lemma_groups_value_prefix(a, b, count - 1);
    }
}

/// Reading goes past bytes that carry the continuation flag.
proof fn lemma_decoded_skips(bytes: Seq<u8>, index: int)
    requires
        0 <= index <= 5,
        index <= bytes.len(),
        forall|i: int| 0 <= i < index ==> continues(#[trigger] bytes[i]),
    ensures
        decoded(bytes) == decoded_from(bytes, index),
    decreases index,
{
    if index > 0 {
        lemma_decoded_skips(bytes, index - 1);
    }
}

/// Round trip: reading the encoding of `value`, whatever bytes follow it, gives
/// `value` back and takes exactly the bytes that were written for it.
pub proof fn lemma_decode_encode(value: i32, rest: Seq<u8>)
    ensures
        decoded(varint_bytes(value) + rest) == Ok::<(i32, nat), VarIntDecodeError>(
            (value, encoded_len(value)),
        ),
        varint_bytes(value).len() == encoded_len(value),
        1 <= encoded_len(value) <= 5,
{
    let u = unsigned_value(value);
    let e = varint_bytes(value);
    let s = e + rest;
    lemma_encoding_len(value);
    lemma_encoding_shape(u);
    let last = e.len() - 1;
    assert forall|i: int| 0 <= i < last implies continues(#[trigger] s[i]) by {
        assert(s[i] == e[i]);
    }
    lemma_decoded_skips(s, last);
    assert(s[last] == e[last]);
    lemma_groups_value_prefix(s, e, last + 1);
    assert(signed_value(u) == value);
}

/// A value that was read stays the same when more bytes arrive behind it, and
/// so does the finding that the integer is too large.
pub proof fn lemma_decoded_stable(bytes: Seq<u8>, more: Seq<u8>)
    requires
        decoded(bytes) != Err::<(i32, nat), VarIntDecodeError>(VarIntDecodeError::Incomplete),
    ensures
        decoded(bytes + more) == decoded(bytes),
{
    lemma_decoded_from_stable(bytes, more, 0);
}

proof fn lemma_decoded_from_stable(bytes: Seq<u8>, more: Seq<u8>, index: int)
    requires
        0 <= index <= 5,
        decoded_from(bytes, index) != Err::<(i32, nat), VarIntDecodeError>(
            VarIntDecodeError::Incomplete,
        ),
    ensures
        decoded_from(bytes + more, index) == decoded_from(bytes, index),
    decreases 5 - index,
{
    let s = bytes + more;
    if index < 5 && index < bytes.len() {
        assert(s[index] == bytes[index]);
        if continues(bytes[index]) {
            lemma_decoded_from_stable(bytes, more, index + 1);
        } else {
            lemma_groups_value_prefix(s, bytes, index + 1);
        }
    }
}

/// What a successful read says of the bytes: it took between one and five of
/// them, and no more than there are.
pub proof fn lemma_decoded_bounds(bytes: Seq<u8>)
    ensures
        decoded(bytes) matches Ok((_, consumed)) ==> 1 <= consumed <= 5 && consumed <= bytes.len(),
{
    reveal_with_fuel(decoded_from, 6);
}

} // verus!
