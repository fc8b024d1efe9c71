use crate::cursor::Cursor;
use crate::error::{modelled, ProxyError};
use crate::text::{decode_lossy, lossy_text};
use vstd::prelude::*;

verus! {

/// Mask of the seven data bits of a variable-length integer's byte.
pub const SEGMENT_BITS: u8 = 0x7F;

/// The flag that says another byte follows.
pub const CONTINUE_BIT: u8 = 0x80;

/// The outcome of one decoding step at the level of the model: the value or
/// the error, and the position at which the cursor is left.
pub struct Decoded<T> {
    pub result: Result<T, ProxyError>,
    pub next: int,
}

/// Whether a byte announces a further byte of the same integer.
pub open spec fn is_continuation(byte: u8) -> bool {
    byte >= 0x80
}

/// The seven data bits of a byte, as a number.
pub open spec fn payload(byte: u8) -> int {
    byte as int % 0x80
}

/// 128 to the power of `index`: the weight of the group at that index.
pub open spec fn weight(index: nat) -> int
    decreases index,
{
    if index == 0 {
        1
    } else {
        0x80 * weight((index - 1) as nat)
    }
}

/// The number that the groups of seven bits spell, least significant group
/// first, before it is cut to 32 bits.
pub open spec fn group_value(group: Seq<u8>) -> int
    decreases group.len(),
{
    if group.len() == 0 {
        0
    } else {
        payload(group[0]) + 0x80 * group_value(group.drop_first())
    }
}

/// The low 32 bits of `value`, read as a signed integer in two's complement.
pub open spec fn wrap_i32(value: int) -> i32 {
    let low = value % 0x1_0000_0000;
    if low < 0x8000_0000 {
        low as i32
    } else {
        (low - 0x1_0000_0000) as i32
    }
}

/// How many bytes in a row carry the continuation flag, from `pos` on,
/// counting no further than `limit` and not past the end of the buffer.
pub open spec fn continuation_run(bytes: Seq<u8>, pos: int, limit: nat) -> nat
    decreases limit,
{
    if limit == 0 || pos < 0 || pos >= bytes.len() || !is_continuation(bytes[pos]) {
        0
    } else {
        1 + continuation_run(bytes, pos + 1, (limit - 1) as nat)
    }
}

/// A variable-length integer at `pos`. Five bytes hold 35 bits, so a fifth
/// byte that still asks for more is refused; the bits beyond the 32nd of a
/// fifth byte are dropped.
pub open spec fn varint_at(bytes: Seq<u8>, pos: int) -> Decoded<i32> {
    let run = continuation_run(bytes, pos, 5);
    if run >= 5 {
        Decoded { result: Err(ProxyError::VarIntTooLong), next: pos + 5 }
    } else if pos + run >= bytes.len() {
        Decoded { result: Err(ProxyError::UnexpectedEnd), next: bytes.len() as int }
    } else {
        Decoded {
            result: Ok(wrap_i32(group_value(bytes.subrange(pos, pos + run + 1)))),
            next: pos + run + 1,
        }
    }
}

/// An unsigned 16-bit integer at `pos`, most significant byte first.
pub open spec fn ushort_at(bytes: Seq<u8>, pos: int) -> Decoded<u16> {
    if pos + 2 <= bytes.len() {
        Decoded { result: Ok((bytes[pos] * 0x100 + bytes[pos + 1]) as u16), next: pos + 2 }
    } else {
        Decoded { result: Err(ProxyError::UnexpectedEnd), next: bytes.len() as int }
    }
}

/// The number of bytes that a string with the length prefix `prefix` holds:
/// a negative prefix announces none.
pub open spec fn announced_len(prefix: i32) -> int {
    if prefix < 0 {
        0
    } else {
        prefix as int
    }
}

/// A string at `pos`: its length in bytes as a variable-length integer, then
/// that many bytes of text.
pub open spec fn string_at(bytes: Seq<u8>, pos: int) -> Decoded<Seq<char>> {
    let prefix = varint_at(bytes, pos);
    match prefix.result {
        Err(error) => Decoded { result: Err(error), next: prefix.next },
        Ok(length) => {
            let end = prefix.next + announced_len(length);
            if end <= bytes.len() {
                Decoded { result: Ok(lossy_text(bytes.subrange(prefix.next, end))), next: end }
            } else {
                Decoded { result: Err(ProxyError::UnexpectedEnd), next: bytes.len() as int }
            }
        },
    }
}

/// Appending a group adds its data bits at the next weight.
pub proof fn lemma_group_value_push(group: Seq<u8>, byte: u8)
    ensures
        group_value(group.push(byte)) == group_value(group) + payload(byte) * weight(group.len()),
    decreases group.len(),
{
    if group.len() == 0 {
        assert(group.push(byte).drop_first() =~= group);
        assert(group_value(group.push(byte)) == payload(byte) + 0x80 * group_value(group));
    } else {
        let rest = group.drop_first();
        assert(group.push(byte).drop_first() =~= rest.push(byte));
        lemma_group_value_push(rest, byte);
        let w = weight(rest.len());
        assert(weight(group.len()) == 0x80 * w);
        assert(0x80 * (payload(byte) * w) == payload(byte) * (0x80 * w)) by (nonlinear_arith);
    }
}

/// The groups of a sequence spell a number below the weight of the next group.
pub proof fn lemma_group_value_bound(group: Seq<u8>)
    ensures
        0 <= group_value(group) < weight(group.len()),
    decreases group.len(),
{
    if group.len() > 0 {
        lemma_group_value_bound(group.drop_first());
    }
}

/// The weights of the five groups that an integer of 32 bits can have, and of
/// the one after them.
pub proof fn lemma_weights()
    ensures
        weight(0) == 1,
        weight(1) == 0x80,
        weight(2) == 0x4000,
        weight(3) == 0x20_0000,
        weight(4) == 0x1000_0000,
        weight(5) == 0x8_0000_0000,
{
    reveal_with_fuel(weight, 6);
}

/// A run of flagged bytes that ends at `count`, by the limit, by the end of
/// the buffer or by a byte without the flag, has exactly that length.
pub proof fn lemma_continuation_run(bytes: Seq<u8>, pos: int, limit: nat, count: nat)
    requires
        0 <= pos,
        count <= limit,
        pos + count <= bytes.len(),
        forall|j: int| pos <= j < pos + count ==> is_continuation(#[trigger] bytes[j]),
        count == limit || pos + count == bytes.len() || !is_continuation(bytes[pos + count]),
    ensures
        continuation_run(bytes, pos, limit) == count,
    decreases count,
{
    if count > 0 {
        assert(is_continuation(bytes[pos]));
        lemma_continuation_run(bytes, pos + 1, (limit - 1) as nat, (count - 1) as nat);
    }
}

proof fn lemma_flag_bits(byte: u8)
    ensures
        (byte & SEGMENT_BITS) as int == payload(byte),
        (byte & CONTINUE_BIT == 0) <==> !is_continuation(byte),
{
    assert((byte & 0x7F) == byte % 0x80) by (bit_vector);
    assert((byte & 0x80 == 0) <==> byte < 0x80) by (bit_vector);
}

proof fn lemma_merge_group(acc: u32, data: u32, shift: u32)
    requires
        shift == 0 || shift == 7 || shift == 14 || shift == 21 || shift == 28,
        (acc as int) < weight((shift / 7) as nat),
        data < 0x80,
    ensures
        (acc | (data << shift)) as int == (acc + data * weight((shift / 7) as nat)) % 0x1_0000_0000,
{
    lemma_weights();
    if shift == 0 {
        assert(acc < 1 && data < 0x80 ==> (acc | (data << 0u32)) == (acc + data * 1)
            % 0x1_0000_0000) by (bit_vector);
    } else if shift == 7 {
        assert(acc < 0x80 && data < 0x80 ==> (acc | (data << 7u32)) == (acc + data * 0x80)
            % 0x1_0000_0000) by (bit_vector);
    } else if shift == 14 {
        assert(acc < 0x4000 && data < 0x80 ==> (acc | (data << 14u32)) == (acc + data * 0x4000)
            % 0x1_0000_0000) by (bit_vector);
    } else if shift == 21 {
        assert(acc < 0x20_0000 && data < 0x80 ==> (acc | (data << 21u32)) == (acc + data
            * 0x20_0000) % 0x1_0000_0000) by (bit_vector);
    } else {
        assert(acc < 0x1000_0000 && data < 0x80 ==> (acc | (data << 28u32)) == (acc + data
            * 0x1000_0000) % 0x1_0000_0000) by (bit_vector);
    }
}

proof fn lemma_signed_cast(acc: u32)
    ensures
        acc as i32 == wrap_i32(acc as int),
{
    assert(acc < 0x8000_0000 ==> (acc as i32) == acc) by (bit_vector);
    assert(acc >= 0x8000_0000 ==> (acc as i32) == acc - 0x1_0000_0000) by (bit_vector);
}

/// Reads a variable-length integer: seven data bits to the byte, least
/// significant group first, the high bit set on every byte but the last.
pub fn read_varint(reader: &mut Cursor<'_>) -> (r: Result<i32, ProxyError>)
    ensures
        final(reader).buffer() == old(reader).buffer(),
        r == varint_at(old(reader).buffer(), old(reader).position()).result,
        final(reader).position() == varint_at(old(reader).buffer(), old(reader).position()).next,
        0 <= final(reader).position() <= final(reader).buffer().len(),
{
    let ghost bytes = reader.buffer();
    let ghost start = reader.position();
    let ghost mut count: nat = 0;
    let mut acc: u32 = 0;
    let mut shift: u32 = 0;
    proof {
        use_type_invariant(&*reader);
        assert(bytes.subrange(start, start) =~= Seq::<u8>::empty());
    }
    loop
        invariant
            reader.buffer() == bytes,
            bytes == old(reader).buffer(),
            start == old(reader).position(),
            0 <= start,
            reader.position() == start + count,
            start + count <= bytes.len(),
            count <= 4,
            shift == 7 * count,
            forall|j: int| start <= j < start + count ==> is_continuation(#[trigger] bytes[j]),
            acc as int == group_value(bytes.subrange(start, start + count)),
            (acc as int) < weight(count),
        decreases 5 - count,
    {
        let current: u8 = match reader.next_byte() {
            Some(byte) => byte,
            None => {
                proof {
                    lemma_continuation_run(bytes, start, 5, count);
                }
                return Err(ProxyError::UnexpectedEnd);
            },
        };
        let data: u32 = (current & SEGMENT_BITS) as u32;
        let merged: u32 = acc | (data << shift);
        proof {
            lemma_weights();
            lemma_flag_bits(current);
            lemma_merge_group(acc, data, shift);
            lemma_group_value_push(bytes.subrange(start, start + count), current);
            assert(bytes.subrange(start, start + count).push(current) =~= bytes.subrange(
                start,
                start + count + 1,
            ));
            lemma_group_value_bound(bytes.subrange(start, start + count + 1));
        }
        if current & CONTINUE_BIT == 0 {
            proof {
                lemma_continuation_run(bytes, start, 5, count);
                lemma_signed_cast(merged);
            }
            return Ok(#[verifier::truncate] (merged as i32));
        }
        shift = shift + 7;
        proof {
            count = count + 1;
        }
        if shift >= 32 {
            proof {
                lemma_continuation_run(bytes, start, 5, count);
            }
            return Err(ProxyError::VarIntTooLong);
        }
        acc = merged;
    }
}

/// Reads an unsigned 16-bit integer, most significant byte first.
pub fn read_ushort(reader: &mut Cursor<'_>) -> (r: Result<u16, ProxyError>)
    ensures
        final(reader).buffer() == old(reader).buffer(),
        r == ushort_at(old(reader).buffer(), old(reader).position()).result,
        final(reader).position() == ushort_at(old(reader).buffer(), old(reader).position()).next,
        0 <= final(reader).position() <= final(reader).buffer().len(),
{
    let high: u8 = match reader.next_byte() {
        Some(byte) => byte,
        None => {
            return Err(ProxyError::UnexpectedEnd);
        },
    };
    let low: u8 = match reader.next_byte() {
        Some(byte) => byte,
        None => {
            return Err(ProxyError::UnexpectedEnd);
        },
    };
    assert(((high as u16) << 8) | (low as u16) == high * 0x100 + low) by (bit_vector);
    Ok(((high as u16) << 8) | (low as u16))
}

/// Reads a string: its length in bytes as a variable-length integer, then
/// the bytes, decoded as UTF-8 with each invalid sequence replaced.
pub fn read_string(reader: &mut Cursor<'_>) -> (r: Result<String, ProxyError>)
    ensures
        final(reader).buffer() == old(reader).buffer(),
        modelled(r) == string_at(old(reader).buffer(), old(reader).position()).result,
        final(reader).position() == string_at(old(reader).buffer(), old(reader).position()).next,
        0 <= final(reader).position() <= final(reader).buffer().len(),
{
    let length: i32 = match read_varint(reader) {
        Ok(value) => value,
        Err(error) => {
            return Err(error);
        },
    };
    let count: usize = if length < 0 {
        0
    } else {
        length as usize
    };
    match reader.take(count) {
        Some(chunk) => Ok(decode_lossy(chunk)),
        None => {
            reader.exhaust();
            Err(ProxyError::UnexpectedEnd)
        },
    }
}

} // verus!
