//! Big-endian integers on byte sequences.
use vstd::prelude::*;

verus! {

/// The four bytes of `x`, most significant first.
pub open spec fn be_u32(x: u32) -> Seq<u8> {
    seq![
        (x / 0x100_0000) as u8,
        (x / 0x1_0000 % 0x100) as u8,
        (x / 0x100 % 0x100) as u8,
        (x % 0x100) as u8,
    ]
}

/// The value of four bytes, most significant first.
pub open spec fn be_u32_value(s: Seq<u8>) -> u32 {
    (s[0] * 0x100_0000 + s[1] * 0x1_0000 + s[2] * 0x100 + s[3]) as u32
}

/// The eight bytes of `x`, most significant first.
pub open spec fn be_u64(x: u64) -> Seq<u8> {
    be_u32((x / 0x1_0000_0000) as u32) + be_u32((x % 0x1_0000_0000) as u32)
}

/// The value of eight bytes, most significant first.
pub open spec fn be_u64_value(s: Seq<u8>) -> u64 {
    (be_u32_value(s.subrange(0, 4)) * 0x1_0000_0000 + be_u32_value(s.subrange(4, 8))) as u64
}

/// A four-byte integer is recovered from its bytes.
pub proof fn lemma_be_u32(x: u32)
    ensures
        be_u32(x).len() == 4,
        be_u32_value(be_u32(x)) == x,
{
}

/// Four bytes are recovered from their value.
pub proof fn lemma_be_u32_value(s: Seq<u8>)
    requires
        s.len() == 4,
    ensures
        be_u32(be_u32_value(s)) == s,
{
    let (a, b, c, d) = (s[0], s[1], s[2], s[3]);
    let value = be_u32_value(s);
    assert(a * 0x100_0000 + b * 0x1_0000 + c * 0x100 + d <= u32::MAX);
    assert(value == a * 0x100_0000 + b * 0x1_0000 + c * 0x100 + d);
    assert(value / 0x100 == a * 0x1_0000 + b * 0x100 + c);
    assert(value % 0x100 == d);
    assert(value / 0x1_0000 == a * 0x100 + b);
    assert(value / 0x100 % 0x100 == c);
    assert(value / 0x100_0000 == a);
    assert(value / 0x1_0000 % 0x100 == b);
    assert(be_u32(value) =~= s);
}

/// An eight-byte integer is recovered from its bytes.
pub proof fn lemma_be_u64(x: u64)
    ensures
        be_u64(x).len() == 8,
        be_u64_value(be_u64(x)) == x,
{
    lemma_be_u32((x / 0x1_0000_0000) as u32);
    lemma_be_u32((x % 0x1_0000_0000) as u32);
    assert(be_u64(x).subrange(0, 4) =~= be_u32((x / 0x1_0000_0000) as u32));
    assert(be_u64(x).subrange(4, 8) =~= be_u32((x % 0x1_0000_0000) as u32));
}

/// Eight bytes are recovered from their value.
pub proof fn lemma_be_u64_value(s: Seq<u8>)
    requires
        s.len() == 8,
    ensures
        be_u64(be_u64_value(s)) == s,
{
    lemma_be_u32_value(s.subrange(0, 4));
    lemma_be_u32_value(s.subrange(4, 8));
    let high = be_u32_value(s.subrange(0, 4));
    let low = be_u32_value(s.subrange(4, 8));
    assert(high * 0x1_0000_0000 + low <= u64::MAX);
    assert(be_u64_value(s) / 0x1_0000_0000 == high);
    assert(be_u64_value(s) % 0x1_0000_0000 == low);
    assert(be_u64(be_u64_value(s)) =~= s);
}

/// A signed integer is recovered from its two's complement.
pub proof fn lemma_i64_bits(x: i64)
    ensures
        (x as u64) as i64 == x,
{
    assert((x as u64) as i64 == x) by (bit_vector);
}

/// A bit pattern is recovered from the signed integer that it stands for.
pub proof fn lemma_u64_bits(x: u64)
    ensures
        (x as i64) as u64 == x,
{
    assert((x as i64) as u64 == x) by (bit_vector);
}

/// Appends the four big-endian bytes of `value`.
pub(crate) fn push_u32(output: &mut Vec<u8>, value: u32)
    ensures
        final(output)@ == old(output)@ + be_u32(value),
{
    output.push((value / 0x100_0000) as u8);
    output.push((value / 0x1_0000 % 0x100) as u8);
    output.push((value / 0x100 % 0x100) as u8);
    output.push((value % 0x100) as u8);
    assert(output@ =~= old(output)@ + be_u32(value));
}

/// Appends the eight big-endian bytes of `value`.
pub(crate) fn push_u64(output: &mut Vec<u8>, value: u64)
    ensures
        final(output)@ == old(output)@ + be_u64(value),
{
    push_u32(output, (value / 0x1_0000_0000) as u32);
    push_u32(output, (value % 0x1_0000_0000) as u32);
    assert(output@ =~= old(output)@ + be_u64(value));
}

/// Appends the bytes of `value`.
pub(crate) fn push_bytes(output: &mut Vec<u8>, value: &[u8])
    ensures
        final(output)@ == old(output)@ + value@,
{
    output.extend_from_slice(value);
    assert(output@ =~= old(output)@ + value@);
}

/// Reads four big-endian bytes at `offset`.
pub(crate) fn get_u32(input: &[u8], offset: usize) -> (value: u32)
    requires
        offset + 4 <= input@.len(),
    ensures
        value == be_u32_value(input@.subrange(offset as int, offset + 4)),
{
    input[offset] as u32 * 0x100_0000 + input[offset + 1] as u32 * 0x1_0000 + input[offset
        + 2] as u32 * 0x100 + input[offset + 3] as u32
}

/// Reads eight big-endian bytes at `offset`.
pub(crate) fn get_u64(input: &[u8], offset: usize) -> (value: u64)
    requires
        offset + 8 <= input@.len(),
    ensures
        value == be_u64_value(input@.subrange(offset as int, offset + 8)),
{
    assert(input@.len() == input.len());
    let high: u32 = get_u32(input, offset);
    let low: u32 = get_u32(input, offset + 4);
    proof {
        let s = input@.subrange(offset as int, offset + 8);
        assert(s.subrange(0, 4) =~= input@.subrange(offset as int, offset + 4));
        assert(s.subrange(4, 8) =~= input@.subrange(offset + 4, offset + 8));
    }
    high as u64 * 0x1_0000_0000 + low as u64
}

/// Copies the bytes of `input` from `start` to `end`.
pub(crate) fn copy_range(input: &[u8], start: usize, end: usize) -> (copy: Vec<u8>)
    requires
        start <= end <= input@.len(),
    ensures
        copy@ == input@.subrange(start as int, end as int),
{
    vstd::slice::slice_to_vec(vstd::slice::slice_subrange(input, start, end))
}

/// Copies some bytes.
pub(crate) fn copy_bytes(bytes: &[u8]) -> (copy: Vec<u8>)
    ensures
        copy@ == bytes@,
{
    vstd::slice::slice_to_vec(bytes)
}

/// Whether two byte slices hold the same bytes.
pub(crate) fn same_bytes(left: &[u8], right: &[u8]) -> (same: bool)
    ensures
        same == (left@ == right@),
{
    if left.len() != right.len() {
        return false;
    }
    let mut index: usize = 0;
    while index < left.len()
        invariant
            index <= left@.len(),
            left@.len() == right@.len(),
            forall|i: int| 0 <= i < index ==> left@[i] == right@[i],
        decreases left@.len() - index,
    {
        if left[index] != right[index] {
            return false;
        }
        index += 1;
    }
    assert(left@ =~= right@);
    true
}

/// The number that four bytes from a position on stand for, the first byte
/// counting most.
#[verifier::opaque]
pub open spec fn number_at(whole: Seq<u8>, at: int) -> int {
    whole[at] * 0x100_0000 + whole[at + 1] * 0x1_0000 + whole[at + 2] * 0x100 + whole[at + 3]
}

/// The number that eight bytes from a position on stand for, the first byte
/// counting most.
pub open spec fn long_number_at(whole: Seq<u8>, at: int) -> int {
    number_at(whole, at) * 0x1_0000_0000 + number_at(whole, at + 4)
}

/// A piece stands in a sequence from a position on.
#[verifier::opaque]
pub open spec fn stands_at<T>(whole: Seq<T>, at: int, piece: Seq<T>) -> bool {
    0 <= at && at + piece.len() <= whole.len() && whole.subrange(at, at + piece.len()) == piece
}

/// A piece stands in a sequence from a position on, behind four bytes that say how
/// long it is.
pub open spec fn measured_at(whole: Seq<u8>, at: int, piece: Seq<u8>) -> bool {
    number_at(whole, at) == piece.len() && stands_at(whole, at + 4, piece)
}

/// A number of four bytes is written with the byte that counts most in front, and
/// read in the same way.
pub proof fn law_numbers_are_big_endian(x: u32, s: Seq<u8>)
    requires
        s.len() == 4,
    ensures
        be_u32(x).len() == 4,
        number_at(be_u32(x), 0) == x,
        be_u32_value(s) == number_at(s, 0),
{
    reveal(number_at);
    assert(s[0] * 0x100_0000 + s[1] * 0x1_0000 + s[2] * 0x100 + s[3] <= u32::MAX);
}

/// A number of eight bytes is written with the byte that counts most in front, and
/// read in the same way.
pub proof fn law_long_numbers_are_big_endian(x: u64, s: Seq<u8>)
    requires
        s.len() == 8,
    ensures
        be_u64(x).len() == 8,
        long_number_at(be_u64(x), 0) == x,
        be_u64_value(s) == long_number_at(s, 0),
{
    reveal(number_at);
    let high = (x / 0x1_0000_0000) as u32;
    let low = (x % 0x1_0000_0000) as u32;
    law_numbers_are_big_endian(high, s.subrange(0, 4));
    law_numbers_are_big_endian(low, s.subrange(4, 8));
    assert(number_at(be_u64(x), 0) == number_at(be_u32(high), 0));
    assert(number_at(be_u64(x), 4) == number_at(be_u32(low), 0));
    assert(number_at(s.subrange(0, 4), 0) == number_at(s, 0));
    assert(number_at(s.subrange(4, 8), 0) == number_at(s, 4));
}

/// A piece between two others stands where the first ends.
pub proof fn lemma_stands<T>(whole: Seq<T>, front: Seq<T>, piece: Seq<T>, rest: Seq<T>)
    requires
        whole == front + (piece + rest),
    ensures
        stands_at(whole, front.len() as int, piece),
{
    reveal(stands_at);
    let at = front.len() as int;
    assert(whole.subrange(at, at + piece.len()) =~= piece);
}

/// A number between two pieces is found where the first ends.
pub proof fn lemma_number_stands(whole: Seq<u8>, front: Seq<u8>, x: u32, rest: Seq<u8>)
    requires
        whole == front + (be_u32(x) + rest),
    ensures
        number_at(whole, front.len() as int) == x,
{
    reveal(number_at);
    law_numbers_are_big_endian(x, be_u32(x));
    let at = front.len() as int;
    assert forall|k: int| 0 <= k < 4 implies whole[at + k] == #[trigger] be_u32(x)[k] by {}
    assert(whole[at] == be_u32(x)[0]);
    assert(whole[at + 1] == be_u32(x)[1]);
    assert(whole[at + 2] == be_u32(x)[2]);
    assert(whole[at + 3] == be_u32(x)[3]);
}

/// A long number between two pieces is found where the first ends.
pub proof fn lemma_long_number_stands(whole: Seq<u8>, front: Seq<u8>, x: u64, rest: Seq<u8>)
    requires
        whole == front + (be_u64(x) + rest),
    ensures
        long_number_at(whole, front.len() as int) == x,
{
    let high = (x / 0x1_0000_0000) as u32;
    let low = (x % 0x1_0000_0000) as u32;
    assert(whole =~= front + (be_u32(high) + (be_u32(low) + rest)));
    lemma_number_stands(whole, front, high, be_u32(low) + rest);
    assert(whole =~= (front + be_u32(high)) + (be_u32(low) + rest));
    lemma_number_stands(whole, front + be_u32(high), low, rest);
}

/// A piece behind its length, between two others, is found where the first ends.
pub proof fn lemma_measured(whole: Seq<u8>, front: Seq<u8>, piece: Seq<u8>, rest: Seq<u8>)
    requires
        piece.len() <= u32::MAX,
        whole == front + ((be_u32(piece.len() as u32) + piece) + rest),
    ensures
        measured_at(whole, front.len() as int, piece),
{
    let length = be_u32(piece.len() as u32);
    assert(whole =~= front + (length + (piece + rest)));
    lemma_number_stands(whole, front, piece.len() as u32, piece + rest);
    assert(whole =~= (front + length) + (piece + rest));
    lemma_stands(whole, front + length, piece, rest);
}

} // verus!
