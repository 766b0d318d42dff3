//! Placing bytes into the pixels of an image, and finding them again.
use png::{BitDepth, ColorType, Decoder, Encoder, Transformations};
use vstd::prelude::*;

use crate::bytes;
use crate::bytes::get_u32;

verus! {

/// Decoded carrier pixels used by the PNG adapter and future media adapters.
#[derive(Clone, Debug, PartialEq, Eq)]
pub struct RgbaImage {
    pub width: u32,
    pub height: u32,
    pub pixels: Vec<u8>,
}

/// Why a carrier cannot be used.
#[derive(Clone, Copy, Debug, PartialEq, Eq, Structural)]
pub enum CarrierError {
    /// The payload needs more bytes than the carrier has room for.
    PayloadTooLarge { needed: usize, capacity: usize },
    /// More bytes are asked for than the carrier has room for.
    LengthTooLarge,
    /// Two images do not have the same dimensions.
    DimensionMismatch,
    /// The window is too small, or the carrier is too small for it.
    InvalidWindow,
    /// The file is no PNG.
    InvalidPng,
    /// The colours of the PNG are not red, green and blue.
    UnsupportedColor,
    /// The image cannot be written.
    Encoding,
}

/// Boundary between the authenticated protocol envelope and a media carrier.
///
/// The protocol produces opaque bytes. A carrier adapter is responsible only
/// for placing those bytes into, and recovering them from, a carrier.
pub trait CarrierAdapter {
    fn capacity_bytes(&self, carrier: &RgbaImage) -> usize;

    fn embed(&self, carrier: &mut RgbaImage, payload: &[u8]) -> Result<(), CarrierError>;

    fn extract(&self, carrier: &RgbaImage, length: usize) -> Result<Vec<u8>, CarrierError>;
}

/// Initial lossless image adapter. Additional adapters can support GIF, audio,
/// or video without changing the protocol envelope API.
pub struct PngCarrier;

// ---------------------------------------------------------------------------
// Bits
// ---------------------------------------------------------------------------

/// What a bit of a byte is worth, the first being worth most.
pub open spec fn weight(index: int) -> int {
    if index == 0 {
        128
    } else if index == 1 {
        64
    } else if index == 2 {
        32
    } else if index == 3 {
        16
    } else if index == 4 {
        8
    } else if index == 5 {
        4
    } else if index == 6 {
        2
    } else {
        1
    }
}

/// A bit of a byte.
pub open spec fn bit_of(byte: u8, index: int) -> u8 {
    ((byte as int / weight(index)) % 2) as u8
}

/// The bits of some bytes.
pub open spec fn bits_of(bytes: Seq<u8>) -> Seq<u8> {
    Seq::new(bytes.len() * 8, |k: int| bit_of(bytes[k / 8], k % 8))
}

/// The byte that eight bits make.
pub open spec fn byte_at(bits: Seq<u8>, from: int) -> u8 {
    (128 * bits[from] + 64 * bits[from + 1] + 32 * bits[from + 2] + 16 * bits[from + 3] + 8
        * bits[from + 4] + 4 * bits[from + 5] + 2 * bits[from + 6] + bits[from + 7]) as u8
}

/// The bytes that bits make, those that make no whole byte being left out.
pub open spec fn bytes_of(bits: Seq<u8>) -> Seq<u8> {
    Seq::new(bits.len() / 8, |j: int| byte_at(bits, 8 * j))
}

/// Whether every number is a bit.
pub open spec fn all_bits(bits: Seq<u8>) -> bool {
    forall|k: int| 0 <= k < bits.len() ==> #[trigger] bits[k] <= 1
}

fn weight_of(index: usize) -> (result: u8)
    requires
        index < 8,
    ensures
        result == weight(index as int),
        result > 0,
{
    match index {
        0 => 128,
        1 => 64,
        2 => 32,
        3 => 16,
        4 => 8,
        5 => 4,
        6 => 2,
        _ => 1,
    }
}

/// The bits of some bytes, the first of every byte being worth most.
pub fn bits_from_bytes(bytes: &[u8]) -> (bits: Vec<u8>)
    requires
        bytes@.len() * 8 <= usize::MAX,
    ensures
        bits@ == bits_of(bytes@),
{
    let mut bits: Vec<u8> = Vec::new();
    let count: usize = bytes.len() * 8;
    let mut index: usize = 0;
    while index < count
        invariant
            count == bytes@.len() * 8,
            index <= count,
            bits@ == bits_of(bytes@).take(index as int),
        decreases count - index,
    {
        let byte: u8 = bytes[index / 8];
        let bit: u8 = (byte / weight_of(index % 8)) % 2;
        bits.push(bit);
        assert(bits@ =~= bits_of(bytes@).take(index + 1));
        index += 1;
    }
    assert(bits_of(bytes@).take(index as int) =~= bits_of(bytes@));
    bits
}

/// The bytes that bits make.
pub fn bytes_from_bits(bits: &[u8]) -> (bytes: Vec<u8>)
    requires
        all_bits(bits@),
    ensures
        bytes@ == bytes_of(bits@),
{
    let mut bytes: Vec<u8> = Vec::new();
    let count: usize = bits.len() / 8;
    let mut index: usize = 0;
    while index < count
        invariant
            all_bits(bits@),
            count == bits@.len() / 8,
            bits@.len() == bits.len(),
            index <= count,
            bytes@ == bytes_of(bits@).take(index as int),
        decreases count - index,
    {
        let from: usize = index * 8;
        assert(from + 8 <= bits.len());
        assert(bits@[from as int] <= 1 && bits@[from + 1] <= 1 && bits@[from + 2] <= 1 && bits@[from
            + 3] <= 1 && bits@[from + 4] <= 1 && bits@[from + 5] <= 1 && bits@[from + 6] <= 1
            && bits@[from + 7] <= 1);
        let value: u8 = 128 * bits[from] + 64 * bits[from + 1] + 32 * bits[from + 2] + 16 * bits[from + 3]
            + 8 * bits[from + 4] + 4 * bits[from + 5] + 2 * bits[from + 6] + bits[from + 7];
        bytes.push(value);
        assert(bytes@ =~= bytes_of(bits@).take(index + 1));
        index += 1;
    }
    assert(bytes_of(bits@).take(index as int) =~= bytes_of(bits@));
    bytes
}

proof fn lemma_byte_of_bits(byte: u8)
    ensures
        byte as int == 128 * bit_of(byte, 0) + 64 * bit_of(byte, 1) + 32 * bit_of(byte, 2) + 16
            * bit_of(byte, 3) + 8 * bit_of(byte, 4) + 4 * bit_of(byte, 5) + 2 * bit_of(byte, 6)
            + bit_of(byte, 7),
{
    let b = byte as int;
    assert(b / 2 == 2 * (b / 4) + (b / 2) % 2);
    assert(b / 4 == 2 * (b / 8) + (b / 4) % 2);
    assert(b / 8 == 2 * (b / 16) + (b / 8) % 2);
    assert(b / 16 == 2 * (b / 32) + (b / 16) % 2);
    assert(b / 32 == 2 * (b / 64) + (b / 32) % 2);
    assert(b / 64 == 2 * (b / 128) + (b / 64) % 2);
    assert(b / 128 == (b / 128) % 2);
}

/// Bytes are found again in their bits.
pub proof fn law_bits_round_trip(bytes: Seq<u8>)
    ensures
        all_bits(bits_of(bytes)),
        bytes_of(bits_of(bytes)) == bytes,
{
    let bits = bits_of(bytes);
    assert forall|j: int| 0 <= j < bytes.len() implies byte_at(bits, 8 * j) == bytes[j] by {
        lemma_byte_of_bits(bytes[j]);
        assert((8 * j) / 8 == j && (8 * j) % 8 == 0);
        assert((8 * j + 1) / 8 == j && (8 * j + 1) % 8 == 1);
        assert((8 * j + 2) / 8 == j && (8 * j + 2) % 8 == 2);
        assert((8 * j + 3) / 8 == j && (8 * j + 3) % 8 == 3);
        assert((8 * j + 4) / 8 == j && (8 * j + 4) % 8 == 4);
        assert((8 * j + 5) / 8 == j && (8 * j + 5) % 8 == 5);
        assert((8 * j + 6) / 8 == j && (8 * j + 6) % 8 == 6);
        assert((8 * j + 7) / 8 == j && (8 * j + 7) % 8 == 7);
    }
    assert(bytes_of(bits) =~= bytes);
}

// ---------------------------------------------------------------------------
// Pixels
// ---------------------------------------------------------------------------

/// How many colour channels the whole pixels of an image have; the fourth byte of a
/// pixel is none.
pub open spec fn channel_count(length: int) -> int {
    length / 4 * 3
}

/// Where a colour channel is.
#[verifier::opaque]
pub open spec fn channel_at(k: int) -> int {
    k / 3 * 4 + k % 3
}

/// How many bytes an image has room for.
pub open spec fn capacity(length: int) -> int {
    channel_count(length) / 8
}

/// The least significant bits of the colour channels of an image.
pub open spec fn channel_bits(pixels: Seq<u8>) -> Seq<u8> {
    Seq::new(channel_count(pixels.len() as int) as nat, |k: int| pixels[channel_at(k)] % 2)
}

/// A byte with another least significant bit.
pub open spec fn with_bit(byte: u8, bit: u8) -> u8 {
    (byte - byte % 2 + bit) as u8
}

/// Which colour channel a byte of an image is, unless it is the fourth of its pixel.
#[verifier::opaque]
pub open spec fn channel_number(position: int) -> int {
    position / 4 * 3 + position % 4
}

/// An image with bits in its first colour channels.
pub open spec fn embedded(pixels: Seq<u8>, bits: Seq<u8>) -> Seq<u8> {
    Seq::new(
        pixels.len(),
        |position: int|
            if position % 4 < 3 && channel_number(position) < bits.len() {
                with_bit(pixels[position], bits[channel_number(position)])
            } else {
                pixels[position]
            },
    )
}

proof fn lemma_channel(k: int)
    requires
        0 <= k,
    ensures
        channel_number(channel_at(k)) == k,
        channel_at(k) % 4 < 3,
        channel_at(k) >= 0,
{
    reveal(channel_at);
    reveal(channel_number);
}

proof fn lemma_channel_back(position: int)
    requires
        0 <= position,
        position % 4 < 3,
    ensures
        channel_at(channel_number(position)) == position,
        channel_number(position) >= 0,
{
    reveal(channel_at);
    reveal(channel_number);
}

proof fn lemma_channel_in(k: int, length: int)
    requires
        0 <= length,
        0 <= k < channel_count(length),
    ensures
        0 <= channel_at(k) < length,
        channel_at(k) == k / 3 * 4 + k % 3,
{
    reveal(channel_at);
}

proof fn lemma_capacity(length: int)
    requires
        0 <= length,
    ensures
        0 <= capacity(length) * 8 <= channel_count(length) <= length,
{
}

proof fn lemma_with_bit(byte: u8, bit: u8)
    requires
        bit <= 1,
    ensures
        with_bit(byte, bit) % 2 == bit,
        with_bit(byte, bit) / 2 == byte / 2,
        with_bit(byte, bit) == byte - byte % 2 + bit,
{
}

proof fn lemma_embedded_none(pixels: Seq<u8>)
    ensures
        embedded(pixels, Seq::empty()) == pixels,
{
    let image = embedded(pixels, Seq::empty());
    assert forall|p: int| 0 <= p < pixels.len() implies image[p] == pixels[p] by {
        if p % 4 < 3 {
            lemma_channel_back(p);
        }
    }
    assert(image =~= pixels);
}

proof fn lemma_embedded_next(pixels: Seq<u8>, bits: Seq<u8>, index: int)
    requires
        0 <= index < bits.len(),
        bits.len() <= channel_count(pixels.len() as int),
        all_bits(bits),
    ensures
        0 <= channel_at(index) < pixels.len(),
        embedded(pixels, bits.take(index))[channel_at(index)] == pixels[channel_at(index)],
        embedded(pixels, bits.take(index + 1)) == embedded(pixels, bits.take(index)).update(
            channel_at(index),
            with_bit(pixels[channel_at(index)], bits[index]),
        ),
{
    lemma_channel_in(index, pixels.len() as int);
    lemma_channel(index);
    let at = channel_at(index);
    let before = embedded(pixels, bits.take(index));
    let after = embedded(pixels, bits.take(index + 1));
    let updated = before.update(at, with_bit(pixels[at], bits[index]));
    assert forall|p: int| 0 <= p < pixels.len() implies after[p] == updated[p] by {
        if p % 4 < 3 {
            lemma_channel_back(p);
            if channel_number(p) < index {
                assert(bits.take(index)[channel_number(p)] == bits.take(index + 1)[channel_number(
                    p,
                )]);
            }
        }
    }
    assert(after =~= updated);
}

impl CarrierAdapter for PngCarrier {
    fn capacity_bytes(&self, carrier: &RgbaImage) -> (bytes: usize)
        ensures
            bytes == capacity(carrier.pixels@.len() as int),
    {
        carrier.pixels.len() / 4 * 3 / 8
    }

    fn embed(&self, carrier: &mut RgbaImage, payload: &[u8]) -> (result: Result<(), CarrierError>)
        ensures
            final(carrier).width == old(carrier).width,
            final(carrier).height == old(carrier).height,
            if payload@.len() > capacity(old(carrier).pixels@.len() as int) {
                &&& result == Err::<(), CarrierError>(
                    CarrierError::PayloadTooLarge {
                        needed: payload@.len() as usize,
                        capacity: capacity(old(carrier).pixels@.len() as int) as usize,
                    },
                )
                &&& final(carrier).pixels@ == old(carrier).pixels@
            } else {
                &&& result == Ok::<(), CarrierError>(())
                &&& final(carrier).pixels@ == embedded(old(carrier).pixels@, bits_of(payload@))
            },
    {
        let room: usize = self.capacity_bytes(carrier);
        if payload.len() > room {
            return Err(CarrierError::PayloadTooLarge { needed: payload.len(), capacity: room });
        }
        let ghost pixels = carrier.pixels@;
        proof {
            lemma_capacity(pixels.len() as int);
            law_bits_round_trip(payload@);
        }
        assert(carrier.pixels@.len() == carrier.pixels.len());
        let bits = bits_from_bytes(payload);
        let mut index: usize = 0;
        proof {
            assert(bits@.take(0) =~= Seq::empty());
            lemma_embedded_none(pixels);
        }
        while index < bits.len()
            invariant
                index <= bits@.len(),
                all_bits(bits@),
                bits@.len() <= channel_count(pixels.len() as int),
                pixels.len() <= usize::MAX,
                carrier.width == old(carrier).width,
                carrier.height == old(carrier).height,
                carrier.pixels@ == embedded(pixels, bits@.take(index as int)),
            decreases bits@.len() - index,
        {
            proof {
                lemma_channel_in(index as int, pixels.len() as int);
                lemma_embedded_next(pixels, bits@, index as int);
                lemma_with_bit(
                    pixels[channel_at(index as int)],
                    bits@[index as int],
                );
            }
            let position: usize = index / 3 * 4 + index % 3;
            let byte: u8 = carrier.pixels[position];
            let marked: u8 = byte - byte % 2 + bits[index];
            carrier.pixels.set(position, marked);
            index += 1;
        }
        assert(bits@.take(index as int) =~= bits@);
        Ok(())
    }

    fn extract(&self, carrier: &RgbaImage, length: usize) -> (result: Result<Vec<u8>, CarrierError>)
        ensures
            if length > capacity(carrier.pixels@.len() as int) {
                result == Err::<Vec<u8>, CarrierError>(CarrierError::LengthTooLarge)
            } else {
                result matches Ok(payload) && payload@ == bytes_of(
                    channel_bits(carrier.pixels@).take(length * 8),
                )
            },
    {
        if length > self.capacity_bytes(carrier) {
            return Err(CarrierError::LengthTooLarge);
        }
        assert(carrier.pixels@.len() == carrier.pixels.len());
        proof {
            lemma_capacity(carrier.pixels@.len() as int);
        }
        let count: usize = length * 8;
        let bits = first_bits(carrier, count);
        Ok(bytes_from_bits(bits.as_slice()))
    }
}

fn first_bits(carrier: &RgbaImage, count: usize) -> (bits: Vec<u8>)
    requires
        count <= channel_count(carrier.pixels@.len() as int),
    ensures
        bits@ == channel_bits(carrier.pixels@).take(count as int),
        all_bits(bits@),
{
    let mut bits: Vec<u8> = Vec::new();
    let mut index: usize = 0;
    assert(carrier.pixels@.len() == carrier.pixels.len());
    while index < count
        invariant
            index <= count <= channel_count(carrier.pixels@.len() as int),
            carrier.pixels@.len() <= usize::MAX,
            bits@ == channel_bits(carrier.pixels@).take(index as int),
            all_bits(bits@),
        decreases count - index,
    {
        proof {
            lemma_channel_in(index as int, carrier.pixels@.len() as int);
        }
        let position: usize = index / 3 * 4 + index % 3;
        bits.push(carrier.pixels[position] % 2);
        assert(bits@ =~= channel_bits(carrier.pixels@).take(index + 1));
        index += 1;
    }
    bits
}

/// Each bit that was placed into a carrier is found at its place.
proof fn lemma_found_bit(pixels: Seq<u8>, bits: Seq<u8>, k: int)
    requires
        0 <= k < bits.len() <= channel_count(pixels.len() as int),
        bits[k] <= 1,
    ensures
        channel_bits(embedded(pixels, bits))[k] == bits[k],
{
    lemma_channel_in(k, pixels.len() as int);
    lemma_channel(k);
    lemma_with_bit(pixels[channel_at(k)], bits[k]);
    assert(embedded(pixels, bits)[channel_at(k)] == with_bit(pixels[channel_at(k)], bits[k]));
}

/// What was placed into a carrier is found in it again.
pub proof fn law_embedded_payload_is_extracted(pixels: Seq<u8>, payload: Seq<u8>)
    requires
        payload.len() <= capacity(pixels.len() as int),
    ensures
        bytes_of(
            channel_bits(embedded(pixels, bits_of(payload))).take((payload.len() * 8) as int),
        ) == payload,
{
    let bits = bits_of(payload);
    law_bits_round_trip(payload);
    lemma_capacity(pixels.len() as int);
    let all = channel_bits(embedded(pixels, bits));
    let found = all.take((payload.len() * 8) as int);
    assert forall|k: int| 0 <= k < bits.len() implies all[k] == bits[k] by {
        lemma_found_bit(pixels, bits, k);
    }
    assert(found =~= bits);
}

/// A carrier looks the same: but for the least significant bits of its colours,
/// nothing in it changes.
pub proof fn law_embedding_changes_only_low_bits(pixels: Seq<u8>, payload: Seq<u8>)
    ensures
        embedded(pixels, bits_of(payload)).len() == pixels.len(),
        forall|p: int|
            0 <= p < pixels.len() ==> (#[trigger] embedded(pixels, bits_of(payload))[p]) / 2
                == pixels[p] / 2,
        forall|p: int|
            0 <= p < pixels.len() && p % 4 == 3 ==> (#[trigger] embedded(
                pixels,
                bits_of(payload),
            )[p]) == pixels[p],
{
    let bits = bits_of(payload);
    let image = embedded(pixels, bits);
    law_bits_round_trip(payload);
    assert forall|p: int| 0 <= p < pixels.len() implies (#[trigger] image[p]) / 2 == pixels[p]
        / 2 by {
        if p % 4 < 3 && channel_number(p) < bits.len() {
            lemma_channel_back(p);
            lemma_with_bit(pixels[p], bits[channel_number(p)]);
        }
    }
}

// ---------------------------------------------------------------------------
// Detection
// ---------------------------------------------------------------------------

/// How many of the first channels of two images have different low bits.
pub open spec fn changed_bits(left: Seq<u8>, right: Seq<u8>, count: int) -> nat
    decreases count,
{
    if count <= 0 {
        0
    } else {
        changed_bits(left, right, count - 1) + (if left[channel_at(count - 1)] % 2
            != right[channel_at(count - 1)] % 2 {
            1nat
        } else {
            0nat
        })
    }
}

/// How many channels two images have in common.
pub open spec fn common_channels(left: Seq<u8>, right: Seq<u8>) -> int {
    if left.len() <= right.len() {
        channel_count(left.len() as int)
    } else {
        channel_count(right.len() as int)
    }
}

/// Compares the least significant bits of two images of the same dimensions.
pub fn changed_lsb_count(reference: &RgbaImage, candidate: &RgbaImage) -> (result: Result<
    usize,
    CarrierError,
>)
    ensures
        if reference.width != candidate.width || reference.height != candidate.height {
            result == Err::<usize, CarrierError>(CarrierError::DimensionMismatch)
        } else {
            result matches Ok(count) && count == changed_bits(
                reference.pixels@,
                candidate.pixels@,
                common_channels(reference.pixels@, candidate.pixels@),
            )
        },
{
    if reference.width != candidate.width || reference.height != candidate.height {
        return Err(CarrierError::DimensionMismatch);
    }
    let shorter: usize = if reference.pixels.len() <= candidate.pixels.len() {
        reference.pixels.len()
    } else {
        candidate.pixels.len()
    };
    let count: usize = shorter / 4 * 3;
    let mut changed: usize = 0;
    let mut index: usize = 0;
    while index < count
        invariant
            index <= count,
            count == channel_count(shorter as int),
            shorter <= reference.pixels@.len(),
            shorter <= candidate.pixels@.len(),
            changed <= index,
            changed == changed_bits(reference.pixels@, candidate.pixels@, index as int),
        decreases count - index,
    {
        proof {
            lemma_channel_in(index as int, shorter as int);
        }
        let position: usize = index / 3 * 4 + index % 3;
        if reference.pixels[position] % 2 != candidate.pixels[position] % 2 {
            changed += 1;
        }
        index += 1;
    }
    Ok(changed)
}

proof fn lemma_changed_by(left: Seq<u8>, right: Seq<u8>, count: int, k: int)
    requires
        0 <= k < count,
        left[channel_at(k)] % 2 != right[channel_at(k)] % 2,
    ensures
        changed_bits(left, right, count) > 0,
    decreases count,
{
    if k < count - 1 {
        lemma_changed_by(left, right, count - 1, k);
    }
}

/// An image does not differ from itself, and one that differs in a low bit is
/// noticed.
pub proof fn law_detector_notices_changes(left: Seq<u8>, right: Seq<u8>, k: int)
    requires
        left.len() == right.len(),
        0 <= k < common_channels(left, right),
        left[channel_at(k)] % 2 != right[channel_at(k)] % 2,
    ensures
        changed_bits(left, right, common_channels(left, right)) > 0,
        changed_bits(left, left, common_channels(left, left)) == 0,
{
    lemma_changed_by(left, right, common_channels(left, right), k);
    lemma_unchanged(left, common_channels(left, left));
}

proof fn lemma_unchanged(pixels: Seq<u8>, count: int)
    ensures
        changed_bits(pixels, pixels, count) == 0,
    decreases count,
{
    if count > 0 {
        lemma_unchanged(pixels, count - 1);
    }
}

/// The least significant bits of the colour channels of an image.
pub fn lsb_bits(image: &RgbaImage) -> (bits: Vec<u8>)
    ensures
        bits@ == channel_bits(image.pixels@),
{
    let bits = first_bits(image, image.pixels.len() / 4 * 3);
    assert(bits@ =~= channel_bits(image.pixels@));
    bits
}

/// How many bits there are, how many of them are set, and how often they change.
#[derive(Clone, Copy, Debug, PartialEq, Eq, Structural)]
pub struct BitCounts {
    pub length: usize,
    pub ones: usize,
    pub transitions: usize,
}

/// How many bits of a range are set.
pub open spec fn ones_in(bits: Seq<u8>, from: int, to: int) -> nat
    decreases to - from,
{
    if to <= from {
        0
    } else {
        ones_in(bits, from, to - 1) + bits[to - 1] as nat
    }
}

/// How often the bits of a range change.
pub open spec fn transitions_in(bits: Seq<u8>, from: int, to: int) -> nat
    decreases to - from,
{
    if to <= from + 1 {
        0
    } else {
        transitions_in(bits, from, to - 1) + (if bits[to - 1] != bits[to - 2] {
            1nat
        } else {
            0nat
        })
    }
}

fn count_bits(bits: &Vec<u8>, from: usize, to: usize) -> (counts: BitCounts)
    requires
        from <= to <= bits@.len(),
        all_bits(bits@),
    ensures
        counts.length == to - from,
        counts.ones == ones_in(bits@, from as int, to as int),
        counts.transitions == transitions_in(bits@, from as int, to as int),
        counts.ones <= counts.length,
        counts.length > 0 ==> counts.transitions < counts.length,
{
    let mut ones: usize = 0;
    let mut transitions: usize = 0;
    let mut index: usize = from;
    while index < to
        invariant
            from <= index <= to <= bits@.len(),
            all_bits(bits@),
            ones == ones_in(bits@, from as int, index as int),
            transitions == transitions_in(bits@, from as int, index as int),
            ones <= index - from,
            index == from ==> transitions == 0,
            index > from ==> transitions < index - from,
        decreases to - index,
    {
        assert(bits@[index as int] <= 1);
        ones += bits[index] as usize;
        if index > from && bits[index] != bits[index - 1] {
            transitions += 1;
        }
        index += 1;
    }
    BitCounts { length: to - from, ones, transitions }
}

/// Counts the low bits of an image in a window at its start, and behind it.
pub fn blind_counts(image: &RgbaImage, window_bits: usize) -> (result: Result<
    (BitCounts, BitCounts),
    CarrierError,
>)
    ensures
        ({
            let bits = channel_bits(image.pixels@);
            if window_bits < 16 || window_bits >= bits.len() {
                result == Err::<(BitCounts, BitCounts), CarrierError>(CarrierError::InvalidWindow)
            } else {
                result matches Ok((prefix, suffix)) && prefix.length == window_bits && prefix.ones
                    == ones_in(bits, 0, window_bits as int) && prefix.transitions == transitions_in(
                    bits,
                    0,
                    window_bits as int,
                ) && suffix.length == bits.len() - window_bits && suffix.ones == ones_in(
                    bits,
                    window_bits as int,
                    bits.len() as int,
                ) && suffix.transitions == transitions_in(
                    bits,
                    window_bits as int,
                    bits.len() as int,
                ) && prefix.ones <= prefix.length && suffix.ones <= suffix.length
                    && prefix.transitions < prefix.length && suffix.transitions < suffix.length
            }
        }),
{
    let bits = lsb_bits(image);
    if window_bits < 16 || window_bits >= bits.len() {
        return Err(CarrierError::InvalidWindow);
    }
    assert(all_bits(bits@));
    let prefix = count_bits(&bits, 0, window_bits);
    let suffix = count_bits(&bits, window_bits, bits.len());
    Ok((prefix, suffix))
}

/// A sample of a benchmark: whether it was encoded, and whether it is flagged.
#[derive(Clone, Copy, Debug, PartialEq, Eq, Structural)]
pub struct Verdict {
    pub encoded: bool,
    pub flagged: bool,
}

/// How often a detector is right and wrong.
#[derive(Clone, Copy, Debug, PartialEq, Eq, Structural)]
pub struct Confusion {
    pub true_positive: usize,
    pub false_positive: usize,
    pub true_negative: usize,
    pub false_negative: usize,
}

/// How often a verdict occurs.
pub open spec fn occurrences(samples: Seq<Verdict>, wanted: Verdict) -> nat
    decreases samples.len(),
{
    if samples.len() == 0 {
        0
    } else {
        occurrences(samples.drop_last(), wanted) + (if samples.last() == wanted {
            1nat
        } else {
            0nat
        })
    }
}

/// Counts how often a detector is right and wrong.
pub fn classify(samples: &[Verdict]) -> (result: Confusion)
    ensures
        result.true_positive == occurrences(samples@, Verdict { encoded: true, flagged: true }),
        result.false_positive == occurrences(samples@, Verdict { encoded: false, flagged: true }),
        result.true_negative == occurrences(samples@, Verdict { encoded: false, flagged: false }),
        result.false_negative == occurrences(samples@, Verdict { encoded: true, flagged: false }),
        result.true_positive + result.false_positive + result.true_negative + result.false_negative
            == samples@.len(),
{
    let mut result = Confusion {
        true_positive: 0,
        false_positive: 0,
        true_negative: 0,
        false_negative: 0,
    };
    let mut index: usize = 0;
    assert(samples@.take(0) =~= Seq::empty());
    while index < samples.len()
        invariant
            index <= samples@.len(),
            samples@.len() == samples.len(),
            result.true_positive + result.false_positive + result.true_negative
                + result.false_negative == index,
            result.true_positive == occurrences(
                samples@.take(index as int),
                Verdict { encoded: true, flagged: true },
            ),
            result.false_positive == occurrences(
                samples@.take(index as int),
                Verdict { encoded: false, flagged: true },
            ),
            result.true_negative == occurrences(
                samples@.take(index as int),
                Verdict { encoded: false, flagged: false },
            ),
            result.false_negative == occurrences(
                samples@.take(index as int),
                Verdict { encoded: true, flagged: false },
            ),
        decreases samples@.len() - index,
    {
        assert(samples@.take(index + 1).drop_last() =~= samples@.take(index as int));
        assert(samples@.take(index + 1).last() == samples@[index as int]);
        let sample = samples[index];
        if sample.encoded {
            if sample.flagged {
                result.true_positive = result.true_positive + 1;
            } else {
                result.false_negative = result.false_negative + 1;
            }
        } else {
            if sample.flagged {
                result.false_positive = result.false_positive + 1;
            } else {
                result.true_negative = result.true_negative + 1;
            }
        }
        index += 1;
    }
    assert(samples@.take(index as int) =~= samples@);
    result
}

// ---------------------------------------------------------------------------
// PNG files
// ---------------------------------------------------------------------------

/// The colours of a decoded image.
#[derive(Clone, Copy, Debug, PartialEq, Eq, Structural)]
pub enum Colors {
    Rgb,
    Rgba,
    Other,
}

/// What the `png` crate makes of a file: width, height, colours and samples.
pub uninterp spec fn png_image(file: Seq<u8>) -> Option<(u32, u32, Colors, Seq<u8>)>;

/// What the `png` crate writes for an image with red, green, blue and alpha samples.
pub uninterp spec fn png_file(width: u32, height: u32, pixels: Seq<u8>) -> Option<Seq<u8>>;

/// A decoded image.
#[derive(Debug)]
pub struct DecodedPng {
    pub width: u32,
    pub height: u32,
    pub colors: Colors,
    pub samples: Vec<u8>,
}

/// Whether the samples that a file announces can be held in memory: its width and
/// height stand behind the sixteenth byte.
pub open spec fn png_fits(file: Seq<u8>) -> bool {
    file.len() >= 24 ==> bytes::be_u32_value(file.subrange(16, 20)) * bytes::be_u32_value(
        file.subrange(20, 24),
    ) * 4 <= isize::MAX
}

/// Whether the samples that a file announces can be held in memory.
pub fn check_png_size(file: &[u8]) -> (fits: bool)
    ensures
        fits == png_fits(file@),
{
    if file.len() < 24 {
        return true;
    }
    let width: u128 = get_u32(file, 16) as u128;
    let height: u128 = get_u32(file, 20) as u128;
    assert(width * height <= 0xffff_ffff * 0xffff_ffff) by (nonlinear_arith)
        requires
            width <= 0xffff_ffff,
            height <= 0xffff_ffff,
    ;
    width * height * 4 <= isize::MAX as u128
}

/// Wraps `png::Decoder` with `Transformations::EXPAND` and `STRIP_16`, its
/// `read_info` and `next_frame`: width, height, colours and samples of the first
/// image, a function of the file alone. A file whose samples could not be held in
/// memory is not decoded.
#[verifier::external_body]
fn decode_png(file: &[u8]) -> (decoded: Option<DecodedPng>)
    requires
        png_fits(file@),
    ensures
        match png_image(file@) {
            Some((width, height, colors, samples)) => decoded matches Some(image) && image.width
                == width && image.height == height && image.colors == colors && image.samples@
                == samples,
            None => decoded is None,
        },
{
    let mut decoder = Decoder::new(file);
    decoder.set_transformations(Transformations::EXPAND | Transformations::STRIP_16);
    let mut reader = decoder.read_info().ok()?;
    let mut samples = vec![0; reader.output_buffer_size()];
    let info = reader.next_frame(&mut samples).ok()?;
    samples.truncate(info.buffer_size());
    let colors = match info.color_type {
        ColorType::Rgb => Colors::Rgb,
        ColorType::Rgba => Colors::Rgba,
        _ => Colors::Other,
    };
    Some(DecodedPng { width: info.width, height: info.height, colors, samples })
}

/// Wraps `png::Encoder` with `ColorType::Rgba` and `BitDepth::Eight`, its
/// `write_header` and `write_image_data`: the file, a function of the dimensions and
/// the samples alone. The format loses nothing: a file that was written, with rows
/// within the decoder's limits, is read as the same image.
#[verifier::external_body]
fn encode_png(width: u32, height: u32, pixels: &[u8]) -> (file: Option<Vec<u8>>)
    requires
        width * height * 4 == pixels@.len(),
    ensures
        match png_file(width, height, pixels@) {
            Some(value) => {
                &&& file matches Some(result)
                &&& result@ == value
                &&& (width <= 0x10_0000 && height <= 0x10_0000) ==> png_image(result@) == Some(
                    (width, height, Colors::Rgba, pixels@),
                )
            },
            None => file is None,
        },
{
    let mut file = Vec::new();
    let mut encoder = Encoder::new(&mut file, width, height);
    encoder.set_color(ColorType::Rgba);
    encoder.set_depth(BitDepth::Eight);
    let mut writer = encoder.write_header().ok()?;
    writer.write_image_data(pixels).ok()?;
    drop(writer);
    Some(file)
}

/// Samples with red, green and blue, made opaque.
pub open spec fn opaque_pixels(samples: Seq<u8>) -> Seq<u8> {
    Seq::new(
        samples.len() / 3 * 4,
        |p: int|
            if p % 4 < 3 {
                samples[p / 4 * 3 + p % 4]
            } else {
                255
            },
    )
}

/// The pixels of a decoded image, or why there are none.
pub open spec fn image_pixels(colors: Colors, samples: Seq<u8>) -> Result<Seq<u8>, CarrierError> {
    match colors {
        Colors::Rgb => if samples.len() / 3 > usize::MAX / 4 {
            Err(CarrierError::InvalidPng)
        } else {
            Ok(opaque_pixels(samples))
        },
        Colors::Rgba => Ok(samples),
        Colors::Other => Err(CarrierError::UnsupportedColor),
    }
}

/// The pixels of a decoded image.
pub fn rgba_image(decoded: DecodedPng) -> (result: Result<RgbaImage, CarrierError>)
    ensures
        match image_pixels(decoded.colors, decoded.samples@) {
            Ok(pixels) => result matches Ok(image) && image.width == decoded.width && image.height
                == decoded.height && image.pixels@ == pixels,
            Err(fault) => result matches Err(error) && error == fault,
        },
{
    match decoded.colors {
        Colors::Other => Err(CarrierError::UnsupportedColor),
        Colors::Rgba => Ok(
            RgbaImage { width: decoded.width, height: decoded.height, pixels: decoded.samples },
        ),
        Colors::Rgb => {
            if decoded.samples.len() / 3 > usize::MAX / 4 {
                return Err(CarrierError::InvalidPng);
            }
            let count: usize = decoded.samples.len() / 3 * 4;
            let mut pixels: Vec<u8> = Vec::new();
            let mut index: usize = 0;
            while index < count
                invariant
                    count == decoded.samples@.len() / 3 * 4,
                    index <= count,
                    pixels@ == opaque_pixels(decoded.samples@).take(index as int),
                decreases count - index,
            {
                if index % 4 < 3 {
                    assert(index / 4 * 3 + index % 4 < decoded.samples@.len());
                    pixels.push(decoded.samples[index / 4 * 3 + index % 4]);
                } else {
                    pixels.push(255);
                }
                assert(pixels@ =~= opaque_pixels(decoded.samples@).take(index + 1));
                index += 1;
            }
            assert(opaque_pixels(decoded.samples@).take(index as int) =~= opaque_pixels(
                decoded.samples@,
            ));
            Ok(RgbaImage { width: decoded.width, height: decoded.height, pixels })
        },
    }
}

/// The image in a file, or why there is none.
pub open spec fn file_image(file: Seq<u8>) -> Result<(u32, u32, Seq<u8>), CarrierError> {
    match png_image(file) {
        None => Err(CarrierError::InvalidPng),
        Some((width, height, colors, samples)) => match image_pixels(colors, samples) {
            Ok(pixels) => Ok((width, height, pixels)),
            Err(error) => Err(error),
        },
    }
}

/// Reads the image in a file.
pub fn read_png(file: &[u8]) -> (result: Result<RgbaImage, CarrierError>)
    requires
        png_fits(file@),
    ensures
        match file_image(file@) {
            Ok((width, height, pixels)) => result matches Ok(image) && image.width == width
                && image.height == height && image.pixels@ == pixels,
            Err(fault) => result matches Err(error) && error == fault,
        },
{
    match decode_png(file) {
        None => Err(CarrierError::InvalidPng),
        Some(decoded) => rgba_image(decoded),
    }
}

/// The file of an image, if it can be written.
pub open spec fn image_file(width: u32, height: u32, pixels: Seq<u8>) -> Option<Seq<u8>> {
    if width * height * 4 == pixels.len() {
        png_file(width, height, pixels)
    } else {
        None
    }
}

/// Writes an image to a file.
pub fn write_png(image: &RgbaImage) -> (result: Result<Vec<u8>, CarrierError>)
    ensures
        match image_file(image.width, image.height, image.pixels@) {
            Some(value) => {
                &&& result matches Ok(file)
                &&& file@ == value
                &&& (image.width <= 0x10_0000 && image.height <= 0x10_0000) ==> png_image(file@)
                    == Some((image.width, image.height, Colors::Rgba, image.pixels@))
            },
            None => result matches Err(error) && error == CarrierError::Encoding,
        },
{
    let width: u128 = image.width as u128;
    let height: u128 = image.height as u128;
    assert(width * height <= 0xffff_ffff * 0xffff_ffff) by (nonlinear_arith)
        requires
            width <= 0xffff_ffff,
            height <= 0xffff_ffff,
    ;
    if width * height * 4 != image.pixels.len() as u128 {
        return Err(CarrierError::Encoding);
    }
    match encode_png(image.width, image.height, image.pixels.as_slice()) {
        Some(file) => Ok(file),
        None => Err(CarrierError::Encoding),
    }
}

/// What comes of placing a payload into a file.
pub open spec fn marked_file(file: Seq<u8>, payload: Seq<u8>) -> Result<Seq<u8>, CarrierError> {
    match file_image(file) {
        Err(error) => Err(error),
        Ok((width, height, pixels)) => if payload.len() > capacity(pixels.len() as int) {
            Err(
                CarrierError::PayloadTooLarge {
                    needed: payload.len() as usize,
                    capacity: capacity(pixels.len() as int) as usize,
                },
            )
        } else {
            match image_file(width, height, embedded(pixels, bits_of(payload))) {
                Some(marked) => Ok(marked),
                None => Err(CarrierError::Encoding),
            }
        },
    }
}

/// Places a payload into a file. It is found again in the file that results.
pub fn embed_png(file: &[u8], payload: &[u8]) -> (result: Result<Vec<u8>, CarrierError>)
    requires
        png_fits(file@),
    ensures
        match marked_file(file@, payload@) {
            Ok(value) => result matches Ok(marked) && marked@ == value,
            Err(fault) => result matches Err(error) && error == fault,
        },
        result matches Ok(marked) ==> ({
            let image = file_image(file@)->Ok_0;
            (image.0 <= 0x10_0000 && image.1 <= 0x10_0000) ==> (file_image(marked@) matches Ok(
                found,
            ) && bytes_of(channel_bits(found.2).take((payload@.len() * 8) as int)) == payload@)
        }),
{
    let mut image = read_png(file)?;
    PngCarrier.embed(&mut image, payload)?;
    let ghost pixels = (file_image(file@)->Ok_0).2;
    proof {
        law_embedded_payload_is_extracted(pixels, payload@);
    }
    write_png(&image)
}

// ---------------------------------------------------------------------------
// Where every bit and every pixel stands
// ---------------------------------------------------------------------------

/// The low bit of the colour that holds the bit with a number: three colours of every
/// pixel hold one each, and the fourth holds none.
pub open spec fn held_bit(pixels: Seq<u8>, number: int) -> int {
    pixels[number / 3 * 4 + number % 3] as int % 2
}

/// Whether the low bits of the colours hold some bytes, the highest bit of each first.
pub open spec fn hold_bytes(pixels: Seq<u8>, payload: Seq<u8>) -> bool {
    forall|j: int|
        0 <= j < payload.len() ==> (#[trigger] payload[j]) == 128 * held_bit(pixels, 8 * j) + 64
            * held_bit(pixels, 8 * j + 1) + 32 * held_bit(pixels, 8 * j + 2) + 16 * held_bit(
            pixels,
            8 * j + 3,
        ) + 8 * held_bit(pixels, 8 * j + 4) + 4 * held_bit(pixels, 8 * j + 5) + 2 * held_bit(
            pixels,
            8 * j + 6,
        ) + held_bit(pixels, 8 * j + 7)
}

/// What is read from pixels is what their low bits hold, whatever pixels they are.
pub proof fn law_extracted_bytes_are_held(pixels: Seq<u8>, length: int)
    requires
        0 <= length <= capacity(pixels.len() as int),
    ensures
        8 * length <= pixels.len() / 4 * 3,
        bytes_of(channel_bits(pixels).take(length * 8)).len() == length,
        hold_bytes(pixels, bytes_of(channel_bits(pixels).take(length * 8))),
{
    reveal(channel_at);
    let bits = channel_bits(pixels).take(length * 8);
    let payload = bytes_of(bits);
    assert forall|j: int| 0 <= j < payload.len() implies (#[trigger] payload[j]) == 128 * held_bit(
        pixels,
        8 * j,
    ) + 64 * held_bit(pixels, 8 * j + 1) + 32 * held_bit(pixels, 8 * j + 2) + 16 * held_bit(
        pixels,
        8 * j + 3,
    ) + 8 * held_bit(pixels, 8 * j + 4) + 4 * held_bit(pixels, 8 * j + 5) + 2 * held_bit(
        pixels,
        8 * j + 6,
    ) + held_bit(pixels, 8 * j + 7) by {
        assert forall|k: int| 0 <= k < bits.len() implies #[trigger] bits[k] == held_bit(
            pixels,
            k,
        ) by {
            assert(bits[k] == pixels[channel_at(k)] % 2);
        }
        assert(payload[j] == byte_at(bits, 8 * j));
        assert(bits[8 * j] == held_bit(pixels, 8 * j));
        assert(bits[8 * j + 1] == held_bit(pixels, 8 * j + 1));
        assert(bits[8 * j + 2] == held_bit(pixels, 8 * j + 2));
        assert(bits[8 * j + 3] == held_bit(pixels, 8 * j + 3));
        assert(bits[8 * j + 4] == held_bit(pixels, 8 * j + 4));
        assert(bits[8 * j + 5] == held_bit(pixels, 8 * j + 5));
        assert(bits[8 * j + 6] == held_bit(pixels, 8 * j + 6));
        assert(bits[8 * j + 7] == held_bit(pixels, 8 * j + 7));
    }
}

/// A payload that is embedded is held in the low bits of the first colours, the highest
/// bit of each byte first. Every colour behind them, every fourth value and every other
/// bit stay as they are.
pub proof fn law_embedded_payload_is_held(pixels: Seq<u8>, payload: Seq<u8>)
    requires
        payload.len() <= capacity(pixels.len() as int),
    ensures
        hold_bytes(embedded(pixels, bits_of(payload)), payload),
        embedded(pixels, bits_of(payload)).len() == pixels.len(),
        forall|p: int|
            0 <= p < pixels.len() ==> (#[trigger] embedded(pixels, bits_of(payload))[p]) / 2
                == pixels[p] / 2,
        forall|p: int|
            0 <= p < pixels.len() && (p % 4 == 3 || p / 4 * 3 + p % 4 >= 8 * payload.len())
                ==> #[trigger] embedded(pixels, bits_of(payload))[p] == pixels[p],
{
    reveal(channel_number);
    let after = embedded(pixels, bits_of(payload));
    law_embedding_changes_only_low_bits(pixels, payload);
    law_embedded_payload_is_extracted(pixels, payload);
    law_extracted_bytes_are_held(after, payload.len() as int);
}

/// The number of bytes that pixels have room for is the largest whose bits fit into
/// three colours of every whole pixel.
pub proof fn law_capacity_is_all_there_is(length: int)
    requires
        0 <= length,
    ensures
        8 * capacity(length) <= 3 * (length / 4),
        3 * (length / 4) < 8 * (capacity(length) + 1),
{
}

/// Of a picture without transparency every pixel stays in its place with its colours,
/// and is opaque. A picture with transparency is taken as it is, and no other is taken.
pub proof fn law_pixels_stay_in_place(samples: Seq<u8>)
    ensures
        image_pixels(Colors::Rgb, samples) matches Ok(pixels) ==> {
            &&& pixels.len() == samples.len() / 3 * 4
            &&& forall|i: int, c: int|
                #![trigger samples[3 * i + c]]
                0 <= i < samples.len() / 3 && 0 <= c < 3 ==> pixels[4 * i + c] == samples[3 * i
                    + c]
            &&& forall|i: int|
                0 <= i < samples.len() / 3 ==> #[trigger] pixels[4 * i + 3] == 255
        },
        image_pixels(Colors::Rgb, samples) is Err <==> samples.len() / 3 * 4 > usize::MAX,
        image_pixels(Colors::Rgba, samples) == Ok::<Seq<u8>, CarrierError>(samples),
        image_pixels(Colors::Other, samples) == Err::<Seq<u8>, CarrierError>(
            CarrierError::UnsupportedColor,
        ),
{
    if image_pixels(Colors::Rgb, samples) is Ok {
        let pixels = image_pixels(Colors::Rgb, samples)->Ok_0;
        assert forall|i: int, c: int|
            #![trigger samples[3 * i + c]]
            0 <= i < samples.len() / 3 && 0 <= c < 3 implies pixels[4 * i + c] == samples[3 * i
            + c] by {
            let p = 4 * i + c;
            assert(p / 4 == i && p % 4 == c);
        }
        assert forall|i: int| 0 <= i < samples.len() / 3 implies #[trigger] pixels[4 * i + 3]
            == 255 by {
            assert((4 * i + 3) % 4 == 3);
        }
    }
}

/// A picture that is read has the width and the height that its file gives, and its
/// pixels in their places.
pub proof fn law_picture_is_read_as_it_is(file: Seq<u8>)
    ensures
        png_image(file) is None ==> file_image(file) == Err::<(u32, u32, Seq<u8>), CarrierError>(
            CarrierError::InvalidPng,
        ),
        file_image(file) matches Ok(read) ==> {
            &&& png_image(file) matches Some(found)
            &&& read.0 == found.0
            &&& read.1 == found.1
            &&& found.2 == Colors::Rgba ==> read.2 == found.3
            &&& found.2 == Colors::Rgb ==> read.2.len() == found.3.len() / 3 * 4
                && forall|i: int, c: int|
                #![trigger found.3[3 * i + c]]
                0 <= i < found.3.len() / 3 && 0 <= c < 3 ==> read.2[4 * i + c] == found.3[3 * i
                    + c]
            &&& found.2 != Colors::Other
        },
{
    if let Some((width, height, colors, samples)) = png_image(file) {
        law_pixels_stay_in_place(samples);
    }
}

/// A picture that carries a payload has the size of the picture that was given, and
/// differs from it in no more than the low bits of its colours, which hold the payload.
/// A payload that there is no room for is refused.
pub proof fn law_marked_picture_looks_the_same(file: Seq<u8>, payload: Seq<u8>)
    ensures
        marked_file(file, payload) matches Ok(marked) ==> {
            &&& file_image(file) matches Ok(read)
            &&& 8 * payload.len() <= read.2.len() / 4 * 3
            &&& exists|pixels: Seq<u8>|
                {
                    &&& #[trigger] png_file(read.0, read.1, pixels) == Some(marked)
                    &&& read.0 * read.1 * 4 == pixels.len()
                    &&& pixels.len() == read.2.len()
                    &&& hold_bytes(pixels, payload)
                    &&& forall|p: int|
                        0 <= p < pixels.len() ==> (#[trigger] pixels[p]) / 2 == read.2[p] / 2
                    &&& forall|p: int|
                        0 <= p < pixels.len() && p % 4 == 3 ==> #[trigger] pixels[p] == read.2[p]
                }
        },
        file_image(file) matches Ok(read) ==> (8 * payload.len() > read.2.len() / 4 * 3
            ==> marked_file(file, payload) is Err && marked_file(file, payload)->Err_0 is PayloadTooLarge),
        file_image(file) matches Err(error) ==> marked_file(file, payload) == Err::<
            Seq<u8>,
            CarrierError,
        >(error),
{
    if let Ok(read) = file_image(file) {
        law_capacity_is_all_there_is(read.2.len() as int);
        if marked_file(file, payload) is Ok {
            let pixels = embedded(read.2, bits_of(payload));
            law_embedded_payload_is_held(read.2, payload);
            assert(png_file(read.0, read.1, pixels) == Some(marked_file(file, payload)->Ok_0));
        }
    }
}

/// The places in a range of which something holds.
pub open spec fn places(from: int, to: int, holds: spec_fn(int) -> bool) -> Set<int> {
    vstd::set_lib::set_int_range(from, to).filter(holds)
}

proof fn lemma_one_more_place(from: int, to: int, holds: spec_fn(int) -> bool)
    requires
        from < to,
    ensures
        places(from, to, holds).len() == places(from, to - 1, holds).len() + (if holds(to - 1) {
            1nat
        } else {
            0nat
        }),
{
    vstd::set_lib::lemma_int_range(from, to - 1);
    let earlier = places(from, to - 1, holds);
    if holds(to - 1) {
        assert(places(from, to, holds) =~= earlier.insert(to - 1));
    } else {
        assert(places(from, to, holds) =~= earlier);
    }
}

proof fn lemma_no_places(from: int, to: int, holds: spec_fn(int) -> bool)
    requires
        to <= from,
    ensures
        places(from, to, holds).len() == 0,
{
    assert(places(from, to, holds) =~= Set::<int>::empty());
}

/// What is counted of two pictures is the number of colours whose low bits differ.
pub proof fn law_changed_bits_are_counted(left: Seq<u8>, right: Seq<u8>, count: int)
    ensures
        changed_bits(left, right, count) == places(
            0,
            count,
            |k: int| held_bit(left, k) != held_bit(right, k),
        ).len(),
    decreases count,
{
    reveal(channel_at);
    let differs = |k: int| held_bit(left, k) != held_bit(right, k);
    if count <= 0 {
        lemma_no_places(0, count, differs);
    } else {
        law_changed_bits_are_counted(left, right, count - 1);
        lemma_one_more_place(0, count, differs);
    }
}

/// What is counted of a stretch of bits is the number of ones in it and the number of
/// places where a bit differs from the one in front of it.
pub proof fn law_bits_are_counted(bits: Seq<u8>, from: int, to: int)
    requires
        0 <= from <= to <= bits.len(),
        all_bits(bits),
    ensures
        ones_in(bits, from, to) == places(from, to, |k: int| bits[k] == 1).len(),
        transitions_in(bits, from, to) == places(
            from + 1,
            to,
            |k: int| bits[k] != bits[k - 1],
        ).len(),
    decreases to,
{
    let is_one = |k: int| bits[k] == 1;
    let turns = |k: int| bits[k] != bits[k - 1];
    if to <= from {
        lemma_no_places(from, to, is_one);
        lemma_no_places(from + 1, to, turns);
    } else {
        law_bits_are_counted(bits, from, to - 1);
        lemma_one_more_place(from, to, is_one);
        assert(bits[to - 1] <= 1);
        if to <= from + 1 {
            lemma_no_places(from + 1, to, turns);
        } else {
            lemma_one_more_place(from + 1, to, turns);
        }
    }
}

/// What is counted of judgements is the number of places where one stands.
pub proof fn law_judgements_are_counted(samples: Seq<Verdict>, wanted: Verdict)
    ensures
        occurrences(samples, wanted) == places(
            0,
            samples.len() as int,
            |k: int| samples[k] == wanted,
        ).len(),
    decreases samples.len(),
{
    let found = |k: int| samples[k] == wanted;
    if samples.len() == 0 {
        lemma_no_places(0, 0, found);
    } else {
        let front = samples.drop_last();
        law_judgements_are_counted(front, wanted);
        lemma_one_more_place(0, samples.len() as int, found);
        assert(places(0, samples.len() - 1, found) =~= places(
            0,
            front.len() as int,
            |k: int| front[k] == wanted,
        ));
    }
}

} // verus!
