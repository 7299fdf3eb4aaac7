//! Nibble packing: 4096 light levels in 2048 bytes, low nibble first.
use vstd::prelude::*;

use crate::{DATA_LAYER_EDGE, DATA_LAYER_SIZE, MAX_LIGHT_LEVEL};

verus! {

/// The index of local section coordinates, in `y`, `z`, `x` order.
pub open spec fn local_index(x: int, y: int, z: int) -> int {
    y * 256 + z * 16 + x
}

/// The nibble at `index` of packed bytes: even indices take the low half of a
/// byte, odd ones the high half.
pub open spec fn nibble_at(bytes: Seq<u8>, index: int) -> u8 {
    if index % 2 == 0 {
        bytes[index / 2] % 16
    } else {
        bytes[index / 2] / 16
    }
}

/// The 4096 levels that packed bytes hold.
pub open spec fn unpack(bytes: Seq<u8>) -> Seq<u8> {
    Seq::new(4096, |index: int| nibble_at(bytes, index))
}

/// The 2048 bytes that hold the given levels.
pub open spec fn pack(levels: Seq<u8>) -> Seq<u8> {
    Seq::new(2048, |byte: int| (levels[2 * byte] + 16 * levels[2 * byte + 1]) as u8)
}

/// 4096 equal levels.
pub open spec fn uniform(value: u8) -> Seq<u8> {
    Seq::new(4096, |index: int| value)
}

/// Every level of a section fits in a nibble.
pub open spec fn levels_valid(levels: Seq<u8>) -> bool {
    &&& levels.len() == 4096
    &&& forall|index: int| 0 <= index < 4096 ==> #[trigger] levels[index] < 16
}

/// Unpacking gives back the levels that were packed.
pub proof fn unpack_of_pack(levels: Seq<u8>)
    requires
        levels_valid(levels),
    ensures
        unpack(pack(levels)) == levels,
{
    assert forall|index: int| 0 <= index < 4096 implies #[trigger] unpack(pack(levels))[index]
        == levels[index] by {
        let byte = index / 2;
        assert(levels[2 * byte] < 16 && levels[2 * byte + 1] < 16);
    }
    assert(unpack(pack(levels)) =~= levels);
}

/// Packing gives back the bytes that were unpacked.
pub proof fn pack_of_unpack(bytes: Seq<u8>)
    requires
        bytes.len() == 2048,
    ensures
        pack(unpack(bytes)) == bytes,
        levels_valid(unpack(bytes)),
{
    assert forall|byte: int| 0 <= byte < 2048 implies #[trigger] pack(unpack(bytes))[byte]
        == bytes[byte] by {
        assert((2 * byte) / 2 == byte && (2 * byte) % 2 == 0);
        assert((2 * byte + 1) / 2 == byte && (2 * byte + 1) % 2 == 1);
    }
    assert(pack(unpack(bytes)) =~= bytes);
}

proof fn lemma_nibble_bits(packed: u8, value: u8)
    by (bit_vector)
    ensures
        packed & 15 == packed % 16,
        packed >> 4u8 == packed / 16,
        value & 15 == value % 16,
        (packed & 0xF0) | (value & 15) == (packed / 16) * 16 + value % 16,
        (packed & 15) | ((value & 15) << 4u8) == (value % 16) * 16 + packed % 16,
        (value & 15) | ((value & 15) << 4u8) == (value % 16) * 16 + value % 16,
{
}

proof fn lemma_index_bits(x: usize, y: usize, z: usize)
    by (bit_vector)
    requires
        x < 16,
        y < 16,
        z < 16,
    ensures
        ((y << 8usize) | (z << 4usize) | x) == y * 256 + z * 16 + x,
        ((y << 8usize) | (z << 4usize) | x) < 4096,
{
}

/// Returns the packed index of local section coordinates.
pub fn section_local_index(x: usize, y: usize, z: usize) -> (index: usize)
    requires
        x < DATA_LAYER_EDGE,
        y < DATA_LAYER_EDGE,
        z < DATA_LAYER_EDGE,
    ensures
        index == local_index(x as int, y as int, z as int),
        index < 4096,
{
    proof {
        lemma_index_bits(x, y, z);
    }
    y << 8 | z << 4 | x
}

/// Returns the light level that bits beyond the nibble leave.
pub fn mask_level(value: u8) -> (level: u8)
    ensures
        level == value % 16,
{
    proof {
        lemma_nibble_bits(0, value);
    }
    value & MAX_LIGHT_LEVEL
}

/// Returns a byte with `value` in both nibbles.
pub fn pack_filled(value: u8) -> (packed: u8)
    ensures
        packed == (value % 16) * 16 + value % 16,
{
    proof {
        lemma_nibble_bits(0, value);
    }
    let value: u8 = value & MAX_LIGHT_LEVEL;
    value | value << 4
}

/// Reads one nibble of packed section data.
pub fn read_nibble(data: &[u8; DATA_LAYER_SIZE], index: usize) -> (level: u8)
    requires
        index < 4096,
    ensures
        level == unpack(data@)[index as int],
        level < 16,
{
    let packed: u8 = data[index / 2];
    proof {
        lemma_nibble_bits(packed, 0);
    }
    if index % 2 == 0 {
        packed & MAX_LIGHT_LEVEL
    } else {
        packed >> 4
    }
}

/// Writes the low four bits of `value` to one nibble of packed section data.
pub fn write_nibble(data: &mut [u8; DATA_LAYER_SIZE], index: usize, value: u8)
    requires
        index < 4096,
    ensures
        unpack(final(data)@) == unpack(old(data)@).update(index as int, value % 16),
{
    let byte: usize = index / 2;
    let packed: u8 = data[byte];
    proof {
        lemma_nibble_bits(packed, value);
    }
    if index % 2 == 0 {
        data[byte] = (packed & 0xF0) | (value & MAX_LIGHT_LEVEL);
    } else {
        data[byte] = (packed & MAX_LIGHT_LEVEL) | ((value & MAX_LIGHT_LEVEL) << 4);
    }
    proof {
        assert forall|i: int| 0 <= i < 4096 implies #[trigger] unpack(data@)[i] == unpack(
            old(data)@,
        ).update(index as int, value % 16)[i] by {
            assert(i == 2 * (i / 2) + i % 2);
        }
        assert(unpack(data@) =~= unpack(old(data)@).update(index as int, value % 16));
    }
}

/// Returns packed section data with `value` at every index.
pub fn filled_data(value: u8) -> (data: Box<[u8; DATA_LAYER_SIZE]>)
    ensures
        unpack(data@) == uniform((value % 16) as u8),
{
    let data: Box<[u8; DATA_LAYER_SIZE]> = Box::new([pack_filled(value); DATA_LAYER_SIZE]);
    assert(unpack(data@) =~= uniform((value % 16) as u8));
    data
}

/// Copies packed section data out of a slice of the right length.
pub fn data_from_slice(bytes: &[u8]) -> (data: Box<[u8; DATA_LAYER_SIZE]>)
    requires
        bytes@.len() == 2048,
    ensures
        data@ == bytes@,
{
    let mut data: Box<[u8; DATA_LAYER_SIZE]> = Box::new([0u8; DATA_LAYER_SIZE]);
    let mut i: usize = 0;
    while i < DATA_LAYER_SIZE
        invariant
            i <= 2048,
            bytes@.len() == 2048,
            forall|j: int| 0 <= j < i ==> data@[j] == bytes@[j],
        decreases 2048 - i,
    {
        data[i] = bytes[i];
        i += 1;
    }
    assert(data@ =~= bytes@);
    data
}

} // verus!
