//! The bytes of numbers, paletted containers and sections on the wire.
use vstd::arithmetic::power::{lemma_pow0, pow};
use vstd::prelude::*;

use crate::paletted_container::{
    cell_ids, cell_positions, indirect_positions_fit, packed_indices_round_trip, packed_words,
    strategy, word_field, HeterogeneousPalette, PaletteEncoding, PaletteMode, PalettedContainer,
    ToGlobalId,
};
use crate::section::ChunkSection;

verus! {

/// A number in groups of seven bits, the lowest first, each but the last one
/// marked by its high bit.
pub open spec fn var_int_bytes(value: int) -> Seq<u8>
    decreases value,
{
    if value < 128 {
        seq![value as u8]
    } else {
        seq![(value % 128 + 128) as u8] + var_int_bytes(value / 128)
    }
}

/// The number at the front of some bytes, and how many bytes it takes.
pub open spec fn read_var_int(bytes: Seq<u8>) -> Option<(int, int)>
    decreases bytes.len(),
{
    if bytes.len() == 0 {
        None
    } else if bytes[0] < 128 {
        Some((bytes[0] as int, 1))
    } else {
        match read_var_int(bytes.skip(1)) {
            Some((high, count)) => Some((high * 128 + bytes[0] - 128, count + 1)),
            None => None,
        }
    }
}

/// A number written in groups is read back, whatever follows.
pub proof fn var_int_reads_back(value: int, rest: Seq<u8>)
    requires
        0 <= value,
    ensures
        read_var_int(var_int_bytes(value) + rest) == Some(
            (value, var_int_bytes(value).len() as int),
        ),
        var_int_bytes(value).len() >= 1,
    decreases value,
{
    let bytes = var_int_bytes(value) + rest;
    if value < 128 {
        assert(bytes[0] == value as u8);
    } else {
        var_int_reads_back(value / 128, rest);
        assert(bytes[0] == (value % 128 + 128) as u8);
        assert(bytes.skip(1) =~= var_int_bytes(value / 128) + rest);
    }
}

/// The lowest `n` bytes of a number, the highest one first.
pub open spec fn big_endian(value: int, n: int) -> Seq<u8>
    decreases n,
{
    if n <= 0 {
        Seq::empty()
    } else {
        big_endian(value / 256, n - 1).push((value % 256) as u8)
    }
}

/// The number that bytes hold, the highest one first.
pub open spec fn big_endian_value(bytes: Seq<u8>) -> int
    decreases bytes.len(),
{
    if bytes.len() == 0 {
        0
    } else {
        big_endian_value(bytes.drop_last()) * 256 + bytes.last()
    }
}

/// A number that fits in its bytes is read back.
pub proof fn big_endian_reads_back(value: int, n: int)
    requires
        0 <= n,
        0 <= value < pow(256, n as nat),
    ensures
        big_endian(value, n).len() == n,
        big_endian_value(big_endian(value, n)) == value,
    decreases n,
{
    if n == 0 {
        lemma_pow0(256);
    } else {
        vstd::arithmetic::power::lemma_pow_adds(256, 1, (n - 1) as nat);
        vstd::arithmetic::power::lemma_pow1(256);
        assert(value / 256 < pow(256, (n - 1) as nat)) by (nonlinear_arith)
            requires
                value < 256 * pow(256, (n - 1) as nat),
                value >= 0,
        ;
        big_endian_reads_back(value / 256, n - 1);
        let bytes = big_endian(value, n);
        assert(bytes.drop_last() =~= big_endian(value / 256, n - 1));
    }
}

/// Appends a number in groups of seven bits.
pub fn write_var_int(out: &mut Vec<u8>, value: u32)
    ensures
        final(out)@ == old(out)@ + var_int_bytes(value as int),
{
    let mut left: u32 = value;
    while left >= 128
        invariant
            out@ + var_int_bytes(left as int) == old(out)@ + var_int_bytes(value as int),
        decreases left,
    {
        let ghost before = out@;
        out.push((left % 128 + 128) as u8);
        assert(out@ + var_int_bytes(left as int / 128) =~= before + var_int_bytes(left as int));
        left = left / 128;
    }
    let ghost before = out@;
    out.push(left as u8);
    assert(out@ =~= before + var_int_bytes(left as int));
}

/// Appends the bytes of a 16-bit number, the higher one first.
pub fn write_u16(out: &mut Vec<u8>, value: u16)
    ensures
        final(out)@ == old(out)@ + big_endian(value as int, 2),
{
    out.push((value / 256) as u8);
    out.push((value % 256) as u8);
    proof {
        reveal_with_fuel(big_endian, 3);
        assert(out@ =~= old(out)@ + big_endian(value as int, 2));
    }
}

/// Appends the bytes of a 64-bit number, the highest one first.
pub fn write_u64(out: &mut Vec<u8>, value: u64)
    ensures
        final(out)@ == old(out)@ + big_endian(value as int, 8),
{
    let v1: u64 = value / 256;
    let v2: u64 = v1 / 256;
    let v3: u64 = v2 / 256;
    let v4: u64 = v3 / 256;
    let v5: u64 = v4 / 256;
    let v6: u64 = v5 / 256;
    let v7: u64 = v6 / 256;
    out.push((v7 % 256) as u8);
    out.push((v6 % 256) as u8);
    out.push((v5 % 256) as u8);
    out.push((v4 % 256) as u8);
    out.push((v3 % 256) as u8);
    out.push((v2 % 256) as u8);
    out.push((v1 % 256) as u8);
    out.push((value % 256) as u8);
    proof {
        reveal_with_fuel(big_endian, 9);
        assert(out@ =~= old(out)@ + big_endian(value as int, 8));
    }
}

/// The first `n` numbers in groups of seven bits, one after the other.
pub open spec fn var_int_list(values: Seq<u32>, n: int) -> Seq<u8>
    decreases n,
{
    if n <= 0 {
        Seq::empty()
    } else {
        var_int_list(values, n - 1) + var_int_bytes(values[n - 1] as int)
    }
}

/// The bytes of the first `n` words, one after the other.
pub open spec fn word_list(words: Seq<u64>, n: int) -> Seq<u8>
    decreases n,
{
    if n <= 0 {
        Seq::empty()
    } else {
        word_list(words, n - 1) + big_endian(words[n - 1] as int, 8)
    }
}

/// The bytes of a container: bits per cell, the palette where cells are
/// positions in it, and the packed cells without their number.
pub open spec fn container_bytes<V: ToGlobalId, const DIM: usize>(
    container: PalettedContainer<V, DIM>,
) -> Seq<u8> {
    match container {
        PalettedContainer::Homogeneous(value) => seq![0u8] + var_int_bytes(
            value.global_id() as int,
        ),
        PalettedContainer::Heterogeneous(data) => {
            let (bits, mode) = strategy(DIM as int, data.entries().len() as int);
            if mode == PaletteMode::Global {
                let words = packed_words(cell_ids(data@), bits as int);
                seq![bits] + word_list(words, words.len() as int)
            } else {
                let ids = palette_ids(data.entries());
                let words = packed_words(cell_positions(data.entries(), data@), bits as int);
                seq![bits] + var_int_bytes(ids.len() as int) + var_int_list(ids, ids.len() as int)
                    + word_list(words, words.len() as int)
            }
        },
    }
}

/// The global ID of each palette entry.
pub open spec fn palette_ids<V: ToGlobalId>(palette: Seq<(V, u16)>) -> Seq<u32> {
    palette.map_values(|entry: (V, u16)| entry.0.global_id())
}

/// Cell `c` of packed words.
pub open spec fn unpacked_cell(words: Seq<u64>, bits: int, c: int) -> u64 {
    word_field(words[c / (64int / bits)], bits as u64, ((c % (64int / bits)) * bits) as u64)
}

/// The words of a container that was written give the cells back: a position
/// in the palette leads to the cell's global ID, and a global ID that fits in
/// its bits is the cell's own.
pub proof fn written_cells_read_back<V: ToGlobalId, const DIM: usize>(
    data: HeterogeneousPalette<V, DIM>,
    c: int,
)
    requires
        data.wf(),
        data.entries().len() >= 2,
        0 <= c < data@.len(),
        forall|i: int|
            0 <= i < data@.len() ==> ((#[trigger] data@[i]).global_id() as u64) < 1u64 << (strategy(
                DIM as int,
                data.entries().len() as int,
            ).0 as u64) || strategy(DIM as int, data.entries().len() as int).1
                != PaletteMode::Global,
    ensures
        ({
            let (bits, mode) = strategy(DIM as int, data.entries().len() as int);
            if mode == PaletteMode::Global {
                unpacked_cell(packed_words(cell_ids(data@), bits as int), bits as int, c)
                    == data@[c].global_id()
            } else {
                palette_ids(data.entries())[unpacked_cell(
                    packed_words(cell_positions(data.entries(), data@), bits as int),
                    bits as int,
                    c,
                ) as int] == data@[c].global_id()
            }
        }),
{
    let (bits, mode) = strategy(DIM as int, data.entries().len() as int);
    data.entries_match();
    let indices = if mode == PaletteMode::Global {
        cell_ids(data@)
    } else {
        cell_positions(data.entries(), data@)
    };
    assert forall|i: int| 0 <= i < indices.len() implies (#[trigger] indices[i] as u64) < 1u64 << (
    bits as u64) by {
        if mode == PaletteMode::Global {
            assert(data@[i].global_id() == indices[i]);
        } else {
            indirect_positions_fit(DIM as int, data.entries(), data@, i);
        }
    }
    packed_indices_round_trip(indices, bits as int, c, indices.len() as int);
    if mode != PaletteMode::Global {
        indirect_positions_fit(DIM as int, data.entries(), data@, c);
    }
}

fn write_words(out: &mut Vec<u8>, words: &Vec<u64>)
    ensures
        final(out)@ == old(out)@ + word_list(words@, words@.len() as int),
{
    let mut i: usize = 0;
    assert(out@ =~= old(out)@ + word_list(words@, 0));
    while i < words.len()
        invariant
            i <= words@.len(),
            out@ == old(out)@ + word_list(words@, i as int),
        decreases words@.len() - i,
    {
        write_u64(out, words[i]);
        assert(out@ =~= old(out)@ + word_list(words@, i as int + 1));
        i += 1;
    }
}

impl<V: ToGlobalId, const DIM: usize> PalettedContainer<V, DIM> {
    /// Appends the container's serialized form.
    pub fn write(&self, out: &mut Vec<u8>)
        requires
            self.wf(),
        ensures
            final(out)@ == old(out)@ + container_bytes(*self),
    {
        let encoding: PaletteEncoding = self.encode();
        let ghost start = out@;
        match &encoding {
            PaletteEncoding::Single { id } => {
                out.push(0);
                write_var_int(out, *id);
                assert(out@ =~= start + container_bytes(*self));
            },
            PaletteEncoding::Indirect { bits, palette, longs } => {
                out.push(*bits);
                write_var_int(out, palette.len() as u32);
                let ghost head = out@;
                let mut i: usize = 0;
                assert(out@ =~= head + var_int_list(palette@, 0));
                while i < palette.len()
                    invariant
                        i <= palette@.len(),
                        out@ == head + var_int_list(palette@, i as int),
                    decreases palette@.len() - i,
                {
                    write_var_int(out, palette[i]);
                    assert(out@ =~= head + var_int_list(palette@, i as int + 1));
                    i += 1;
                }
                write_words(out, longs);
                assert(out@ =~= start + container_bytes(*self));
            },
            PaletteEncoding::Direct { bits, longs } => {
                out.push(*bits);
                write_words(out, longs);
                assert(out@ =~= start + container_bytes(*self));
            },
        }
    }
}

impl ChunkSection {
    /// The bytes of the section: the number of blocks that are not air and of
    /// blocks with a fluid, then the block states and the biomes.
    pub open spec fn wire_bytes(&self) -> Seq<u8> {
        big_endian(self.non_empty_block_count as int, 2) + big_endian(self.fluid_count as int, 2)
            + container_bytes(self.states) + container_bytes(self.biomes)
    }

    /// Appends the section's serialized form.
    pub fn write(&self, out: &mut Vec<u8>)
        requires
            self.wf(),
        ensures
            final(out)@ == old(out)@ + self.wire_bytes(),
    {
        write_u16(out, self.non_empty_block_count);
        write_u16(out, self.fluid_count);
        self.states.write(out);
        self.biomes.write(out);
        assert(out@ =~= old(out)@ + self.wire_bytes());
    }
}

} // verus!
