//! Chunk sections and the column of sections of one chunk.
use vstd::prelude::*;

use crate::block_state::{BlockStateId, BlockStateInfo, BlockStateTable};
use crate::count::{
    count_where, lemma_count_agree, lemma_count_bounds, lemma_count_push, lemma_count_update, unit,
};
use crate::packed::local_index;
use crate::paletted_container::{cell_index, volume, BiomePalette, BlockPalette, PalettedContainer};
use crate::position::{BlockPos, ChunkPos};

verus! {

/// Cached section counter traits for one block state.
#[derive(Clone, Copy, Debug, PartialEq, Eq, Structural)]
pub struct BlockStateSectionCounts {
    /// Whether the state is air.
    pub is_air: bool,
    /// Whether the state holds a fluid.
    pub has_fluid: bool,
    /// Whether the state takes random ticks.
    pub randomly_ticking: bool,
}

/// The counter traits of a state.
pub open spec fn section_counts_of(
    table: &BlockStateTable,
    state: BlockStateId,
) -> BlockStateSectionCounts {
    let info = table.info(state);
    BlockStateSectionCounts {
        is_air: info.is_air,
        has_fluid: info.has_fluid,
        randomly_ticking: info.randomly_ticking,
    }
}

/// No state is both air and randomly ticking.
pub open spec fn air_never_ticks(table: &BlockStateTable) -> bool {
    forall|state: BlockStateId|
        !((#[trigger] table.info(state)).is_air && table.info(state).randomly_ticking)
}

/// A chunk section.
///
/// Contains a 16x16x16 cube of block states and biomes, along with cached
/// counts for optimization.
#[derive(Debug)]
pub struct ChunkSection {
    /// The block states in the section.
    pub states: BlockPalette,
    /// The biomes in the section.
    pub biomes: BiomePalette,
    /// Number of non-air blocks in this section (0-4096).
    /// Used to quickly check if a section is empty.
    pub non_empty_block_count: u16,
    /// Number of fluid-containing blocks in this section (0-4096).
    /// Includes water, lava, and waterlogged blocks.
    pub fluid_count: u16,
    /// Number of randomly-ticking blocks in this section (0-4096).
    pub ticking_block_count: u16,
}

/// The number of blocks that are not air.
pub open spec fn non_air_blocks(table: &BlockStateTable, states: Seq<BlockStateId>) -> nat {
    count_where(states, |state: BlockStateId| !table.info(state).is_air)
}

/// The number of blocks that hold a fluid.
pub open spec fn fluid_blocks(table: &BlockStateTable, states: Seq<BlockStateId>) -> nat {
    count_where(states, |state: BlockStateId| table.info(state).has_fluid)
}

/// The number of blocks that take random ticks.
pub open spec fn ticking_blocks(table: &BlockStateTable, states: Seq<BlockStateId>) -> nat {
    count_where(states, |state: BlockStateId| table.info(state).randomly_ticking)
}

/// The number of blocks that are not air and take random ticks.
pub open spec fn ticking_non_air_blocks(table: &BlockStateTable, states: Seq<BlockStateId>) -> nat {
    count_where(
        states,
        |state: BlockStateId| !table.info(state).is_air && table.info(state).randomly_ticking,
    )
}

/// The block at a local index of a section, seen from its chunk.
pub open spec fn local_block_pos(min_x: int, min_y: int, min_z: int, index: int) -> BlockPos {
    BlockPos {
        x: (min_x + index % 16) as i32,
        y: (min_y + index / 256) as i32,
        z: (min_z + (index / 16) % 16) as i32,
    }
}

/// The light sources among the first `n` blocks of a section, in local index
/// order.
pub open spec fn sources_below(
    table: &BlockStateTable,
    states: Seq<BlockStateId>,
    min_x: int,
    min_y: int,
    min_z: int,
    n: int,
) -> Seq<BlockPos>
    decreases n,
{
    if n <= 0 {
        Seq::empty()
    } else {
        let before = sources_below(table, states, min_x, min_y, min_z, n - 1);
        if table.info(states[n - 1]).light_emission > 0 {
            before.push(local_block_pos(min_x, min_y, min_z, n - 1))
        } else {
            before
        }
    }
}

proof fn lemma_no_sources(
    table: &BlockStateTable,
    states: Seq<BlockStateId>,
    min_x: int,
    min_y: int,
    min_z: int,
    n: int,
)
    requires
        0 <= n <= states.len(),
        forall|i: int|
            0 <= i < states.len() ==> table.info(#[trigger] states[i]).light_emission == 0,
    ensures
        sources_below(table, states, min_x, min_y, min_z, n) == Seq::<BlockPos>::empty(),
    decreases n,
{
    if n > 0 {
        lemma_no_sources(table, states, min_x, min_y, min_z, n - 1);
        assert(table.info(states[n - 1]).light_emission == 0);
    }
}

/// Every block of a section that emits light is listed at its place, and no
/// block is listed that does not.
pub open spec fn lists_emitters(
    sources: Seq<BlockPos>,
    table: &BlockStateTable,
    section: &ChunkSection,
    min_x: int,
    min_y: int,
    min_z: int,
) -> bool {
    forall|x: int, y: int, z: int|
        0 <= x < 16 && 0 <= y < 16 && 0 <= z < 16 ==> (sources.contains(
            #[trigger] block_within(min_x, min_y, min_z, x, y, z),
        ) <==> section.non_empty_block_count != 0 && table.info(
            section.states@[local_index(x, y, z)],
        ).light_emission != 0)
}

/// The block at a place in a section.
pub open spec fn block_within(
    min_x: int,
    min_y: int,
    min_z: int,
    x: int,
    y: int,
    z: int,
) -> BlockPos {
    BlockPos { x: (min_x + x) as i32, y: (min_y + y) as i32, z: (min_z + z) as i32 }
}

/// The listed blocks lie in the section.
pub open spec fn lists_within(sources: Seq<BlockPos>, min_x: int, min_y: int, min_z: int) -> bool {
    forall|i: int|
        0 <= i < sources.len() ==> {
            let pos = #[trigger] sources[i];
            &&& min_x <= pos.x < min_x + 16
            &&& min_y <= pos.y < min_y + 16
            &&& min_z <= pos.z < min_z + 16
        }
}

/// One block stands before another: lower, or further towards negative z, or
/// further towards negative x.
pub open spec fn is_listed_before(a: BlockPos, b: BlockPos) -> bool {
    a.y < b.y || a.y == b.y && (a.z < b.z || a.z == b.z && a.x < b.x)
}

/// The listed blocks go up, then along z, then along x, each of them once.
pub open spec fn lists_in_order(sources: Seq<BlockPos>) -> bool {
    forall|i: int, j: int|
        0 <= i < j < sources.len() ==> is_listed_before(
            #[trigger] sources[i],
            #[trigger] sources[j],
        )
}

/// The coordinates have room for a section.
pub open spec fn section_fits(min_x: int, min_y: int, min_z: int) -> bool {
    &&& i32::MIN <= min_x <= i32::MAX - 15
    &&& i32::MIN <= min_y <= i32::MAX - 15
    &&& i32::MIN <= min_z <= i32::MAX - 15
}

proof fn lemma_sources_below(
    table: &BlockStateTable,
    states: Seq<BlockStateId>,
    min_x: int,
    min_y: int,
    min_z: int,
    n: int,
)
    requires
        section_fits(min_x, min_y, min_z),
        0 <= n <= 4096,
    ensures
        ({
            let sources = sources_below(table, states, min_x, min_y, min_z, n);
            &&& lists_within(sources, min_x, min_y, min_z)
            &&& lists_in_order(sources)
            &&& forall|i: int|
                0 <= i < sources.len() ==> {
                    let pos = #[trigger] sources[i];
                    (pos.y - min_y) * 256 + (pos.z - min_z) * 16 + pos.x - min_x < n
                }
            &&& forall|x: int, y: int, z: int|
                0 <= x < 16 && 0 <= y < 16 && 0 <= z < 16 ==> (sources.contains(
                    #[trigger] block_within(min_x, min_y, min_z, x, y, z),
                ) <==> local_index(x, y, z) < n && table.info(
                    states[local_index(x, y, z)],
                ).light_emission != 0)
        }),
    decreases n,
{
    let sources = sources_below(table, states, min_x, min_y, min_z, n);
    if n > 0 {
        lemma_sources_below(table, states, min_x, min_y, min_z, n - 1);
        let before = sources_below(table, states, min_x, min_y, min_z, n - 1);
        let i = n - 1;
        let (ix, iy, iz) = (i % 16, i / 256, (i / 16) % 16);
        assert(iy * 256 + iz * 16 + ix == i);
        let added = local_block_pos(min_x, min_y, min_z, i);
        assert forall|x: int, y: int, z: int|
            0 <= x < 16 && 0 <= y < 16 && 0 <= z < 16 implies (sources.contains(
            #[trigger] block_within(min_x, min_y, min_z, x, y, z),
        ) <==> local_index(x, y, z) < n && table.info(
            states[local_index(x, y, z)],
        ).light_emission != 0) by {
            let pos = block_within(min_x, min_y, min_z, x, y, z);
            let index = local_index(x, y, z);
            if index == i {
                assert(x == ix && y == iy && z == iz);
            }
            if table.info(states[i]).light_emission > 0 {
                assert(sources == before.push(added));
                assert(sources[before.len() as int] == added);
                if before.contains(pos) {
                    let k = choose|k: int| 0 <= k < before.len() && before[k] == pos;
                    assert(sources[k] == pos);
                }
                if sources.contains(pos) && pos != added {
                    let k = choose|k: int| 0 <= k < sources.len() && sources[k] == pos;
                    assert(before[k] == pos);
                }
            }
        }
    }
}

/// A section lists exactly its blocks that emit light, each once, from the
/// bottom up, then along z, then along x.
pub proof fn sources_are_emitters(
    section: &ChunkSection,
    table: &BlockStateTable,
    min_x: int,
    min_y: int,
    min_z: int,
)
    requires
        section_fits(min_x, min_y, min_z),
    ensures
        lists_emitters(
            section.sources(table, min_x, min_y, min_z),
            table,
            section,
            min_x,
            min_y,
            min_z,
        ),
        lists_within(section.sources(table, min_x, min_y, min_z), min_x, min_y, min_z),
        lists_in_order(section.sources(table, min_x, min_y, min_z)),
{
    lemma_sources_below(table, section.states@, min_x, min_y, min_z, 4096);
}

proof fn lemma_index_bits(index: usize)
    by (bit_vector)
    requires
        index < 4096,
    ensures
        index & 15 == index % 16,
        index >> 8usize == index / 256,
        (index >> 4usize) & 15 == (index / 16) % 16,
        index & 15 < 16,
        index >> 8usize < 16,
        (index >> 4usize) & 15 < 16,
{
}

/// Block cells are indexed as light cells are.
pub proof fn block_cell_index(x: int, y: int, z: int)
    requires
        0 <= x < 16,
        0 <= y < 16,
        0 <= z < 16,
    ensures
        cell_index(16, x, y, z) == local_index(x, y, z),
        0 <= cell_index(16, x, y, z) < 4096,
        volume(16) == 4096,
        volume(4) == 64,
{
}

impl ChunkSection {
    /// Both palettes are well formed.
    pub open spec fn wf(&self) -> bool {
        self.states.wf() && self.biomes.wf()
    }

    /// The counters tell how many blocks are not air, hold a fluid, and take
    /// random ticks.
    pub open spec fn counts_match(&self, table: &BlockStateTable) -> bool {
        &&& self.non_empty_block_count == non_air_blocks(table, self.states@)
        &&& self.fluid_count == fluid_blocks(table, self.states@)
        &&& self.ticking_block_count == ticking_blocks(table, self.states@)
    }

    /// The light sources that a section reports: none when its counter says
    /// that it is empty.
    pub open spec fn sources(
        &self,
        table: &BlockStateTable,
        min_x: int,
        min_y: int,
        min_z: int,
    ) -> Seq<BlockPos> {
        if self.non_empty_block_count == 0 {
            Seq::empty()
        } else {
            sources_below(table, self.states@, min_x, min_y, min_z, 4096)
        }
    }

    /// Creates a new chunk section with the given block states and biomes.
    ///
    /// Note: You must call `recalculate_counts()` after creation to initialize
    /// the cached counters if the states palette contains non-air blocks.
    #[must_use]
    pub fn new_with_biomes(states: BlockPalette, biomes: BiomePalette) -> (section: Self)
        ensures
            section.states == states,
            section.biomes == biomes,
            section.non_empty_block_count == 0,
            section.fluid_count == 0,
            section.ticking_block_count == 0,
    {
        ChunkSection {
            states,
            biomes,
            non_empty_block_count: 0,
            fluid_count: 0,
            ticking_block_count: 0,
        }
    }

    /// Creates a new empty chunk section whose biome is `biome` everywhere.
    #[must_use]
    pub fn new_empty(biome: u16) -> (section: Self)
        ensures
            section.wf(),
            section.states == BlockPalette::Homogeneous(BlockStateId(0)),
            section.biomes == BiomePalette::Homogeneous(biome),
            section.non_empty_block_count == 0,
            section.fluid_count == 0,
            section.ticking_block_count == 0,
    {
        ChunkSection {
            states: PalettedContainer::Homogeneous(BlockStateId(0)),
            biomes: PalettedContainer::Homogeneous(biome),
            non_empty_block_count: 0,
            fluid_count: 0,
            ticking_block_count: 0,
        }
    }

    /// Returns true if this section contains no non-air blocks.
    #[must_use]
    pub fn is_empty(&self) -> (result: bool)
        ensures
            result == (self.non_empty_block_count == 0),
    {
        self.non_empty_block_count == 0
    }

    /// Returns true if this section contains any randomly-ticking blocks.
    #[must_use]
    pub fn is_randomly_ticking(&self) -> (result: bool)
        ensures
            result == (self.ticking_block_count > 0),
    {
        self.ticking_block_count > 0
    }

    /// Returns true if this section's palette may contain block-light sources.
    #[must_use]
    pub fn maybe_has_block_light_sources(&self, table: &BlockStateTable) -> (result: bool)
        requires
            self.wf(),
            table.wf(),
        ensures
            result == (self.non_empty_block_count != 0 && exists|i: int|
                0 <= i < self.states@.len() && table.info(
                    #[trigger] self.states@[i],
                ).light_emission > 0),
    {
        let emits = |state: BlockStateId| -> (result: bool)
            requires
                table.wf(),
            ensures
                result == (table.info(state).light_emission > 0),
            { table.get(state).light_emission > 0 };
        if self.is_empty() {
            return false;
        }
        let result: bool = self.states.maybe_has(emits);
        proof {
            if result {
                let i = choose|i: int|
                    0 <= i < self.states@.len() && call_ensures(
                        emits,
                        (#[trigger] self.states@[i],),
                        true,
                    );
                assert(table.info(self.states@[i]).light_emission > 0);
            } else {
                assert forall|i: int| 0 <= i < self.states@.len() implies !(table.info(
                    #[trigger] self.states@[i],
                ).light_emission > 0) by {
                    assert(call_ensures(emits, (self.states@[i],), false));
                }
            }
        }
        result
    }

    /// Appends block-light source positions in local-index order.
    pub fn append_block_light_sources(
        &self,
        table: &BlockStateTable,
        chunk_min_x: i32,
        section_min_y: i32,
        chunk_min_z: i32,
        sources: &mut Vec<BlockPos>,
    )
        requires
            self.wf(),
            table.wf(),
            chunk_min_x + 15 <= i32::MAX,
            section_min_y + 15 <= i32::MAX,
            chunk_min_z + 15 <= i32::MAX,
        ensures
            final(sources)@ == old(sources)@ + self.sources(
                table,
                chunk_min_x as int,
                section_min_y as int,
                chunk_min_z as int,
            ),
            final(sources)@.take(old(sources)@.len() as int) == old(sources)@,
            lists_emitters(
                final(sources)@.skip(old(sources)@.len() as int),
                table,
                self,
                chunk_min_x as int,
                section_min_y as int,
                chunk_min_z as int,
            ),
            lists_within(
                final(sources)@.skip(old(sources)@.len() as int),
                chunk_min_x as int,
                section_min_y as int,
                chunk_min_z as int,
            ),
            lists_in_order(final(sources)@.skip(old(sources)@.len() as int)),
    {
        proof {
            sources_are_emitters(
                self,
                table,
                chunk_min_x as int,
                section_min_y as int,
                chunk_min_z as int,
            );
            let listed = self.sources(
                table,
                chunk_min_x as int,
                section_min_y as int,
                chunk_min_z as int,
            );
            assert((sources@ + listed).skip(sources@.len() as int) =~= listed);
            assert((sources@ + listed).take(sources@.len() as int) =~= sources@);
            self.states.homogeneous_iff_uniform();
        }
        if !self.maybe_has_block_light_sources(table) {
            proof {
                if self.non_empty_block_count != 0 {
                    lemma_no_sources(
                        table,
                        self.states@,
                        chunk_min_x as int,
                        section_min_y as int,
                        chunk_min_z as int,
                        4096,
                    );
                }
                assert(sources@ =~= sources@ + Seq::<BlockPos>::empty());
            }
            return ;
        }
        let ghost before = sources@;
        let mut local: usize = 0;
        while local < 4096
            invariant
                self.wf(),
                self.states@.len() == 4096,
                table.wf(),
                local <= 4096,
                chunk_min_x + 15 <= i32::MAX,
                section_min_y + 15 <= i32::MAX,
                chunk_min_z + 15 <= i32::MAX,
                sources@ =~= before + sources_below(
                    table,
                    self.states@,
                    chunk_min_x as int,
                    section_min_y as int,
                    chunk_min_z as int,
                    local as int,
                ),
            decreases 4096 - local,
        {
            let state: BlockStateId = self.states.get_at_index(local);
            proof {
                lemma_index_bits(local);
            }
            if table.get(state).light_emission != 0 {
                sources.push(
                    BlockPos::new(
                        chunk_min_x + (local & 15) as i32,
                        section_min_y + (local >> 8) as i32,
                        chunk_min_z + ((local >> 4) & 15) as i32,
                    ),
                );
            }
            local += 1;
        }
    }

    /// Returns the number of non-air blocks in this section.
    #[must_use]
    pub fn non_empty_block_count(&self) -> (count: u16)
        ensures
            count == self.non_empty_block_count,
    {
        self.non_empty_block_count
    }

    /// Returns the number of fluid-containing blocks in this section.
    #[must_use]
    pub fn fluid_count(&self) -> (count: u16)
        ensures
            count == self.fluid_count,
    {
        self.fluid_count
    }

    /// Returns if the chunk has fluid.
    #[must_use]
    pub fn has_fluid(&self) -> (result: bool)
        ensures
            result == (self.fluid_count > 0),
    {
        self.fluid_count > 0
    }

    /// Returns the number of randomly-ticking blocks in this section.
    #[must_use]
    pub fn ticking_block_count(&self) -> (count: u16)
        ensures
            count == self.ticking_block_count,
    {
        self.ticking_block_count
    }

    /// Recalculates the cached counters by iterating all blocks.
    ///
    /// This should be called after chunk loading or generation to initialize
    /// the counters.
    pub fn recalculate_counts(&mut self, table: &BlockStateTable)
        requires
            old(self).wf(),
            table.wf(),
        ensures
            final(self).wf(),
            final(self).states == old(self).states,
            final(self).biomes == old(self).biomes,
            final(self).non_empty_block_count == non_air_blocks(table, old(self).states@),
            final(self).fluid_count == fluid_blocks(table, old(self).states@),
            final(self).ticking_block_count == ticking_non_air_blocks(table, old(self).states@),
            air_never_ticks(table) ==> final(self).counts_match(table),
    {
        let ghost states = self.states@;
        let ghost not_air = |state: BlockStateId| !table.info(state).is_air;
        let ghost fluids = |state: BlockStateId| table.info(state).has_fluid;
        let ghost ticks = |state: BlockStateId|
            !table.info(state).is_air && table.info(state).randomly_ticking;
        proof {
            self.states.homogeneous_iff_uniform();
            assert(states.take(0) =~= Seq::<BlockStateId>::empty());
        }
        let mut non_empty: u16 = 0;
        let mut fluid: u16 = 0;
        let mut ticking: u16 = 0;
        let mut index: usize = 0;
        while index < 4096
            invariant
                self.wf(),
                *self == *old(self),
                table.wf(),
                states == self.states@,
                states.len() == 4096,
                index <= 4096,
                non_empty <= index,
                fluid <= index,
                ticking <= index,
                not_air == (|state: BlockStateId| !table.info(state).is_air),
                fluids == (|state: BlockStateId| table.info(state).has_fluid),
                ticks == (|state: BlockStateId|
                    !table.info(state).is_air && table.info(state).randomly_ticking),
                non_empty == count_where(states.take(index as int), not_air),
                fluid == count_where(states.take(index as int), fluids),
                ticking == count_where(states.take(index as int), ticks),
            decreases 4096 - index,
        {
            let state: BlockStateId = self.states.get_at_index(index);
            let info: BlockStateInfo = table.get(state);
            proof {
                let before = states.take(index as int);
                assert(states.take(index as int + 1) =~= before.push(state));
                lemma_count_push(before, state, not_air);
                lemma_count_push(before, state, fluids);
                lemma_count_push(before, state, ticks);
            }
            if !info.is_air {
                non_empty += 1;
                if info.randomly_ticking {
                    ticking += 1;
                }
            }
            if info.has_fluid {
                fluid += 1;
            }
            index += 1;
        }
        self.non_empty_block_count = non_empty;
        self.fluid_count = fluid;
        self.ticking_block_count = ticking;
        proof {
            assert(states.take(4096) =~= states);
            if air_never_ticks(table) {
                lemma_count_agree(
                    states,
                    ticks,
                    |state: BlockStateId| table.info(state).randomly_ticking,
                );
            }
        }
    }

    /// Sets a block state and updates the cached counters.
    ///
    /// Returns the old block state.
    pub fn set_block_state(
        &mut self,
        table: &BlockStateTable,
        x: usize,
        y: usize,
        z: usize,
        new_state: BlockStateId,
    ) -> (old_state: BlockStateId)
        requires
            old(self).wf(),
            table.wf(),
            old(self).counts_match(table),
            x < 16,
            y < 16,
            z < 16,
        ensures
            final(self).wf(),
            final(self).counts_match(table),
            final(self).biomes == old(self).biomes,
            old_state == old(self).states@[local_index(x as int, y as int, z as int)],
            final(self).states@ == old(self).states@.update(
                local_index(x as int, y as int, z as int),
                new_state,
            ),
    {
        let new_counts: BlockStateSectionCounts = Self::block_state_section_counts(
            table,
            new_state,
        );
        self.set_block_state_with_known_new_counts(table, x, y, z, new_state, new_counts)
    }

    /// Sets a block state and updates counters when the caller already knows
    /// the replacement state's counter traits.
    pub fn set_block_state_with_known_new_counts(
        &mut self,
        table: &BlockStateTable,
        x: usize,
        y: usize,
        z: usize,
        new_state: BlockStateId,
        new_counts: BlockStateSectionCounts,
    ) -> (old_state: BlockStateId)
        requires
            old(self).wf(),
            table.wf(),
            old(self).counts_match(table),
            new_counts == section_counts_of(table, new_state),
            x < 16,
            y < 16,
            z < 16,
        ensures
            final(self).wf(),
            final(self).counts_match(table),
            final(self).biomes == old(self).biomes,
            old_state == old(self).states@[local_index(x as int, y as int, z as int)],
            final(self).states@ == old(self).states@.update(
                local_index(x as int, y as int, z as int),
                new_state,
            ),
    {
        let ghost before = self.states@;
        let ghost index = local_index(x as int, y as int, z as int);
        proof {
            self.states.homogeneous_iff_uniform();
            block_cell_index(x as int, y as int, z as int);
            let not_air = |state: BlockStateId| !table.info(state).is_air;
            let fluids = |state: BlockStateId| table.info(state).has_fluid;
            let ticks = |state: BlockStateId| table.info(state).randomly_ticking;
            lemma_count_update(before, index, new_state, not_air);
            lemma_count_update(before, index, new_state, fluids);
            lemma_count_update(before, index, new_state, ticks);
            lemma_count_bounds(before, not_air);
            lemma_count_bounds(before, fluids);
            lemma_count_bounds(before, ticks);
            lemma_count_bounds(before.update(index, new_state), not_air);
            lemma_count_bounds(before.update(index, new_state), fluids);
            lemma_count_bounds(before.update(index, new_state), ticks);
        }
        let old_state: BlockStateId = self.states.set(x, y, z, new_state);
        if old_state != new_state {
            let old_counts: BlockStateSectionCounts = Self::block_state_section_counts(
                table,
                old_state,
            );
            self.apply_count_change(old_counts, new_counts);
        }
        old_state
    }

    /// Returns the cached-counter traits for a block state.
    #[must_use]
    pub fn block_state_section_counts(table: &BlockStateTable, state: BlockStateId) -> (counts:
        BlockStateSectionCounts)
        requires
            table.wf(),
        ensures
            counts == section_counts_of(table, state),
    {
        let info: BlockStateInfo = table.get(state);
        BlockStateSectionCounts {
            is_air: info.is_air,
            has_fluid: info.has_fluid,
            randomly_ticking: info.randomly_ticking,
        }
    }

    fn apply_count_change(
        &mut self,
        old_counts: BlockStateSectionCounts,
        new_counts: BlockStateSectionCounts,
    )
        requires
            0 <= old(self).non_empty_block_count - unit(!old_counts.is_air) + unit(
                !new_counts.is_air,
            ) <= 4096,
            0 <= old(self).fluid_count - unit(old_counts.has_fluid) + unit(new_counts.has_fluid)
                <= 4096,
            0 <= old(self).ticking_block_count - unit(old_counts.randomly_ticking) + unit(
                new_counts.randomly_ticking,
            ) <= 4096,
        ensures
            final(self).states == old(self).states,
            final(self).biomes == old(self).biomes,
            final(self).non_empty_block_count == old(self).non_empty_block_count - unit(
                !old_counts.is_air,
            ) + unit(!new_counts.is_air),
            final(self).fluid_count == old(self).fluid_count - unit(old_counts.has_fluid) + unit(
                new_counts.has_fluid,
            ),
            final(self).ticking_block_count == old(self).ticking_block_count - unit(
                old_counts.randomly_ticking,
            ) + unit(new_counts.randomly_ticking),
    {
        if !old_counts.is_air && new_counts.is_air {
            self.non_empty_block_count -= 1;
        } else if old_counts.is_air && !new_counts.is_air {
            self.non_empty_block_count += 1;
        }
        if old_counts.has_fluid && !new_counts.has_fluid {
            self.fluid_count -= 1;
        } else if !old_counts.has_fluid && new_counts.has_fluid {
            self.fluid_count += 1;
        }
        if old_counts.randomly_ticking && !new_counts.randomly_ticking {
            self.ticking_block_count -= 1;
        } else if !old_counts.randomly_ticking && new_counts.randomly_ticking {
            self.ticking_block_count += 1;
        }
    }
}

/// A collection of chunk sections, from the lowest up.
#[derive(Debug)]
pub struct Sections {
    /// The sections in the collection.
    pub sections: Vec<ChunkSection>,
}

/// The blocks of every section after one block was set.
pub open spec fn write_block(
    blocks: Seq<Seq<BlockStateId>>,
    x: int,
    relative_y: int,
    z: int,
    value: BlockStateId,
) -> Seq<Seq<BlockStateId>> {
    blocks.update(
        relative_y / 16,
        blocks[relative_y / 16].update(local_index(x, relative_y % 16, z), value),
    )
}

/// The blocks of every section after the first `n` writes to one column.
pub open spec fn write_column(
    blocks: Seq<Seq<BlockStateId>>,
    x: int,
    z: int,
    writes: Seq<(usize, BlockStateId)>,
    n: int,
) -> Seq<Seq<BlockStateId>>
    decreases n,
{
    if n <= 0 {
        blocks
    } else {
        let (relative_y, value) = writes[n - 1];
        write_block(write_column(blocks, x, z, writes, n - 1), x, relative_y as int, z, value)
    }
}

/// The blocks of every section after the first `n` writes.
pub open spec fn write_batch(
    blocks: Seq<Seq<BlockStateId>>,
    writes: Seq<(usize, usize, usize, BlockStateId)>,
    n: int,
) -> Seq<Seq<BlockStateId>>
    decreases n,
{
    if n <= 0 {
        blocks
    } else {
        let (x, relative_y, z, value) = writes[n - 1];
        write_block(
            write_batch(blocks, writes, n - 1),
            x as int,
            relative_y as int,
            z as int,
            value,
        )
    }
}

impl Sections {
    /// Every section is well formed.
    pub open spec fn wf(&self) -> bool {
        forall|i: int| 0 <= i < self.sections@.len() ==> (#[trigger] self.sections@[i]).wf()
    }

    /// The counters of every section match its blocks.
    pub open spec fn counts_match(&self, table: &BlockStateTable) -> bool {
        forall|i: int|
            0 <= i < self.sections@.len() ==> (#[trigger] self.sections@[i]).counts_match(table)
    }

    /// The blocks of every section, in local index order.
    pub open spec fn blocks(&self) -> Seq<Seq<BlockStateId>> {
        self.sections@.map_values(|section: ChunkSection| section.states@)
    }

    /// The biomes of every section, in y, z, x order.
    pub open spec fn biomes(&self) -> Seq<BiomePalette> {
        self.sections@.map_values(|section: ChunkSection| section.biomes)
    }

    /// The block at a position relative to the bottom of the chunk.
    pub open spec fn block_at(&self, x: int, relative_y: int, z: int) -> BlockStateId {
        self.sections@[relative_y / 16].states@[local_index(x, relative_y % 16, z)]
    }

    /// The light sources of the first `n` sections.
    pub open spec fn sources_of(
        &self,
        table: &BlockStateTable,
        chunk_pos: ChunkPos,
        min_y: int,
        n: int,
    ) -> Seq<BlockPos>
        decreases n,
    {
        if n <= 0 {
            Seq::empty()
        } else {
            self.sources_of(table, chunk_pos, min_y, n - 1) + self.sections@[n - 1].sources(
                table,
                chunk_pos.x * 16,
                min_y + (n - 1) * 16,
                chunk_pos.z * 16,
            )
        }
    }

    /// Every block of the chunk's sections that emits light is listed at its
    /// place, and no block is listed that does not.
    pub open spec fn lists_chunk_emitters(
        &self,
        sources: Seq<BlockPos>,
        table: &BlockStateTable,
        chunk_pos: ChunkPos,
        min_y: int,
    ) -> bool {
        &&& forall|n: int|
            0 <= n < self.sections@.len() ==> lists_emitters(
                sources,
                table,
                #[trigger] &self.sections@[n],
                chunk_pos.x * 16,
                min_y + n * 16,
                chunk_pos.z * 16,
            )
        &&& forall|i: int|
            0 <= i < sources.len() ==> {
                let pos = #[trigger] sources[i];
                &&& chunk_pos.x * 16 <= pos.x < chunk_pos.x * 16 + 16
                &&& min_y <= pos.y < min_y + self.sections@.len() * 16
                &&& chunk_pos.z * 16 <= pos.z < chunk_pos.z * 16 + 16
            }
    }

    proof fn lemma_sources_of(
        &self,
        table: &BlockStateTable,
        chunk_pos: ChunkPos,
        min_y: int,
        n: int,
    )
        requires
            -134217728 <= chunk_pos.x <= 134217727,
            -134217728 <= chunk_pos.z <= 134217727,
            i32::MIN <= min_y,
            0 <= n <= self.sections@.len(),
            min_y + self.sections@.len() * 16 - 1 <= i32::MAX,
        ensures
            ({
                let sources = self.sources_of(table, chunk_pos, min_y, n);
                &&& forall|m: int|
                    0 <= m < n ==> lists_emitters(
                        sources,
                        table,
                        #[trigger] &self.sections@[m],
                        chunk_pos.x * 16,
                        min_y + m * 16,
                        chunk_pos.z * 16,
                    )
                &&& forall|i: int|
                    0 <= i < sources.len() ==> {
                        let pos = #[trigger] sources[i];
                        &&& chunk_pos.x * 16 <= pos.x < chunk_pos.x * 16 + 16
                        &&& min_y <= pos.y < min_y + n * 16
                        &&& chunk_pos.z * 16 <= pos.z < chunk_pos.z * 16 + 16
                    }
                &&& lists_in_order(sources)
            }),
        decreases n,
    {
        if n > 0 {
            self.lemma_sources_of(table, chunk_pos, min_y, n - 1);
            let before = self.sources_of(table, chunk_pos, min_y, n - 1);
            let (x0, y0, z0) = (chunk_pos.x * 16, min_y + (n - 1) * 16, chunk_pos.z * 16);
            let added = self.sections@[n - 1].sources(table, x0, y0, z0);
            let sources = self.sources_of(table, chunk_pos, min_y, n);
            assert(sources == before + added);
            sources_are_emitters(&self.sections@[n - 1], table, x0, y0, z0);
            assert forall|m: int| 0 <= m < n implies lists_emitters(
                sources,
                table,
                #[trigger] &self.sections@[m],
                x0,
                min_y + m * 16,
                z0,
            ) by {
                let section = &self.sections@[m];
                let low = min_y + m * 16;
                assert forall|x: int, y: int, z: int|
                    0 <= x < 16 && 0 <= y < 16 && 0 <= z < 16 implies (sources.contains(
                    #[trigger] block_within(x0, low, z0, x, y, z),
                ) <==> section.non_empty_block_count != 0 && table.info(
                    section.states@[local_index(x, y, z)],
                ).light_emission != 0) by {
                    let pos = block_within(x0, low, z0, x, y, z);
                    let state = section.states@[local_index(x, y, z)];
                    if m < n - 1 {
                        assert(lists_emitters(before, table, section, x0, low, z0));
                        assert(before.contains(pos) <==> section.non_empty_block_count != 0
                            && table.info(state).light_emission != 0);
                    } else {
                        assert(low == y0);
                        assert(lists_emitters(added, table, section, x0, y0, z0));
                        assert(added.contains(pos) <==> section.non_empty_block_count != 0
                            && table.info(state).light_emission != 0);
                    }
                    if before.contains(pos) {
                        let k = choose|k: int| 0 <= k < before.len() && before[k] == pos;
                        assert(sources[k] == pos);
                        assert(before[k].y < min_y + (n - 1) * 16);
                    }
                    if added.contains(pos) {
                        let k = choose|k: int| 0 <= k < added.len() && added[k] == pos;
                        assert(sources[before.len() + k] == pos);
                        assert(added[k].y >= y0);
                    }
                    if sources.contains(pos) {
                        let k = choose|k: int| 0 <= k < sources.len() && sources[k] == pos;
                        if k < before.len() {
                            assert(before[k] == pos);
                        } else {
                            assert(added[k - before.len()] == pos);
                        }
                    }
                }
            }
            assert forall|i: int, j: int| 0 <= i < j < sources.len() implies is_listed_before(
                #[trigger] sources[i],
                #[trigger] sources[j],
            ) by {
                if j < before.len() {
                    assert(sources[i] == before[i] && sources[j] == before[j]);
                } else if i < before.len() {
                    assert(sources[i] == before[i] && sources[j] == added[j - before.len()]);
                } else {
                    assert(sources[i] == added[i - before.len()] && sources[j] == added[j
                        - before.len()]);
                }
            }
        }
    }

    /// A chunk lists exactly the blocks of its sections that emit light, each
    /// once, from the bottom up, then along z, then along x.
    pub proof fn chunk_sources_are_emitters(
        &self,
        table: &BlockStateTable,
        chunk_pos: ChunkPos,
        min_y: int,
    )
        requires
            -134217728 <= chunk_pos.x <= 134217727,
            -134217728 <= chunk_pos.z <= 134217727,
            i32::MIN <= min_y,
            min_y + self.sections@.len() * 16 - 1 <= i32::MAX,
        ensures
            ({
                let sources = self.sources_of(
                    table,
                    chunk_pos,
                    min_y,
                    self.sections@.len() as int,
                );
                self.lists_chunk_emitters(sources, table, chunk_pos, min_y) && lists_in_order(
                    sources,
                )
            }),
    {
        self.lemma_sources_of(table, chunk_pos, min_y, self.sections@.len() as int);
    }

    /// Creates a new `Sections` from a box of owned `ChunkSection`s.
    #[must_use]
    pub fn from_owned(sections: Box<[ChunkSection]>) -> (result: Self)
        ensures
            result.sections@ == sections@,
    {
        Sections { sections: sections.into_vec() }
    }

    /// Recalculates cached counters for every section.
    pub fn recalculate_counts(&mut self, table: &BlockStateTable)
        requires
            old(self).wf(),
            table.wf(),
        ensures
            final(self).wf(),
            final(self).blocks() == old(self).blocks(),
            final(self).biomes() == old(self).biomes(),
            forall|i: int|
                0 <= i < final(self).sections@.len() ==> {
                    let section = #[trigger] final(self).sections@[i];
                    &&& section.non_empty_block_count == non_air_blocks(table, section.states@)
                    &&& section.fluid_count == fluid_blocks(table, section.states@)
                    &&& section.ticking_block_count == ticking_non_air_blocks(table, section.states@)
                },
            air_never_ticks(table) ==> final(self).counts_match(table),
    {
        let ghost before = self.sections@;
        let mut i: usize = 0;
        while i < self.sections.len()
            invariant
                table.wf(),
                self.wf(),
                i <= self.sections@.len(),
                self.sections@.len() == before.len(),
                forall|j: int|
                    0 <= j < before.len() ==> (#[trigger] self.sections@[j]).states
                        == before[j].states && self.sections@[j].biomes == before[j].biomes,
                forall|j: int|
                    0 <= j < i ==> {
                        let section = #[trigger] self.sections@[j];
                        &&& section.non_empty_block_count == non_air_blocks(table, section.states@)
                        &&& section.fluid_count == fluid_blocks(table, section.states@)
                        &&& section.ticking_block_count == ticking_non_air_blocks(
                            table,
                            section.states@,
                        )
                        &&& air_never_ticks(table) ==> section.counts_match(table)
                    },
            decreases self.sections@.len() - i,
        {
            self.sections[i].recalculate_counts(table);
            i += 1;
        }
        assert(self.blocks() =~= old(self).blocks());
        assert(self.biomes() =~= old(self).biomes());
    }

    /// Returns section emptiness for every real chunk section.
    #[must_use]
    pub fn section_emptiness_map(&self) -> (map: Vec<bool>)
        ensures
            map@ == self.sections@.map_values(
                |section: ChunkSection| section.non_empty_block_count == 0,
            ),
    {
        let mut map: Vec<bool> = Vec::new();
        let mut i: usize = 0;
        while i < self.sections.len()
            invariant
                i <= self.sections@.len(),
                map@.len() == i,
                forall|j: int|
                    0 <= j < i ==> #[trigger] map@[j] == (self.sections@[j].non_empty_block_count
                        == 0),
            decreases self.sections@.len() - i,
        {
            map.push(self.sections[i].is_empty());
            i += 1;
        }
        assert(map@ =~= self.sections@.map_values(
            |section: ChunkSection| section.non_empty_block_count == 0,
        ));
        map
    }

    /// Returns block-light source positions in section and local-index order.
    ///
    /// Each section's palette is checked for emitting states before its local
    /// indices are scanned as `x | (z << 4) | (y << 8)`.
    #[must_use]
    pub fn block_light_sources(
        &self,
        table: &BlockStateTable,
        chunk_pos: ChunkPos,
        min_y: i32,
    ) -> (sources: Vec<BlockPos>)
        requires
            self.wf(),
            table.wf(),
            -134217728 <= chunk_pos.x <= 134217727,
            -134217728 <= chunk_pos.z <= 134217727,
            min_y + self.sections@.len() * 16 - 1 <= i32::MAX,
        ensures
            sources@ == self.sources_of(
                table,
                chunk_pos,
                min_y as int,
                self.sections@.len() as int,
            ),
            self.lists_chunk_emitters(sources@, table, chunk_pos, min_y as int),
            lists_in_order(sources@),
    {
        proof {
            self.chunk_sources_are_emitters(table, chunk_pos, min_y as int);
        }
        let mut sources: Vec<BlockPos> = Vec::new();
        let chunk_min_x: i32 = chunk_pos.x * 16;
        let chunk_min_z: i32 = chunk_pos.z * 16;
        let mut section_min_y: i64 = min_y as i64;
        let mut i: usize = 0;
        while i < self.sections.len()
            invariant
                self.wf(),
                table.wf(),
                i <= self.sections@.len(),
                chunk_min_x == chunk_pos.x * 16,
                chunk_min_z == chunk_pos.z * 16,
                chunk_min_x + 15 <= i32::MAX,
                chunk_min_z + 15 <= i32::MAX,
                min_y + self.sections@.len() * 16 - 1 <= i32::MAX,
                section_min_y == min_y + i * 16,
                sources@ == self.sources_of(table, chunk_pos, min_y as int, i as int),
            decreases self.sections@.len() - i,
        {
            self.sections[i].append_block_light_sources(
                table,
                chunk_min_x,
                section_min_y as i32,
                chunk_min_z,
                &mut sources,
            );
            section_min_y += 16;
            i += 1;
        }
        sources
    }

    /// Gets a block at a relative position in the chunk.
    #[must_use]
    pub fn get_relative_block(
        &self,
        relative_x: usize,
        relative_y: usize,
        relative_z: usize,
    ) -> (result: Option<BlockStateId>)
        requires
            self.wf(),
            relative_x < 16,
            relative_z < 16,
        ensures
            match result {
                Some(state) => relative_y / 16 < self.sections@.len() && state == self.block_at(
                    relative_x as int,
                    relative_y as int,
                    relative_z as int,
                ),
                None => relative_y / 16 >= self.sections@.len(),
            },
    {
        let section_index: usize = relative_y / 16;
        if section_index >= self.sections.len() {
            return None;
        }
        proof {
            block_cell_index(relative_x as int, relative_y as int % 16, relative_z as int);
        }
        Some(self.sections[section_index].states.get(relative_x, relative_y % 16, relative_z))
    }

    /// Reads an entire column at `(x, z)` across all sections into a caller-owned buffer.
    ///
    /// Indexed by `relative_y` (0 = chunk min-y). The buffer is reused across
    /// calls to avoid allocation.
    pub fn read_column_into(&self, x: usize, z: usize, buf: &mut Vec<BlockStateId>)
        requires
            self.wf(),
            x < 16,
            z < 16,
        ensures
            final(buf)@ == Seq::new(
                self.sections@.len() * 16,
                |relative_y: int| self.block_at(x as int, relative_y, z as int),
            ),
    {
        buf.clear();
        let mut i: usize = 0;
        while i < self.sections.len()
            invariant
                self.wf(),
                x < 16,
                z < 16,
                i <= self.sections@.len(),
                buf@.len() == i * 16,
                forall|y: int|
                    0 <= y < buf@.len() ==> #[trigger] buf@[y] == self.block_at(
                        x as int,
                        y,
                        z as int,
                    ),
            decreases self.sections@.len() - i,
        {
            let mut local_y: usize = 0;
            while local_y < 16
                invariant
                    self.wf(),
                    x < 16,
                    z < 16,
                    i < self.sections@.len(),
                    local_y <= 16,
                    buf@.len() == i * 16 + local_y,
                    forall|y: int|
                        0 <= y < buf@.len() ==> #[trigger] buf@[y] == self.block_at(
                            x as int,
                            y,
                            z as int,
                        ),
                decreases 16 - local_y,
            {
                proof {
                    block_cell_index(x as int, local_y as int, z as int);
                    assert((i * 16 + local_y) / 16 == i);
                    assert((i * 16 + local_y) % 16 == local_y);
                }
                buf.push(self.sections[i].states.get(x, local_y, z));
                local_y += 1;
            }
            i += 1;
        }
        assert(buf@ =~= Seq::new(
            self.sections@.len() * 16,
            |relative_y: int| self.block_at(x as int, relative_y, z as int),
        ));
    }

    /// Reads all biome palette values into a flat array.
    ///
    /// Indexed as `[section_idx * 64 + qy * 16 + qz * 4 + qx]`.
    #[must_use]
    pub fn read_all_biomes(&self) -> (biomes: Vec<u16>)
        requires
            self.wf(),
        ensures
            biomes@ == Seq::new(
                self.sections@.len() * 64,
                |i: int| self.sections@[i / 64].biomes@[i % 64],
            ),
    {
        let mut biomes: Vec<u16> = Vec::new();
        let mut i: usize = 0;
        while i < self.sections.len()
            invariant
                self.wf(),
                i <= self.sections@.len(),
                biomes@.len() == i * 64,
                forall|j: int|
                    0 <= j < biomes@.len() ==> #[trigger] biomes@[j] == self.sections@[j
                        / 64].biomes@[j % 64],
            decreases self.sections@.len() - i,
        {
            let mut q: usize = 0;
            while q < 64
                invariant
                    self.wf(),
                    i < self.sections@.len(),
                    q <= 64,
                    biomes@.len() == i * 64 + q,
                    forall|j: int|
                        0 <= j < biomes@.len() ==> #[trigger] biomes@[j] == self.sections@[j
                            / 64].biomes@[j % 64],
                decreases 64 - q,
            {
                proof {
                    block_cell_index(0, 0, 0);
                    assert((i * 64 + q) / 64 == i);
                    assert((i * 64 + q) % 64 == q);
                }
                biomes.push(self.sections[i].biomes.get_at_index(q));
                q += 1;
            }
            i += 1;
        }
        assert(biomes@ =~= Seq::new(
            self.sections@.len() * 64,
            |i: int| self.sections@[i / 64].biomes@[i % 64],
        ));
        biomes
    }

    /// Writes multiple blocks in one column.
    pub fn write_column_blocks(
        &mut self,
        table: &BlockStateTable,
        x: usize,
        z: usize,
        blocks: &[(usize, BlockStateId)],
    )
        requires
            old(self).wf(),
            table.wf(),
            old(self).counts_match(table),
            x < 16,
            z < 16,
            forall|i: int|
                0 <= i < blocks@.len() ==> (#[trigger] blocks@[i]).0 / 16 < old(
                    self,
                ).sections@.len(),
        ensures
            final(self).wf(),
            final(self).counts_match(table),
            final(self).biomes() == old(self).biomes(),
            final(self).blocks() == write_column(
                old(self).blocks(),
                x as int,
                z as int,
                blocks@,
                blocks@.len() as int,
            ),
    {
        let mut i: usize = 0;
        while i < blocks.len()
            invariant
                i <= blocks@.len(),
                self.wf(),
                table.wf(),
                self.counts_match(table),
                x < 16,
                z < 16,
                self.sections@.len() == old(self).sections@.len(),
                forall|j: int|
                    0 <= j < blocks@.len() ==> (#[trigger] blocks@[j]).0 / 16
                        < self.sections@.len(),
                self.biomes() == old(self).biomes(),
                self.blocks() == write_column(
                    old(self).blocks(),
                    x as int,
                    z as int,
                    blocks@,
                    i as int,
                ),
            decreases blocks@.len() - i,
        {
            let (relative_y, value): (usize, BlockStateId) = blocks[i];
            assert(blocks@[i as int].0 / 16 < self.sections@.len());
            self.set_relative_block(table, x, relative_y, z, value);
            i += 1;
        }
    }

    /// Writes a batch of blocks at arbitrary positions.
    pub fn write_block_batch(
        &mut self,
        table: &BlockStateTable,
        blocks: &[(usize, usize, usize, BlockStateId)],
    )
        requires
            old(self).wf(),
            table.wf(),
            old(self).counts_match(table),
            forall|i: int|
                0 <= i < blocks@.len() ==> {
                    let write = #[trigger] blocks@[i];
                    write.0 < 16 && write.2 < 16 && write.1 / 16 < old(self).sections@.len()
                },
        ensures
            final(self).wf(),
            final(self).counts_match(table),
            final(self).biomes() == old(self).biomes(),
            final(self).blocks() == write_batch(
                old(self).blocks(),
                blocks@,
                blocks@.len() as int,
            ),
    {
        let mut i: usize = 0;
        while i < blocks.len()
            invariant
                i <= blocks@.len(),
                self.wf(),
                table.wf(),
                self.counts_match(table),
                self.sections@.len() == old(self).sections@.len(),
                forall|j: int|
                    0 <= j < blocks@.len() ==> {
                        let write = #[trigger] blocks@[j];
                        write.0 < 16 && write.2 < 16 && write.1 / 16 < self.sections@.len()
                    },
                self.biomes() == old(self).biomes(),
                self.blocks() == write_batch(old(self).blocks(), blocks@, i as int),
            decreases blocks@.len() - i,
        {
            let (x, relative_y, z, value): (usize, usize, usize, BlockStateId) = blocks[i];
            assert(blocks@[i as int].0 < 16);
            self.set_relative_block(table, x, relative_y, z, value);
            i += 1;
        }
    }

    /// Sets a block at a relative position in the chunk.
    pub fn set_relative_block(
        &mut self,
        table: &BlockStateTable,
        relative_x: usize,
        relative_y: usize,
        relative_z: usize,
        value: BlockStateId,
    )
        requires
            old(self).wf(),
            table.wf(),
            old(self).counts_match(table),
            relative_x < 16,
            relative_z < 16,
            relative_y / 16 < old(self).sections@.len(),
        ensures
            final(self).wf(),
            final(self).counts_match(table),
            final(self).sections@.len() == old(self).sections@.len(),
            final(self).biomes() == old(self).biomes(),
            final(self).blocks() == write_block(
                old(self).blocks(),
                relative_x as int,
                relative_y as int,
                relative_z as int,
                value,
            ),
    {
        let index: usize = relative_y / 16;
        let ghost before = self.sections@;
        let new_counts: BlockStateSectionCounts = ChunkSection::block_state_section_counts(
            table,
            value,
        );
        self.sections[index].set_block_state_with_known_new_counts(
            table,
            relative_x,
            relative_y % 16,
            relative_z,
            value,
            new_counts,
        );
        proof {
            assert(self.blocks() =~= write_block(
                old(self).blocks(),
                relative_x as int,
                relative_y as int,
                relative_z as int,
                value,
            ));
            assert(self.biomes() =~= old(self).biomes());
            assert forall|i: int| 0 <= i < self.sections@.len() implies (
            #[trigger] self.sections@[i]).wf() && self.sections@[i].counts_match(table) by {
                if i != index {
                    assert(self.sections@[i] == before[i]);
                }
            }
        }
    }
}

} // verus!
