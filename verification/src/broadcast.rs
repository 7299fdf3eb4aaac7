//! What clients are told of the changes of a chunk.
use vstd::prelude::*;

use crate::block_state::BlockStateId;
use crate::chunk_light::ChunkLightData;
use crate::packet::{
    build_chunk_light_update_packet_for_sections, changed_updates, packet_says,
    LightUpdatePacketData,
};
use crate::position::{BlockPos, ChunkPos, SectionPos};

verus! {

/// The changes of one chunk since they were last sent.
#[derive(Debug)]
pub struct ChunkChanges {
    /// The chunk.
    pub chunk_pos: ChunkPos,
    /// The lowest block of the world.
    pub min_y: i32,
    /// The sections with changed sky light.
    pub sky_sections: Vec<SectionPos>,
    /// The sections with changed block light.
    pub block_sections: Vec<SectionPos>,
    /// The changed blocks of each section with any, as section-relative
    /// positions: x in bits 8 to 11, z in bits 4 to 7, y in bits 0 to 3.
    pub blocks: Vec<(usize, Vec<u16>)>,
}

/// A changed block.
#[derive(Debug, Clone, Copy, PartialEq, Eq, Structural)]
pub struct BlockChange {
    /// Section-relative position.
    pub packed: u16,
    /// Position in the world.
    pub block_pos: BlockPos,
    /// The state it has now.
    pub block_state: BlockStateId,
}

/// What is sent of the changed blocks of a section.
#[derive(Debug)]
pub enum BlockBroadcast {
    /// One block.
    Block(BlockChange),
    /// Several blocks of a section.
    Section {
        /// The section.
        section_pos: SectionPos,
        /// Its changed blocks.
        changes: Vec<BlockChange>,
    },
}

/// What is sent of a chunk.
#[derive(Debug)]
pub struct ChunkBroadcast {
    /// The changed light.
    pub light: Option<LightUpdatePacketData>,
    /// The changed blocks, section by section.
    pub blocks: Vec<BlockBroadcast>,
}

/// A sixteenth of a number, towards zero.
pub open spec fn sixteenth(y: int) -> int {
    if y >= 0 {
        y / 16
    } else {
        -((-y) / 16)
    }
}

/// The block at a section-relative position.
pub open spec fn section_block(section_pos: SectionPos, packed: u16) -> BlockPos {
    BlockPos {
        x: (section_pos.x * 16 + packed as int / 256 % 16) as i32,
        y: (section_pos.y * 16 + packed as int % 16) as i32,
        z: (section_pos.z * 16 + packed as int / 16 % 16) as i32,
    }
}

/// The blocks of a section have coordinates.
pub open spec fn section_in_space(section_pos: SectionPos) -> bool {
    &&& -0x800_0000 <= section_pos.x < 0x800_0000
    &&& -0x800_0000 <= section_pos.y < 0x800_0000
    &&& -0x800_0000 <= section_pos.z < 0x800_0000
}

/// Two section-relative positions of one section are two blocks.
pub proof fn section_block_injective(section_pos: SectionPos, a: u16, b: u16)
    requires
        section_in_space(section_pos),
        a < 4096,
        b < 4096,
        section_block(section_pos, a) == section_block(section_pos, b),
    ensures
        a == b,
{
}

/// A section-relative position leads to a block of the section.
pub proof fn section_block_is_inside(section_pos: SectionPos, packed: u16)
    requires
        section_in_space(section_pos),
    ensures
        SectionPos::of_block(section_block(section_pos, packed)) == section_pos,
{
}

impl SectionPos {
    /// Returns the block at a section-relative position.
    #[must_use]
    pub fn relative_to_block_pos(&self, packed: u16) -> (pos: BlockPos)
        requires
            section_in_space(*self),
        ensures
            pos == section_block(*self, packed),
    {
        let x: u16 = packed / 256 % 16;
        let y: u16 = packed % 16;
        let z: u16 = packed / 16 % 16;
        BlockPos::new(self.x * 16 + x as i32, self.y * 16 + y as i32, self.z * 16 + z as i32)
    }
}

impl ChunkChanges {
    /// The section at an index of the chunk's sections.
    pub open spec fn section_pos(&self, index: int) -> SectionPos {
        SectionPos {
            x: self.chunk_pos.x,
            y: (sixteenth(self.min_y as int) + index) as i32,
            z: self.chunk_pos.z,
        }
    }

    /// The blocks of every changed section have coordinates.
    pub open spec fn in_space(&self) -> bool {
        forall|i: int|
            0 <= i < self.blocks@.len() ==> sixteenth(self.min_y as int) + (
            #[trigger] self.blocks@[i]).0 <= i32::MAX && section_in_space(
                self.section_pos(self.blocks@[i].0 as int),
            )
    }

    /// Returns whether the blocks of every changed section have coordinates.
    #[must_use]
    pub fn lies_in_space(&self) -> (result: bool)
        ensures
            result == self.in_space(),
    {
        let mut i: usize = 0;
        while i < self.blocks.len()
            invariant
                i <= self.blocks@.len(),
                forall|j: int|
                    0 <= j < i ==> sixteenth(self.min_y as int) + (#[trigger] self.blocks@[j]).0
                        <= i32::MAX && section_in_space(
                        self.section_pos(self.blocks@[j].0 as int),
                    ),
            decreases self.blocks@.len() - i,
        {
            match self.changed_section_pos(i) {
                Some(pos) => {
                    let fits: bool = -0x800_0000 <= pos.x && pos.x < 0x800_0000 && -0x800_0000
                        <= pos.y && pos.y < 0x800_0000 && -0x800_0000 <= pos.z && pos.z
                        < 0x800_0000;
                    if !fits {
                        assert(!section_in_space(self.section_pos(self.blocks@[i as int].0 as int)));
                        return false;
                    }
                },
                None => {
                    assert(sixteenth(self.min_y as int) + self.blocks@[i as int].0 > i32::MAX);
                    return false;
                },
            }
            i += 1;
        }
        true
    }

    /// Returns the section of an entry of changed blocks, if it has coordinates.
    fn changed_section_pos(&self, i: usize) -> (result: Option<SectionPos>)
        requires
            i < self.blocks@.len(),
        ensures
            match result {
                Some(pos) => sixteenth(self.min_y as int) + self.blocks@[i as int].0 <= i32::MAX
                    && pos == self.section_pos(self.blocks@[i as int].0 as int),
                None => sixteenth(self.min_y as int) + self.blocks@[i as int].0 > i32::MAX,
            },
    {
        let base: i64 = if self.min_y >= 0 {
            (self.min_y / 16) as i64
        } else {
            -(-(self.min_y as i64) / 16)
        };
        let index: usize = self.blocks[i].0;
        if index > 0xffff_ffff || base + index as i64 > 0x7fff_ffff {
            return None;
        }
        Some(
            SectionPos::new(self.chunk_pos.x, (base + index as i64) as i32, self.chunk_pos.z),
        )
    }

    /// Light that clients see has changed.
    pub open spec fn has_light(&self, has_skylight: bool) -> bool {
        self.block_sections@.len() > 0 || has_skylight && self.sky_sections@.len() > 0
    }

    /// Returns whether light that clients see has changed. Sky light counts
    /// only in worlds that have it.
    #[must_use]
    pub fn has_publishable_light_changes(&self, has_skylight: bool) -> (result: bool)
        ensures
            result == self.has_light(has_skylight),
    {
        self.block_sections.len() > 0 || (has_skylight && self.sky_sections.len() > 0)
    }

    /// Returns whether blocks have changed.
    #[must_use]
    pub fn has_block_changes(&self) -> (result: bool)
        ensures
            result == (self.blocks@.len() > 0),
    {
        self.blocks.len() > 0
    }

    /// Anyone is told of the changes.
    pub open spec fn has_audience(
        &self,
        has_skylight: bool,
        light_players: Seq<i32>,
        block_players: Seq<i32>,
    ) -> bool {
        self.has_light(has_skylight) && light_players.len() > 0 || self.blocks@.len() > 0
            && block_players.len() > 0
    }

    /// Returns what is sent of the changes.
    ///
    /// `light_players` are told of light and `block_players` of blocks;
    /// nothing is sent where there is nobody to tell. `light` is the light of a
    /// chunk that is complete. One changed block of a section is sent by
    /// itself, several as an update of the section.
    #[must_use]
    pub fn broadcast<F: Fn(BlockPos) -> BlockStateId>(
        &self,
        has_skylight: bool,
        light_players: &[i32],
        block_players: &[i32],
        light: Option<&ChunkLightData>,
        block_state: &F,
    ) -> (result: ChunkBroadcast)
        requires
            self.in_space(),
            light is Some ==> light->0.wf(),
            forall|pos: BlockPos| #[trigger] call_requires(*block_state, (pos,)),
        ensures
            result.light is Some <==> light is Some && self.has_light(has_skylight)
                && light_players@.len() > 0,
            result.light is Some ==> packet_says(
                result.light->0,
                changed_updates(
                    self.chunk_pos,
                    light->0.sky@.range,
                    light->0.sky@,
                    if has_skylight {
                        self.sky_sections@
                    } else {
                        Seq::empty()
                    },
                ),
                changed_updates(
                    self.chunk_pos,
                    light->0.sky@.range,
                    light->0.block@,
                    self.block_sections@,
                ),
                light->0.sky@.range.count(),
            ),
            result.blocks@.len() == (if self.has_audience(
                has_skylight,
                light_players@,
                block_players@,
            ) {
                self.blocks@.len()
            } else {
                0
            }),
            forall|i: int|
                0 <= i < result.blocks@.len() ==> section_broadcast_says(
                    #[trigger] result.blocks@[i],
                    self.section_pos(self.blocks@[i].0 as int),
                    self.blocks@[i].1@,
                    *block_state,
                ),
    {
        let has_light: bool = self.has_publishable_light_changes(has_skylight);
        let tells_light: bool = has_light && light_players.len() > 0;
        let tells_blocks: bool = self.has_block_changes() && block_players.len() > 0;
        let mut blocks: Vec<BlockBroadcast> = Vec::new();
        if !tells_light && !tells_blocks {
            return ChunkBroadcast { light: None, blocks };
        }
        let light_packet: Option<LightUpdatePacketData> = match light {
            Some(light) if tells_light => {
                let no_sections: Vec<SectionPos> = Vec::new();
                assert(no_sections@ =~= Seq::<SectionPos>::empty());
                let sky_sections: &[SectionPos] = if has_skylight {
                    self.sky_sections.as_slice()
                } else {
                    no_sections.as_slice()
                };
                Some(
                    build_chunk_light_update_packet_for_sections(
                        self.chunk_pos,
                        light,
                        sky_sections,
                        self.block_sections.as_slice(),
                    ),
                )
            },
            _ => None,
        };
        let mut i: usize = 0;
        while i < self.blocks.len()
            invariant
                i <= self.blocks@.len(),
                self.in_space(),
                forall|pos: BlockPos| #[trigger] call_requires(*block_state, (pos,)),
                blocks@.len() == i,
                forall|j: int|
                    0 <= j < i ==> section_broadcast_says(
                        #[trigger] blocks@[j],
                        self.section_pos(self.blocks@[j].0 as int),
                        self.blocks@[j].1@,
                        *block_state,
                    ),
            decreases self.blocks@.len() - i,
        {
            assert(sixteenth(self.min_y as int) + self.blocks@[i as int].0 <= i32::MAX);
            if let Some(section_pos) = self.changed_section_pos(i) {
                blocks.push(section_broadcast(section_pos, &self.blocks[i].1, block_state));
            }
            i += 1;
        }
        ChunkBroadcast { light: light_packet, blocks }
    }
}

/// A broadcast tells of the changed blocks of a section, in their order and
/// with states that the world gives.
pub open spec fn section_broadcast_says<F: Fn(BlockPos) -> BlockStateId>(
    broadcast: BlockBroadcast,
    section_pos: SectionPos,
    positions: Seq<u16>,
    block_state: F,
) -> bool {
    match broadcast {
        BlockBroadcast::Block(change) => {
            &&& positions.len() == 1
            &&& change_says(change, section_pos, positions[0], block_state)
        },
        BlockBroadcast::Section { section_pos: pos, changes } => {
            &&& positions.len() != 1
            &&& pos == section_pos
            &&& changes@.len() == positions.len()
            &&& forall|i: int|
                0 <= i < positions.len() ==> change_says(
                    #[trigger] changes@[i],
                    section_pos,
                    positions[i],
                    block_state,
                )
        },
    }
}

/// A change tells of the block at a section-relative position.
pub open spec fn change_says<F: Fn(BlockPos) -> BlockStateId>(
    change: BlockChange,
    section_pos: SectionPos,
    packed: u16,
    block_state: F,
) -> bool {
    &&& change.packed == packed
    &&& change.block_pos == section_block(section_pos, packed)
    &&& call_ensures(block_state, (change.block_pos,), change.block_state)
}

/// Returns what is sent of the changed blocks of a section.
fn section_broadcast<F: Fn(BlockPos) -> BlockStateId>(
    section_pos: SectionPos,
    positions: &Vec<u16>,
    block_state: &F,
) -> (result: BlockBroadcast)
    requires
        section_in_space(section_pos),
        forall|pos: BlockPos| #[trigger] call_requires(*block_state, (pos,)),
    ensures
        section_broadcast_says(result, section_pos, positions@, *block_state),
{
    if positions.len() == 1 {
        return BlockBroadcast::Block(block_change(section_pos, positions[0], block_state));
    }
    let mut changes: Vec<BlockChange> = Vec::new();
    let mut i: usize = 0;
    while i < positions.len()
        invariant
            i <= positions@.len(),
            section_in_space(section_pos),
            forall|pos: BlockPos| #[trigger] call_requires(*block_state, (pos,)),
            changes@.len() == i,
            forall|j: int|
                0 <= j < i ==> change_says(
                    #[trigger] changes@[j],
                    section_pos,
                    positions@[j],
                    *block_state,
                ),
        decreases positions@.len() - i,
    {
        changes.push(block_change(section_pos, positions[i], block_state));
        i += 1;
    }
    BlockBroadcast::Section { section_pos, changes }
}

fn block_change<F: Fn(BlockPos) -> BlockStateId>(
    section_pos: SectionPos,
    packed: u16,
    block_state: &F,
) -> (change: BlockChange)
    requires
        section_in_space(section_pos),
        forall|pos: BlockPos| #[trigger] call_requires(*block_state, (pos,)),
    ensures
        change_says(change, section_pos, packed, *block_state),
{
    let block_pos = section_pos.relative_to_block_pos(packed);
    BlockChange { packed, block_pos, block_state: block_state(block_pos) }
}

} // verus!
