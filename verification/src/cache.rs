//! The window of chunks around the active chunk, and its flat slot indices.
use vstd::prelude::*;

use crate::packed::{local_index, section_local_index};
use crate::position::{
    block_to_section_coord, local_coord, section_coord, section_relative_coord, BlockPos, ChunkPos,
    Direction, SectionPos,
};
use crate::section_range::LightSectionRange;
use crate::storage_model::block_index;

verus! {

/// Horizontal cache radius used by light propagation.
pub const LIGHT_CACHE_RADIUS: i32 = 2;

/// Horizontal cache width and depth used by light propagation.
pub const LIGHT_CACHE_DIAMETER: usize = 5;

/// Number of chunk columns in one light-engine cache window.
pub const LIGHT_CACHE_CHUNK_SLOTS: usize = 25;

const LIGHT_ENCODED_POSITION_MASK: u32 = 0x0FFF_FFFF;

/// Packed block position used in light propagation queue entries.
///
/// The lower 28 bits store `x | (z << 6) | (y << 12)`. X and Z are encoded in
/// a 64-block window around the active chunk; Y is encoded relative to the
/// section below the light-section range.
#[derive(Debug, Clone, Copy, PartialEq, Eq, Structural)]
pub struct PackedLightBlockPos(pub u32);

proof fn lemma_packed_bits(raw: u32, x: u32, z: u32, y: u32)
    by (bit_vector)
    requires
        x < 64,
        z < 64,
        y < 65536,
    ensures
        raw & 0x0FFF_FFFF == raw % 0x1000_0000,
        raw & 63 == raw % 64,
        (raw >> 6u32) & 63 == (raw / 64) % 64,
        (raw >> 12u32) & 0xFFFF == (raw / 4096) % 65536,
        x | (z << 6u32) | (y << 12u32) == x + 64 * z + 4096 * y,
        x + 64 * z + 4096 * y < 0x1000_0000,
{
}

impl PackedLightBlockPos {
    /// The encoded x coordinate.
    pub open spec fn x(self) -> int {
        self.0 as int % 64
    }

    /// The encoded z coordinate.
    pub open spec fn z(self) -> int {
        (self.0 as int / 64) % 64
    }

    /// The encoded y coordinate.
    pub open spec fn y(self) -> int {
        (self.0 as int / 4096) % 65536
    }

    /// Creates a packed light block position from raw queue bits.
    #[must_use]
    pub fn from_raw(raw: u32) -> (packed: Self)
        ensures
            packed.0 == raw % 0x1000_0000,
    {
        proof {
            lemma_packed_bits(raw, 0, 0, 0);
        }
        PackedLightBlockPos(raw & LIGHT_ENCODED_POSITION_MASK)
    }

    /// Returns the raw lower 28 queue-position bits.
    #[must_use]
    pub fn raw(self) -> (raw: u32)
        ensures
            raw == self.0,
    {
        self.0
    }

    /// Returns the encoded 6-bit X coordinate.
    #[must_use]
    pub fn encoded_x(self) -> (x: u8)
        ensures
            x == self.x(),
    {
        proof {
            lemma_packed_bits(self.0, 0, 0, 0);
        }
        (self.0 & 63) as u8
    }

    /// Returns the encoded 6-bit Z coordinate.
    #[must_use]
    pub fn encoded_z(self) -> (z: u8)
        ensures
            z == self.z(),
    {
        proof {
            lemma_packed_bits(self.0, 0, 0, 0);
        }
        ((self.0 >> 6) & 63) as u8
    }

    /// Returns the encoded 16-bit Y coordinate.
    #[must_use]
    pub fn encoded_y(self) -> (y: u16)
        ensures
            y == self.y(),
    {
        proof {
            lemma_packed_bits(self.0, 0, 0, 0);
        }
        ((self.0 >> 12) & 0xFFFF) as u16
    }
}

/// The encoded coordinates of a packed position are read back.
pub proof fn packed_position_round_trip(x: int, y: int, z: int, raw: u32)
    requires
        0 <= x < 64,
        0 <= z < 64,
        0 <= y < 65536,
        raw == x + 64 * z + 4096 * y,
    ensures
        PackedLightBlockPos(raw).x() == x,
        PackedLightBlockPos(raw).y() == y,
        PackedLightBlockPos(raw).z() == z,
{
    assert(raw as int / 64 == z + 64 * y);
    assert(raw as int / 4096 == y);
}

/// Cached section slot and local nibble index for one block.
///
/// Propagation uses the section slot plus the local index
/// `x | (z << 4) | (y << 8)` instead of repeatedly materializing section
/// positions and local coordinates inside the hot propagation loops.
#[derive(Debug, Clone, Copy, PartialEq, Eq, Structural)]
pub struct CachedLightBlock {
    /// World block position for this cached block.
    pub block_pos: BlockPos,
    /// Slot into the section and nibble cache arrays.
    pub section_slot: usize,
    /// Local block index inside the 16x16x16 light section.
    pub local_index: usize,
}

/// Where a cached chunk lies in the window.
#[derive(Debug, Clone, Copy, PartialEq, Eq, Structural)]
pub enum LightCacheChunkScope {
    /// The active chunk or one of the eight chunks around it.
    Inner,
    /// The outer ring of the window.
    Outer,
}

/// How much of the window is set up.
#[derive(Debug, Clone, Copy, PartialEq, Eq, Structural)]
pub enum LightCacheSetupRadius {
    /// The active chunk and the eight chunks around it.
    Inner,
    /// The whole window.
    Full,
}

/// A chunk of the window and its slot.
#[derive(Debug, Clone, Copy, PartialEq, Eq, Structural)]
pub struct CachedLightChunk {
    /// The chunk.
    pub chunk_pos: ChunkPos,
    /// Slot into the chunk cache array.
    pub chunk_slot: usize,
    /// Where the chunk lies.
    pub scope: LightCacheChunkScope,
}

/// Cache-window layout for chunk, section, and nibble arrays.
///
/// A 5x5 chunk window around the active chunk is cached, with light sections in
/// flat arrays and one extra cached section below and above the light-section
/// range. This type owns that index math so the light engine can share the same
/// slots for chunk sections, nibbles, and update notifications without
/// repeating coordinate transforms.
#[derive(Debug, Clone, Copy, PartialEq, Eq, Structural)]
pub struct LightCacheLayout {
    /// The active chunk.
    pub center: ChunkPos,
    /// The light sections of the world.
    pub section_range: LightSectionRange,
}

impl LightCacheLayout {
    /// The range is well formed and its slots can be indexed.
    pub open spec fn wf(self) -> bool {
        &&& self.section_range.wf()
        &&& 25 * (self.section_range.count() + 2) <= usize::MAX
    }

    /// Every chunk of the window has coordinates, and so have its blocks and
    /// the blocks around them.
    pub open spec fn in_world(self) -> bool {
        &&& -134217720 <= self.center.x <= 134217720
        &&& -134217720 <= self.center.z <= 134217720
        &&& -134217720 <= self.section_range.min_y()
        &&& self.section_range.max_y() <= 134217720
    }

    /// The first cached section.
    pub open spec fn min_y(self) -> int {
        self.section_range.min_y() - 1
    }

    /// The number of cached sections of a chunk.
    pub open spec fn depth(self) -> int {
        self.section_range.count() + 2
    }

    /// The number of section slots.
    pub open spec fn slots(self) -> int {
        25 * self.depth()
    }

    /// The chunk lies in the window.
    pub open spec fn has_chunk(self, x: int, z: int) -> bool {
        -2 <= x - self.center.x <= 2 && -2 <= z - self.center.z <= 2
    }

    /// The section height is cached.
    pub open spec fn has_height(self, y: int) -> bool {
        self.min_y() <= y < self.min_y() + self.depth()
    }

    /// The section lies in the window.
    pub open spec fn has_section(self, pos: SectionPos) -> bool {
        self.has_chunk(pos.x as int, pos.z as int) && self.has_height(pos.y as int)
    }

    /// The slot of a chunk of the window.
    pub open spec fn chunk_slot_at(self, x: int, z: int) -> int {
        (x - self.center.x + 2) + 5 * (z - self.center.z + 2)
    }

    /// The slot of a section of the window.
    pub open spec fn slot_at(self, pos: SectionPos) -> int {
        self.chunk_slot_at(pos.x as int, pos.z as int) + 25 * (pos.y - self.min_y())
    }

    /// The section of a slot.
    pub open spec fn section_at(self, slot: int) -> SectionPos {
        SectionPos {
            x: (self.center.x - 2 + slot % 5) as i32,
            y: (self.min_y() + slot / 25) as i32,
            z: (self.center.z - 2 + (slot / 5) % 5) as i32,
        }
    }

    /// The block lies in the window.
    pub open spec fn has_block(self, block_pos: BlockPos) -> bool {
        self.has_section(SectionPos::of_block(block_pos))
    }

    /// The cached form of a block of the window.
    pub open spec fn cached(self, block_pos: BlockPos) -> CachedLightBlock {
        CachedLightBlock {
            block_pos,
            section_slot: self.slot_at(SectionPos::of_block(block_pos)) as usize,
            local_index: block_index(block_pos) as usize,
        }
    }

    /// The first block x coordinate that can be packed.
    pub open spec fn min_block_x(self) -> int {
        self.center.x * 16 - 24
    }

    /// The first block z coordinate that can be packed.
    pub open spec fn min_block_z(self) -> int {
        self.center.z * 16 - 24
    }

    /// The block lies in the 64-block queue window.
    pub open spec fn can_encode(self, block_pos: BlockPos) -> bool {
        &&& self.min_block_x() <= block_pos.x < self.min_block_x() + 64
        &&& self.min_block_z() <= block_pos.z < self.min_block_z() + 64
        &&& self.has_height(section_coord(block_pos.y as int))
    }

    /// The packed form of a block of the queue window.
    pub open spec fn encoded(self, block_pos: BlockPos) -> PackedLightBlockPos {
        PackedLightBlockPos(
            ((block_pos.x - self.min_block_x()) + 64 * (block_pos.z - self.min_block_z()) + 4096
                * ((block_pos.y - self.min_y() * 16) % 65536)) as u32,
        )
    }

    /// The block of a packed position, where it has coordinates.
    pub open spec fn decoded(self, packed: PackedLightBlockPos) -> Option<BlockPos> {
        let x = packed.x() + self.min_block_x();
        let y = packed.y() + self.min_y() * 16;
        let z = packed.z() + self.min_block_z();
        if i32::MIN <= x <= i32::MAX && i32::MIN <= y <= i32::MAX && i32::MIN <= z <= i32::MAX {
            Some(BlockPos { x: x as i32, y: y as i32, z: z as i32 })
        } else {
            None
        }
    }

    /// Section slots and sections of the window stand for one another.
    pub proof fn slot_round_trip(self, pos: SectionPos, slot: int)
        requires
            self.wf(),
        ensures
            self.has_section(pos) ==> 0 <= self.slot_at(pos) < self.slots() && self.section_at(
                self.slot_at(pos),
            ) == pos,
            0 <= slot < self.slots() && i32::MIN + 2 <= self.center.x <= i32::MAX - 2 && i32::MIN
                + 2 <= self.center.z <= i32::MAX - 2 ==> self.has_section(self.section_at(slot))
                && self.slot_at(self.section_at(slot)) == slot,
    {
        if self.has_section(pos) {
            let column = self.chunk_slot_at(pos.x as int, pos.z as int);
            let s = self.slot_at(pos);
            assert(0 <= column < 25);
            assert(s / 25 == pos.y - self.min_y());
            assert(s / 5 == (pos.z - self.center.z + 2) + 5 * (pos.y - self.min_y()));
            assert((s / 5) % 5 == pos.z - self.center.z + 2);
            assert(s % 5 == pos.x - self.center.x + 2);
        }
        if 0 <= slot < self.slots() {
            assert(slot == slot % 5 + 5 * (slot / 5));
            assert(slot / 5 == (slot / 5) % 5 + 5 * ((slot / 5) / 5));
            assert((slot / 5) / 5 == slot / 25);
        }
    }

    /// A block of the queue window is read back from its packed form, as long
    /// as the packed height has room for every cached section.
    pub proof fn encode_round_trip(self, block_pos: BlockPos)
        requires
            self.wf(),
            self.can_encode(block_pos),
            self.depth() * 16 <= 65536,
        ensures
            self.decoded(self.encoded(block_pos)) == Some(block_pos),
    {
        let x = block_pos.x - self.min_block_x();
        let y = block_pos.y - self.min_y() * 16;
        let z = block_pos.z - self.min_block_z();
        assert(0 <= y < 65536);
        packed_position_round_trip(x, y, z, (x + 64 * z + 4096 * y) as u32);
    }

    /// Creates a cache layout centered on one chunk.
    #[must_use]
    pub fn new(center_chunk: ChunkPos, range: LightSectionRange) -> (layout: Self)
        requires
            range.wf(),
            25 * (range.count() + 2) <= usize::MAX,
        ensures
            layout.wf(),
            layout.center == center_chunk,
            layout.section_range == range,
    {
        LightCacheLayout { center: center_chunk, section_range: range }
    }

    /// Returns whether every chunk of the window has coordinates, and so have
    /// its blocks and the blocks around them.
    #[must_use]
    pub fn lies_in_world(self) -> (result: bool)
        requires
            self.wf(),
        ensures
            result == self.in_world(),
    {
        -134217720 <= self.center.x && self.center.x <= 134217720 && -134217720 <= self.center.z
            && self.center.z <= 134217720 && -134217720 <= self.section_range.min_section_y()
            && self.section_range.max_section_y_exclusive() <= 134217720
    }

    /// Returns the chunk at the center of this cache window.
    #[must_use]
    pub fn center_chunk(self) -> (chunk_pos: ChunkPos)
        ensures
            chunk_pos == self.center,
    {
        self.center
    }

    /// Returns the padded light-section range.
    #[must_use]
    pub fn range(self) -> (range: LightSectionRange)
        ensures
            range == self.section_range,
    {
        self.section_range
    }

    /// Returns the first cached section Y coordinate, including the lower buffer.
    #[must_use]
    pub fn cached_min_section_y(self) -> (y: i32)
        requires
            self.wf(),
        ensures
            y == self.min_y(),
    {
        self.section_range.min_section_y() - 1
    }

    /// Returns the section Y coordinate one past the last cached section.
    #[must_use]
    pub fn cached_max_section_y_exclusive(self) -> (y: i32)
        requires
            self.wf(),
        ensures
            y == self.min_y() + self.depth(),
    {
        self.section_range.max_section_y_exclusive() + 1
    }

    /// Returns the number of cached vertical sections, including both buffers.
    #[must_use]
    pub fn cached_section_count(self) -> (count: usize)
        requires
            self.wf(),
        ensures
            count == self.depth(),
    {
        self.section_range.section_count() + 2
    }

    /// Returns the number of section/nibble slots in this cache window.
    #[must_use]
    pub fn section_slot_count(self) -> (count: usize)
        requires
            self.wf(),
        ensures
            count == self.slots(),
    {
        LIGHT_CACHE_CHUNK_SLOTS * self.cached_section_count()
    }

    /// Returns the slot for a cached chunk column.
    #[must_use]
    pub fn chunk_slot(self, chunk_pos: ChunkPos) -> (result: Option<usize>)
        ensures
            match result {
                Some(slot) => self.has_chunk(chunk_pos.x as int, chunk_pos.z as int) && slot
                    == self.chunk_slot_at(chunk_pos.x as int, chunk_pos.z as int) && slot < 25,
                None => !self.has_chunk(chunk_pos.x as int, chunk_pos.z as int),
            },
    {
        self.chunk_slot_by_coords(chunk_pos.x, chunk_pos.z)
    }

    /// Returns the slot for a cached chunk column by chunk coordinates.
    #[must_use]
    pub fn chunk_slot_by_coords(self, chunk_x: i32, chunk_z: i32) -> (result: Option<usize>)
        ensures
            match result {
                Some(slot) => self.has_chunk(chunk_x as int, chunk_z as int) && slot
                    == self.chunk_slot_at(chunk_x as int, chunk_z as int) && slot < 25,
                None => !self.has_chunk(chunk_x as int, chunk_z as int),
            },
    {
        if !self.contains_chunk_coords(chunk_x, chunk_z) {
            return None;
        }
        let x: i64 = chunk_x as i64 - self.center.x as i64 + 2;
        let z: i64 = chunk_z as i64 - self.center.z as i64 + 2;
        Some((x + 5 * z) as usize)
    }

    /// Returns a cached chunk with its slot and scope.
    #[must_use]
    pub fn cached_chunk(self, chunk_pos: ChunkPos) -> (result: Option<CachedLightChunk>)
        ensures
            match result {
                Some(cached) => {
                    &&& self.has_chunk(chunk_pos.x as int, chunk_pos.z as int)
                    &&& cached == self.cached_chunk_at(chunk_pos)
                },
                None => !self.has_chunk(chunk_pos.x as int, chunk_pos.z as int),
            },
    {
        match self.chunk_slot(chunk_pos) {
            None => None,
            Some(chunk_slot) => {
                let dx: i64 = chunk_pos.x as i64 - self.center.x as i64;
                let dz: i64 = chunk_pos.z as i64 - self.center.z as i64;
                let scope: LightCacheChunkScope = if -1 <= dx && dx <= 1 && -1 <= dz && dz <= 1 {
                    LightCacheChunkScope::Inner
                } else {
                    LightCacheChunkScope::Outer
                };
                Some(CachedLightChunk { chunk_pos, chunk_slot, scope })
            },
        }
    }

    /// A chunk of the window with its slot and scope.
    pub open spec fn cached_chunk_at(self, chunk_pos: ChunkPos) -> CachedLightChunk {
        CachedLightChunk {
            chunk_pos,
            chunk_slot: self.chunk_slot_at(chunk_pos.x as int, chunk_pos.z as int) as usize,
            scope: if -1 <= chunk_pos.x - self.center.x <= 1 && -1 <= chunk_pos.z - self.center.z
                <= 1 {
                LightCacheChunkScope::Inner
            } else {
                LightCacheChunkScope::Outer
            },
        }
    }

    /// Returns the section/nibble slot for a section position.
    #[must_use]
    pub fn section_slot(self, section_pos: SectionPos) -> (result: Option<usize>)
        requires
            self.wf(),
        ensures
            match result {
                Some(slot) => self.has_section(section_pos) && slot == self.slot_at(section_pos)
                    && slot < self.slots(),
                None => !self.has_section(section_pos),
            },
    {
        self.section_slot_by_coords(section_pos.x, section_pos.y, section_pos.z)
    }

    /// Returns the section/nibble slot for the section containing a block.
    #[must_use]
    pub fn section_slot_for_block(self, block_pos: BlockPos) -> (result: Option<usize>)
        requires
            self.wf(),
        ensures
            match result {
                Some(slot) => self.has_block(block_pos) && slot == self.slot_at(
                    SectionPos::of_block(block_pos),
                ) && slot < self.slots(),
                None => !self.has_block(block_pos),
            },
    {
        self.section_slot(SectionPos::from_block_pos(block_pos))
    }

    /// Converts a section/nibble slot back to its cached section position.
    #[must_use]
    pub fn section_pos_for_slot(self, section_slot: usize) -> (result: Option<SectionPos>)
        requires
            self.wf(),
            i32::MIN + 2 <= self.center.x <= i32::MAX - 2,
            i32::MIN + 2 <= self.center.z <= i32::MAX - 2,
        ensures
            match result {
                Some(pos) => section_slot < self.slots() && pos == self.section_at(
                    section_slot as int,
                ),
                None => section_slot >= self.slots(),
            },
    {
        if section_slot >= self.section_slot_count() {
            return None;
        }
        let section_x: i32 = self.center.x - LIGHT_CACHE_RADIUS + (section_slot
            % LIGHT_CACHE_DIAMETER) as i32;
        let section_z: i32 = self.center.z - LIGHT_CACHE_RADIUS + ((section_slot
            / LIGHT_CACHE_DIAMETER) % LIGHT_CACHE_DIAMETER) as i32;
        let section_y: i32 = self.cached_min_section_y() + (section_slot
            / LIGHT_CACHE_CHUNK_SLOTS) as i32;
        Some(SectionPos::new(section_x, section_y, section_z))
    }

    /// Returns cache slot data for a block position.
    #[must_use]
    pub fn cached_block(self, block_pos: BlockPos) -> (result: Option<CachedLightBlock>)
        requires
            self.wf(),
        ensures
            match result {
                Some(block) => self.has_block(block_pos) && block == self.cached(block_pos)
                    && block.section_slot < self.slots() && block.local_index < 4096,
                None => !self.has_block(block_pos),
            },
    {
        self.cached_block_by_coords(block_pos.x, block_pos.y, block_pos.z)
    }

    /// Returns cache slot data for block coordinates.
    #[must_use]
    pub fn cached_block_by_coords(self, block_x: i32, block_y: i32, block_z: i32) -> (result:
        Option<CachedLightBlock>)
        requires
            self.wf(),
        ensures
            ({
                let block_pos = BlockPos { x: block_x, y: block_y, z: block_z };
                match result {
                    Some(block) => self.has_block(block_pos) && block == self.cached(block_pos)
                        && block.section_slot < self.slots() && block.local_index < 4096,
                    None => !self.has_block(block_pos),
                }
            }),
    {
        match self.section_slot_by_coords(
            block_to_section_coord(block_x),
            block_to_section_coord(block_y),
            block_to_section_coord(block_z),
        ) {
            None => None,
            Some(section_slot) => Some(
                CachedLightBlock {
                    block_pos: BlockPos::new(block_x, block_y, block_z),
                    section_slot,
                    local_index: Self::local_block_index_by_coords(block_x, block_y, block_z),
                },
            ),
        }
    }

    /// Returns cache slot data for a cached block's neighboring block.
    #[must_use]
    pub fn cached_neighbor(self, cached_block: CachedLightBlock, direction: Direction) -> (result:
        Option<CachedLightBlock>)
        requires
            self.wf(),
        ensures
            ({
                let pos = cached_block.block_pos;
                let inside = i32::MIN <= pos.x + direction.dx() <= i32::MAX && i32::MIN <= pos.y
                    + direction.dy() <= i32::MAX && i32::MIN <= pos.z + direction.dz() <= i32::MAX
                    && self.has_block(pos.spec_relative(direction));
                match result {
                    Some(block) => inside && block == self.cached(pos.spec_relative(direction)),
                    None => !inside,
                }
            }),
    {
        let (dx, dy, dz) = direction.offset();
        match (
            cached_block.block_pos.x.checked_add(dx),
            cached_block.block_pos.y.checked_add(dy),
            cached_block.block_pos.z.checked_add(dz),
        ) {
            (Some(x), Some(y), Some(z)) => self.cached_block_by_coords(x, y, z),
            _ => None,
        }
    }

    /// Decodes a packed queue position and returns its cache slot data.
    #[must_use]
    pub fn cached_block_from_packed(self, packed: PackedLightBlockPos) -> (result: Option<
        CachedLightBlock,
    >)
        requires
            self.wf(),
        ensures
            match (result, self.decoded(packed)) {
                (Some(block), Some(block_pos)) => self.has_block(block_pos) && block
                    == self.cached(block_pos) && block.section_slot < self.slots()
                    && block.local_index < 4096,
                (Some(_), None) => false,
                (None, Some(block_pos)) => !self.has_block(block_pos),
                (None, None) => true,
            },
    {
        match self.decode_block_pos(packed) {
            Some(block_pos) => self.cached_block(block_pos),
            None => None,
        }
    }

    /// Returns the local light-section index for a block position.
    #[must_use]
    pub fn local_block_index(block_pos: BlockPos) -> (index: usize)
        ensures
            index == block_index(block_pos),
            index < 4096,
    {
        Self::local_block_index_by_coords(block_pos.x, block_pos.y, block_pos.z)
    }

    /// Returns the local light-section index for block coordinates.
    #[must_use]
    pub fn local_block_index_by_coords(block_x: i32, block_y: i32, block_z: i32) -> (index: usize)
        ensures
            index == local_index(
                local_coord(block_x as int),
                local_coord(block_y as int),
                local_coord(block_z as int),
            ),
            index < 4096,
    {
        section_local_index(
            section_relative_coord(block_x),
            section_relative_coord(block_y),
            section_relative_coord(block_z),
        )
    }

    /// Returns the first block X coordinate that can be packed into queue entries.
    #[must_use]
    pub fn encoded_min_block_x(self) -> (x: i32)
        requires
            i32::MIN <= self.min_block_x(),
            self.min_block_x() + 64 <= i32::MAX,
        ensures
            x == self.min_block_x(),
    {
        (self.center.x as i64 * 16 - 24) as i32
    }

    /// Returns the block X coordinate one past the packed queue window.
    #[must_use]
    pub fn encoded_max_block_x_exclusive(self) -> (x: i32)
        requires
            i32::MIN <= self.min_block_x(),
            self.min_block_x() + 64 <= i32::MAX,
        ensures
            x == self.min_block_x() + 64,
    {
        (self.center.x as i64 * 16 + 40) as i32
    }

    /// Returns the first block Z coordinate that can be packed into queue entries.
    #[must_use]
    pub fn encoded_min_block_z(self) -> (z: i32)
        requires
            i32::MIN <= self.min_block_z(),
            self.min_block_z() + 64 <= i32::MAX,
        ensures
            z == self.min_block_z(),
    {
        (self.center.z as i64 * 16 - 24) as i32
    }

    /// Returns the block Z coordinate one past the packed queue window.
    #[must_use]
    pub fn encoded_max_block_z_exclusive(self) -> (z: i32)
        requires
            i32::MIN <= self.min_block_z(),
            self.min_block_z() + 64 <= i32::MAX,
        ensures
            z == self.min_block_z() + 64,
    {
        (self.center.z as i64 * 16 + 40) as i32
    }

    /// Packs a block position for queue storage.
    #[must_use]
    pub fn encode_block_pos(self, block_pos: BlockPos) -> (result: Option<PackedLightBlockPos>)
        requires
            self.wf(),
        ensures
            match result {
                Some(packed) => self.can_encode(block_pos) && packed == self.encoded(block_pos)
                    && packed.0 < 0x1000_0000,
                None => !self.can_encode(block_pos),
            },
    {
        if !self.contains_encoded_block_pos(block_pos) {
            return None;
        }
        let encoded_x: u32 = (block_pos.x as i64 - (self.center.x as i64 * 16 - 24)) as u32;
        let encoded_z: u32 = (block_pos.z as i64 - (self.center.z as i64 * 16 - 24)) as u32;
        let height: i64 = block_pos.y as i64 - self.cached_min_section_y() as i64 * 16;
        assert(height >= 0);
        let encoded_y: u32 = (height as u64 % 65536) as u32;
        proof {
            lemma_packed_bits(0, encoded_x, encoded_z, encoded_y);
        }
        Some(PackedLightBlockPos(encoded_x | encoded_z << 6 | encoded_y << 12))
    }

    /// Decodes queue-position bits back to a world block position.
    #[must_use]
    pub fn decode_block_pos(self, packed: PackedLightBlockPos) -> (result: Option<BlockPos>)
        requires
            self.wf(),
        ensures
            result == self.decoded(packed),
    {
        let x: i64 = packed.encoded_x() as i64 + (self.center.x as i64 * 16 - 24);
        let y: i64 = packed.encoded_y() as i64 + self.cached_min_section_y() as i64 * 16;
        let z: i64 = packed.encoded_z() as i64 + (self.center.z as i64 * 16 - 24);
        if x < i32::MIN as i64 || x > i32::MAX as i64 || y < i32::MIN as i64 || y > i32::MAX as i64
            || z < i32::MIN as i64 || z > i32::MAX as i64 {
            return None;
        }
        Some(BlockPos::new(x as i32, y as i32, z as i32))
    }

    /// Returns true if a block position is inside the packed queue-coordinate window.
    #[must_use]
    pub fn contains_encoded_block_pos(self, block_pos: BlockPos) -> (result: bool)
        requires
            self.wf(),
        ensures
            result == self.can_encode(block_pos),
    {
        let min_x: i64 = self.center.x as i64 * 16 - 24;
        let min_z: i64 = self.center.z as i64 * 16 - 24;
        let x: i64 = block_pos.x as i64;
        let z: i64 = block_pos.z as i64;
        x >= min_x && x < min_x + 64 && z >= min_z && z < min_z + 64 && self.contains_section_y(
            block_to_section_coord(block_pos.y),
        )
    }

    /// Returns the section/nibble slot for section coordinates.
    #[must_use]
    pub fn section_slot_by_coords(self, section_x: i32, section_y: i32, section_z: i32) -> (result:
        Option<usize>)
        requires
            self.wf(),
        ensures
            ({
                let pos = SectionPos { x: section_x, y: section_y, z: section_z };
                match result {
                    Some(slot) => self.has_section(pos) && slot == self.slot_at(pos) && slot
                        < self.slots(),
                    None => !self.has_section(pos),
                }
            }),
    {
        match (
            self.chunk_slot_by_coords(section_x, section_z),
            self.cached_section_index(section_y),
        ) {
            (Some(column), Some(index)) => Some(column + LIGHT_CACHE_CHUNK_SLOTS * index),
            _ => None,
        }
    }

    /// Returns the cached vertical index for a section Y coordinate.
    #[must_use]
    pub fn cached_section_index(self, section_y: i32) -> (result: Option<usize>)
        requires
            self.wf(),
        ensures
            match result {
                Some(index) => self.has_height(section_y as int) && index == section_y
                    - self.min_y(),
                None => !self.has_height(section_y as int),
            },
    {
        if !self.contains_section_y(section_y) {
            return None;
        }
        Some((section_y - self.cached_min_section_y()) as usize)
    }

    /// Converts a cached vertical index back to section Y.
    #[must_use]
    pub fn cached_section_y(self, index: usize) -> (result: Option<i32>)
        requires
            self.wf(),
        ensures
            match result {
                Some(section_y) => index < self.depth() && section_y == self.min_y() + index,
                None => index >= self.depth(),
            },
    {
        if index >= self.cached_section_count() {
            return None;
        }
        Some(self.cached_min_section_y() + index as i32)
    }

    /// Returns true if a chunk coordinate is inside the 5x5 cache window.
    #[must_use]
    pub fn contains_chunk_coords(self, chunk_x: i32, chunk_z: i32) -> (result: bool)
        ensures
            result == self.has_chunk(chunk_x as int, chunk_z as int),
    {
        let dx: i64 = chunk_x as i64 - self.center.x as i64;
        let dz: i64 = chunk_z as i64 - self.center.z as i64;
        -2 <= dx && dx <= 2 && -2 <= dz && dz <= 2
    }

    /// Returns true if a section Y coordinate is inside the cached vertical range.
    #[must_use]
    pub fn contains_section_y(self, section_y: i32) -> (result: bool)
        requires
            self.wf(),
        ensures
            result == self.has_height(section_y as int),
    {
        section_y >= self.cached_min_section_y() && section_y
            < self.cached_max_section_y_exclusive()
    }
}

} // verus!
