//! Section states and the vertical range of light sections.
use vstd::prelude::*;

use crate::bit_set::BitSet;
use crate::position::{block_to_section_coord, section_coord, ChunkPos, SectionPos};
use crate::LIGHT_SECTION_PADDING;

verus! {

/// Bit of a section state that tells whether the section has block data.
pub const SECTION_HAS_DATA_BIT: u8 = 0b0010_0000;

/// Bits of a section state that count neighboring data sections.
pub const SECTION_NEIGHBOR_COUNT_BITS: u8 = 0b0001_1111;

/// Number of sections that touch a section.
pub const MAX_SECTION_NEIGHBORS: i32 = 26;

/// Error returned when a light section state would hold an invalid neighbor count.
#[derive(Debug, Clone, Copy, PartialEq, Eq, Structural)]
pub struct LightSectionStateError {
    /// Requested neighbor count.
    pub neighbor_count: i32,
}

/// Error returned when a block light value is written without section light data.
#[derive(Debug, Clone, Copy, PartialEq, Eq, Structural)]
pub struct MissingLightDataLayerError {
    /// Section that does not currently store a light data layer.
    pub section_pos: SectionPos,
}

/// Packed light-section state byte.
///
/// Bits 0..4 store the count of neighboring data sections and bit 5 stores
/// whether this section itself has block data. A non-zero neighbor count keeps
/// an otherwise empty section alive as `LightOnly`.
#[derive(Debug, Clone, Copy, PartialEq, Eq, Structural)]
pub struct LightSectionState(pub u8);

/// Whether a state byte carries the data bit.
pub open spec fn state_has_data(raw: u8) -> bool {
    (raw / 32) % 2 == 1
}

/// The neighbor count of a state byte.
pub open spec fn state_neighbor_count(raw: u8) -> int {
    raw as int % 32
}

/// A state byte with its data bit set or cleared.
pub open spec fn state_with_data(raw: u8, has_data: bool) -> u8 {
    if has_data == state_has_data(raw) {
        raw
    } else if has_data {
        (raw + 32) as u8
    } else {
        (raw - 32) as u8
    }
}

/// A state byte with another neighbor count.
pub open spec fn state_with_count(raw: u8, count: int) -> u8 {
    (raw - raw % 32 + count) as u8
}

proof fn lemma_state_bits(raw: u8, count: u8)
    by (bit_vector)
    ensures
        (raw & 0b0010_0000 != 0) <==> (raw / 32) % 2 == 1,
        raw & 0b0001_1111 == raw % 32,
        raw & 0b0010_0000 != 0 ==> raw | 0b0010_0000 == raw,
        raw & 0b0010_0000 == 0 ==> raw | 0b0010_0000 == raw + 32,
        raw & 0b0010_0000 != 0 ==> raw & !0b0010_0000u8 == raw - 32,
        raw & 0b0010_0000 == 0 ==> raw & !0b0010_0000u8 == raw,
        count < 32 ==> (raw & !0b0001_1111u8) | (count & 0b0001_1111) == raw - raw % 32 + count,
{
}

/// Debug type for a light section.
#[derive(Debug, Clone, Copy, PartialEq, Eq, Structural)]
pub enum LightSectionType {
    /// No light layer is stored for the section.
    Empty,
    /// Light-only section kept alive by neighboring block data.
    LightOnly,
    /// Section with block data and light storage.
    LightAndData,
}

/// The debug type of a state byte.
pub open spec fn state_type(raw: u8) -> LightSectionType {
    if raw == 0 {
        LightSectionType::Empty
    } else if state_has_data(raw) {
        LightSectionType::LightAndData
    } else {
        LightSectionType::LightOnly
    }
}

impl LightSectionState {
    /// Empty section with no data and no neighboring data sections.
    #[must_use]
    pub fn empty() -> (state: Self)
        ensures
            state.0 == 0,
    {
        LightSectionState(0)
    }

    /// Creates a state from its packed byte representation.
    #[must_use]
    pub fn from_raw(raw: u8) -> (state: Self)
        ensures
            state.0 == raw,
    {
        LightSectionState(raw)
    }

    /// Returns the packed byte representation.
    #[must_use]
    pub fn raw(self) -> (raw: u8)
        ensures
            raw == self.0,
    {
        self.0
    }

    /// Returns true when this section contains chunk block data.
    #[must_use]
    pub fn has_data(self) -> (result: bool)
        ensures
            result == state_has_data(self.0),
    {
        proof {
            lemma_state_bits(self.0, 0);
        }
        self.0 & SECTION_HAS_DATA_BIT != 0
    }

    /// Returns the count of neighboring data sections.
    #[must_use]
    pub fn neighbor_count(self) -> (count: u8)
        ensures
            count == state_neighbor_count(self.0),
    {
        proof {
            lemma_state_bits(self.0, 0);
        }
        self.0 & SECTION_NEIGHBOR_COUNT_BITS
    }

    /// Returns this section's debug type.
    #[must_use]
    pub fn section_type(self) -> (result: LightSectionType)
        ensures
            result == state_type(self.0),
    {
        if self.0 == 0 {
            LightSectionType::Empty
        } else if self.has_data() {
            LightSectionType::LightAndData
        } else {
            LightSectionType::LightOnly
        }
    }

    /// Sets the data bit.
    #[must_use]
    pub fn with_has_data(self, has_data: bool) -> (state: Self)
        ensures
            state.0 == state_with_data(self.0, has_data),
    {
        proof {
            lemma_state_bits(self.0, 0);
        }
        if has_data {
            LightSectionState(self.0 | SECTION_HAS_DATA_BIT)
        } else {
            LightSectionState(self.0 & !SECTION_HAS_DATA_BIT)
        }
    }

    /// Sets the neighboring data-section count.
    pub fn with_neighbor_count(self, neighbor_count: i32) -> (result: Result<
        Self,
        LightSectionStateError,
    >)
        ensures
            match result {
                Ok(state) => 0 <= neighbor_count <= 26 && state.0 == state_with_count(
                    self.0,
                    neighbor_count as int,
                ),
                Err(error) => !(0 <= neighbor_count <= 26) && error.neighbor_count
                    == neighbor_count,
            },
    {
        if neighbor_count < 0 || neighbor_count > MAX_SECTION_NEIGHBORS {
            return Err(LightSectionStateError { neighbor_count });
        }
        let count: u8 = neighbor_count as u8;
        proof {
            lemma_state_bits(self.0, count);
        }
        Ok(
            LightSectionState(
                self.0 & !SECTION_NEIGHBOR_COUNT_BITS | (count & SECTION_NEIGHBOR_COUNT_BITS),
            ),
        )
    }
}

/// The data bit and the neighbor count of a state are independent: setting one
/// leaves the other.
pub proof fn state_fields_independent(raw: u8, has_data: bool, count: int)
    requires
        0 <= count <= 26,
    ensures
        state_has_data(state_with_data(raw, has_data)) == has_data,
        state_neighbor_count(state_with_data(raw, has_data)) == state_neighbor_count(raw),
        state_has_data(state_with_count(raw, count)) == state_has_data(raw),
        state_neighbor_count(state_with_count(raw, count)) == count,
        raw < 64 ==> state_with_data(raw, has_data) < 64 && state_with_count(raw, count) < 64,
        raw < 64 ==> (raw == 0 <==> !state_has_data(raw) && state_neighbor_count(raw) == 0),
{
}

/// Error returned when a world height cannot produce a valid light-section range.
#[derive(Debug, Clone, Copy, PartialEq, Eq, Structural)]
pub struct LightSectionRangeError {
    /// Minimum build height used to create the range.
    pub min_y: i32,
    /// Build height used to create the range.
    pub height: i32,
}

/// Inclusive/exclusive vertical range of light sections for a level.
///
/// The range is padded by one section below and one section above the real
/// chunk sections.
#[derive(Debug, Clone, Copy, PartialEq, Eq, Structural)]
pub struct LightSectionRange {
    min_section_y: i32,
    section_count: i32,
}

/// A world height whose blocks all have a y coordinate.
pub open spec fn valid_world_height(min_y: i32, height: i32) -> bool {
    height > 0 && min_y + height - 1 <= i32::MAX
}

impl LightSectionRange {
    /// The first light section.
    pub closed spec fn min_y(self) -> int {
        self.min_section_y as int
    }

    /// The number of light sections.
    pub closed spec fn count(self) -> int {
        self.section_count as int
    }

    /// One past the last light section.
    pub open spec fn max_y(self) -> int {
        self.min_y() + self.count()
    }

    /// The range holds padding on both sides of at least one section, and its
    /// chunk sections are sections of blocks.
    pub open spec fn wf(self) -> bool {
        &&& -134217729 <= self.min_y()
        &&& self.count() >= 3
        &&& self.max_y() <= 134217729
    }

    /// The section is one of the light sections.
    pub open spec fn contains(self, section_y: int) -> bool {
        self.min_y() <= section_y < self.max_y()
    }

    /// The section is one of the chunk's own sections.
    pub open spec fn contains_chunk(self, section_y: int) -> bool {
        self.min_y() < section_y < self.max_y() - 1
    }

    /// Ranges are equal when their bounds are.
    pub proof fn equal_by_bounds(a: LightSectionRange, b: LightSectionRange)
        requires
            a.min_y() == b.min_y(),
            a.count() == b.count(),
        ensures
            a == b,
    {
    }

    /// Creates the padded light-section range for a world height.
    pub fn from_world_height(min_y: i32, height: i32) -> (result: Result<
        Self,
        LightSectionRangeError,
    >)
        ensures
            match result {
                Ok(range) => {
                    &&& valid_world_height(min_y, height)
                    &&& range.wf()
                    &&& range.min_y() == section_coord(min_y as int) - 1
                    &&& range.max_y() == section_coord(min_y + height - 1) + 2
                },
                Err(error) => !valid_world_height(min_y, height) && error.min_y == min_y
                    && error.height == height,
            },
    {
        if height <= 0 {
            return Err(LightSectionRangeError { min_y, height });
        }
        let max_y: i32 = match min_y.checked_add(height - 1) {
            Some(max_y) => max_y,
            None => {
                return Err(LightSectionRangeError { min_y, height });
            },
        };
        let min_chunk_section_y: i32 = block_to_section_coord(min_y);
        let max_chunk_section_y: i32 = block_to_section_coord(max_y);
        let section_count: i32 = max_chunk_section_y - min_chunk_section_y + 1
            + LIGHT_SECTION_PADDING * 2;
        Ok(
            LightSectionRange {
                min_section_y: min_chunk_section_y - LIGHT_SECTION_PADDING,
                section_count,
            },
        )
    }

    /// Returns the first light section Y coordinate.
    #[must_use]
    pub fn min_section_y(self) -> (section_y: i32)
        ensures
            section_y == self.min_y(),
    {
        self.min_section_y
    }

    /// Returns the section Y coordinate one past the last light section.
    #[must_use]
    pub fn max_section_y_exclusive(self) -> (section_y: i32)
        requires
            self.wf(),
        ensures
            section_y == self.max_y(),
    {
        self.min_section_y + self.section_count
    }

    /// Returns the number of light sections in this range.
    #[must_use]
    pub fn section_count(self) -> (count: usize)
        requires
            self.wf(),
        ensures
            count == self.count(),
    {
        self.section_count as usize
    }

    /// Converts a packet light-section index to a section Y coordinate.
    #[must_use]
    pub fn section_y(self, section_index: usize) -> (result: Option<i32>)
        requires
            self.wf(),
        ensures
            match result {
                Some(section_y) => section_index < self.count() && section_y == self.min_y()
                    + section_index,
                None => section_index >= self.count(),
            },
    {
        if section_index >= self.section_count() {
            return None;
        }
        Some(self.min_section_y + section_index as i32)
    }

    /// Converts a section Y coordinate to a packet light-section index.
    #[must_use]
    pub fn section_index(self, section_y: i32) -> (result: Option<usize>)
        requires
            self.wf(),
        ensures
            match result {
                Some(index) => self.contains(section_y as int) && index == section_y
                    - self.min_y(),
                None => !self.contains(section_y as int),
            },
    {
        if section_y < self.min_section_y || section_y >= self.max_section_y_exclusive() {
            return None;
        }
        Some((section_y - self.min_section_y) as usize)
    }

    /// Returns the first section Y coordinate of the chunk's own sections.
    #[must_use]
    pub fn min_chunk_section_y(self) -> (section_y: i32)
        requires
            self.wf(),
        ensures
            section_y == self.min_y() + 1,
    {
        self.min_section_y + LIGHT_SECTION_PADDING
    }

    /// Returns the section Y coordinate one past the chunk's own sections.
    #[must_use]
    pub fn max_chunk_section_y_exclusive(self) -> (section_y: i32)
        requires
            self.wf(),
        ensures
            section_y == self.max_y() - 1,
    {
        self.max_section_y_exclusive() - LIGHT_SECTION_PADDING
    }

    /// Returns the number of the chunk's own sections.
    #[must_use]
    pub fn chunk_section_count(self) -> (count: usize)
        requires
            self.wf(),
        ensures
            count == self.count() - 2,
    {
        (self.section_count - LIGHT_SECTION_PADDING * 2) as usize
    }

    /// Converts a section Y coordinate to an index among the chunk's own
    /// sections.
    #[must_use]
    pub fn chunk_section_index(self, section_y: i32) -> (result: Option<usize>)
        requires
            self.wf(),
        ensures
            match result {
                Some(index) => self.contains_chunk(section_y as int) && index == section_y
                    - self.min_y() - 1,
                None => !self.contains_chunk(section_y as int),
            },
    {
        if section_y < self.min_chunk_section_y() || section_y
            >= self.max_chunk_section_y_exclusive() {
            return None;
        }
        Some((section_y - self.min_chunk_section_y()) as usize)
    }

    /// Converts an index among the chunk's own sections to a section Y
    /// coordinate.
    #[must_use]
    pub fn chunk_section_y(self, chunk_section_index: usize) -> (result: Option<i32>)
        requires
            self.wf(),
        ensures
            match result {
                Some(section_y) => chunk_section_index < self.count() - 2 && section_y
                    == self.min_y() + 1 + chunk_section_index,
                None => chunk_section_index >= self.count() - 2,
            },
    {
        if chunk_section_index >= self.chunk_section_count() {
            return None;
        }
        Some(self.min_chunk_section_y() + chunk_section_index as i32)
    }

    /// Creates a section position for this light range's chunk column.
    #[must_use]
    pub fn section_pos(self, chunk_pos: ChunkPos, section_y: i32) -> (pos: SectionPos)
        ensures
            pos == (SectionPos { x: chunk_pos.x, y: section_y, z: chunk_pos.z }),
    {
        SectionPos::new(chunk_pos.x, section_y, chunk_pos.z)
    }

    /// Returns a bit set with a cleared bit for every light section.
    #[must_use]
    pub fn empty_bit_set(self) -> (bits: BitSet)
        requires
            self.wf(),
        ensures
            bits.0@.len() == (self.count() + 63) / 64,
            forall|index: int| !#[trigger] bits.has(index),
    {
        let words: usize = (self.section_count() + 63) / 64;
        BitSet::cleared(words)
    }
}

/// The index of a light section gives back its Y coordinate, and the other way
/// round.
pub proof fn section_index_round_trip(range: LightSectionRange, section_y: int, index: int)
    requires
        range.wf(),
        range.contains(section_y),
        0 <= index < range.count(),
    ensures
        0 <= section_y - range.min_y() < range.count(),
        range.min_y() + (section_y - range.min_y()) == section_y,
        range.contains(range.min_y() + index),
        (range.min_y() + index) - range.min_y() == index,
{
}

} // verus!
