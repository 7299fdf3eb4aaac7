//! Which chunks of a window take part in a lighting operation.
use vstd::prelude::*;

use crate::cache::{LIGHT_CACHE_CHUNK_SLOTS, LightCacheLayout, LightCacheSetupRadius};
use crate::light_cache::LightSectionReadCache;
use crate::position::{ChunkPos, SectionPos};
use crate::section::{ChunkSection, Sections};
use crate::section_range::LightSectionRange;

verus! {

/// Error returned when a light cache cannot acquire required chunks.
#[derive(Debug, Clone, Copy, PartialEq, Eq, Structural)]
pub enum LightWorksetSetupError {
    /// A chunk inside the required 1-radius cache was unavailable.
    MissingRequiredChunk {
        /// Missing chunk position.
        chunk_pos: ChunkPos,
    },
}

/// What a window finds in the place of a chunk.
#[derive(Debug, Clone, Copy, PartialEq, Eq, Structural)]
pub enum ChunkAvailability {
    /// There is no chunk.
    Missing,
    /// There is a chunk that lighting may not use.
    Unusable,
    /// There is a chunk that lighting may use.
    Usable,
}

/// The chunk of a slot.
pub open spec fn chunk_of_slot(layout: LightCacheLayout, slot: int) -> ChunkPos {
    ChunkPos {
        x: (layout.center.x - 2 + slot % 5) as i32,
        z: (layout.center.z - 2 + slot / 5) as i32,
    }
}

/// The slot belongs to the active chunk or to one of the eight around it.
pub open spec fn slot_is_inner(slot: int) -> bool {
    1 <= slot % 5 <= 3 && 1 <= slot / 5 <= 3
}

/// The slot is set up for a radius.
pub open spec fn slot_in_radius(radius: LightCacheSetupRadius, slot: int) -> bool {
    radius == LightCacheSetupRadius::Full || slot_is_inner(slot)
}

/// The slot's chunk is required but missing.
pub open spec fn slot_fails(
    chunks: Seq<ChunkAvailability>,
    relaxed: bool,
    slot: int,
) -> bool {
    !relaxed && slot_is_inner(slot) && chunks[slot] == ChunkAvailability::Missing
}

/// The chunks that take part in one lighting operation.
#[derive(Debug)]
pub struct LightWorkset {
    layout: LightCacheLayout,
    chunks: Vec<bool>,
}

impl LightWorkset {
    /// The window.
    pub closed spec fn spec_layout(&self) -> LightCacheLayout {
        self.layout
    }

    /// Whether the chunk of each slot takes part.
    pub closed spec fn members(&self) -> Seq<bool> {
        self.chunks@
    }

    /// Every chunk slot has its mark.
    pub open spec fn wf(&self) -> bool {
        self.spec_layout().wf() && self.members().len() == 25
    }

    /// Creates a cache window from what was found in the place of each chunk,
    /// in slot order.
    ///
    /// Unless the setup is relaxed, the active chunk and the eight chunks
    /// around it are required. Chunks outside of the radius do not take part.
    pub fn setup(
        layout: LightCacheLayout,
        radius: LightCacheSetupRadius,
        relaxed: bool,
        chunks: &[ChunkAvailability],
    ) -> (result: Result<Self, LightWorksetSetupError>)
        requires
            layout.wf(),
            layout.in_world(),
            chunks@.len() == LIGHT_CACHE_CHUNK_SLOTS,
        ensures
            match result {
                Ok(workset) => {
                    &&& workset.wf()
                    &&& workset.spec_layout() == layout
                    &&& forall|slot: int|
                        0 <= slot < 25 ==> !#[trigger] slot_fails(chunks@, relaxed, slot)
                    &&& forall|slot: int|
                        0 <= slot < 25 ==> #[trigger] workset.members()[slot] == (slot_in_radius(
                            radius,
                            slot,
                        ) && chunks@[slot] == ChunkAvailability::Usable)
                },
                Err(LightWorksetSetupError::MissingRequiredChunk { chunk_pos }) => exists|slot: int|
                    {
                        &&& 0 <= slot < 25
                        &&& #[trigger] slot_fails(chunks@, relaxed, slot)
                        &&& chunk_pos == chunk_of_slot(layout, slot)
                        &&& forall|before: int|
                            0 <= before < slot ==> !#[trigger] slot_fails(
                                chunks@,
                                relaxed,
                                before,
                            )
                    },
            },
    {
        let mut members: Vec<bool> = Vec::new();
        let mut slot: usize = 0;
        while slot < LIGHT_CACHE_CHUNK_SLOTS
            invariant
                slot <= 25,
                chunks@.len() == 25,
                layout.in_world(),
                members@.len() == slot,
                forall|s: int| 0 <= s < slot ==> !#[trigger] slot_fails(chunks@, relaxed, s),
                forall|s: int|
                    0 <= s < slot ==> #[trigger] members@[s] == (slot_in_radius(radius, s)
                        && chunks@[s] == ChunkAvailability::Usable),
            decreases 25 - slot,
        {
            let column: usize = slot % 5;
            let row: usize = slot / 5;
            let inner: bool = 1 <= column && column <= 3 && 1 <= row && row <= 3;
            let availability: ChunkAvailability = chunks[slot];
            if !relaxed && inner && availability == ChunkAvailability::Missing {
                let chunk_pos: ChunkPos = ChunkPos::new(
                    layout.center.x - 2 + column as i32,
                    layout.center.z - 2 + row as i32,
                );
                assert(slot_fails(chunks@, relaxed, slot as int));
                return Err(LightWorksetSetupError::MissingRequiredChunk { chunk_pos });
            }
            members.push(
                (radius == LightCacheSetupRadius::Full || inner) && availability
                    == ChunkAvailability::Usable,
            );
            slot += 1;
        }
        Ok(LightWorkset { layout, chunks: members })
    }

    /// Returns this workset's cache layout.
    #[must_use]
    pub fn layout(&self) -> (layout: LightCacheLayout)
        ensures
            layout == self.spec_layout(),
    {
        self.layout
    }

    /// Returns whether a chunk takes part.
    #[must_use]
    pub fn has_chunk(&self, chunk_pos: ChunkPos) -> (result: bool)
        requires
            self.wf(),
        ensures
            result == (self.spec_layout().has_chunk(chunk_pos.x as int, chunk_pos.z as int)
                && self.members()[self.spec_layout().chunk_slot_at(
                chunk_pos.x as int,
                chunk_pos.z as int,
            )]),
    {
        match self.layout.chunk_slot(chunk_pos) {
            Some(slot) => self.chunks[slot],
            None => false,
        }
    }

    /// The active chunk takes part.
    pub open spec fn has_center(&self) -> bool {
        self.members()[12]
    }

    /// Returns whether the active chunk takes part.
    #[must_use]
    pub fn has_center_chunk(&self) -> (result: bool)
        requires
            self.wf(),
        ensures
            result == self.has_center(),
    {
        self.has_chunk(self.layout.center_chunk())
    }
}

/// The section at an index of a chunk's sections.
pub open spec fn section_of_index(
    layout: LightCacheLayout,
    chunk_pos: ChunkPos,
    index: int,
) -> SectionPos {
    SectionPos {
        x: chunk_pos.x,
        y: (layout.section_range.min_y() + 1 + index) as i32,
        z: chunk_pos.z,
    }
}

impl<'a> LightSectionReadCache<'a> {
    /// Caches a chunk's sections.
    ///
    /// Sections beyond the world's chunk sections, and those of chunks outside
    /// of the window, are left out.
    pub fn insert_chunk(&mut self, chunk_pos: ChunkPos, sections: &'a Sections)
        requires
            old(self).wf(),
            sections.wf(),
        ensures
            final(self).wf(),
            final(self).spec_layout() == old(self).spec_layout(),
            forall|slot: int|
                0 <= slot < final(self).slots().len() ==> #[trigger] final(self).slots()[slot]
                    == chunk_slot_content(
                    old(self).spec_layout(),
                    old(self).slots(),
                    chunk_pos,
                    sections.sections@,
                    sections.sections@.len() as int,
                    slot,
                ),
    {
        let range: LightSectionRange = self.layout().range();
        let ghost layout = self.spec_layout();
        let ghost before = self.slots();
        let mut i: usize = 0;
        while i < sections.sections.len()
            invariant
                i <= sections.sections@.len(),
                self.wf(),
                sections.wf(),
                self.spec_layout() == layout,
                layout == old(self).spec_layout(),
                before == old(self).slots(),
                range == layout.section_range,
                self.slots().len() == before.len(),
                forall|slot: int|
                    0 <= slot < self.slots().len() ==> #[trigger] self.slots()[slot]
                        == chunk_slot_content(
                        layout,
                        before,
                        chunk_pos,
                        sections.sections@,
                        i as int,
                        slot,
                    ),
            decreases sections.sections@.len() - i,
        {
            let ghost now = self.slots();
            assert(sections.sections@[i as int].wf());
            match range.chunk_section_y(i) {
                Some(section_y) => {
                    let section_pos: SectionPos = SectionPos::new(
                        chunk_pos.x,
                        section_y,
                        chunk_pos.z,
                    );
                    let section: &'a ChunkSection = &sections.sections[i];
                    self.insert(section_pos, section);
                    proof {
                        if layout.has_section(section_pos) {
                            layout.slot_round_trip(section_pos, 0);
                        }
                    }
                },
                None => {},
            }
            i += 1;
        }
    }
}

/// What a slot holds after the first `n` sections of a chunk were cached.
pub open spec fn chunk_slot_content<'a>(
    layout: LightCacheLayout,
    before: Seq<Option<&'a ChunkSection>>,
    chunk_pos: ChunkPos,
    sections: Seq<ChunkSection>,
    n: int,
    slot: int,
) -> Option<&'a ChunkSection>
    decreases n,
{
    if n <= 0 {
        before[slot]
    } else {
        let index = n - 1;
        let pos = section_of_index(layout, chunk_pos, index);
        if index < layout.section_range.count() - 2 && layout.has_section(pos) && layout.slot_at(
            pos,
        ) == slot {
            Some(&sections[index])
        } else {
            chunk_slot_content(layout, before, chunk_pos, sections, n - 1, slot)
        }
    }
}

} // verus!
