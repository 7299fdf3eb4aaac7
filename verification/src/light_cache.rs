//! The sections and light nibbles that one lighting operation works on.
use vstd::prelude::*;

use crate::block_state::{BlockStateId, BlockStateTable};
use crate::cache::{CachedLightBlock, LightCacheLayout};
use crate::nibble::{
    clean_view, nibble_set, repeat_bottom_row, zero_plane, LightNibbleArray, LightNibbleState,
    NibblePlane, NibbleView,
};
use crate::packed::uniform;
use crate::position::{ChunkPos, SectionPos};
use crate::section::{block_cell_index, ChunkSection};
use crate::LightLayer;

verus! {

/// Flat cached chunk-section reads for block-state access.
pub struct LightSectionReadCache<'a> {
    layout: LightCacheLayout,
    sections: Vec<Option<&'a ChunkSection>>,
}

impl<'a> LightSectionReadCache<'a> {
    /// The layout that the sections are indexed by.
    pub closed spec fn spec_layout(&self) -> LightCacheLayout {
        self.layout
    }

    /// The cached sections.
    pub closed spec fn slots(&self) -> Seq<Option<&'a ChunkSection>> {
        self.sections@
    }

    /// There is a place for every slot, and every cached section is well
    /// formed.
    pub open spec fn wf(&self) -> bool {
        &&& self.spec_layout().wf()
        &&& self.slots().len() == self.spec_layout().slots()
        &&& forall|slot: int|
            0 <= slot < self.slots().len() ==> ((#[trigger] self.slots()[slot]) matches Some(
                section,
            ) ==> section.wf())
    }

    /// The state of a cached block: air in sections that are missing or empty.
    pub open spec fn state_at(&self, table: &BlockStateTable, slot: int, index: int) -> BlockStateId {
        match self.slots()[slot] {
            Some(section) => if section.non_empty_block_count == 0 {
                table.spec_air()
            } else {
                section.states@[index]
            },
            None => table.spec_air(),
        }
    }

    /// Whether a cached section is empty, where it is known.
    pub open spec fn emptiness_of(&self, pos: SectionPos) -> Option<bool> {
        if self.spec_layout().has_section(pos) {
            match self.slots()[self.spec_layout().slot_at(pos)] {
                Some(section) => Some(section.non_empty_block_count == 0),
                None => None,
            }
        } else {
            None
        }
    }

    /// Creates a read cache without sections.
    #[must_use]
    pub fn new(layout: LightCacheLayout) -> (cache: Self)
        requires
            layout.wf(),
        ensures
            cache.wf(),
            cache.spec_layout() == layout,
            forall|slot: int|
                0 <= slot < layout.slots() ==> (#[trigger] cache.slots()[slot]) is None,
    {
        let count: usize = layout.section_slot_count();
        let mut sections: Vec<Option<&'a ChunkSection>> = Vec::new();
        while sections.len() < count
            invariant
                sections@.len() <= count,
                forall|slot: int| 0 <= slot < sections@.len() ==> (#[trigger] sections@[slot]) is None,
            decreases count - sections@.len(),
        {
            sections.push(None);
        }
        LightSectionReadCache { layout, sections }
    }

    /// Caches a section, and returns whether it lies in the window.
    pub fn insert(&mut self, section_pos: SectionPos, section: &'a ChunkSection) -> (inserted: bool)
        requires
            old(self).wf(),
            section.wf(),
        ensures
            final(self).wf(),
            final(self).spec_layout() == old(self).spec_layout(),
            inserted == old(self).spec_layout().has_section(section_pos),
            final(self).slots() == if inserted {
                old(self).slots().update(
                    old(self).spec_layout().slot_at(section_pos),
                    Some(section),
                )
            } else {
                old(self).slots()
            },
    {
        match self.layout.section_slot(section_pos) {
            Some(slot) => {
                self.sections[slot] = Some(section);
                true
            },
            None => false,
        }
    }

    /// Returns this cache's layout.
    #[must_use]
    pub fn layout(&self) -> (layout: LightCacheLayout)
        ensures
            layout == self.spec_layout(),
    {
        self.layout
    }

    /// Returns the block state for a cached light block, or air for missing sections.
    #[must_use]
    pub fn get_block_state(&self, table: &BlockStateTable, cached_block: CachedLightBlock) -> (state:
        BlockStateId)
        requires
            self.wf(),
            cached_block.section_slot < self.spec_layout().slots(),
            cached_block.local_index < 4096,
        ensures
            state == self.state_at(
                table,
                cached_block.section_slot as int,
                cached_block.local_index as int,
            ),
    {
        assert(self.slots()[cached_block.section_slot as int] matches Some(section)
            ==> section.wf());
        match self.sections[cached_block.section_slot] {
            None => table.air(),
            Some(section) => {
                if section.is_empty() {
                    return table.air();
                }
                proof {
                    block_cell_index(0, 0, 0);
                }
                section.states.get_at_index(cached_block.local_index)
            },
        }
    }

    /// Returns whether a cached section is empty, or `None` for missing
    /// sections.
    #[must_use]
    pub fn section_empty(&self, section_pos: SectionPos) -> (result: Option<bool>)
        requires
            self.wf(),
        ensures
            result == self.emptiness_of(section_pos),
    {
        match self.layout.section_slot(section_pos) {
            None => None,
            Some(slot) => match self.sections[slot] {
                Some(section) => Some(section.is_empty()),
                None => None,
            },
        }
    }

    /// Returns whether a section is cached and not empty.
    #[must_use]
    pub fn has_non_empty_section(&self, section_pos: SectionPos) -> (result: bool)
        requires
            self.wf(),
        ensures
            result == (self.emptiness_of(section_pos) == Some(false)),
    {
        match self.section_empty(section_pos) {
            Some(empty) => !empty,
            None => false,
        }
    }
}

/// What a slot of the write cache holds.
#[derive(Debug)]
pub enum LightNibbleSlot {
    /// The chunk of the section is not part of the operation.
    Absent,
    /// A null nibble section that was taken out of the cache.
    Removed(LightNibbleArray),
    /// A nibble section to read and write. One that only serves the operation
    /// stands in for a null section that was taken out and that the chunk
    /// keeps.
    Cached(LightNibbleArray, Option<LightNibbleArray>),
}

/// What a slot of the write cache holds, seen from outside.
#[verifier::ext_equal]
pub enum SlotView {
    /// The chunk of the section is not part of the operation.
    Absent,
    /// A null nibble section that was taken out of the cache.
    Removed(NibbleView),
    /// A nibble section to read and write. One that only serves the operation
    /// stands in for a null section that was taken out and that the chunk
    /// keeps.
    Cached(NibbleView, Option<NibbleView>),
}

impl View for LightNibbleSlot {
    type V = SlotView;

    open spec fn view(&self) -> SlotView {
        match self {
            LightNibbleSlot::Absent => SlotView::Absent,
            LightNibbleSlot::Removed(nibble) => SlotView::Removed(nibble@),
            LightNibbleSlot::Cached(nibble, kept) => SlotView::Cached(
                nibble@,
                match kept {
                    Some(kept) => Some(kept@),
                    None => None,
                },
            ),
        }
    }
}

impl LightNibbleSlot {
    /// The nibble section is well formed.
    pub open spec fn wf(&self) -> bool {
        match self {
            LightNibbleSlot::Absent => true,
            LightNibbleSlot::Removed(nibble) => nibble.wf(),
            LightNibbleSlot::Cached(nibble, kept) => nibble.wf() && (kept matches Some(kept)
                ==> kept.wf()),
        }
    }
}

impl SlotView {
    /// The updating level at an index; zero where nothing is cached.
    pub open spec fn level(self, index: int) -> u8 {
        match self {
            SlotView::Cached(nibble, _) => nibble.updating.levels[index],
            _ => 0,
        }
    }

    /// The slot holds a nibble section that is not null.
    pub open spec fn is_lit(self) -> bool {
        self matches SlotView::Cached(nibble, _) && nibble.updating.state != LightNibbleState::Null
    }

    /// The slot holds a nibble section that is null.
    pub open spec fn is_null(self) -> bool {
        self matches SlotView::Cached(nibble, _) && nibble.updating.state == LightNibbleState::Null
    }

    /// The slot holds a nibble section with bytes that are not hidden.
    pub open spec fn is_initialized(self) -> bool {
        self matches SlotView::Cached(nibble, _) && nibble.updating.state
            == LightNibbleState::Initialized
    }

    /// The slot after a level was set.
    pub open spec fn with_level(self, index: int, level: u8) -> SlotView {
        match self {
            SlotView::Cached(nibble, kept) => SlotView::Cached(
                nibble_set(nibble, index, level),
                kept,
            ),
            _ => self,
        }
    }

    /// The slot after its section was marked as not null.
    pub open spec fn non_null(self) -> SlotView {
        match self {
            SlotView::Cached(nibble, kept) => SlotView::Cached(
                NibbleView {
                    updating: NibblePlane {
                        state: match nibble.updating.state {
                            LightNibbleState::Hidden => LightNibbleState::Initialized,
                            LightNibbleState::Null => LightNibbleState::Uninitialized,
                            state => state,
                        },
                        levels: nibble.updating.levels,
                    },
                    ..nibble
                },
                kept,
            ),
            _ => self,
        }
    }

    /// The slot after its section became null.
    pub open spec fn nulled(self) -> SlotView {
        match self {
            SlotView::Cached(nibble, kept) => SlotView::Cached(
                NibbleView {
                    updating: zero_plane(LightNibbleState::Null),
                    visible: nibble.visible,
                    written: false,
                },
                kept,
            ),
            _ => self,
        }
    }

    /// The slot after its section was filled with one level.
    pub open spec fn filled(self, level: u8) -> SlotView {
        match self {
            SlotView::Cached(nibble, kept) => SlotView::Cached(
                NibbleView {
                    updating: NibblePlane {
                        state: nibble.updating.state.after_write(),
                        levels: uniform((level % 16) as u8),
                    },
                    visible: nibble.visible,
                    written: true,
                },
                kept,
            ),
            _ => self,
        }
    }

    /// The slot after its section took the bottom row of the one above it.
    pub open spec fn extruded(self, above: SlotView) -> SlotView {
        match (self, above) {
            (SlotView::Cached(nibble, kept), SlotView::Cached(source, _)) => match source.updating.state {
                LightNibbleState::Null => self,
                LightNibbleState::Uninitialized => SlotView::Cached(
                    NibbleView {
                        updating: zero_plane(LightNibbleState::Uninitialized),
                        visible: nibble.visible,
                        written: false,
                    },
                    kept,
                ),
                _ => SlotView::Cached(
                    NibbleView {
                        updating: NibblePlane {
                            state: nibble.updating.state.after_write(),
                            levels: repeat_bottom_row(source.updating.levels),
                        },
                        visible: nibble.visible,
                        written: true,
                    },
                    kept,
                ),
            },
            _ => self,
        }
    }

    /// The nibble section that the chunk has.
    pub open spec fn held(self) -> Option<NibbleView> {
        match self {
            SlotView::Absent => None,
            SlotView::Removed(nibble) => Some(nibble),
            SlotView::Cached(nibble, kept) => match kept {
                Some(kept) => Some(kept),
                None => Some(nibble),
            },
        }
    }

    /// The slot after null sections were published and taken out.
    pub open spec fn rewritten(self) -> SlotView {
        match self {
            SlotView::Cached(nibble, kept) => if nibble.updating.state == LightNibbleState::Null {
                match kept {
                    Some(kept) => SlotView::Removed(kept),
                    None => SlotView::Removed(clean_view(nibble.updating)),
                }
            } else {
                self
            },
            _ => self,
        }
    }

    /// The slot after a section came to stand in for one that was taken out.
    pub open spec fn materialized(self) -> SlotView {
        match self {
            SlotView::Removed(nibble) => SlotView::Cached(
                clean_view(zero_plane(LightNibbleState::Null)),
                Some(nibble),
            ),
            _ => self,
        }
    }

    /// The slot after its section was replaced by a fresh null section.
    pub open spec fn reset(self) -> SlotView {
        match self {
            SlotView::Absent => self,
            _ => SlotView::Cached(clean_view(zero_plane(LightNibbleState::Null)), None),
        }
    }

    /// The section has changes to publish.
    pub open spec fn dirty(self) -> bool {
        self matches SlotView::Cached(nibble, kept) && kept is None && (nibble.written
            || nibble.updating.state != nibble.visible.state)
    }

    /// The slot after its changes were published. What only served the
    /// operation is gone, and what was taken out is back.
    pub open spec fn published(self) -> SlotView {
        match self {
            SlotView::Absent => self,
            SlotView::Removed(nibble) => SlotView::Cached(nibble, None),
            SlotView::Cached(nibble, kept) => match kept {
                Some(kept) => SlotView::Cached(kept, None),
                None => SlotView::Cached(clean_view(nibble.updating), None),
            },
        }
    }
}

/// The first lit section above a height in a column, or one past the cached
/// sections.
pub open spec fn first_lit_above(
    layout: LightCacheLayout,
    slots: Seq<SlotView>,
    pos: SectionPos,
    y: int,
) -> int
    decreases layout.min_y() + layout.depth() - y,
{
    if y >= layout.min_y() + layout.depth() {
        layout.min_y() + layout.depth()
    } else if slots[layout.slot_at(SectionPos { x: pos.x, y: y as i32, z: pos.z })].is_lit() {
        y
    } else {
        first_lit_above(layout, slots, pos, y + 1)
    }
}

/// The sections of the first `n` slots that have changes, in slot order.
pub open spec fn dirty_sections(layout: LightCacheLayout, slots: Seq<SlotView>, n: int) -> Seq<
    SectionPos,
>
    decreases n,
{
    if n <= 0 {
        Seq::empty()
    } else {
        let before = dirty_sections(layout, slots, n - 1);
        if slots[n - 1].dirty() {
            before.push(layout.section_at(n - 1))
        } else {
            before
        }
    }
}

/// Light nibbles of the window for one layer, and what is known of section
/// emptiness.
pub struct LightLayerWriteCache {
    layout: LightCacheLayout,
    layer: LightLayer,
    slots: Vec<LightNibbleSlot>,
    emptiness: Vec<Option<Vec<bool>>>,
}

/// What each slot holds.
pub open spec fn slot_views(slots: Seq<LightNibbleSlot>) -> Seq<SlotView> {
    slots.map_values(|slot: LightNibbleSlot| slot@)
}

impl View for LightLayerWriteCache {
    type V = Seq<SlotView>;

    closed spec fn view(&self) -> Seq<SlotView> {
        slot_views(self.slots@)
    }
}

impl LightLayerWriteCache {
    /// The layout that the nibbles are indexed by.
    pub closed spec fn spec_layout(&self) -> LightCacheLayout {
        self.layout
    }

    /// The layer of the nibbles.
    pub closed spec fn spec_layer(&self) -> LightLayer {
        self.layer
    }

    /// The known emptiness of the sections of each chunk.
    pub closed spec fn known(&self) -> Seq<Option<Seq<bool>>> {
        emptiness_views(self.emptiness@)
    }

    /// There is a slot for every section and a map for every chunk.
    pub closed spec fn wf(&self) -> bool {
        &&& self.layout.wf()
        &&& self.slots@.len() == self.layout.slots()
        &&& self.emptiness@.len() == 25
        &&& forall|slot: int| 0 <= slot < self.slots@.len() ==> (#[trigger] self.slots@[slot]).wf()
    }

    /// Every slot has a view, and cached sections hold valid levels.
    pub proof fn view_valid(&self)
        requires
            self.wf(),
        ensures
            self.spec_layout().wf(),
            self@.len() == self.spec_layout().slots(),
            self.known().len() == 25,
            slots_valid(self@),
    {
        assert forall|slot: int| 0 <= slot < self@.len() implies slot_valid(
            #[trigger] self@[slot],
        ) by {
            assert(self.slots@[slot].wf());
            match self.slots@[slot] {
                LightNibbleSlot::Cached(nibble, _) => nibble.views_valid(),
                LightNibbleSlot::Removed(nibble) => nibble.views_valid(),
                _ => {},
            }
        }
    }

    /// Whether a chunk section is known to be empty or not.
    pub open spec fn emptiness_of(&self, pos: SectionPos) -> Option<bool> {
        known_emptiness(self.spec_layout(), self.known(), pos)
    }

    /// The light of a section; absent outside of the window.
    pub open spec fn section(&self, pos: SectionPos) -> SlotView {
        section_view(self.spec_layout(), self@, pos)
    }
}

/// What each emptiness map holds.
pub open spec fn emptiness_views(maps: Seq<Option<Vec<bool>>>) -> Seq<Option<Seq<bool>>> {
    maps.map_values(
        |map: Option<Vec<bool>>|
            match map {
                Some(map) => Some(map@),
                None => None,
            },
    )
}

/// What is known of emptiness after a section's emptiness was set. Sections of
/// which nothing is known stay unknown.
pub open spec fn set_known(
    layout: LightCacheLayout,
    known: Seq<Option<Seq<bool>>>,
    pos: SectionPos,
    empty: bool,
) -> Seq<Option<Seq<bool>>> {
    let chunk = layout.chunk_slot_at(pos.x as int, pos.z as int);
    if known_emptiness(layout, known, pos) is Some {
        known.update(
            chunk,
            Some(known[chunk]->0.update(pos.y - layout.section_range.min_y() - 1, empty)),
        )
    } else {
        known
    }
}

/// Whether a chunk section is known to be empty or not.
pub open spec fn known_emptiness(
    layout: LightCacheLayout,
    known: Seq<Option<Seq<bool>>>,
    pos: SectionPos,
) -> Option<bool> {
    let index = pos.y - layout.section_range.min_y() - 1;
    if layout.has_chunk(pos.x as int, pos.z as int) && layout.section_range.contains_chunk(
        pos.y as int,
    ) {
        match known[layout.chunk_slot_at(pos.x as int, pos.z as int)] {
            Some(map) => if index < map.len() {
                Some(map[index])
            } else {
                None
            },
            None => None,
        }
    } else {
        None
    }
}

/// The light of a section; absent outside of the window.
pub open spec fn section_view(
    layout: LightCacheLayout,
    slots: Seq<SlotView>,
    pos: SectionPos,
) -> SlotView {
    if layout.has_section(pos) {
        slots[layout.slot_at(pos)]
    } else {
        SlotView::Absent
    }
}

/// A cached section holds 4096 levels of four bits, and no level but zero where
/// it keeps no bytes.
pub open spec fn slot_valid(slot: SlotView) -> bool {
    match slot {
        SlotView::Cached(nibble, _) => crate::packed::levels_valid(nibble.updating.levels) && (
        !nibble.updating.state.keeps_bytes() ==> nibble.updating.levels == uniform(0)),
        SlotView::Removed(nibble) => crate::packed::levels_valid(nibble.updating.levels) && (
        !nibble.updating.state.keeps_bytes() ==> nibble.updating.levels == uniform(0)),
        SlotView::Absent => true,
    }
}

/// All cached sections are valid.
pub open spec fn slots_valid(slots: Seq<SlotView>) -> bool {
    forall|slot: int| 0 <= slot < slots.len() ==> slot_valid(#[trigger] slots[slot])
}

/// The cache's layout, layer and knowledge of emptiness are those of another
/// one.
pub open spec fn same_frame(a: &LightLayerWriteCache, b: &LightLayerWriteCache) -> bool {
    &&& a.spec_layout() == b.spec_layout()
    &&& a.spec_layer() == b.spec_layer()
    &&& a.known() == b.known()
}

/// The slots after the slot of a section was changed, if it is in the window.
pub open spec fn update_section(
    layout: LightCacheLayout,
    slots: Seq<SlotView>,
    pos: SectionPos,
    slot: SlotView,
) -> Seq<SlotView> {
    if layout.has_section(pos) {
        slots.update(layout.slot_at(pos), slot)
    } else {
        slots
    }
}

/// The slots after a section took the bottom row of the first lit section
/// above it, if there is one.
pub open spec fn extrude_from_above(
    layout: LightCacheLayout,
    slots: Seq<SlotView>,
    pos: SectionPos,
) -> Seq<SlotView> {
    let above = first_lit_above(layout, slots, pos, pos.y + 1);
    if layout.has_section(pos) && above < layout.min_y() + layout.depth() {
        slots.update(
            layout.slot_at(pos),
            slots[layout.slot_at(pos)].non_null().extruded(
                slots[layout.slot_at(SectionPos { x: pos.x, y: above as i32, z: pos.z })],
            ),
        )
    } else {
        slots
    }
}

/// The slots of a chunk's sections are reset.
pub open spec fn reset_chunk(
    layout: LightCacheLayout,
    slots: Seq<SlotView>,
    chunk_pos: ChunkPos,
) -> Seq<SlotView> {
    Seq::new(
        slots.len(),
        |slot: int|
            if layout.section_at(slot).x == chunk_pos.x && layout.section_at(slot).z
                == chunk_pos.z {
                slots[slot].reset()
            } else {
                slots[slot]
            },
    )
}

impl LightLayerWriteCache {
    proof fn lemma_update(&self, slot: int, value: LightNibbleSlot)
        requires
            0 <= slot < self.slots@.len(),
        ensures
            slot_views(self.slots@.update(slot, value)) == self@.update(slot, value@),
    {
        assert(slot_views(self.slots@.update(slot, value)) =~= self@.update(slot, value@));
    }

    /// Creates a write cache without nibbles.
    #[must_use]
    pub fn new(layout: LightCacheLayout, layer: LightLayer) -> (cache: Self)
        requires
            layout.wf(),
        ensures
            cache.wf(),
            cache.spec_layout() == layout,
            cache.spec_layer() == layer,
            forall|slot: int|
                0 <= slot < layout.slots() ==> #[trigger] cache@[slot] == SlotView::Absent,
            forall|chunk: int| 0 <= chunk < 25 ==> (#[trigger] cache.known()[chunk]) is None,
    {
        let count: usize = layout.section_slot_count();
        let mut slots: Vec<LightNibbleSlot> = Vec::new();
        while slots.len() < count
            invariant
                slots@.len() <= count,
                forall|slot: int|
                    0 <= slot < slots@.len() ==> #[trigger] slots@[slot]
                        == LightNibbleSlot::Absent,
            decreases count - slots@.len(),
        {
            slots.push(LightNibbleSlot::Absent);
        }
        let mut emptiness: Vec<Option<Vec<bool>>> = Vec::new();
        while emptiness.len() < 25
            invariant
                emptiness@.len() <= 25,
                forall|chunk: int|
                    0 <= chunk < emptiness@.len() ==> (#[trigger] emptiness@[chunk]) is None,
            decreases 25 - emptiness@.len(),
        {
            emptiness.push(None);
        }
        LightLayerWriteCache { layout, layer, slots, emptiness }
    }

    /// Puts a nibble section into the cache, and returns whether it lies in
    /// the window.
    pub fn insert(&mut self, section_pos: SectionPos, nibble: LightNibbleArray) -> (inserted: bool)
        requires
            old(self).wf(),
            nibble.wf(),
        ensures
            final(self).wf(),
            same_frame(final(self), old(self)),
            inserted == old(self).spec_layout().has_section(section_pos),
            final(self)@ == update_section(
                old(self).spec_layout(),
                old(self)@,
                section_pos,
                SlotView::Cached(nibble@, None),
            ),
    {
        match self.layout.section_slot(section_pos) {
            Some(slot) => {
                proof {
                    self.lemma_update(slot as int, LightNibbleSlot::Cached(nibble, None));
                }
                self.slots[slot] = LightNibbleSlot::Cached(nibble, None);
                true
            },
            None => false,
        }
    }

    /// Takes out the nibble section that the chunk has, whether it is in the
    /// cache or was removed from it.
    pub fn take(&mut self, section_pos: SectionPos) -> (result: Option<LightNibbleArray>)
        requires
            old(self).wf(),
        ensures
            final(self).wf(),
            same_frame(final(self), old(self)),
            final(self)@ == update_section(
                old(self).spec_layout(),
                old(self)@,
                section_pos,
                SlotView::Absent,
            ),
            match result {
                Some(nibble) => nibble.wf() && old(self).section(section_pos).held() == Some(nibble@),
                None => old(self).section(section_pos).held() is None,
            },
    {
        match self.layout.section_slot(section_pos) {
            Some(slot) => {
                assert(self.slots@[slot as int].wf());
                proof {
                    self.lemma_update(slot as int, LightNibbleSlot::Absent);
                }
                let mut taken: LightNibbleSlot = LightNibbleSlot::Absent;
                std::mem::swap(&mut self.slots[slot], &mut taken);
                match taken {
                    LightNibbleSlot::Absent => None,
                    LightNibbleSlot::Removed(nibble) => Some(nibble),
                    LightNibbleSlot::Cached(nibble, None) => Some(nibble),
                    LightNibbleSlot::Cached(_, Some(kept)) => Some(kept),
                }
            },
            None => None,
        }
    }

    /// Sets what is known of the emptiness of a chunk's sections.
    pub fn set_emptiness_map(&mut self, chunk_pos: ChunkPos, map: Vec<bool>)
        requires
            old(self).wf(),
        ensures
            final(self).wf(),
            final(self).spec_layout() == old(self).spec_layout(),
            final(self).spec_layer() == old(self).spec_layer(),
            final(self)@ == old(self)@,
            final(self).known() == if old(self).spec_layout().has_chunk(
                chunk_pos.x as int,
                chunk_pos.z as int,
            ) {
                old(self).known().update(
                    old(self).spec_layout().chunk_slot_at(chunk_pos.x as int, chunk_pos.z as int),
                    Some(map@),
                )
            } else {
                old(self).known()
            },
    {
        if let Some(slot) = self.layout.chunk_slot(chunk_pos) {
            self.emptiness[slot] = Some(map);
            assert(self.known() =~= old(self).known().update(slot as int, Some(map@)));
        }
    }

    /// Returns what is known of the emptiness of a chunk's sections.
    #[must_use]
    pub fn emptiness_map(&self, chunk_pos: ChunkPos) -> (result: Option<&Vec<bool>>)
        requires
            self.wf(),
        ensures
            match result {
                Some(map) => self.spec_layout().has_chunk(chunk_pos.x as int, chunk_pos.z as int)
                    && self.known()[self.spec_layout().chunk_slot_at(
                    chunk_pos.x as int,
                    chunk_pos.z as int,
                )] == Some(map@),
                None => self.spec_layout().has_chunk(chunk_pos.x as int, chunk_pos.z as int)
                    ==> self.known()[self.spec_layout().chunk_slot_at(
                    chunk_pos.x as int,
                    chunk_pos.z as int,
                )] is None,
            },
    {
        match self.layout.chunk_slot(chunk_pos) {
            Some(slot) => match &self.emptiness[slot] {
                Some(map) => Some(map),
                None => None,
            },
            None => None,
        }
    }

    /// Returns this cache's layer.
    #[must_use]
    pub fn layer(&self) -> (layer: LightLayer)
        ensures
            layer == self.spec_layer(),
    {
        self.layer
    }

    /// Returns this cache's layout.
    #[must_use]
    pub fn layout(&self) -> (layout: LightCacheLayout)
        ensures
            layout == self.spec_layout(),
    {
        self.layout
    }

    /// Returns the updating level of a cached block.
    #[must_use]
    pub fn get_updating(&self, cached_block: CachedLightBlock) -> (level: u8)
        requires
            self.wf(),
            cached_block.section_slot < self.spec_layout().slots(),
            cached_block.local_index < 4096,
        ensures
            level == self@[cached_block.section_slot as int].level(
                cached_block.local_index as int,
            ),
            level < 16,
    {
        match &self.slots[cached_block.section_slot] {
            LightNibbleSlot::Cached(nibble, _) => nibble.get_updating_at_index(
                cached_block.local_index,
            ),
            _ => 0,
        }
    }

    /// Sets the updating level of a cached block, and returns whether its
    /// section is cached.
    pub fn set(&mut self, cached_block: CachedLightBlock, level: u8) -> (written: bool)
        requires
            old(self).wf(),
            cached_block.section_slot < old(self).spec_layout().slots(),
            cached_block.local_index < 4096,
        ensures
            final(self).wf(),
            same_frame(final(self), old(self)),
            written == old(self)@[cached_block.section_slot as int] is Cached,
            final(self)@ == old(self)@.update(
                cached_block.section_slot as int,
                old(self)@[cached_block.section_slot as int].with_level(
                    cached_block.local_index as int,
                    level,
                ),
            ),
    {
        let slot: usize = cached_block.section_slot;
        let ghost before = self.slots@;
        assert(self.slots@[slot as int].wf());
        let written: bool = match &mut self.slots[slot] {
            LightNibbleSlot::Cached(nibble, _) => {
                nibble.set_at_index(cached_block.local_index, level);
                true
            },
            _ => false,
        };
        proof {
            assert(self.slots@ =~= before.update(slot as int, self.slots@[slot as int]));
            old(self).lemma_update(slot as int, self.slots@[slot as int]);
        }
        written
    }

    /// Returns whether the section of a cached block is not null.
    #[must_use]
    pub fn has_non_null_updating(&self, cached_block: CachedLightBlock) -> (result: bool)
        requires
            self.wf(),
            cached_block.section_slot < self.spec_layout().slots(),
        ensures
            result == self@[cached_block.section_slot as int].is_lit(),
    {
        match &self.slots[cached_block.section_slot] {
            LightNibbleSlot::Cached(nibble, _) => !nibble.is_null_updating(),
            _ => false,
        }
    }

    /// Returns whether a section is cached.
    #[must_use]
    pub fn has_cached_section(&self, section_pos: SectionPos) -> (result: bool)
        requires
            self.wf(),
        ensures
            result == self.section(section_pos) is Cached,
    {
        match self.layout.section_slot(section_pos) {
            Some(slot) => match &self.slots[slot] {
                LightNibbleSlot::Cached(_, _) => true,
                _ => false,
            },
            None => false,
        }
    }

    /// Returns whether a section is cached and not null.
    #[must_use]
    pub fn has_non_null_section(&self, section_pos: SectionPos) -> (result: bool)
        requires
            self.wf(),
        ensures
            result == self.section(section_pos).is_lit(),
    {
        match self.layout.section_slot(section_pos) {
            Some(slot) => match &self.slots[slot] {
                LightNibbleSlot::Cached(nibble, _) => !nibble.is_null_updating(),
                _ => false,
            },
            None => false,
        }
    }

    /// Returns whether a section is cached and null.
    #[must_use]
    pub fn is_section_null_updating(&self, section_pos: SectionPos) -> (result: bool)
        requires
            self.wf(),
        ensures
            result == self.section(section_pos).is_null(),
    {
        match self.layout.section_slot(section_pos) {
            Some(slot) => match &self.slots[slot] {
                LightNibbleSlot::Cached(nibble, _) => nibble.is_null_updating(),
                _ => false,
            },
            None => false,
        }
    }

    /// Returns whether a section is cached and initialized.
    #[must_use]
    pub fn is_section_initialized_updating(&self, section_pos: SectionPos) -> (result: bool)
        requires
            self.wf(),
        ensures
            result == self.section(section_pos).is_initialized(),
    {
        match self.layout.section_slot(section_pos) {
            Some(slot) => match &self.slots[slot] {
                LightNibbleSlot::Cached(nibble, _) => nibble.is_initialized_updating(),
                _ => false,
            },
            None => false,
        }
    }

    /// Lets a null section stand in for one that was taken out of the cache, and
    /// returns whether there was one. The chunk keeps the one that was taken
    /// out: what is written here serves this operation only.
    pub fn materialize_removed_null_section(&mut self, section_pos: SectionPos) -> (result: bool)
        requires
            old(self).wf(),
        ensures
            final(self).wf(),
            same_frame(final(self), old(self)),
            result == old(self).section(section_pos) is Removed,
            final(self)@ == update_section(
                old(self).spec_layout(),
                old(self)@,
                section_pos,
                old(self).section(section_pos).materialized(),
            ),
    {
        let slot: usize = match self.layout.section_slot(section_pos) {
            Some(slot) => slot,
            None => {
                return false;
            },
        };
        let ghost before = self.slots@;
        let ghost view = self@;
        assert(self.slots@[slot as int].wf());
        let mut taken: LightNibbleSlot = LightNibbleSlot::Absent;
        std::mem::swap(&mut self.slots[slot], &mut taken);
        let (restored, result): (LightNibbleSlot, bool) = match taken {
            LightNibbleSlot::Removed(nibble) => (
                LightNibbleSlot::Cached(LightNibbleArray::null(), Some(nibble)),
                true,
            ),
            other => (other, false),
        };
        proof {
            old(self).lemma_update(slot as int, restored);
            assert(self.slots@.update(slot as int, restored) =~= before.update(
                slot as int,
                restored,
            ));
        }
        self.slots[slot] = restored;
        result
    }

    /// Marks a section as not null.
    pub fn set_section_non_null(&mut self, section_pos: SectionPos)
        requires
            old(self).wf(),
        ensures
            final(self).wf(),
            same_frame(final(self), old(self)),
            final(self)@ == update_section(
                old(self).spec_layout(),
                old(self)@,
                section_pos,
                old(self).section(section_pos).non_null(),
            ),
    {
        if let Some(slot) = self.layout.section_slot(section_pos) {
            let ghost before = self.slots@;
            assert(self.slots@[slot as int].wf());
            match &mut self.slots[slot] {
                LightNibbleSlot::Cached(nibble, _) => nibble.set_non_null(),
                _ => {},
            }
            proof {
                assert(self.slots@ =~= before.update(slot as int, self.slots@[slot as int]));
                old(self).lemma_update(slot as int, self.slots@[slot as int]);
            }
        }
    }

    /// Makes a section null.
    pub fn set_section_null(&mut self, section_pos: SectionPos)
        requires
            old(self).wf(),
        ensures
            final(self).wf(),
            same_frame(final(self), old(self)),
            final(self)@ == update_section(
                old(self).spec_layout(),
                old(self)@,
                section_pos,
                old(self).section(section_pos).nulled(),
            ),
    {
        if let Some(slot) = self.layout.section_slot(section_pos) {
            let ghost before = self.slots@;
            assert(self.slots@[slot as int].wf());
            match &mut self.slots[slot] {
                LightNibbleSlot::Cached(nibble, _) => nibble.set_null(),
                _ => {},
            }
            proof {
                assert(self.slots@ =~= before.update(slot as int, self.slots@[slot as int]));
                old(self).lemma_update(slot as int, self.slots@[slot as int]);
            }
        }
    }

    /// Fills a section with one level.
    pub fn fill_section(&mut self, section_pos: SectionPos, level: u8)
        requires
            old(self).wf(),
        ensures
            final(self).wf(),
            same_frame(final(self), old(self)),
            final(self)@ == update_section(
                old(self).spec_layout(),
                old(self)@,
                section_pos,
                old(self).section(section_pos).filled(level),
            ),
    {
        if let Some(slot) = self.layout.section_slot(section_pos) {
            let ghost before = self.slots@;
            assert(self.slots@[slot as int].wf());
            match &mut self.slots[slot] {
                LightNibbleSlot::Cached(nibble, _) => nibble.fill(level),
                _ => {},
            }
            proof {
                assert(self.slots@ =~= before.update(slot as int, self.slots@[slot as int]));
                old(self).lemma_update(slot as int, self.slots@[slot as int]);
            }
        }
    }

    /// Gives a section the bottom row of the first section above it that is
    /// not null. Without such a section nothing changes.
    pub fn extrude_lower_from_first_section_above(&mut self, section_pos: SectionPos)
        requires
            old(self).wf(),
        ensures
            final(self).wf(),
            same_frame(final(self), old(self)),
            final(self)@ == extrude_from_above(old(self).spec_layout(), old(self)@, section_pos),
    {
        let slot: usize = match self.layout.section_slot(section_pos) {
            Some(slot) => slot,
            None => {
                return ;
            },
        };
        let ghost layout = self.layout;
        let ghost goal = first_lit_above(layout, self@, section_pos, section_pos.y + 1);
        let max_y: i32 = self.layout.cached_max_section_y_exclusive();
        let mut y: i32 = section_pos.y + 1;
        while y < max_y
            invariant
                self.wf(),
                *self == *old(self),
                layout == self.layout,
                layout.has_section(section_pos),
                slot == layout.slot_at(section_pos),
                section_pos.y < y <= max_y,
                max_y == layout.min_y() + layout.depth(),
                goal == first_lit_above(layout, self@, section_pos, section_pos.y + 1),
                goal == first_lit_above(layout, self@, section_pos, y as int),
            decreases max_y - y,
        {
            let above_pos: SectionPos = SectionPos::new(section_pos.x, y, section_pos.z);
            if self.has_non_null_section(above_pos) {
                self.extrude_from(slot, section_pos, above_pos);
                return ;
            }
            y += 1;
        }
    }

    fn extrude_from(&mut self, slot: usize, section_pos: SectionPos, above_pos: SectionPos)
        requires
            old(self).wf(),
            old(self).spec_layout().has_section(section_pos),
            old(self).spec_layout().has_section(above_pos),
            slot == old(self).spec_layout().slot_at(section_pos),
            section_pos != above_pos,
            old(self).section(above_pos).is_lit(),
        ensures
            final(self).wf(),
            same_frame(final(self), old(self)),
            final(self)@ == old(self)@.update(
                slot as int,
                old(self)@[slot as int].non_null().extruded(
                    old(self)@[old(self).spec_layout().slot_at(above_pos)],
                ),
            ),
    {
        let above_slot: usize = match self.layout.section_slot(above_pos) {
            Some(above_slot) => above_slot,
            None => {
                return ;
            },
        };
        proof {
            self.layout.slot_round_trip(section_pos, 0);
            self.layout.slot_round_trip(above_pos, 0);
            assert(self.slots@[slot as int].wf());
            assert(self.slots@[above_slot as int].wf());
        }
        let ghost before = self.slots@;
        let mut taken: LightNibbleSlot = LightNibbleSlot::Absent;
        std::mem::swap(&mut self.slots[slot], &mut taken);
        match &mut taken {
            LightNibbleSlot::Cached(nibble, _) => {
                nibble.set_non_null();
                match &self.slots[above_slot] {
                    LightNibbleSlot::Cached(above, _) => {
                        let extruded = nibble.extrude_lower(above);
                    },
                    _ => {},
                }
            },
            _ => {},
        }
        proof {
            old(self).lemma_update(slot as int, taken);
            assert(self.slots@.update(slot as int, taken) =~= before.update(slot as int, taken));
        }
        self.slots[slot] = taken;
    }

    /// Publishes null sections and takes them out of the cache.
    pub fn rewrite_null_nibbles_for_skylight(&mut self)
        requires
            old(self).wf(),
        ensures
            final(self).wf(),
            same_frame(final(self), old(self)),
            final(self)@ == old(self)@.map_values(|slot: SlotView| slot.rewritten()),
    {
        let ghost before = self@;
        let mut i: usize = 0;
        while i < self.slots.len()
            invariant
                self.wf(),
                same_frame(self, old(self)),
                i <= self.slots@.len(),
                self@.len() == before.len(),
                before == old(self)@,
                forall|j: int| 0 <= j < i ==> #[trigger] self@[j] == before[j].rewritten(),
                forall|j: int| i <= j < before.len() ==> #[trigger] self@[j] == before[j],
            decreases self.slots@.len() - i,
        {
            let ghost current = *self;
            assert(self.slots@[i as int].wf());
            assert(self@[i as int] == before[i as int]);
            let mut taken: LightNibbleSlot = LightNibbleSlot::Absent;
            std::mem::swap(&mut self.slots[i], &mut taken);
            let rewritten: LightNibbleSlot = match taken {
                LightNibbleSlot::Cached(mut nibble, kept) => {
                    if nibble.is_null_updating() {
                        match kept {
                            Some(kept) => LightNibbleSlot::Removed(kept),
                            None => {
                                nibble.update_visible();
                                LightNibbleSlot::Removed(nibble)
                            },
                        }
                    } else {
                        LightNibbleSlot::Cached(nibble, kept)
                    }
                },
                other => other,
            };
            proof {
                current.lemma_update(i as int, rewritten);
                assert(self.slots@.update(i as int, rewritten) =~= current.slots@.update(
                    i as int,
                    rewritten,
                ));
            }
            self.slots[i] = rewritten;
            i += 1;
        }
        assert(self@ =~= before.map_values(|slot: SlotView| slot.rewritten()));
    }

    /// Replaces the nibble sections of a chunk by fresh null ones.
    pub fn reset_chunk_nibbles_to_null(&mut self, chunk_pos: ChunkPos)
        requires
            old(self).wf(),
            old(self).spec_layout().in_world(),
        ensures
            final(self).wf(),
            same_frame(final(self), old(self)),
            final(self)@ == reset_chunk(old(self).spec_layout(), old(self)@, chunk_pos),
    {
        let ghost before = self@;
        let ghost layout = self.layout;
        let mut i: usize = 0;
        while i < self.slots.len()
            invariant
                self.wf(),
                layout.in_world(),
                layout == self.layout,
                same_frame(self, old(self)),
                i <= self.slots@.len(),
                self@.len() == before.len(),
                before == old(self)@,
                forall|j: int|
                    0 <= j < i ==> #[trigger] self@[j] == reset_chunk(
                        layout,
                        before,
                        chunk_pos,
                    )[j],
                forall|j: int| i <= j < before.len() ==> #[trigger] self@[j] == before[j],
            decreases self.slots@.len() - i,
        {
            let ghost current = *self;
            assert(self@[i as int] == before[i as int]);
            if let Some(pos) = self.layout.section_pos_for_slot(i) {
                if pos.x == chunk_pos.x && pos.z == chunk_pos.z {
                    let present: bool = match &self.slots[i] {
                        LightNibbleSlot::Absent => false,
                        _ => true,
                    };
                    if present {
                        let fresh: LightNibbleSlot = LightNibbleSlot::Cached(
                            LightNibbleArray::null(),
                            None,
                        );
                        proof {
                            current.lemma_update(i as int, fresh);
                        }
                        self.slots[i] = fresh;
                    }
                }
            }
            i += 1;
        }
        assert(self@ =~= reset_chunk(layout, before, chunk_pos));
    }

    /// Returns what is known of the emptiness of a chunk section.
    #[must_use]
    pub fn section_empty(&self, section_pos: SectionPos) -> (result: Option<bool>)
        requires
            self.wf(),
        ensures
            result == self.emptiness_of(section_pos),
    {
        match (
            self.layout.chunk_slot_by_coords(section_pos.x, section_pos.z),
            self.layout.range().chunk_section_index(section_pos.y),
        ) {
            (Some(chunk), Some(index)) => match &self.emptiness[chunk] {
                Some(map) => {
                    if index < map.len() {
                        Some(map[index])
                    } else {
                        None
                    }
                },
                None => None,
            },
            _ => None,
        }
    }

    /// Sets the emptiness of a chunk section where it is known.
    pub fn set_section_empty(&mut self, section_pos: SectionPos, empty: bool)
        requires
            old(self).wf(),
        ensures
            final(self).wf(),
            final(self).spec_layout() == old(self).spec_layout(),
            final(self).spec_layer() == old(self).spec_layer(),
            final(self)@ == old(self)@,
            final(self).known() == set_known(
                old(self).spec_layout(),
                old(self).known(),
                section_pos,
                empty,
            ),
    {
        match (
            self.layout.chunk_slot_by_coords(section_pos.x, section_pos.z),
            self.layout.range().chunk_section_index(section_pos.y),
        ) {
            (Some(chunk), Some(index)) => {
                match &mut self.emptiness[chunk] {
                    Some(map) => {
                        if index < map.len() {
                            map[index] = empty;
                        }
                    },
                    None => {},
                }
                assert(self.known() =~= set_known(
                    old(self).spec_layout(),
                    old(self).known(),
                    section_pos,
                    empty,
                ));
            },
            _ => {},
        }
    }

    /// Publishes every cached section that has changes, and returns those
    /// sections in slot order. What only served the operation is dropped, and
    /// what was taken out comes back.
    pub fn update_visible(&mut self) -> (updated: Vec<SectionPos>)
        requires
            old(self).wf(),
            old(self).spec_layout().in_world(),
        ensures
            final(self).wf(),
            same_frame(final(self), old(self)),
            final(self)@ == old(self)@.map_values(|slot: SlotView| slot.published()),
            updated@ == dirty_sections(
                old(self).spec_layout(),
                old(self)@,
                old(self)@.len() as int,
            ),
    {
        let ghost before = self@;
        let ghost layout = self.layout;
        let mut updated: Vec<SectionPos> = Vec::new();
        let mut i: usize = 0;
        while i < self.slots.len()
            invariant
                self.wf(),
                layout.in_world(),
                layout == self.layout,
                same_frame(self, old(self)),
                i <= self.slots@.len(),
                self@.len() == before.len(),
                before == old(self)@,
                updated@ == dirty_sections(layout, before, i as int),
                forall|j: int| 0 <= j < i ==> #[trigger] self@[j] == before[j].published(),
                forall|j: int| i <= j < before.len() ==> #[trigger] self@[j] == before[j],
            decreases self.slots@.len() - i,
        {
            let ghost current = *self;
            assert(self.slots@[i as int].wf());
            assert(self@[i as int] == before[i as int]);
            let mut taken: LightNibbleSlot = LightNibbleSlot::Absent;
            std::mem::swap(&mut self.slots[i], &mut taken);
            let (restored, changed): (LightNibbleSlot, bool) = match taken {
                LightNibbleSlot::Absent => (LightNibbleSlot::Absent, false),
                LightNibbleSlot::Removed(nibble) => (LightNibbleSlot::Cached(nibble, None), false),
                LightNibbleSlot::Cached(_, Some(kept)) => (
                    LightNibbleSlot::Cached(kept, None),
                    false,
                ),
                LightNibbleSlot::Cached(mut nibble, None) => {
                    let changed: bool = nibble.update_visible();
                    (LightNibbleSlot::Cached(nibble, None), changed)
                },
            };
            proof {
                current.lemma_update(i as int, restored);
                assert(self.slots@.update(i as int, restored) =~= current.slots@.update(
                    i as int,
                    restored,
                ));
            }
            self.slots[i] = restored;
            if changed {
                if let Some(pos) = self.layout.section_pos_for_slot(i) {
                    updated.push(pos);
                }
            }
            i += 1;
        }
        assert(self@ =~= before.map_values(|slot: SlotView| slot.published()));
        updated
    }
}

} // verus!
