//! Light storage that one chunk owns.
use vstd::prelude::*;

use crate::nibble::{clean_view, zero_plane, LightNibbleArray, LightNibbleState, NibbleView};
use crate::packed::local_index;
use crate::position::{
    block_to_section_coord, local_coord, section_coord, section_relative_coord, BlockPos,
};
use crate::section::{ChunkSection, Sections};
use crate::section_range::{valid_world_height, LightSectionRange, LightSectionRangeError};
use crate::{LightLayer, MAX_LIGHT_LEVEL};

verus! {

/// Error returned when a chunk light emptiness map has the wrong length.
#[derive(Debug, Clone, Copy, PartialEq, Eq, Structural)]
pub struct ChunkLightEmptinessMapLengthError {
    /// Expected section count.
    pub expected: usize,
    /// Actual section count.
    pub actual: usize,
}

/// Per-layer chunk-owned light storage.
#[derive(Debug)]
pub struct ChunkLightLayerStorage {
    layer: LightLayer,
    range: LightSectionRange,
    chunk_section_count: usize,
    nibbles: Vec<LightNibbleArray>,
    emptiness_map: Option<Vec<bool>>,
}

/// What a chunk's light storage holds for one layer.
#[verifier::ext_equal]
pub struct LayerStorageView {
    /// The layer.
    pub layer: LightLayer,
    /// The light sections of the chunk.
    pub range: LightSectionRange,
    /// The number of sections that the emptiness map covers.
    pub chunk_section_count: int,
    /// The nibbles of each light section, from the lowest up.
    pub nibbles: Seq<NibbleView>,
    /// Which chunk sections are empty, where that is known.
    pub emptiness: Option<Seq<bool>>,
}

/// What each of a sequence of nibble sections holds.
pub open spec fn nibble_views(nibbles: Seq<LightNibbleArray>) -> Seq<NibbleView> {
    nibbles.map_values(|nibble: LightNibbleArray| nibble@)
}

/// The visible level that the lowest non-null section at or above `section_y`
/// gives to the bottom cell of its column; full light when there is none.
pub open spec fn extruded_level(
    storage: LayerStorageView,
    section_y: int,
    x: int,
    z: int,
) -> u8
    decreases storage.range.max_y() - section_y,
{
    if section_y >= storage.range.max_y() {
        15
    } else if storage.range.contains(section_y) && storage.nibbles[section_y
        - storage.range.min_y()].visible.state != LightNibbleState::Null {
        storage.nibbles[section_y - storage.range.min_y()].visible.levels[local_index(x, 0, z)]
    } else {
        extruded_level(storage, section_y + 1, x, z)
    }
}

impl LayerStorageView {
    /// The visible level of a block in a section that is not null.
    pub open spec fn section_level(self, block_pos: BlockPos) -> Option<u8> {
        let section_y = section_coord(block_pos.y as int);
        if self.range.contains(section_y) && self.nibbles[section_y
            - self.range.min_y()].visible.state != LightNibbleState::Null {
            Some(
                self.nibbles[section_y - self.range.min_y()].visible.levels[local_index(
                    local_coord(block_pos.x as int),
                    local_coord(block_pos.y as int),
                    local_coord(block_pos.z as int),
                )],
            )
        } else {
            None
        }
    }

    /// The visible level of a block. Where its section is null, block light is
    /// zero, and sky light is that of the first section above that is not null.
    pub open spec fn light_value(self, block_pos: BlockPos) -> u8 {
        match self.section_level(block_pos) {
            Some(level) => level,
            None => match self.layer {
                LightLayer::Block => 0,
                LightLayer::Sky => extruded_level(
                    self,
                    section_coord(block_pos.y as int) + 1,
                    local_coord(block_pos.x as int),
                    local_coord(block_pos.z as int),
                ),
            },
        }
    }

    /// The index of a chunk section in the emptiness map.
    pub open spec fn emptiness_index(self, section_y: int) -> Option<int> {
        let index = section_y - self.range.min_y() - 1;
        if self.range.contains_chunk(section_y) && index < self.chunk_section_count {
            Some(index)
        } else {
            None
        }
    }

    /// Whether a chunk section is empty, where that is known.
    pub open spec fn known_emptiness(self, section_y: int) -> Option<bool> {
        match (self.emptiness_index(section_y), self.emptiness) {
            (Some(index), Some(map)) => Some(map[index]),
            _ => None,
        }
    }
}

impl View for ChunkLightLayerStorage {
    type V = LayerStorageView;

    closed spec fn view(&self) -> LayerStorageView {
        LayerStorageView {
            layer: self.layer,
            range: self.range,
            chunk_section_count: self.chunk_section_count as int,
            nibbles: nibble_views(self.nibbles@),
            emptiness: match self.emptiness_map {
                Some(map) => Some(map@),
                None => None,
            },
        }
    }
}

impl ChunkLightLayerStorage {
    /// There is a nibble section for every light section, and an emptiness map
    /// covers every chunk section.
    pub closed spec fn wf(&self) -> bool {
        &&& self.range.wf()
        &&& self.nibbles@.len() == self.range.count()
        &&& forall|i: int| 0 <= i < self.nibbles@.len() ==> (#[trigger] self.nibbles@[i]).wf()
        &&& self.emptiness_map matches Some(map) ==> map@.len() == self.chunk_section_count
    }

    /// The view has a nibble section for every light section.
    pub proof fn view_lengths(&self)
        requires
            self.wf(),
        ensures
            self@.range.wf(),
            self@.nibbles.len() == self@.range.count(),
            self@.emptiness matches Some(map) ==> map.len() == self@.chunk_section_count,
    {
    }

    /// Every visible level of every section fits in a nibble.
    pub proof fn view_levels(&self)
        requires
            self.wf(),
        ensures
            forall|i: int|
                0 <= i < self@.nibbles.len() ==> crate::packed::levels_valid(
                    (#[trigger] self@.nibbles[i]).visible.levels,
                ),
    {
        assert forall|i: int| 0 <= i < self@.nibbles.len() implies crate::packed::levels_valid(
            (#[trigger] self@.nibbles[i]).visible.levels,
        ) by {
            assert(self.nibbles@[i].wf());
            self.nibbles@[i].views_valid();
        }
    }

    /// Creates null light nibbles for every light section in a chunk.
    #[must_use]
    pub fn new(layer: LightLayer, range: LightSectionRange, chunk_section_count: usize) -> (storage:
        Self)
        requires
            range.wf(),
        ensures
            storage.wf(),
            storage@ == (LayerStorageView {
                layer,
                range,
                chunk_section_count: chunk_section_count as int,
                nibbles: Seq::new(
                    range.count() as nat,
                    |i: int| clean_view(zero_plane(LightNibbleState::Null)),
                ),
                emptiness: None,
            }),
    {
        let storage = ChunkLightLayerStorage {
            layer,
            range,
            chunk_section_count,
            nibbles: Self::null_nibbles(range.section_count()),
            emptiness_map: None,
        };
        assert(storage@.nibbles =~= Seq::new(
            range.count() as nat,
            |i: int| clean_view(zero_plane(LightNibbleState::Null)),
        ));
        storage
    }

    fn null_nibbles(count: usize) -> (nibbles: Vec<LightNibbleArray>)
        ensures
            nibbles@.len() == count,
            forall|i: int|
                0 <= i < count ==> (#[trigger] nibbles@[i]).wf() && nibbles@[i]@ == clean_view(
                    zero_plane(LightNibbleState::Null),
                ),
    {
        let mut nibbles: Vec<LightNibbleArray> = Vec::new();
        while nibbles.len() < count
            invariant
                nibbles@.len() <= count,
                forall|i: int|
                    0 <= i < nibbles@.len() ==> (#[trigger] nibbles@[i]).wf() && nibbles@[i]@
                        == clean_view(zero_plane(LightNibbleState::Null)),
            decreases count - nibbles@.len(),
        {
            nibbles.push(LightNibbleArray::null());
        }
        nibbles
    }

    /// Returns this storage's light layer.
    #[must_use]
    pub fn layer(&self) -> (layer: LightLayer)
        ensures
            layer == self@.layer,
    {
        self.layer
    }

    /// Returns the vertical light-section range.
    #[must_use]
    pub fn range(&self) -> (range: LightSectionRange)
        ensures
            range == self@.range,
    {
        self.range
    }

    /// Returns all chunk light nibbles.
    #[must_use]
    pub fn nibbles(&self) -> (nibbles: &Vec<LightNibbleArray>)
        requires
            self.wf(),
        ensures
            nibble_views(nibbles@) == self@.nibbles,
            forall|i: int| 0 <= i < nibbles@.len() ==> (#[trigger] nibbles@[i]).wf(),
    {
        &self.nibbles
    }

    /// Returns all chunk light nibbles mutably.
    #[must_use]
    pub fn nibbles_mut(&mut self) -> (nibbles: &mut Vec<LightNibbleArray>)
        requires
            old(self).wf(),
        ensures
            nibble_views(nibbles@) == old(self)@.nibbles,
            forall|i: int| 0 <= i < nibbles@.len() ==> (#[trigger] nibbles@[i]).wf(),
            final(self)@ == (LayerStorageView {
                nibbles: nibble_views(final(nibbles)@),
                ..old(self)@
            }),
            final(nibbles)@.len() == old(self)@.nibbles.len() && (forall|i: int|
                0 <= i < final(nibbles)@.len() ==> (#[trigger] final(nibbles)@[i]).wf())
                ==> final(self).wf(),
    {
        &mut self.nibbles
    }

    /// Replaces every light-section nibble with a fresh null nibble.
    ///
    /// A chunk that is lit for the first time starts from here, so that data
    /// that earlier passes of its neighbors left cannot become its own light.
    pub fn reset_nibbles_to_null(&mut self)
        requires
            old(self).wf(),
        ensures
            final(self).wf(),
            final(self)@ == (LayerStorageView {
                nibbles: Seq::new(
                    old(self)@.range.count() as nat,
                    |i: int| clean_view(zero_plane(LightNibbleState::Null)),
                ),
                ..old(self)@
            }),
    {
        let count: usize = self.nibbles.len();
        self.nibbles = Self::null_nibbles(count);
        assert(self@.nibbles =~= Seq::new(
            old(self)@.range.count() as nat,
            |i: int| clean_view(zero_plane(LightNibbleState::Null)),
        ));
    }

    /// Returns the visible light value for one block position.
    #[must_use]
    pub fn get_light_value(&self, block_pos: BlockPos) -> (level: u8)
        requires
            self.wf(),
        ensures
            level == self@.light_value(block_pos),
    {
        match self.layer {
            LightLayer::Sky => self.get_sky_light_value(block_pos),
            LightLayer::Block => self.get_block_light_value(block_pos),
        }
    }

    /// Returns the number of real chunk sections tracked by the emptiness map.
    #[must_use]
    pub fn chunk_section_count(&self) -> (count: usize)
        ensures
            count == self@.chunk_section_count,
    {
        self.chunk_section_count
    }

    /// Returns a light nibble for a section Y.
    #[must_use]
    pub fn nibble(&self, section_y: i32) -> (result: Option<&LightNibbleArray>)
        requires
            self.wf(),
        ensures
            match result {
                Some(nibble) => self@.range.contains(section_y as int) && nibble.wf() && nibble@
                    == self@.nibbles[section_y - self@.range.min_y()],
                None => !self@.range.contains(section_y as int),
            },
    {
        match self.range.section_index(section_y) {
            Some(index) => Some(&self.nibbles[index]),
            None => None,
        }
    }

    /// Returns a mutable light nibble for a section Y.
    pub fn nibble_mut(&mut self, section_y: i32) -> (result: Option<&mut LightNibbleArray>)
        requires
            old(self).wf(),
        ensures
            match result {
                Some(nibble) => {
                    let index = section_y - old(self)@.range.min_y();
                    &&& old(self)@.range.contains(section_y as int)
                    &&& nibble.wf()
                    &&& nibble@ == old(self)@.nibbles[index]
                    &&& final(self)@ == (LayerStorageView {
                        nibbles: old(self)@.nibbles.update(index, final(nibble)@),
                        ..old(self)@
                    })
                    &&& final(nibble).wf() ==> final(self).wf()
                },
                None => !old(self)@.range.contains(section_y as int) && *final(self) == *old(self),
            },
    {
        match self.range.section_index(section_y) {
            Some(index) => {
                let ghost before = self.nibbles@;
                proof {
                    assert forall|nibble: LightNibbleArray| #[trigger]
                        nibble_views(before.update(index as int, nibble)) == nibble_views(
                            before,
                        ).update(index as int, nibble@) by {
                        assert(nibble_views(before.update(index as int, nibble)) =~= nibble_views(
                            before,
                        ).update(index as int, nibble@));
                    }
                }
                Some(&mut self.nibbles[index])
            },
            None => None,
        }
    }

    /// Returns the current section emptiness map, if known.
    #[must_use]
    pub fn emptiness_map(&self) -> (result: Option<&Vec<bool>>)
        ensures
            match result {
                Some(map) => self@.emptiness == Some(map@),
                None => self@.emptiness is None,
            },
    {
        self.emptiness_map.as_ref()
    }

    /// Returns the known emptiness for one real chunk section Y.
    #[must_use]
    pub fn section_empty(&self, section_y: i32) -> (result: Option<bool>)
        requires
            self.wf(),
        ensures
            result == self@.known_emptiness(section_y as int),
    {
        let index: usize = match self.chunk_section_index(section_y) {
            Some(index) => index,
            None => {
                return None;
            },
        };
        match &self.emptiness_map {
            Some(map) => Some(map[index]),
            None => None,
        }
    }

    /// Replaces the section emptiness map.
    pub fn set_emptiness_map(&mut self, emptiness_map: Vec<bool>) -> (result: Result<
        (),
        ChunkLightEmptinessMapLengthError,
    >)
        requires
            old(self).wf(),
        ensures
            final(self).wf(),
            match result {
                Ok(()) => emptiness_map@.len() == old(self)@.chunk_section_count && final(self)@
                    == (LayerStorageView { emptiness: Some(emptiness_map@), ..old(self)@ }),
                Err(error) => {
                    &&& emptiness_map@.len() != old(self)@.chunk_section_count
                    &&& error.expected == old(self)@.chunk_section_count
                    &&& error.actual == emptiness_map@.len()
                    &&& final(self)@ == old(self)@
                },
            },
    {
        let actual: usize = emptiness_map.len();
        if actual != self.chunk_section_count {
            return Err(
                ChunkLightEmptinessMapLengthError { expected: self.chunk_section_count, actual },
            );
        }
        self.emptiness_map = Some(emptiness_map);
        Ok(())
    }

    /// Replaces the section emptiness map from current section counters.
    pub fn refresh_emptiness_map_from_sections(&mut self, sections: &Sections) -> (result: Result<
        (),
        ChunkLightEmptinessMapLengthError,
    >)
        requires
            old(self).wf(),
        ensures
            final(self).wf(),
            match result {
                Ok(()) => sections.sections@.len() == old(self)@.chunk_section_count && final(self)@
                    == (LayerStorageView {
                    emptiness: Some(section_emptiness(sections)),
                    ..old(self)@
                }),
                Err(error) => {
                    &&& sections.sections@.len() != old(self)@.chunk_section_count
                    &&& error.expected == old(self)@.chunk_section_count
                    &&& error.actual == sections.sections@.len()
                    &&& final(self)@ == old(self)@
                },
            },
    {
        self.set_emptiness_map(sections.section_emptiness_map())
    }

    /// Updates one known section emptiness entry, returning the previous value.
    pub fn set_section_empty(&mut self, section_y: i32, empty: bool) -> (result: Option<bool>)
        requires
            old(self).wf(),
        ensures
            final(self).wf(),
            result == old(self)@.known_emptiness(section_y as int),
            final(self)@ == set_emptiness(old(self)@, section_y as int, empty),
    {
        let index: usize = match self.chunk_section_index(section_y) {
            Some(index) => index,
            None => {
                return None;
            },
        };
        match &mut self.emptiness_map {
            Some(map) => {
                let previous: bool = map[index];
                map[index] = empty;
                Some(previous)
            },
            None => None,
        }
    }

    fn get_block_light_value(&self, block_pos: BlockPos) -> (level: u8)
        requires
            self.wf(),
            self@.layer == LightLayer::Block,
        ensures
            level == self@.light_value(block_pos),
    {
        match self.visible_nibble_value(block_pos) {
            Some(value) => value,
            None => 0,
        }
    }

    fn get_sky_light_value(&self, block_pos: BlockPos) -> (level: u8)
        requires
            self.wf(),
            self@.layer == LightLayer::Sky,
        ensures
            level == self@.light_value(block_pos),
    {
        if let Some(value) = self.visible_nibble_value(block_pos) {
            return value;
        }
        let local_x: usize = section_relative_coord(block_pos.x);
        let local_z: usize = section_relative_coord(block_pos.z);
        let max_section_y: i32 = self.range.max_section_y_exclusive();
        let mut section_y: i32 = block_to_section_coord(block_pos.y) + 1;
        while section_y < max_section_y
            invariant
                self.wf(),
                local_x < 16,
                local_z < 16,
                max_section_y == self@.range.max_y(),
                self@.light_value(block_pos) == extruded_level(
                    self@,
                    section_y as int,
                    local_x as int,
                    local_z as int,
                ),
            decreases max_section_y - section_y,
        {
            if let Some(nibble) = self.nibble(section_y) {
                if !nibble.is_null_visible() {
                    return nibble.get_visible(local_x, 0, local_z);
                }
            }
            section_y += 1;
        }
        MAX_LIGHT_LEVEL
    }

    fn visible_nibble_value(&self, block_pos: BlockPos) -> (result: Option<u8>)
        requires
            self.wf(),
        ensures
            result == self@.section_level(block_pos),
    {
        let section_y: i32 = block_to_section_coord(block_pos.y);
        match self.nibble(section_y) {
            None => None,
            Some(nibble) => {
                if nibble.is_null_visible() {
                    return None;
                }
                Some(
                    nibble.get_visible(
                        section_relative_coord(block_pos.x),
                        section_relative_coord(block_pos.y),
                        section_relative_coord(block_pos.z),
                    ),
                )
            },
        }
    }

    fn chunk_section_index(&self, section_y: i32) -> (result: Option<usize>)
        requires
            self.wf(),
        ensures
            match result {
                Some(index) => self@.emptiness_index(section_y as int) == Some(index as int),
                None => self@.emptiness_index(section_y as int) is None,
            },
    {
        match self.range.chunk_section_index(section_y) {
            Some(index) => {
                if index < self.chunk_section_count {
                    Some(index)
                } else {
                    None
                }
            },
            None => None,
        }
    }
}

/// Which sections of a chunk are empty by their counters.
pub open spec fn section_emptiness(sections: &Sections) -> Seq<bool> {
    sections.sections@.map_values(|section: ChunkSection| section.non_empty_block_count == 0)
}

/// A storage after a known section's emptiness was set; unknown ones stay.
pub open spec fn set_emptiness(
    storage: LayerStorageView,
    section_y: int,
    empty: bool,
) -> LayerStorageView {
    match (storage.emptiness_index(section_y), storage.emptiness) {
        (Some(index), Some(map)) => LayerStorageView {
            emptiness: Some(map.update(index, empty)),
            ..storage
        },
        _ => storage,
    }
}

/// Chunk-owned block and sky light storage.
#[derive(Debug)]
pub struct ChunkLightData {
    /// Block light nibbles and section emptiness metadata.
    pub block: ChunkLightLayerStorage,
    /// Sky light nibbles and section emptiness metadata.
    pub sky: ChunkLightLayerStorage,
}

/// The storage of a chunk that has no light yet.
pub open spec fn unlit_storage(layer: LightLayer, range: LightSectionRange) -> LayerStorageView {
    LayerStorageView {
        layer,
        range,
        chunk_section_count: range.count() - 2,
        nibbles: Seq::new(
            range.count() as nat,
            |i: int| clean_view(zero_plane(LightNibbleState::Null)),
        ),
        emptiness: None,
    }
}

impl ChunkLightData {
    /// Both storages are well formed and hold their layers.
    pub open spec fn wf(&self) -> bool {
        &&& self.block.wf()
        &&& self.sky.wf()
        &&& self.block@.layer == LightLayer::Block
        &&& self.sky@.layer == LightLayer::Sky
    }

    /// Creates empty light storage for one chunk.
    pub fn new(min_y: i32, height: i32) -> (result: Result<Self, LightSectionRangeError>)
        ensures
            match result {
                Ok(data) => {
                    &&& valid_world_height(min_y, height)
                    &&& data.wf()
                    &&& data.block@ == unlit_storage(LightLayer::Block, data.block@.range)
                    &&& data.sky@ == unlit_storage(LightLayer::Sky, data.block@.range)
                    &&& data.block@.range.min_y() == section_coord(min_y as int) - 1
                    &&& data.block@.range.max_y() == section_coord(min_y + height - 1) + 2
                },
                Err(error) => !valid_world_height(min_y, height) && error.min_y == min_y
                    && error.height == height,
            },
    {
        match LightSectionRange::from_world_height(min_y, height) {
            Ok(range) => Ok(
                ChunkLightData {
                    block: ChunkLightLayerStorage::new(
                        LightLayer::Block,
                        range,
                        range.chunk_section_count(),
                    ),
                    sky: ChunkLightLayerStorage::new(
                        LightLayer::Sky,
                        range,
                        range.chunk_section_count(),
                    ),
                },
            ),
            Err(error) => Err(error),
        }
    }

    /// Creates storage for world heights already accepted by chunk construction.
    #[must_use]
    pub fn for_valid_world_height(min_y: i32, height: i32) -> (data: Self)
        requires
            valid_world_height(min_y, height),
        ensures
            data.wf(),
            data.block@ == unlit_storage(LightLayer::Block, data.block@.range),
            data.sky@ == unlit_storage(LightLayer::Sky, data.block@.range),
            data.block@.range.min_y() == section_coord(min_y as int) - 1,
            data.block@.range.max_y() == section_coord(min_y + height - 1) + 2,
    {
        match Self::new(min_y, height) {
            Ok(data) => data,
            Err(_) => vstd::pervasive::unreached(),
        }
    }

    /// Refreshes both layer emptiness maps from current chunk section counters.
    pub fn refresh_emptiness_maps_from_sections(&mut self, sections: &Sections) -> (result: Result<
        (),
        ChunkLightEmptinessMapLengthError,
    >)
        requires
            old(self).wf(),
        ensures
            final(self).wf(),
            match result {
                Ok(()) => {
                    &&& sections.sections@.len() == old(self).block@.chunk_section_count
                    &&& sections.sections@.len() == old(self).sky@.chunk_section_count
                },
                Err(error) => {
                    &&& error.actual == sections.sections@.len()
                    &&& if error.actual != old(self).block@.chunk_section_count {
                        error.expected == old(self).block@.chunk_section_count
                    } else {
                        error.expected == old(self).sky@.chunk_section_count && error.expected
                            != error.actual
                    }
                },
            },
            final(self).block@ == (if sections.sections@.len() == old(
                self,
            ).block@.chunk_section_count {
                LayerStorageView {
                    emptiness: Some(section_emptiness(sections)),
                    ..old(self).block@
                }
            } else {
                old(self).block@
            }),
            final(self).sky@ == (if result is Ok {
                LayerStorageView { emptiness: Some(section_emptiness(sections)), ..old(self).sky@ }
            } else {
                old(self).sky@
            }),
    {
        match self.block.refresh_emptiness_map_from_sections(sections) {
            Ok(()) => {},
            Err(error) => {
                return Err(error);
            },
        }
        self.sky.refresh_emptiness_map_from_sections(sections)
    }

    /// Updates one real chunk section's known emptiness in both light layers.
    ///
    /// Returns whether a known value changed.
    pub fn set_section_empty(&mut self, section_y: i32, empty: bool) -> (changed: bool)
        requires
            old(self).wf(),
        ensures
            final(self).wf(),
            final(self).block@ == set_emptiness(old(self).block@, section_y as int, empty),
            final(self).sky@ == set_emptiness(old(self).sky@, section_y as int, empty),
            changed == (old(self).block@.known_emptiness(section_y as int) == Some(!empty) || old(
                self,
            ).sky@.known_emptiness(section_y as int) == Some(!empty)),
    {
        let block_changed: bool = match self.block.set_section_empty(section_y, empty) {
            Some(previous) => previous != empty,
            None => false,
        };
        let sky_changed: bool = match self.sky.set_section_empty(section_y, empty) {
            Some(previous) => previous != empty,
            None => false,
        };
        block_changed || sky_changed
    }

    /// Returns the visible light value for one layer at a block position.
    #[must_use]
    pub fn get_light_value(&self, layer: LightLayer, block_pos: BlockPos) -> (level: u8)
        requires
            self.wf(),
        ensures
            level == match layer {
                LightLayer::Sky => self.sky@.light_value(block_pos),
                LightLayer::Block => self.block@.light_value(block_pos),
            },
    {
        match layer {
            LightLayer::Sky => self.sky.get_light_value(block_pos),
            LightLayer::Block => self.block.get_light_value(block_pos),
        }
    }
}

/// Storage that was never lit reads as dark block light and full sky light.
pub proof fn unlit_storage_reads(range: LightSectionRange, block_pos: BlockPos)
    requires
        range.wf(),
    ensures
        unlit_storage(LightLayer::Block, range).light_value(block_pos) == 0,
        unlit_storage(LightLayer::Sky, range).light_value(block_pos) == 15,
{
    lemma_unlit_extrusion(
        range,
        section_coord(block_pos.y as int) + 1,
        local_coord(block_pos.x as int),
        local_coord(block_pos.z as int),
    );
}

proof fn lemma_unlit_extrusion(range: LightSectionRange, section_y: int, x: int, z: int)
    requires
        range.wf(),
    ensures
        extruded_level(unlit_storage(LightLayer::Sky, range), section_y, x, z) == 15,
    decreases range.max_y() - section_y,
{
    if section_y < range.max_y() {
        lemma_unlit_extrusion(range, section_y + 1, x, z);
    }
}

} // verus!
