//! Section light storage with queued data, pending removals and a visible copy.
use vstd::prelude::*;

use crate::data_layer::{filled_content, stored_content, DataLayer, LayerContent};
use crate::fx::{
    map_contains, map_get, map_insert, map_keys, map_new, map_remove, set_contains, set_insert,
    set_is_empty, set_items, set_new, set_remove, FxMap, FxSet,
};
use crate::layer_map::DataLayerStorageMap;
use crate::neighbor_counts::{
    counts_match, empty_storage_counts, lemma_counts_for_states, status_update_succeeds,
};
use crate::nibble::{repeat_bottom_row, repeat_row};
use crate::packed::{local_index, nibble_at};
use crate::position::{
    block_to_section_coord, key_round_trip, local_coord, section_of_key, section_relative_coord,
    section_round_trip, BlockPos, PackedSectionPos, SectionPos,
};
use crate::queue::{
    add_sky_source_entry, remove_sky_source_entry, remove_top_sky_source_entry,
    LightPropagationQueues, LightQueueEntry, QueuedLightUpdate, QueuesView,
};
use crate::section_range::{
    state_type, LightSectionState, LightSectionStateError, LightSectionType,
    MissingLightDataLayerError,
};
use crate::sky_sources::{ChunkSkyLightSources, POSITIVE_INFINITY, SkyLightSourceNeighborhood};
use crate::storage_model::{
    add_sources_from, at_height, block_index, bump_neighbors, column_added, column_removed,
    column_updates, columns_after_removal, columns_in_removal, columns_valid, created_content,
    east_source, enable_sources, fill_columns, fill_span, first_stored_above, highest_stored,
    in_span, initialize, is_above_stored, keys_around, lemma_column_removed,
    lemma_created_below_top, lemma_neighbors_packable, lemma_put_state_valid, lemma_stored_has_top,
    lemma_top_has_stored, lemma_top_is_above, lowest_full_section, lowest_in_section, neighbor_at,
    neighborhood_keys, north_source, propagate_sections, propagate_sources, publish,
    publish_shows_updates, put_state, queued_after_removal, reconcile, reconcile_keeps_valid,
    remove_sources_from, repeat_first_row, section_updates, set_level, source_at, sources_continue,
    south_source, status_update_keeps_valid, stored_have_tops, stores_at_or_below,
    tops_have_stored, update_column, update_status, west_source, zero_key, SkyColumns, SkyModel,
    StorageModel,
};
use crate::{CHUNK_EDGE, DATA_LAYER_SIZE, DATA_LAYER_Y_STRIDE, LightLayer, MAX_LIGHT_LEVEL};

verus! {

/// Sky-light column metadata.
#[derive(Debug)]
struct SkyDataLayerStorageMap {
    current_lowest_y: i32,
    top_sections: FxMap<u64, i32>,
}

impl View for SkyDataLayerStorageMap {
    type V = SkyColumns;

    closed spec fn view(&self) -> SkyColumns {
        SkyColumns { lowest_y: self.current_lowest_y, tops: self.top_sections@ }
    }
}

impl SkyDataLayerStorageMap {
    fn new() -> (result: Self)
        ensures
            result@ == (SkyColumns { lowest_y: i32::MAX, tops: Map::empty() }),
    {
        SkyDataLayerStorageMap { current_lowest_y: POSITIVE_INFINITY, top_sections: map_new() }
    }

    fn copy_map(&self) -> (copied: Self)
        ensures
            copied@ == self@,
    {
        let mut top_sections: FxMap<u64, i32> = map_new();
        let keys: Vec<u64> = map_keys(&self.top_sections);
        let mut i: usize = 0;
        while i < keys.len()
            invariant
                i <= keys@.len(),
                forall|key: u64| #[trigger]
                    keys@.contains(key) <==> self.top_sections@.contains_key(key),
                forall|j: int|
                    0 <= j < i ==> top_sections@.contains_key(#[trigger] keys@[j]),
                forall|key: u64| #[trigger]
                    top_sections@.contains_key(key) ==> self.top_sections@.contains_key(key)
                        && top_sections@[key] == self.top_sections@[key],
            decreases keys@.len() - i,
        {
            let key: u64 = keys[i];
            assert(keys@.contains(keys@[i as int]));
            match map_get(&self.top_sections, key) {
                Some(top_section_y) => {
                    map_insert(&mut top_sections, key, *top_section_y);
                },
                None => {},
            }
            i += 1;
        }
        proof {
            assert forall|key: u64| self.top_sections@.contains_key(key) implies #[trigger]
            top_sections@.contains_key(key) by {
                assert(keys@.contains(key));
            }
            assert(top_sections@ =~= self.top_sections@);
        }
        SkyDataLayerStorageMap { current_lowest_y: self.current_lowest_y, top_sections }
    }

    fn top_section(&self, zero_key: u64) -> (y: i32)
        ensures
            y == self@.top(zero_key),
    {
        match map_get(&self.top_sections, zero_key) {
            Some(top_section_y) => *top_section_y,
            None => self.current_lowest_y,
        }
    }

    fn set_top_section(&mut self, zero_key: u64, top_section_y: i32)
        ensures
            final(self)@ == (SkyColumns {
                tops: old(self)@.tops.insert(zero_key, top_section_y),
                ..old(self)@
            }),
    {
        map_insert(&mut self.top_sections, zero_key, top_section_y);
    }

    fn remove_top_section(&mut self, zero_key: u64)
        ensures
            final(self)@ == (SkyColumns { tops: old(self)@.tops.remove(zero_key), ..old(self)@ }),
    {
        map_remove(&mut self.top_sections, zero_key);
    }
}

/// The visible and the updating sky-light column metadata.
#[derive(Debug)]
struct SkyLightSectionData {
    visible: SkyDataLayerStorageMap,
    updating: SkyDataLayerStorageMap,
}

impl View for SkyLightSectionData {
    type V = SkyModel;

    closed spec fn view(&self) -> SkyModel {
        SkyModel { visible: self.visible@, updating: self.updating@ }
    }
}

impl SkyLightSectionData {
    fn for_layer(layer: LightLayer) -> (result: Option<Self>)
        ensures
            layer == LightLayer::Block <==> result is None,
            result matches Some(sky) ==> sky@.updating == (SkyColumns {
                lowest_y: i32::MAX,
                tops: Map::empty(),
            }) && sky@.visible == sky@.updating,
    {
        if layer != LightLayer::Sky {
            return None;
        }
        let updating: SkyDataLayerStorageMap = SkyDataLayerStorageMap::new();
        let visible: SkyDataLayerStorageMap = updating.copy_map();
        Some(SkyLightSectionData { visible, updating })
    }
}

/// Common light-section storage state shared by block and sky lighting: section
/// states, queued data, pending removals, and visible and updating data maps.
pub struct LayerLightSectionStorage {
    layer: LightLayer,
    section_states: FxMap<u64, LightSectionState>,
    columns_with_sources: FxSet<u64>,
    visible_section_data: DataLayerStorageMap,
    updating_section_data: DataLayerStorageMap,
    changed_sections: FxSet<u64>,
    sections_affected_by_light_updates: FxSet<u64>,
    queued_sections: DataLayerStorageMap,
    columns_to_retain_queued_data_for: FxSet<u64>,
    to_remove: FxSet<u64>,
    has_inconsistencies: bool,
    sky_data: Option<SkyLightSectionData>,
}

spec fn sky_model(sky_data: Option<SkyLightSectionData>) -> Option<SkyModel> {
    match sky_data {
        Some(sky) => Some(sky@),
        None => None,
    }
}

impl View for LayerLightSectionStorage {
    type V = StorageModel;

    closed spec fn view(&self) -> StorageModel {
        StorageModel {
            layer: self.layer,
            states: self.section_states@,
            sources: self.columns_with_sources@,
            visible: self.visible_section_data@,
            updating: self.updating_section_data@,
            changed: self.changed_sections@,
            affected: self.sections_affected_by_light_updates@,
            queued: self.queued_sections@,
            retained: self.columns_to_retain_queued_data_for@,
            to_remove: self.to_remove@,
            has_inconsistencies: self.has_inconsistencies,
            sky: sky_model(self.sky_data),
        }
    }
}

/// Storage that holds nothing.
pub open spec fn empty_storage(layer: LightLayer) -> StorageModel {
    StorageModel {
        layer,
        states: Map::empty(),
        sources: Set::empty(),
        visible: Map::empty(),
        updating: Map::empty(),
        changed: Set::empty(),
        affected: Set::empty(),
        queued: Map::empty(),
        retained: Set::empty(),
        to_remove: Set::empty(),
        has_inconsistencies: false,
        sky: match layer {
            LightLayer::Sky => {
                let columns = SkyColumns { lowest_y: i32::MAX, tops: Map::empty() };
                Some(SkyModel { visible: columns, updating: columns })
            },
            LightLayer::Block => None,
        },
    }
}

impl LayerLightSectionStorage {
    /// The storage's parts fit together, and every section counts the sections
    /// with block data around it.
    pub open spec fn wf(&self) -> bool {
        self@.valid() && counts_match(self@)
    }

    /// Creates empty section storage for one light layer.
    #[must_use]
    pub fn new(layer: LightLayer) -> (storage: Self)
        ensures
            storage.wf(),
            storage@ == empty_storage(layer),
    {
        proof {
            reveal(StorageModel::valid);
            reveal(stored_have_tops);
            reveal(tops_have_stored);
            empty_storage_counts(layer);
        }
        let updating_section_data: DataLayerStorageMap = DataLayerStorageMap::new();
        let visible_section_data: DataLayerStorageMap = updating_section_data.copy_map();
        LayerLightSectionStorage {
            layer,
            section_states: map_new(),
            columns_with_sources: set_new(),
            visible_section_data,
            updating_section_data,
            changed_sections: set_new(),
            sections_affected_by_light_updates: set_new(),
            queued_sections: DataLayerStorageMap::new(),
            columns_to_retain_queued_data_for: set_new(),
            to_remove: set_new(),
            has_inconsistencies: false,
            sky_data: SkyLightSectionData::for_layer(layer),
        }
    }

    /// Returns the layer kind stored here.
    #[must_use]
    pub fn layer(&self) -> (layer: LightLayer)
        ensures
            layer == self@.layer,
    {
        self.layer
    }

    /// Returns whether queued data, new sections or removals were noted since the
    /// last reconciliation.
    #[must_use]
    pub fn has_inconsistencies(&self) -> (result: bool)
        ensures
            result == self@.has_inconsistencies,
    {
        self.has_inconsistencies
    }

    /// Returns the number of sections that the updating map stores light for.
    #[must_use]
    pub fn updating_section_count(&self) -> (count: usize)
        ensures
            count == self@.updating.len(),
    {
        self.updating_section_data.len()
    }

    /// Returns whether stored light has changed since it was last made visible.
    #[must_use]
    pub fn has_changed_sections(&self) -> (result: bool)
        ensures
            result == (self@.changed != Set::<u64>::empty()),
    {
        !set_is_empty(&self.changed_sections)
    }

    /// Returns whether updates may have affected any section since light was
    /// last made visible.
    #[must_use]
    pub fn has_affected_sections(&self) -> (result: bool)
        ensures
            result == (self@.affected != Set::<u64>::empty()),
    {
        !set_is_empty(&self.sections_affected_by_light_updates)
    }

    /// Returns whether the updating map stores light for this section.
    #[must_use]
    pub fn storing_light_for_section(&self, section_pos: SectionPos) -> (result: bool)
        ensures
            result == self@.updating.contains_key(section_pos.key()),
    {
        self.updating_section_data.has_layer(section_pos)
    }

    /// Returns visible light data or queued replacement data for packet/saving reads.
    #[must_use]
    pub fn get_data_layer_data(&self, section_pos: SectionPos) -> (result: Option<&DataLayer>)
        ensures
            match result {
                Some(layer) => if self@.queued.contains_key(section_pos.key()) {
                    layer@ == self@.queued[section_pos.key()]
                } else {
                    self@.visible.contains_key(section_pos.key()) && layer@
                        == self@.visible[section_pos.key()]
                },
                None => !self@.queued.contains_key(section_pos.key())
                    && !self@.visible.contains_key(section_pos.key()),
            },
    {
        if let Some(layer) = self.queued_sections.get_layer(section_pos) {
            return Some(layer);
        }
        self.visible_section_data.get_layer(section_pos)
    }

    /// Returns the queued light of this section.
    #[must_use]
    pub fn get_queued_data_layer(&self, section_pos: SectionPos) -> (result: Option<&DataLayer>)
        ensures
            match result {
                Some(layer) => self@.queued.contains_key(section_pos.key()) && layer@
                    == self@.queued[section_pos.key()],
                None => !self@.queued.contains_key(section_pos.key()),
            },
    {
        self.queued_sections.get_layer(section_pos)
    }

    /// Returns the updating data layer for this section.
    #[must_use]
    pub fn get_updating_data_layer(&self, section_pos: SectionPos) -> (result: Option<&DataLayer>)
        ensures
            match result {
                Some(layer) => self@.updating.contains_key(section_pos.key()) && layer@
                    == self@.updating[section_pos.key()],
                None => !self@.updating.contains_key(section_pos.key()),
            },
    {
        self.updating_section_data.get_layer(section_pos)
    }

    /// Returns the visible light value for a block.
    #[must_use]
    pub fn get_light_value(&self, block_pos: BlockPos) -> (level: u8)
        ensures
            level == self@.light_value(block_pos),
    {
        match self.layer {
            LightLayer::Block => self.get_block_light_value(block_pos),
            LightLayer::Sky => self.get_sky_light_value(block_pos),
        }
    }

    /// Returns the updating light value stored for a block, and `None` for
    /// sections without light data.
    #[must_use]
    pub fn get_stored_level(&self, block_pos: BlockPos) -> (result: Option<u8>)
        ensures
            result == self@.stored_level(block_pos),
    {
        match self.updating_section_data.get_layer(SectionPos::from_block_pos(block_pos)) {
            Some(layer) => Some(Self::get_data_layer_block_value(layer, block_pos)),
            None => None,
        }
    }

    /// Writes an updating light value for a block, or returns an error when its
    /// section has no light data.
    pub fn set_stored_level(&mut self, block_pos: BlockPos, level: u8) -> (result: Result<
        (),
        MissingLightDataLayerError,
    >)
        requires
            old(self).wf(),
            block_pos.has_neighbors(),
        ensures
            final(self).wf(),
            match result {
                Ok(()) => old(self)@.stored_level(block_pos) is Some && final(self)@ == set_level(
                    old(self)@,
                    block_pos,
                    level,
                ),
                Err(error) => old(self)@.stored_level(block_pos) is None && error.section_pos
                    == SectionPos::of_block(block_pos) && final(self)@ == old(self)@,
            },
    {
        proof {
            lemma_counts_for_states(self@);
            reveal(StorageModel::valid);
        }
        let section_pos: SectionPos = SectionPos::from_block_pos(block_pos);
        match self.get_data_layer_to_write(section_pos) {
            None => {
                return Err(MissingLightDataLayerError { section_pos });
            },
            Some(layer) => {
                Self::set_data_layer_block_value(layer, block_pos, level);
            },
        }
        self.mark_sections_around_block_as_affected(block_pos);
        proof {
            assert(self@.updating.dom() =~= old(self)@.updating.dom());
            assert(self@ =~= set_level(old(self)@, block_pos, level));
        }
        Ok(())
    }

    /// Returns a mutable copy-on-write updating layer for this section.
    pub fn get_data_layer_to_write(&mut self, section_pos: SectionPos) -> (result: Option<
        &mut DataLayer,
    >)
        requires
            old(self).wf(),
        ensures
            match result {
                Some(layer) => {
                    &&& old(self)@.updating.contains_key(section_pos.key())
                    &&& layer@ == old(self)@.updating[section_pos.key()]
                    &&& final(self)@ == (StorageModel {
                        updating: old(self)@.updating.insert(section_pos.key(), final(layer)@),
                        changed: old(self)@.changed.insert(section_pos.key()),
                        ..old(self)@
                    })
                    &&& final(self).wf()
                },
                None => !old(self)@.updating.contains_key(section_pos.key()) && *final(self)
                    == *old(self),
            },
    {
        proof {
            lemma_counts_for_states(self@);
        }
        if !self.updating_section_data.has_layer(section_pos) {
            return None;
        }
        let key: u64 = Self::key(section_pos);
        proof {
            reveal(StorageModel::valid);
            assert forall|content: LayerContent| #[trigger]
                self@.updating.insert(key, content).dom() == self@.updating.dom() by {
                assert(self@.updating.insert(key, content).dom() =~= self@.updating.dom());
            }
        }
        if set_insert(&mut self.changed_sections, key) {
            return self.updating_section_data.copy_data_layer(section_pos);
        }
        self.updating_section_data.get_layer_mut(section_pos)
    }

    /// Queues externally loaded section data.
    pub fn queue_section_data(&mut self, section_pos: SectionPos, data: Option<DataLayer>)
        requires
            old(self).wf(),
        ensures
            final(self).wf(),
            final(self)@ == (match data {
                Some(layer) => StorageModel {
                    queued: old(self)@.queued.insert(section_pos.key(), layer@),
                    has_inconsistencies: true,
                    ..old(self)@
                },
                None => StorageModel {
                    queued: old(self)@.queued.remove(section_pos.key()),
                    ..old(self)@
                },
            }),
    {
        proof {
            lemma_counts_for_states(self@);
            reveal(StorageModel::valid);
        }
        if let Some(data) = data {
            self.queued_sections.set_layer(section_pos, data);
            self.has_inconsistencies = true;
        } else {
            self.queued_sections.remove_layer(section_pos);
        }
    }

    /// Keeps queued data for a chunk column when currently stored data is removed.
    pub fn retain_data(&mut self, section_zero_pos: SectionPos, retain: bool)
        requires
            old(self).wf(),
        ensures
            final(self).wf(),
            final(self)@ == (StorageModel {
                retained: if retain {
                    old(self)@.retained.insert(zero_key(section_zero_pos))
                } else {
                    old(self)@.retained.remove(zero_key(section_zero_pos))
                },
                ..old(self)@
            }),
    {
        proof {
            lemma_counts_for_states(self@);
            reveal(StorageModel::valid);
        }
        let zero: u64 = Self::zero_key(section_zero_pos);
        if retain {
            set_insert(&mut self.columns_to_retain_queued_data_for, zero);
        } else {
            set_remove(&mut self.columns_to_retain_queued_data_for, zero);
        }
    }

    /// Enables or disables light sources for a chunk column.
    pub fn set_light_enabled(&mut self, section_zero_pos: SectionPos, enable: bool)
        requires
            old(self).wf(),
        ensures
            final(self).wf(),
            final(self)@ == (StorageModel {
                sources: if enable {
                    old(self)@.sources.insert(zero_key(section_zero_pos))
                } else {
                    old(self)@.sources.remove(zero_key(section_zero_pos))
                },
                ..old(self)@
            }),
    {
        proof {
            lemma_counts_for_states(self@);
            reveal(StorageModel::valid);
        }
        let zero: u64 = Self::zero_key(section_zero_pos);
        if enable {
            set_insert(&mut self.columns_with_sources, zero);
        } else {
            set_remove(&mut self.columns_with_sources, zero);
        }
    }

    /// Returns true when this section's column has light sources enabled.
    #[must_use]
    pub fn light_on_in_section(&self, section_pos: SectionPos) -> (result: bool)
        ensures
            result == self@.sources.contains(zero_key(section_pos)),
    {
        set_contains(&self.columns_with_sources, Self::zero_key(section_pos))
    }

    /// Returns true when this zero-section column has light sources enabled.
    #[must_use]
    pub fn light_on_in_column(&self, section_zero_pos: SectionPos) -> (result: bool)
        ensures
            result == self@.sources.contains(zero_key(section_zero_pos)),
    {
        set_contains(&self.columns_with_sources, Self::zero_key(section_zero_pos))
    }

    /// Returns this section's debug type.
    #[must_use]
    pub fn get_debug_section_type(&self, section_pos: SectionPos) -> (result: LightSectionType)
        ensures
            result == state_type(self@.state_of(section_pos).0),
    {
        self.section_state(section_pos).section_type()
    }

    /// Returns whether sky storage has light data at or below `section_y`.
    ///
    /// This is a sky-light-only query. Block-light storage returns `None`.
    #[must_use]
    pub fn has_light_data_at_or_below(&self, section_y: i32) -> (result: Option<bool>)
        ensures
            result == match self@.sky {
                Some(_) => Some(stores_at_or_below(self@.updating.dom(), section_y as int)),
                None => None,
            },
    {
        match &self.sky_data {
            Some(_) => Some(self.updating_section_data.has_layer_at_or_below(section_y)),
            None => None,
        }
    }

    /// Returns whether a sky section is above all stored sky data in its column.
    ///
    /// This is a sky-light-only query. Block-light storage returns `None`.
    #[must_use]
    pub fn is_above_data(&self, section_pos: SectionPos) -> (result: Option<bool>)
        requires
            self.wf(),
        ensures
            result == match self@.sky {
                Some(_) => Some(is_above_stored(self@.updating.dom(), section_pos)),
                None => None,
            },
            result == match self@.sky {
                Some(sky) => Some(
                    sky.updating.top(zero_key(section_pos)) == sky.updating.lowest_y
                        || section_pos.y >= sky.updating.top(zero_key(section_pos)),
                ),
                None => None,
            },
    {
        match &self.sky_data {
            Some(sky_data) => {
                let top_section: i32 = sky_data.updating.top_section(Self::zero_key(section_pos));
                proof {
                    reveal(StorageModel::valid);
                    lemma_top_is_above(self@.updating.dom(), sky_data.updating@, section_pos);
                }
                Some(
                    top_section == sky_data.updating.current_lowest_y || section_pos.y
                        >= top_section,
                )
            },
            None => None,
        }
    }

    /// Returns the sky top-section Y for a zero-section column.
    ///
    /// This is a sky-light-only query. Block-light storage returns `None`.
    #[must_use]
    pub fn get_top_section_y(&self, section_zero_pos: SectionPos) -> (result: Option<i32>)
        ensures
            result == match self@.sky {
                Some(sky) => Some(sky.updating.top(zero_key(section_zero_pos))),
                None => None,
            },
    {
        match &self.sky_data {
            Some(sky_data) => Some(
                sky_data.updating.top_section(Self::zero_key(section_zero_pos)),
            ),
            None => None,
        }
    }

    /// Returns the lowest section Y ever observed by sky storage.
    ///
    /// This is a sky-light-only query. Block-light storage returns `None`.
    #[must_use]
    pub fn get_bottom_section_y(&self) -> (result: Option<i32>)
        ensures
            result == match self@.sky {
                Some(sky) => Some(sky.updating.lowest_y),
                None => None,
            },
    {
        match &self.sky_data {
            Some(sky_data) => Some(sky_data.updating.current_lowest_y),
            None => None,
        }
    }

    fn section_state(&self, section_pos: SectionPos) -> (state: LightSectionState)
        ensures
            state == self@.state_of(section_pos),
    {
        match map_get(&self.section_states, Self::key(section_pos)) {
            Some(state) => *state,
            None => LightSectionState::empty(),
        }
    }

    fn mark_sections_around_block_as_affected(&mut self, block_pos: BlockPos)
        requires
            block_pos.has_neighbors(),
        ensures
            final(self)@ == (StorageModel {
                affected: old(self)@.affected.union(keys_around(block_pos)),
                ..old(self)@
            }),
    {
        let sections: Vec<SectionPos> = SectionPos::around_and_at_block_pos(block_pos);
        let ghost before = self.sections_affected_by_light_updates@;
        let mut i: usize = 0;
        while i < sections.len()
            invariant
                i <= sections@.len(),
                forall|pos: SectionPos| #[trigger]
                    sections@.contains(pos) <==> pos.is_around(block_pos),
                self@ == (StorageModel { affected: self@.affected, ..old(self)@ }),
                before == old(self)@.affected,
                forall|key: u64| #[trigger]
                    self@.affected.contains(key) <==> before.contains(key) || exists|j: int|
                        0 <= j < i && #[trigger] sections@[j].key() == key,
            decreases sections@.len() - i,
        {
            let key: u64 = Self::key(sections[i]);
            let ghost previous = self@.affected;
            set_insert(&mut self.sections_affected_by_light_updates, key);
            proof {
                assert forall|k: u64| #[trigger]
                    self@.affected.contains(k) <==> before.contains(k) || exists|j: int|
                        0 <= j < i + 1 && #[trigger] sections@[j].key() == k by {
                    assert(self@.affected.contains(k) <==> previous.contains(k) || k == key);
                    if previous.contains(k) && !before.contains(k) {
                        let j = choose|j: int| 0 <= j < i && #[trigger] sections@[j].key() == k;
                        assert(sections@[j].key() == k);
                    }
                    if k == key {
                        assert(sections@[i as int].key() == k);
                    }
                }
            }
            i += 1;
        }
        proof {
            assert forall|key: u64|
                self@.affected.contains(key) == before.union(keys_around(block_pos)).contains(
                    key,
                ) by {
                if exists|j: int| 0 <= j < i && #[trigger] sections@[j].key() == key {
                    let j = choose|j: int| 0 <= j < i && #[trigger] sections@[j].key() == key;
                    assert(sections@.contains(sections@[j]));
                    assert(sections@[j].is_around(block_pos));
                }
                if keys_around(block_pos).contains(key) {
                    let pos = choose|pos: SectionPos|
                        pos.is_around(block_pos) && #[trigger] pos.key() == key;
                    assert(sections@.contains(pos));
                    let j = choose|j: int| 0 <= j < sections@.len() && sections@[j] == pos;
                    assert(sections@[j].key() == key);
                }
            }
            assert(self@.affected =~= before.union(keys_around(block_pos)));
        }
    }

    fn get_block_light_value(&self, block_pos: BlockPos) -> (level: u8)
        requires
            self@.layer == LightLayer::Block,
        ensures
            level == self@.light_value(block_pos),
    {
        match self.visible_section_data.get_layer(SectionPos::from_block_pos(block_pos)) {
            Some(layer) => Self::get_data_layer_block_value(layer, block_pos),
            None => 0,
        }
    }

    fn get_sky_light_value(&self, block_pos: BlockPos) -> (level: u8)
        requires
            self@.layer == LightLayer::Sky,
        ensures
            level == self@.light_value(block_pos),
    {
        let sky_data: &SkyLightSectionData = match &self.sky_data {
            Some(sky_data) => sky_data,
            None => {
                return MAX_LIGHT_LEVEL;
            },
        };
        let section_pos: SectionPos = SectionPos::from_block_pos(block_pos);
        let top_section: i32 = sky_data.visible.top_section(Self::zero_key(section_pos));
        if top_section == sky_data.visible.current_lowest_y || section_pos.y >= top_section {
            return MAX_LIGHT_LEVEL;
        }
        if let Some(layer) = self.visible_section_data.get_layer(section_pos) {
            return Self::get_data_layer_block_value(layer, block_pos);
        }
        let mut y: i32 = section_pos.y + 1;
        let ghost goal = first_stored_above(
            self@.visible,
            section_pos,
            section_pos.y + 1,
            top_section as int,
        );
        while y < top_section
            invariant
                section_pos == SectionPos::of_block(block_pos),
                goal == first_stored_above(self@.visible, section_pos, y as int, top_section as int),
                y <= top_section,
                self@.light_value(block_pos) == if goal >= top_section {
                    15
                } else {
                    self@.visible[at_height(section_pos, goal)].levels[local_index(
                        local_coord(block_pos.x as int),
                        0,
                        local_coord(block_pos.z as int),
                    )]
                },
            decreases top_section - y,
        {
            let above: SectionPos = SectionPos::new(section_pos.x, y, section_pos.z);
            if let Some(layer) = self.visible_section_data.get_layer(above) {
                return layer.get(
                    section_relative_coord(block_pos.x),
                    0,
                    section_relative_coord(block_pos.z),
                );
            }
            y += 1;
        }
        MAX_LIGHT_LEVEL
    }

    fn get_data_layer_block_value(layer: &DataLayer, block_pos: BlockPos) -> (level: u8)
        ensures
            level == layer@.levels[block_index(block_pos)],
    {
        layer.get(
            section_relative_coord(block_pos.x),
            section_relative_coord(block_pos.y),
            section_relative_coord(block_pos.z),
        )
    }

    fn set_data_layer_block_value(layer: &mut DataLayer, block_pos: BlockPos, level: u8)
        ensures
            final(layer)@ == stored_content(
                old(layer)@.levels.update(block_index(block_pos), (level % 16) as u8),
            ),
    {
        layer.set(
            section_relative_coord(block_pos.x),
            section_relative_coord(block_pos.y),
            section_relative_coord(block_pos.z),
            level,
        );
    }

    fn key(section_pos: SectionPos) -> (key: u64)
        ensures
            key == section_pos.key(),
    {
        PackedSectionPos::from_section_pos(section_pos).0
    }

    fn zero_key(section_pos: SectionPos) -> (key: u64)
        ensures
            key == zero_key(section_pos),
    {
        Self::key(SectionPos::new(section_pos.x, 0, section_pos.z))
    }
}

impl LayerLightSectionStorage {
    /// Updates whether a chunk section contains block data.
    ///
    /// This succeeds: the sections around it count what block data there is.
    pub fn update_section_status(&mut self, section_pos: SectionPos, section_empty: bool) -> (result:
        Result<(), LightSectionStateError>)
        requires
            old(self).wf(),
            section_pos.neighborhood_packable(),
        ensures
            final(self).wf(),
            final(self)@ == update_status(old(self)@, section_pos, section_empty).0,
            result is Ok,
    {
        let state: LightSectionState = self.section_state(section_pos);
        let new_state: LightSectionState = state.with_has_data(!section_empty);
        proof {
            status_update_succeeds(self@, section_pos, section_empty);
        }
        if state == new_state {
            return Ok(());
        }
        proof {
            status_update_keeps_valid(self@, section_pos, section_empty);
            lemma_put_state_valid(self@, section_pos, new_state);
        }
        self.put_section_state(section_pos, new_state);
        let ghost start = self@;
        let neighbor_increment: i32 = if section_empty {
            -1
        } else {
            1
        };
        let mut i: i32 = 0;
        while i < 27
            invariant
                0 <= i <= 27,
                self@.valid(),
                start.valid(),
                update_status(old(self)@, section_pos, section_empty).1 is None,
                counts_match(update_status(old(self)@, section_pos, section_empty).0),
                section_pos.neighborhood_packable(),
                -1 <= neighbor_increment <= 1,
                bump_neighbors(start, section_pos, neighbor_increment as int, i as int) == (
                    self@,
                    None::<int>,
                ),
                update_status(old(self)@, section_pos, section_empty) == bump_neighbors(
                    start,
                    section_pos,
                    neighbor_increment as int,
                    27,
                ),
            decreases 27 - i,
        {
            if i != 13 {
                let neighbor_pos: SectionPos = SectionPos::new(
                    section_pos.x + ((i / 3) % 3 - 1),
                    section_pos.y + (i % 3 - 1),
                    section_pos.z + (i / 9 - 1),
                );
                proof {
                    lemma_neighbors_packable(section_pos, i as int);
                }
                let neighbor_state: LightSectionState = self.section_state(neighbor_pos);
                let neighbor_count: i32 = neighbor_state.neighbor_count() as i32
                    + neighbor_increment;
                match neighbor_state.with_neighbor_count(neighbor_count) {
                    Ok(counted) => {
                        proof {
                            lemma_put_state_valid(self@, neighbor_pos, counted);
                        }
                        self.put_section_state(neighbor_pos, counted);
                    },
                    Err(error) => {
                        proof {
                            lemma_bump_failed(
                                start,
                                section_pos,
                                neighbor_increment as int,
                                i as int + 1,
                                27,
                            );
                        }
                        return Err(error);
                    },
                }
            }
            i += 1;
        }
        Ok(())
    }

    fn put_section_state(&mut self, section_pos: SectionPos, state: LightSectionState)
        requires
            old(self)@.valid(),
            section_pos.packable(),
            -0x7FFFF <= section_pos.y < 0x7FFFF,
        ensures
            final(self)@.valid(),
            final(self)@ == put_state(old(self)@, section_pos, state),
    {
        proof {
            lemma_put_state_valid(self@, section_pos, state);
            reveal(put_state);
        }
        let key: u64 = Self::key(section_pos);
        if state != LightSectionState::empty() {
            if !map_contains(&self.section_states, key) {
                self.initialize_section(section_pos);
            }
            map_insert(&mut self.section_states, key, state);
        } else if map_remove(&mut self.section_states, key).is_some() {
            self.remove_section(section_pos);
        } else {
            assert(self@.states =~= old(self)@.states);
        }
        assert(self@ =~= put_state(old(self)@, section_pos, state));
    }

    fn initialize_section(&mut self, section_pos: SectionPos)
        requires
            old(self)@.valid(),
            section_pos.packable(),
            -0x7FFFF <= section_pos.y < 0x7FFFF,
            !old(self)@.states.contains_key(section_pos.key()),
        ensures
            final(self)@ == initialize(old(self)@, section_pos),
    {
        proof {
            reveal(StorageModel::valid);
        }
        let key: u64 = Self::key(section_pos);
        if set_remove(&mut self.to_remove, key) {
            return ;
        }
        assert(self@.to_remove =~= old(self)@.to_remove);
        assert(self@ =~= old(self)@);
        let data_layer: DataLayer = self.create_data_layer(section_pos);
        self.updating_section_data.set_layer(section_pos, data_layer);
        set_insert(&mut self.changed_sections, key);
        self.on_node_added(section_pos);
        self.mark_section_and_neighbors_as_affected(section_pos);
        self.has_inconsistencies = true;
        assert(self@ =~= initialize(old(self)@, section_pos));
    }

    fn remove_section(&mut self, section_pos: SectionPos)
        ensures
            final(self)@ == (StorageModel {
                to_remove: old(self)@.to_remove.insert(section_pos.key()),
                has_inconsistencies: true,
                ..old(self)@
            }),
    {
        set_insert(&mut self.to_remove, Self::key(section_pos));
        self.has_inconsistencies = true;
    }

    fn mark_section_and_neighbors_as_affected(&mut self, section_pos: SectionPos)
        requires
            section_pos.packable(),
        ensures
            final(self)@ == (StorageModel {
                affected: old(self)@.affected.union(neighborhood_keys(section_pos)),
                ..old(self)@
            }),
    {
        let ghost before = self.sections_affected_by_light_updates@;
        let mut i: i32 = 0;
        while i < 27
            invariant
                0 <= i <= 27,
                section_pos.packable(),
                self@ == (StorageModel { affected: self@.affected, ..old(self)@ }),
                before == old(self)@.affected,
                forall|key: u64| #[trigger]
                    self@.affected.contains(key) <==> before.contains(key) || exists|j: int|
                        0 <= j < i && #[trigger] neighbor_at(section_pos, j).key() == key,
            decreases 27 - i,
        {
            let neighbor_pos: SectionPos = SectionPos::new(
                section_pos.x + ((i / 3) % 3 - 1),
                section_pos.y + (i % 3 - 1),
                section_pos.z + (i / 9 - 1),
            );
            let key: u64 = Self::key(neighbor_pos);
            let ghost previous = self@.affected;
            set_insert(&mut self.sections_affected_by_light_updates, key);
            proof {
                assert(neighbor_pos == neighbor_at(section_pos, i as int));
                assert forall|k: u64| #[trigger]
                    self@.affected.contains(k) <==> before.contains(k) || exists|j: int|
                        0 <= j < i + 1 && #[trigger] neighbor_at(section_pos, j).key() == k by {
                    assert(self@.affected.contains(k) <==> previous.contains(k) || k == key);
                    if previous.contains(k) && !before.contains(k) {
                        let j = choose|j: int|
                            0 <= j < i && #[trigger] neighbor_at(section_pos, j).key() == k;
                        assert(neighbor_at(section_pos, j).key() == k);
                    }
                    if k == key {
                        assert(neighbor_at(section_pos, i as int).key() == k);
                    }
                }
            }
            i += 1;
        }
        assert(self@.affected =~= before.union(neighborhood_keys(section_pos)));
    }

    fn create_data_layer(&mut self, section_pos: SectionPos) -> (layer: DataLayer)
        requires
            old(self)@.valid(),
            section_pos.packable(),
            -0x7FFFF <= section_pos.y < 0x7FFFF,
            !old(self)@.updating.contains_key(section_pos.key()),
        ensures
            layer@ == created_content(old(self)@, section_pos),
            final(self)@ == (StorageModel {
                queued: old(self)@.queued.remove(section_pos.key()),
                ..old(self)@
            }),
    {
        if let Some(layer) = self.queued_sections.remove_layer(section_pos) {
            return layer;
        }
        assert(self@.queued =~= old(self)@.queued);
        self.new_data_layer(section_pos)
    }

    fn new_data_layer(&self, section_pos: SectionPos) -> (layer: DataLayer)
        requires
            self@.valid(),
            section_pos.packable(),
            !self@.updating.contains_key(section_pos.key()),
            !self@.queued.contains_key(section_pos.key()),
        ensures
            layer@ == created_content(self@, section_pos),
    {
        let sky_data: &SkyLightSectionData = match &self.sky_data {
            Some(sky_data) => sky_data,
            None => {
                return DataLayer::new();
            },
        };
        let top_section: i32 = sky_data.updating.top_section(Self::zero_key(section_pos));
        if top_section != sky_data.updating.current_lowest_y && section_pos.y < top_section {
            proof {
                lemma_created_below_top(self@, section_pos);
            }
            let above_data: &DataLayer = self.first_data_layer_above(section_pos, top_section);
            return Self::repeat_first_layer(above_data);
        }
        if self.light_on_in_section(section_pos) {
            DataLayer::filled(MAX_LIGHT_LEVEL)
        } else {
            DataLayer::new()
        }
    }

    fn first_data_layer_above(&self, section_pos: SectionPos, top_section: i32) -> (layer:
        &DataLayer)
        requires
            section_pos.y < first_stored_above(
                self@.updating,
                section_pos,
                section_pos.y + 1,
                top_section as int,
            ) < top_section,
        ensures
            layer@ == self@.updating[at_height(
                section_pos,
                first_stored_above(
                    self@.updating,
                    section_pos,
                    section_pos.y + 1,
                    top_section as int,
                ),
            )],
    {
        let ghost goal = first_stored_above(
            self@.updating,
            section_pos,
            section_pos.y + 1,
            top_section as int,
        );
        let mut y: i32 = section_pos.y + 1;
        loop
            invariant
                goal == first_stored_above(
                    self@.updating,
                    section_pos,
                    section_pos.y + 1,
                    top_section as int,
                ),
                goal == first_stored_above(
                    self@.updating,
                    section_pos,
                    y as int,
                    top_section as int,
                ),
                goal < top_section,
            decreases top_section - y,
        {
            let above_section: SectionPos = SectionPos::new(section_pos.x, y, section_pos.z);
            if let Some(layer) = self.get_updating_data_layer(above_section) {
                return layer;
            }
            y += 1;
        }
    }

    fn repeat_first_layer(data: &DataLayer) -> (layer: DataLayer)
        ensures
            layer@ == repeat_first_row(data@),
    {
        if data.is_homogeneous() {
            return data.copy();
        }
        let input: Box<[u8; DATA_LAYER_SIZE]> = data.to_bytes();
        let mut row: [u8; DATA_LAYER_Y_STRIDE] = [0u8; DATA_LAYER_Y_STRIDE];
        let mut i: usize = 0;
        while i < DATA_LAYER_Y_STRIDE
            invariant
                i <= 128,
                forall|j: int| 0 <= j < i ==> row@[j] == input@[j],
            decreases 128 - i,
        {
            row[i] = input[i];
            i += 1;
        }
        proof {
            let bottom = Seq::new(256, |j: int| nibble_at(row@, j));
            assert forall|j: int| 0 <= j < 256 implies #[trigger] bottom[j] == data@.levels[j] by {
                assert(crate::packed::unpack(input@)[j] == nibble_at(input@, j));
            }
            assert(repeat_bottom_row(bottom) =~= repeat_bottom_row(data@.levels));
        }
        DataLayer::from_packed_data(repeat_row(&row))
    }

    fn on_node_added(&mut self, section_pos: SectionPos)
        requires
            section_pos.y < i32::MAX,
        ensures
            final(self)@ == (StorageModel {
                sky: match old(self)@.sky {
                    Some(sky) => Some(
                        SkyModel { updating: column_added(sky.updating, section_pos), ..sky },
                    ),
                    None => None,
                },
                ..old(self)@
            }),
    {
        let zero: u64 = Self::zero_key(section_pos);
        match &mut self.sky_data {
            Some(sky_data) => {
                let section_y: i32 = section_pos.y;
                if sky_data.updating.current_lowest_y > section_y {
                    sky_data.updating.current_lowest_y = section_y;
                }
                if sky_data.updating.top_section(zero) < section_y + 1 {
                    sky_data.updating.set_top_section(zero, section_y + 1);
                }
            },
            None => {},
        }
    }
}

proof fn lemma_bump_failed(m: StorageModel, pos: SectionPos, increment: int, n: int, k: int)
    requires
        0 <= n <= k,
        bump_neighbors(m, pos, increment, n).1 is Some,
    ensures
        bump_neighbors(m, pos, increment, k) == bump_neighbors(m, pos, increment, n),
    decreases k,
{
    if n < k {
        lemma_bump_failed(m, pos, increment, n, k - 1);
    }
}

/// The keys among the first `n` of a sequence.
spec fn among(keys: Seq<u64>, n: int) -> spec_fn(u64) -> bool {
    |key: u64| keys.take(n).contains(key)
}

proof fn lemma_among_next(keys: Seq<u64>, n: int)
    requires
        0 <= n < keys.len(),
        keys.no_duplicates(),
    ensures
        forall|key: u64| #[trigger]
            among(keys, n + 1)(key) <==> among(keys, n)(key) || key == keys[n],
        !among(keys, n)(keys[n]),
        keys.contains(keys[n]),
{
    assert(keys.take(n + 1) =~= keys.take(n).push(keys[n]));
    assert forall|key: u64| #[trigger] among(keys, n + 1)(key) <==> among(keys, n)(key) || key
        == keys[n] by {
        if among(keys, n)(key) {
            let j = choose|j: int| 0 <= j < n && keys.take(n)[j] == key;
            assert(keys.take(n + 1)[j] == key);
        }
        if key == keys[n] {
            assert(keys.take(n + 1)[n] == key);
        }
    }
    if among(keys, n)(keys[n]) {
        let j = choose|j: int| 0 <= j < n && keys.take(n)[j] == keys[n];
        assert(keys[j] == keys[n]);
    }
}

proof fn lemma_among_all(keys: Seq<u64>)
    ensures
        forall|key: u64| #[trigger] among(keys, keys.len() as int)(key) <==> keys.contains(key),
        forall|key: u64| !#[trigger] among(keys, 0)(key),
{
    assert(keys.take(keys.len() as int) =~= keys);
}

/// Stored light after the removal of some sections.
spec fn stored_without(m: StorageModel, done: spec_fn(u64) -> bool, updating: Map<u64, LayerContent>) -> bool {
    forall|key: u64|
        #![trigger updating.contains_key(key)]
        #![trigger updating[key]]
        {
            &&& updating.contains_key(key) <==> m.updating.contains_key(key) && !done(key)
            &&& updating.contains_key(key) ==> updating[key] == m.updating[key]
        }
}

/// Queued light after the removal of some sections.
spec fn queued_without(m: StorageModel, done: spec_fn(u64) -> bool, queued: Map<u64, LayerContent>) -> bool {
    forall|key: u64|
        #![trigger queued.contains_key(key)]
        #![trigger queued[key]]
        if done(key) {
            &&& queued.contains_key(key) <==> m.retained.contains(zero_key(section_of_key(key)))
                && (m.queued.contains_key(key) || m.updating.contains_key(key))
            &&& queued.contains_key(key) ==> queued[key] == if m.queued.contains_key(key) {
                m.queued[key]
            } else {
                m.updating[key]
            }
        } else {
            &&& queued.contains_key(key) <==> m.queued.contains_key(key)
            &&& queued.contains_key(key) ==> queued[key] == m.queued[key]
        }
}

impl LayerLightSectionStorage {
    /// Reconciles queued section data and pending removals.
    pub fn mark_new_inconsistencies(&mut self)
        requires
            old(self).wf(),
        ensures
            final(self).wf(),
            final(self)@ == reconcile(old(self)@),
    {
        proof {
            lemma_counts_for_states(self@);
        }
        if !self.has_inconsistencies {
            return ;
        }
        proof {
            reconcile_keeps_valid(self@);
        }
        let ghost m = self@;
        let ghost kept = m.updating.remove_keys(m.to_remove);
        let ghost queued = queued_after_removal(m);
        self.has_inconsistencies = false;
        let mut to_remove: FxSet<u64> = set_new();
        std::mem::swap(&mut self.to_remove, &mut to_remove);
        let keys: Vec<u64> = set_items(&to_remove);
        self.remove_marked_layers(&keys, Ghost(m));
        proof {
            lemma_among_all(keys@);
            assert(self@.updating =~= kept);
            assert(self@.queued =~= queued);
            assert(self@.updating.dom() =~= m.updating.dom().difference(m.to_remove));
        }
        self.remove_marked_columns(&keys, Ghost(m));
        proof {
            assert(self@.changed =~= m.changed.union(m.to_remove));
        }
        self.apply_queued_layers();
        proof {
            assert(self@.updating =~= reconcile(m).updating);
            assert(self@.queued =~= reconcile(m).queued);
            assert(self@.changed =~= reconcile(m).changed);
            assert(self@ =~= reconcile(m));
        }
    }

    fn remove_marked_layers(&mut self, keys: &Vec<u64>, Ghost(m): Ghost<StorageModel>)
        requires
            keys@.no_duplicates(),
            old(self)@.updating == m.updating,
            old(self)@.queued == m.queued,
            old(self)@.retained == m.retained,
        ensures
            final(self)@ == (StorageModel {
                updating: final(self)@.updating,
                queued: final(self)@.queued,
                ..old(self)@
            }),
            stored_without(m, among(keys@, keys@.len() as int), final(self)@.updating),
            queued_without(m, among(keys@, keys@.len() as int), final(self)@.queued),
    {
        proof {
            lemma_among_all(keys@);
        }
        let mut i: usize = 0;
        while i < keys.len()
            invariant
                i <= keys@.len(),
                keys@.no_duplicates(),
                old(self)@.retained == m.retained,
                self@ == (StorageModel {
                    updating: self@.updating,
                    queued: self@.queued,
                    ..old(self)@
                }),
                stored_without(m, among(keys@, i as int), self@.updating),
                queued_without(m, among(keys@, i as int), self@.queued),
            decreases keys@.len() - i,
        {
            let key: u64 = keys[i];
            let section_pos: SectionPos = PackedSectionPos(key).to_section_pos();
            proof {
                section_round_trip(key);
                lemma_among_next(keys@, i as int);
            }
            let ghost before = *self;
            let queued: Option<DataLayer> = self.queued_sections.remove_layer(section_pos);
            let stored: Option<DataLayer> = self.updating_section_data.remove_layer(section_pos);
            if set_contains(&self.columns_to_retain_queued_data_for, Self::zero_key(section_pos)) {
                if let Some(layer) = queued {
                    self.queued_sections.set_layer(section_pos, layer);
                } else if let Some(layer) = stored {
                    self.queued_sections.set_layer(section_pos, layer);
                }
            }
            proof {
                assert(before@.updating.contains_key(key) <==> m.updating.contains_key(key));
                assert(before@.queued.contains_key(key) <==> m.queued.contains_key(key));
                assert forall|k: u64|
                    #![trigger self@.updating.contains_key(k)]
                    #![trigger self@.updating[k]]
                    k != key implies self@.updating.contains_key(k)
                    == before@.updating.contains_key(k) && (self@.updating.contains_key(k)
                    ==> self@.updating[k] == before@.updating[k]) by {}
                assert forall|k: u64|
                    #![trigger self@.queued.contains_key(k)]
                    #![trigger self@.queued[k]]
                    k != key implies self@.queued.contains_key(k)
                    == before@.queued.contains_key(k) && (self@.queued.contains_key(k)
                    ==> self@.queued[k] == before@.queued[k]) by {}
            }
            i += 1;
        }
    }

    fn remove_marked_columns(&mut self, keys: &Vec<u64>, Ghost(m): Ghost<StorageModel>)
        requires
            m.valid(),
            keys@.no_duplicates(),
            forall|key: u64| #[trigger] keys@.contains(key) <==> m.to_remove.contains(key),
            old(self)@.sky == m.sky,
            old(self)@.updating.dom() == m.updating.dom().difference(m.to_remove),
        ensures
            forall|key: u64| #[trigger]
                final(self)@.changed.contains(key) <==> old(self)@.changed.contains(key)
                    || m.to_remove.contains(key),
            final(self)@ == (StorageModel {
                changed: final(self)@.changed,
                sky: match m.sky {
                    Some(sky) => Some(
                        SkyModel {
                            updating: columns_after_removal(
                                sky.updating,
                                old(self)@.updating.dom(),
                            ),
                            ..sky
                        },
                    ),
                    None => None,
                },
                ..old(self)@
            }),
    {
        let ghost stored = self@.updating.dom();
        let ghost all = m.updating.dom();
        let ghost columns = m.sky->0.updating;
        proof {
            reveal(StorageModel::valid);
            lemma_among_all(keys@);
        }
        let mut i: usize = 0;
        while i < keys.len()
            invariant
                i <= keys@.len(),
                keys@.no_duplicates(),
                stored == old(self)@.updating.dom(),
                all == m.updating.dom(),
                columns == m.sky->0.updating,
                m.sky is Some ==> columns_valid(all, columns),
                stored == all.difference(m.to_remove),
                forall|key: u64| #[trigger] keys@.contains(key) <==> m.to_remove.contains(key),
                forall|key: u64| #[trigger]
                    m.to_remove.contains(key) ==> all.contains(key),
                self@.sky is Some <==> m.sky is Some,
                self@ == (StorageModel {
                    changed: self@.changed,
                    sky: self@.sky,
                    ..old(self)@
                }),
                m.sky is Some ==> self@.sky->0.visible == m.sky->0.visible && columns_in_removal(
                    columns,
                    stored,
                    among(keys@, i as int),
                    self@.sky->0.updating,
                ),
                forall|key: u64| #[trigger]
                    self@.changed.contains(key) <==> old(self)@.changed.contains(key) || among(
                        keys@,
                        i as int,
                    )(key),
            decreases keys@.len() - i,
        {
            let key: u64 = keys[i];
            let ghost before = *self;
            proof {
                lemma_among_next(keys@, i as int);
                section_round_trip(key);
                if m.sky is Some {
                    lemma_stored_has_top(all, columns, key);
                    lemma_column_removed(
                        all,
                        stored,
                        columns,
                        self@.sky->0.updating,
                        among(keys@, i as int),
                        key,
                    );
                    assert((|k: u64| among(keys@, i as int)(k) || k == key) =~= among(
                        keys@,
                        i as int + 1,
                    ));
                }
            }
            self.on_node_removed(PackedSectionPos(key).to_section_pos());
            set_insert(&mut self.changed_sections, key);
            i += 1;
        }
        proof {
            if m.sky is Some {
                let after = columns_after_removal(columns, stored);
                let current = self@.sky->0.updating;
                assert forall|zero: u64| #[trigger]
                    current.tops.contains_key(zero) == after.tops.contains_key(zero) && (
                    current.tops.contains_key(zero) ==> current.tops[zero] == after.tops[zero]) by {
                    if columns.tops.contains_key(zero) {
                        let pos = section_of_key(zero);
                        let top_key = at_height(pos, columns.tops[zero] - 1);
                        lemma_top_has_stored(all, columns, zero);
                        if !keys@.contains(top_key) {
                            assert(stored.contains(top_key));
                            assert(highest_stored(
                                stored,
                                pos,
                                columns.tops[zero] - 1,
                                columns.lowest_y as int,
                            ) == Some(columns.tops[zero] - 1));
                        }
                    }
                }
                assert(current.tops =~= after.tops);
            }
        }
    }

    fn on_node_removed(&mut self, section_pos: SectionPos)
        requires
            section_pos.y < i32::MAX,
            old(self)@.sky matches Some(sky) ==> sky.updating.lowest_y > i32::MIN,
        ensures
            final(self)@ == (StorageModel {
                sky: match old(self)@.sky {
                    Some(sky) => Some(
                        SkyModel {
                            updating: column_removed(
                                sky.updating,
                                old(self)@.updating.dom(),
                                section_pos,
                            ),
                            ..sky
                        },
                    ),
                    None => None,
                },
                ..old(self)@
            }),
    {
        let zero: u64 = Self::zero_key(section_pos);
        match &mut self.sky_data {
            Some(sky_data) => {
                let lowest_y: i32 = sky_data.updating.current_lowest_y;
                if sky_data.updating.top_section(zero) != section_pos.y + 1 {
                    return ;
                }
                let mut new_top: Option<i32> = None;
                let mut y: i32 = section_pos.y;
                let ghost stored = self.updating_section_data@.dom();
                let ghost goal = highest_stored(
                    stored,
                    section_pos,
                    section_pos.y as int,
                    lowest_y as int,
                );
                while y >= lowest_y && new_top.is_none()
                    invariant
                        lowest_y > i32::MIN,
                        stored == self.updating_section_data@.dom(),
                        y < i32::MAX,
                        match new_top {
                            Some(top) => goal == Some(top - 1) && top == y + 1,
                            None => goal == highest_stored(
                                stored,
                                section_pos,
                                y as int,
                                lowest_y as int,
                            ),
                        },
                    decreases y - lowest_y + 1, if new_top is None { 1int } else { 0int },
                {
                    if self.updating_section_data.has_layer(
                        SectionPos::new(section_pos.x, y, section_pos.z),
                    ) {
                        new_top = Some(y + 1);
                    } else {
                        y -= 1;
                    }
                }
                match new_top {
                    Some(top) => sky_data.updating.set_top_section(zero, top),
                    None => sky_data.updating.remove_top_section(zero),
                }
            },
            None => {},
        }
    }

    fn apply_queued_layers(&mut self)
        ensures
            final(self)@ == (StorageModel {
                updating: final(self)@.updating,
                queued: final(self)@.queued,
                changed: final(self)@.changed,
                ..old(self)@
            }),
            forall|key: u64|
                #![trigger final(self)@.updating.contains_key(key)]
                #![trigger final(self)@.updating[key]]
                {
                    &&& final(self)@.updating.contains_key(key) <==> old(
                        self,
                    )@.updating.contains_key(key)
                    &&& final(self)@.updating.contains_key(key) ==> final(self)@.updating[key]
                        == if old(self)@.queued.contains_key(key) {
                        old(self)@.queued[key]
                    } else {
                        old(self)@.updating[key]
                    }
                },
            forall|key: u64|
                #![trigger final(self)@.queued.contains_key(key)]
                #![trigger final(self)@.queued[key]]
                {
                    &&& final(self)@.queued.contains_key(key) <==> old(self)@.queued.contains_key(
                        key,
                    ) && !old(self)@.updating.contains_key(key)
                    &&& final(self)@.queued.contains_key(key) ==> final(self)@.queued[key] == old(
                        self,
                    )@.queued[key]
                },
            forall|key: u64| #[trigger]
                final(self)@.changed.contains(key) <==> old(self)@.changed.contains(key) || old(
                    self,
                )@.queued.contains_key(key) && old(self)@.updating.contains_key(key),
    {
        let queued_keys: Vec<u64> = self.queued_sections.keys();
        let ghost m = self@;
        let mut i: usize = 0;
        proof {
            lemma_among_all(queued_keys@);
        }
        while i < queued_keys.len()
            invariant
                i <= queued_keys@.len(),
                queued_keys@.no_duplicates(),
                m == old(self)@,
                self@ == (StorageModel {
                    updating: self@.updating,
                    queued: self@.queued,
                    changed: self@.changed,
                    ..m
                }),
                forall|key: u64| #[trigger]
                    queued_keys@.contains(key) <==> m.queued.contains_key(key),
                forall|key: u64|
                    #![trigger self@.updating.contains_key(key)]
                    #![trigger self@.updating[key]]
                    {
                        &&& self@.updating.contains_key(key) <==> m.updating.contains_key(key)
                        &&& self@.updating.contains_key(key) ==> self@.updating[key] == if among(
                            queued_keys@,
                            i as int,
                        )(key) {
                            m.queued[key]
                        } else {
                            m.updating[key]
                        }
                    },
                forall|key: u64|
                    #![trigger self@.queued.contains_key(key)]
                    #![trigger self@.queued[key]]
                    {
                        &&& self@.queued.contains_key(key) <==> m.queued.contains_key(key) && !(
                        m.updating.contains_key(key) && among(queued_keys@, i as int)(key))
                        &&& self@.queued.contains_key(key) ==> self@.queued[key] == m.queued[key]
                    },
                forall|key: u64| #[trigger]
                    self@.changed.contains(key) <==> m.changed.contains(key)
                        || m.updating.contains_key(key) && among(queued_keys@, i as int)(key),
            decreases queued_keys@.len() - i,
        {
            let key: u64 = queued_keys[i];
            let section_pos: SectionPos = PackedSectionPos(key).to_section_pos();
            proof {
                section_round_trip(key);
                lemma_among_next(queued_keys@, i as int);
            }
            if self.storing_light_for_section(section_pos) {
                if let Some(data) = self.queued_sections.remove_layer(section_pos) {
                    self.updating_section_data.set_layer(section_pos, data);
                    set_insert(&mut self.changed_sections, key);
                } else {
                    assert(self@.queued.contains_key(key));
                }
            }
            i += 1;
        }
        proof {
            lemma_among_all(queued_keys@);
        }
    }

    /// Copies changed updating data into the visible map and returns affected
    /// sections, in no particular order.
    pub fn swap_section_map(&mut self) -> (sections: Vec<SectionPos>)
        requires
            old(self).wf(),
        ensures
            final(self).wf(),
            final(self)@ == publish(old(self)@),
            sections@.no_duplicates(),
            forall|pos: SectionPos| #[trigger]
                sections@.contains(pos) <==> pos.packable() && old(self)@.affected.contains(
                    pos.key(),
                ),
    {
        proof {
            lemma_counts_for_states(self@);
        }
        proof {
            publish_shows_updates(self@);
        }
        if !set_is_empty(&self.changed_sections) {
            self.visible_section_data = self.updating_section_data.copy_map();
            match &mut self.sky_data {
                Some(sky_data) => {
                    sky_data.visible = sky_data.updating.copy_map();
                },
                None => {},
            }
            self.changed_sections = set_new();
        }
        let mut affected_keys: FxSet<u64> = set_new();
        std::mem::swap(&mut self.sections_affected_by_light_updates, &mut affected_keys);
        let keys: Vec<u64> = set_items(&affected_keys);
        let mut affected: Vec<SectionPos> = Vec::new();
        let mut i: usize = 0;
        while i < keys.len()
            invariant
                i <= keys@.len(),
                affected@.len() == i,
                forall|j: int| 0 <= j < i ==> #[trigger] affected@[j] == section_of_key(keys@[j]),
            decreases keys@.len() - i,
        {
            affected.push(PackedSectionPos(keys[i]).to_section_pos());
            i += 1;
        }
        proof {
            assert forall|a: int, b: int|
                0 <= a < affected@.len() && 0 <= b < affected@.len() && a != b implies affected@[a]
                != affected@[b] by {
                section_round_trip(keys@[a]);
                section_round_trip(keys@[b]);
            }
            assert forall|pos: SectionPos| #[trigger]
                affected@.contains(pos) <==> pos.packable() && old(self)@.affected.contains(
                    pos.key(),
                ) by {
                if affected@.contains(pos) {
                    let j = choose|j: int| 0 <= j < affected@.len() && affected@[j] == pos;
                    section_round_trip(keys@[j]);
                    assert(keys@.contains(keys@[j]));
                }
                if pos.packable() && old(self)@.affected.contains(pos.key()) {
                    key_round_trip(pos);
                    assert(keys@.contains(pos.key()));
                    let j = choose|j: int| 0 <= j < keys@.len() && keys@[j] == pos.key();
                    assert(affected@[j] == pos);
                }
            }
        }
        affected
    }
}

impl LayerLightSectionStorage {
    /// Enables sky sources and fills existing empty fully-sourced sky layers.
    ///
    /// Returns `None` for block-light storage, which has no sky sources.
    pub fn enable_sky_light_sources(
        &mut self,
        section_zero_pos: SectionPos,
        sources: &ChunkSkyLightSources,
    ) -> (result: Option<()>)
        requires
            old(self).wf(),
        ensures
            final(self).wf(),
            result is Some <==> old(self)@.sky is Some,
            final(self)@ == enable_sources(old(self)@, section_zero_pos, sources),
    {
        if self.sky_data.is_none() {
            return None;
        }
        self.set_light_enabled(section_zero_pos, true);
        let ghost m = self@;
        let highest_source_y: i32 = sources.get_highest_lowest_source_y();
        let lowest_fully_source_section_y: i32 = match highest_source_y.checked_sub(1) {
            Some(highest_non_source_y) => block_to_section_coord(highest_non_source_y) + 1,
            None => block_to_section_coord(highest_source_y),
        };
        let top_section_y: i32 = match self.get_top_section_y(section_zero_pos) {
            Some(y) => y,
            None => {
                return None;
            },
        };
        let lowest_section_y: i32 = match self.get_bottom_section_y() {
            Some(y) => y,
            None => {
                return None;
            },
        };
        let bottom_section_y: i32 = if lowest_section_y < lowest_fully_source_section_y {
            lowest_fully_source_section_y
        } else {
            lowest_section_y
        };
        proof {
            assert(lowest_fully_source_section_y == lowest_full_section(sources));
            assert(fill_span(m, section_zero_pos, top_section_y as int, top_section_y as int)
                =~= m);
        }
        let mut section_y: i32 = top_section_y;
        while section_y > bottom_section_y
            invariant
                self.wf(),
                section_y <= top_section_y,
                self@ == fill_span(m, section_zero_pos, section_y as int, top_section_y as int),
                bottom_section_y <= section_y || section_y == top_section_y,
            decreases section_y - bottom_section_y,
        {
            section_y -= 1;
            let ghost before = self@;
            let section_pos: SectionPos = SectionPos::new(
                section_zero_pos.x,
                section_y,
                section_zero_pos.z,
            );
            let ghost key = section_pos.key();
            match self.get_data_layer_to_write(section_pos) {
                Some(data_layer) => {
                    if data_layer.is_empty() {
                        data_layer.fill(MAX_LIGHT_LEVEL);
                    }
                },
                None => {},
            }
            proof {
                let after = fill_span(m, section_zero_pos, section_y as int, top_section_y as int);
                lemma_span_grows(section_zero_pos, section_y as int, top_section_y as int);
                assert(at_height(section_zero_pos, section_y as int) == key);
                lemma_full_is_not_dark();
                assert(self@.updating =~= after.updating);
                assert(self@.changed =~= after.changed);
                assert(self@ =~= after);
            }
        }
        proof {
            if top_section_y <= bottom_section_y {
                lemma_empty_span(section_zero_pos, top_section_y as int, top_section_y as int);
                lemma_empty_span(section_zero_pos, bottom_section_y as int, top_section_y as int);
                assert(fill_span(m, section_zero_pos, bottom_section_y as int, top_section_y as int)
                    =~= self@);
            }
        }
        Some(())
    }
}

proof fn lemma_span_grows(pos: SectionPos, y: int, top: int)
    requires
        y < top,
    ensures
        forall|key: u64| #[trigger]
            in_span(pos, y, top, key) <==> in_span(pos, y + 1, top, key) || key == at_height(
                pos,
                y,
            ),
{
    assert forall|key: u64| #[trigger]
        in_span(pos, y, top, key) <==> in_span(pos, y + 1, top, key) || key == at_height(
            pos,
            y,
        ) by {
        if in_span(pos, y + 1, top, key) {
            let h = choose|h: int| y + 1 <= h < top && #[trigger] at_height(pos, h) == key;
            assert(at_height(pos, h) == key);
        }
        if key == at_height(pos, y) {
            assert(in_span(pos, y, top, key));
        }
    }
}

proof fn lemma_empty_span(pos: SectionPos, y: int, top: int)
    requires
        y >= top,
    ensures
        forall|key: u64| !#[trigger] in_span(pos, y, top, key),
{
}

proof fn lemma_full_is_not_dark()
    ensures
        filled_content(15) != filled_content(0),
{
    assert(filled_content(15).levels[0] == 15);
    assert(filled_content(0).levels[0] == 0);
}

/// The blocks of a section have coordinates.
pub open spec fn section_in_world(pos: SectionPos) -> bool {
    -134217728 <= pos.x <= 134217727 && -134217728 <= pos.z <= 134217727
}

impl LayerLightSectionStorage {
    /// Fills skylight source cells and queues their propagation edges.
    ///
    /// The center chunk's sources and those of its four horizontal neighbors
    /// come from the caller. Returns `None` for block-light storage, which has
    /// no sky sources.
    pub fn propagate_sky_light_sources(
        &mut self,
        section_zero_pos: SectionPos,
        source_neighborhood: SkyLightSourceNeighborhood<'_>,
        queues: &mut LightPropagationQueues,
    ) -> (result: Option<()>)
        requires
            old(self).wf(),
            old(queues).wf(),
            section_in_world(section_zero_pos),
        ensures
            final(self).wf(),
            final(queues).wf(),
            result is Some <==> old(self)@.sky is Some,
            (final(self)@, final(queues)@) == propagate_sources(
                old(self)@,
                old(queues)@,
                section_zero_pos,
                source_neighborhood,
            ),
    {
        if self.sky_data.is_none() {
            return None;
        }
        self.set_light_enabled(section_zero_pos, true);
        let top_section_y: i32 = match self.get_top_section_y(section_zero_pos) {
            Some(y) => y,
            None => {
                return None;
            },
        };
        let bottom_section_y: i32 = match self.get_bottom_section_y() {
            Some(y) => y,
            None => {
                return None;
            },
        };
        proof {
            reveal(StorageModel::valid);
            let columns = self@.sky->0.updating;
            let zero = zero_key(section_zero_pos);
            if columns.tops.contains_key(zero) {
                lemma_top_has_stored(self@.updating.dom(), columns, zero);
            }
        }
        let ghost goal = propagate_sections(
            self@,
            queues@,
            section_zero_pos,
            source_neighborhood,
            top_section_y - 1,
            bottom_section_y as int,
        );
        let mut section_y: i32 = top_section_y;
        let mut sources_below: bool = true;
        while section_y > bottom_section_y && sources_below
            invariant
                self.wf(),
                queues.wf(),
                section_in_world(section_zero_pos),
                section_y > bottom_section_y ==> -0x7FFFF <= bottom_section_y && section_y
                    <= 0x7FFFF,
                goal == if sources_below {
                    propagate_sections(
                        self@,
                        queues@,
                        section_zero_pos,
                        source_neighborhood,
                        section_y - 1,
                        bottom_section_y as int,
                    )
                } else {
                    (self@, queues@)
                },
            decreases section_y - bottom_section_y,
        {
            section_y -= 1;
            let section_pos: SectionPos = SectionPos::new(
                section_zero_pos.x,
                section_y,
                section_zero_pos.z,
            );
            assert(section_pos.key() == at_height(section_zero_pos, section_y as int));
            match self.get_data_layer_to_write(section_pos) {
                Some(data_layer) => {
                    sources_below = Self::fill_sky_source_section(
                        data_layer,
                        section_zero_pos,
                        section_y,
                        source_neighborhood,
                        queues,
                    );
                },
                None => {},
            }
        }
        Some(())
    }

    fn fill_sky_source_section(
        data_layer: &mut DataLayer,
        section_zero_pos: SectionPos,
        section_y: i32,
        hood: SkyLightSourceNeighborhood<'_>,
        queues: &mut LightPropagationQueues,
    ) -> (sources_below: bool)
        requires
            old(queues).wf(),
            section_in_world(section_zero_pos),
            -0x7FFFF <= section_y < 0x7FFFF,
        ensures
            final(queues).wf(),
            final(data_layer)@ == fill_columns(
                old(data_layer)@,
                hood.center,
                section_y as int,
                256,
            ),
            final(queues)@ == (QueuesView {
                increase: old(queues)@.increase + section_updates(
                    hood,
                    section_zero_pos,
                    section_y as int,
                    256,
                ),
                ..old(queues)@
            }),
            sources_below == sources_continue(hood.center, section_y as int),
    {
        let ghost content = data_layer@;
        let ghost queued = queues@;
        let mut sources_below: bool = false;
        let mut c: usize = 0;
        proof {
            data_layer.content_valid();
            assert(fill_columns(content, hood.center, section_y as int, 0) =~= content);
            assert(queued.increase =~= queued.increase + section_updates(
                hood,
                section_zero_pos,
                section_y as int,
                0,
            ));
        }
        while c < 256
            invariant
                c <= 256,
                queues.wf(),
                section_in_world(section_zero_pos),
                -0x7FFFF <= section_y < 0x7FFFF,
                data_layer@ == fill_columns(content, hood.center, section_y as int, c as int),
                queues@ == (QueuesView {
                    increase: queued.increase + section_updates(
                        hood,
                        section_zero_pos,
                        section_y as int,
                        c as int,
                    ),
                    ..queued
                }),
                sources_below == exists|d: int|
                    0 <= d < c && #[trigger] source_at(hood.center, d) < section_y * 16,
            decreases 256 - c,
        {
            let ghost before = data_layer@;
            let ghost queued_before = queues@;
            let lowest_source_y: i32 = hood.center.get_lowest_source_y(c % 16, c / 16);
            Self::fill_sky_source_column(
                data_layer,
                section_zero_pos,
                section_y,
                c,
                lowest_source_y,
                hood,
                queues,
            );
            proof {
                let updates = column_updates(
                    hood,
                    section_zero_pos,
                    c as int,
                    section_y * 16 + 15,
                    lowest_in_section(hood.center, c as int, section_y as int),
                );
                assert(queues@.increase =~= queued.increase + (section_updates(
                    hood,
                    section_zero_pos,
                    section_y as int,
                    c as int,
                ) + updates));
                assert(queues@ =~= (QueuesView {
                    increase: queued.increase + section_updates(
                        hood,
                        section_zero_pos,
                        section_y as int,
                        c as int + 1,
                    ),
                    ..queued
                }));
                let next = fill_columns(content, hood.center, section_y as int, c as int + 1);
                assert(data_layer@.levels =~= next.levels);
                assert(data_layer@.homogeneous == next.homogeneous) by {
                    assert(source_at(hood.center, c as int) == lowest_source_y);
                }
                assert(data_layer@ =~= next);
            }
            let ghost below_before = sources_below;
            if lowest_source_y < section_y * 16 {
                sources_below = true;
            }
            proof {
                assert(source_at(hood.center, c as int) == lowest_source_y);
                if below_before {
                    let d = choose|d: int|
                        0 <= d < c && #[trigger] source_at(hood.center, d) < section_y * 16;
                    assert(0 <= d < c + 1 && source_at(hood.center, d) < section_y * 16);
                }
                if sources_below && !below_before {
                    assert(0 <= c < c + 1 && source_at(hood.center, c as int) < section_y * 16);
                }
            }
            c += 1;
        }
        sources_below
    }

    fn fill_sky_source_column(
        data_layer: &mut DataLayer,
        section_zero_pos: SectionPos,
        section_y: i32,
        c: usize,
        lowest_source_y: i32,
        hood: SkyLightSourceNeighborhood<'_>,
        queues: &mut LightPropagationQueues,
    )
        requires
            old(queues).wf(),
            section_in_world(section_zero_pos),
            -0x7FFFF <= section_y < 0x7FFFF,
            c < 256,
            lowest_source_y == source_at(hood.center, c as int),
        ensures
            final(queues).wf(),
            final(queues)@ == (QueuesView {
                increase: old(queues)@.increase + column_updates(
                    hood,
                    section_zero_pos,
                    c as int,
                    section_y * 16 + 15,
                    lowest_in_section(hood.center, c as int, section_y as int),
                ),
                ..old(queues)@
            }),
            final(data_layer)@ == (LayerContent {
                levels: Seq::new(
                    4096,
                    |i: int|
                        if i % 256 == c && lowest_source_y <= section_y * 16 + i / 256 {
                            15
                        } else {
                            old(data_layer)@.levels[i]
                        },
                ),
                homogeneous: old(data_layer)@.homogeneous && lowest_source_y > section_y * 16 + 15,
            }),
    {
        let x: usize = c % 16;
        let z: usize = c / 16;
        let section_min_y: i32 = section_y * 16;
        let section_max_y: i32 = section_min_y + 15;
        let ghost content = data_layer@;
        let ghost queued = queues@;
        proof {
            data_layer.content_valid();
        }
        if lowest_source_y > section_max_y {
            proof {
                assert(queues@.increase =~= queued.increase + Seq::<QueuedLightUpdate>::empty());
                assert(data_layer@.levels =~= Seq::new(
                    4096,
                    |i: int|
                        if i % 256 == c && lowest_source_y <= section_y * 16 + i / 256 {
                            15
                        } else {
                            content.levels[i]
                        },
                ));
            }
            return ;
        }
        let north: i32 = if z == 0 {
            hood.north.get_lowest_source_y(x, CHUNK_EDGE - 1)
        } else {
            hood.center.get_lowest_source_y(x, z - 1)
        };
        let south: i32 = if z == CHUNK_EDGE - 1 {
            hood.south.get_lowest_source_y(x, 0)
        } else {
            hood.center.get_lowest_source_y(x, z + 1)
        };
        let west: i32 = if x == 0 {
            hood.west.get_lowest_source_y(CHUNK_EDGE - 1, z)
        } else {
            hood.center.get_lowest_source_y(x - 1, z)
        };
        let east: i32 = if x == CHUNK_EDGE - 1 {
            hood.east.get_lowest_source_y(0, z)
        } else {
            hood.center.get_lowest_source_y(x + 1, z)
        };
        let min_source_y: i32 = if section_min_y < lowest_source_y {
            lowest_source_y
        } else {
            section_min_y
        };
        let mut y: i32 = section_max_y + 1;
        assert(queues@.increase =~= queued.increase + column_updates(
            hood,
            section_zero_pos,
            c as int,
            section_max_y as int,
            y as int,
        ));
        while y > min_source_y
            invariant
                queues.wf(),
                section_in_world(section_zero_pos),
                -0x7FFFF <= section_y < 0x7FFFF,
                c < 256,
                x == c % 16,
                z == c / 16,
                section_min_y == section_y * 16,
                section_max_y == section_y * 16 + 15,
                section_min_y <= min_source_y <= y <= section_max_y + 1,
                content.levels.len() == 4096,
                lowest_source_y == source_at(hood.center, c as int),
                north == north_source(hood, c as int),
                south == south_source(hood, c as int),
                west == west_source(hood, c as int),
                east == east_source(hood, c as int),
                queues@ == (QueuesView {
                    increase: queued.increase + column_updates(
                        hood,
                        section_zero_pos,
                        c as int,
                        section_max_y as int,
                        y as int,
                    ),
                    ..queued
                }),
                data_layer@.levels == Seq::new(
                    4096,
                    |i: int|
                        if i % 256 == c && y <= section_y * 16 + i / 256 {
                            15
                        } else {
                            content.levels[i]
                        },
                ),
                data_layer@.homogeneous == (content.homogeneous && y == section_max_y + 1),
            decreases y - min_source_y,
        {
            y -= 1;
            let ghost levels_before = data_layer@.levels;
            data_layer.set(x, section_relative_coord(y), z, MAX_LIGHT_LEVEL);
            proof {
                let local_y = local_coord(y as int);
                assert(local_y == y - section_y * 16);
                let index = local_index(x as int, local_y, z as int);
                assert(index == local_y * 256 + c);
                assert(data_layer@.levels =~= Seq::new(
                    4096,
                    |i: int|
                        if i % 256 == c && y <= section_y * 16 + i / 256 {
                            15
                        } else {
                            content.levels[i]
                        },
                ));
            }
            let ghost increase_before = queues@.increase;
            if y == lowest_source_y || y < north || y < south || y < west || y < east {
                queues.enqueue_increase(
                    BlockPos::new(
                        section_zero_pos.x * 16 + x as i32,
                        y,
                        section_zero_pos.z * 16 + z as i32,
                    ),
                    LightQueueEntry::increase_sky_source_in_directions(
                        y == lowest_source_y,
                        y < north,
                        y < south,
                        y < west,
                        y < east,
                    ),
                );
            }
            proof {
                assert(queues@.increase =~= queued.increase + column_updates(
                    hood,
                    section_zero_pos,
                    c as int,
                    section_max_y as int,
                    y as int,
                ));
            }
        }
        proof {
            assert(min_source_y == lowest_in_section(hood.center, c as int, section_y as int));
            assert(data_layer@.levels =~= Seq::new(
                4096,
                |i: int|
                    if i % 256 == c && lowest_source_y <= section_y * 16 + i / 256 {
                        15
                    } else {
                        content.levels[i]
                    },
            ));
        }
    }
}

impl LayerLightSectionStorage {
    /// Updates one sky-source column after its source edge changes.
    ///
    /// Returns `Ok(None)` for block-light storage, which has no sky sources.
    /// Only sections that store light are written, so that no write fails.
    pub fn update_sky_sources_in_column(
        &mut self,
        x: i32,
        z: i32,
        lowest_source_y: i32,
        neighbor_lowest_source_y: i32,
        queues: &mut LightPropagationQueues,
    ) -> (result: Result<Option<()>, MissingLightDataLayerError>)
        requires
            old(self).wf(),
            old(queues).wf(),
            i32::MIN < x < i32::MAX,
            i32::MIN < z < i32::MAX,
        ensures
            final(self).wf(),
            final(queues).wf(),
            result matches Ok(done) && (done is Some <==> old(self)@.sky is Some),
            (final(self)@, final(queues)@) == update_column(
                old(self)@,
                old(queues)@,
                x,
                z,
                lowest_source_y as int,
                neighbor_lowest_source_y as int,
            ),
    {
        let bottom_section_y: i32 = match self.get_bottom_section_y() {
            Some(y) => y,
            None => {
                return Ok(None);
            },
        };
        if bottom_section_y == POSITIVE_INFINITY {
            return Ok(Some(()));
        }
        proof {
            reveal(StorageModel::valid);
        }
        let world_bottom_y: i32 = bottom_section_y * 16;
        match self.remove_sky_sources_below(x, z, lowest_source_y, world_bottom_y, queues) {
            Ok(()) => {},
            Err(error) => {
                return Err(error);
            },
        }
        match self.add_sky_sources_above(
            x,
            z,
            lowest_source_y,
            neighbor_lowest_source_y,
            world_bottom_y,
            queues,
        ) {
            Ok(()) => {},
            Err(error) => {
                return Err(error);
            },
        }
        Ok(Some(()))
    }

    fn remove_sky_sources_below(
        &mut self,
        x: i32,
        z: i32,
        lowest_source_y: i32,
        world_bottom_y: i32,
        queues: &mut LightPropagationQueues,
    ) -> (result: Result<(), MissingLightDataLayerError>)
        requires
            old(self).wf(),
            old(queues).wf(),
            i32::MIN < x < i32::MAX,
            i32::MIN < z < i32::MAX,
            old(self)@.sky is Some,
            -0x7FFFF <= old(self)@.sky->0.updating.lowest_y < 0x7FFFF,
            world_bottom_y == old(self)@.sky->0.updating.lowest_y * 16,
        ensures
            final(self).wf(),
            final(queues).wf(),
            final(self)@.sky == old(self)@.sky,
            result is Ok,
            (final(self)@, final(queues)@) == if lowest_source_y <= world_bottom_y {
                (old(self)@, old(queues)@)
            } else {
                remove_sources_from(
                    old(self)@,
                    old(queues)@,
                    x,
                    z,
                    lowest_source_y - 1,
                    lowest_source_y - 1,
                )
            },
    {
        if lowest_source_y <= world_bottom_y {
            return Ok(());
        }
        let start_y: i32 = lowest_source_y - 1;
        let ghost goal = remove_sources_from(
            self@,
            queues@,
            x,
            z,
            start_y as int,
            start_y as int,
        );
        let ghost sky = self@.sky;
        let mut y: i32 = start_y;
        while y >= world_bottom_y
            invariant
                self.wf(),
                queues.wf(),
                i32::MIN < x < i32::MAX,
                i32::MIN < z < i32::MAX,
                sky is Some,
                self@.sky == sky,
                sky == old(self)@.sky,
                -0x7FFFF <= sky->0.updating.lowest_y < 0x7FFFF,
                world_bottom_y == sky->0.updating.lowest_y * 16,
                y < i32::MAX,
                y >= world_bottom_y - 1,
                lowest_source_y > world_bottom_y,
                start_y == lowest_source_y - 1,
                goal == remove_sources_from(
                    old(self)@,
                    old(queues)@,
                    x,
                    z,
                    lowest_source_y - 1,
                    lowest_source_y - 1,
                ),
                goal == remove_sources_from(self@, queues@, x, z, start_y as int, y as int),
            decreases y - world_bottom_y + 1,
        {
            let block_pos: BlockPos = BlockPos::new(x, y, z);
            match self.get_stored_level(block_pos) {
                None => {
                    y = block_to_section_coord(y) * 16 - 1;
                },
                Some(level) => {
                    if level != MAX_LIGHT_LEVEL {
                        return Ok(());
                    }
                    match self.set_stored_level(block_pos, 0) {
                        Ok(()) => {},
                        Err(error) => {
                            return Err(error);
                        },
                    }
                    let entry: LightQueueEntry = if y == start_y {
                        remove_top_sky_source_entry()
                    } else {
                        remove_sky_source_entry()
                    };
                    queues.enqueue_decrease(block_pos, entry);
                    y -= 1;
                },
            }
        }
        Ok(())
    }

    fn add_sky_sources_above(
        &mut self,
        x: i32,
        z: i32,
        lowest_source_y: i32,
        neighbor_lowest_source_y: i32,
        world_bottom_y: i32,
        queues: &mut LightPropagationQueues,
    ) -> (result: Result<(), MissingLightDataLayerError>)
        requires
            old(self).wf(),
            old(queues).wf(),
            i32::MIN < x < i32::MAX,
            i32::MIN < z < i32::MAX,
            old(self)@.sky is Some,
            -0x7FFFF <= old(self)@.sky->0.updating.lowest_y < 0x7FFFF,
            world_bottom_y == old(self)@.sky->0.updating.lowest_y * 16,
        ensures
            final(self).wf(),
            final(queues).wf(),
            result is Ok,
            (final(self)@, final(queues)@) == add_sources_from(
                old(self)@,
                old(queues)@,
                x,
                z,
                lowest_source_y as int,
                neighbor_lowest_source_y as int,
                if lowest_source_y < world_bottom_y {
                    world_bottom_y as int
                } else {
                    lowest_source_y as int
                },
            ),
    {
        let start_y: i32 = if lowest_source_y < world_bottom_y {
            world_bottom_y
        } else {
            lowest_source_y
        };
        let column: SectionPos = SectionPos::from_block_pos(BlockPos::new(x, 0, z));
        let ghost sky = self@.sky;
        let ghost columns = sky->0.updating;
        let top_section: i32 = match self.get_top_section_y(column) {
            Some(y) => y,
            None => {
                return Ok(());
            },
        };
        let bottom_section: i32 = match self.get_bottom_section_y() {
            Some(y) => y,
            None => {
                return Ok(());
            },
        };
        if top_section == bottom_section {
            return Ok(());
        }
        proof {
            reveal(StorageModel::valid);
            lemma_top_has_stored(self@.updating.dom(), columns, zero_key(column));
        }
        let ghost goal = add_sources_from(
            self@,
            queues@,
            x,
            z,
            lowest_source_y as int,
            neighbor_lowest_source_y as int,
            start_y as int,
        );
        let mut y: i32 = start_y;
        while block_to_section_coord(y) < top_section
            invariant
                self.wf(),
                queues.wf(),
                i32::MIN < x < i32::MAX,
                i32::MIN < z < i32::MAX,
                sky is Some,
                self@.sky == sky,
                columns == sky->0.updating,
                column == SectionPos::of_block(BlockPos { x, y: 0, z }),
                top_section == columns.top(zero_key(column)),
                top_section != columns.lowest_y,
                top_section <= 0x7FFFF,
                y > i32::MIN,
                goal == add_sources_from(
                    old(self)@,
                    old(queues)@,
                    x,
                    z,
                    lowest_source_y as int,
                    neighbor_lowest_source_y as int,
                    start_y as int,
                ),
                goal == add_sources_from(
                    self@,
                    queues@,
                    x,
                    z,
                    lowest_source_y as int,
                    neighbor_lowest_source_y as int,
                    y as int,
                ),
                start_y == if lowest_source_y < world_bottom_y {
                    world_bottom_y
                } else {
                    lowest_source_y
                },
            decreases top_section * 16 - y,
        {
            let block_pos: BlockPos = BlockPos::new(x, y, z);
            match self.get_stored_level(block_pos) {
                None => {
                    y = block_to_section_coord(y) * 16 + 16;
                },
                Some(level) => {
                    if level == MAX_LIGHT_LEVEL {
                        return Ok(());
                    }
                    match self.set_stored_level(block_pos, MAX_LIGHT_LEVEL) {
                        Ok(()) => {},
                        Err(error) => {
                            return Err(error);
                        },
                    }
                    if y < neighbor_lowest_source_y || y == lowest_source_y {
                        queues.enqueue_increase(block_pos, add_sky_source_entry());
                    }
                    y += 1;
                },
            }
        }
        Ok(())
    }
}

} // verus!
