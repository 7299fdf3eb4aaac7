//! Sky-light propagation.
use vstd::prelude::*;

use crate::block_state::{get_light_block_into, BlockStateId, BlockStateTable};
use crate::cache::{CachedLightBlock, LightCacheLayout};
use crate::engine::{engine_frame, world_of, LightEngine};
use crate::engine_model::{lemma_after_increase, lemma_after_relight, EngineState};
use crate::light_cache::{
    known_emptiness, reset_chunk, section_view, LightLayerWriteCache, LightSectionReadCache,
    SlotView,
};
use crate::packed_queue::{
    HORIZONTAL_DIRECTION_COUNT, LightAxisDirection, LightDirectionSet, LightQueueFlags,
    PackedLightPropagationQueues, PackedLightQueueEntry,
};
use crate::position::{
    block_to_section_coord, section_relative_coord, BlockPos, ChunkPos, Direction, SectionPos,
};
use crate::section_range::LightSectionRange;
use crate::sky_model::{
    any_lit_near, blocks_checked_in_turn, calculated_sky_level, change_columns, changed_heights,
    changes_propagated, check_null, check_nulls, chunk_edges_checked, chunk_in_world, chunk_lit,
    chunk_near, chunk_section, column_chunk, descend, edge_block, edge_checked, edges_checked,
    enter_column, enter_columns, extruded_level, fresh_pass, highest_change, highest_filled,
    init_around, init_chunk, init_heights, init_level, init_section, level_above, light_empty_top,
    only, outside_chunk, pull_edge, pull_edges, pull_levels, remove_below, remove_column,
    section_across, sections_checked, settle_around, settle_chunk, settle_section,
    sky_block_checked, sky_block_wrong, sky_blocks_checked, spread_edge, spread_edges, surrounding,
    surroundings_empty, surroundings_known, top_filled, write_delayed, wrong_blocks, ColumnPass,
    Descent, SkyState, SkyWorld,
};
use crate::{LIGHT_BLOCKED, LightLayer, MAX_LIGHT_LEVEL};

verus! {

/// Error returned when a sky-light propagation context is built from mismatched caches.
#[derive(Debug, Clone, Copy, PartialEq, Eq, Structural)]
pub enum SkyLightPropagationContextError {
    /// Sky-light propagation requires a sky light write cache.
    WrongLayer {
        /// Layer supplied by the write cache.
        layer: LightLayer,
    },
    /// Section and light caches were built from different cache layouts.
    LayoutMismatch {
        /// Layout used by the section cache.
        section_layout: LightCacheLayout,
        /// Layout used by the light cache.
        light_layout: LightCacheLayout,
    },
    /// The workset does not contain its center chunk.
    MissingCenterChunk {
        /// Missing center chunk position.
        chunk_pos: ChunkPos,
    },
}

/// Sections whose visible sky-light data changed during a scoped update.
#[derive(Debug, PartialEq, Eq)]
pub struct SkyLightUpdateResult {
    /// Light sections that should be reported to the world/chunk update layer.
    pub updated_sections: Vec<SectionPos>,
}

/// Whether chunk sky-light generation must validate edge consistency.
#[derive(Debug, Clone, Copy, PartialEq, Eq, Structural)]
pub enum SkyLightChunkEdgeChecks {
    /// Seed skylight and validate this chunk's horizontal edges against neighbors.
    Required,
    /// Trust existing neighboring light and pull initialized edge levels inward.
    Skipped,
}

/// The blocks that cached sections hold, and what is known of emptiness.
pub open spec fn sky_world_of<'a>(
    table: &'a BlockStateTable,
    sections: &LightSectionReadCache<'a>,
    known: Seq<Option<Seq<bool>>>,
) -> SkyWorld<'a> {
    SkyWorld {
        base: world_of(table, sections),
        section_emptiness: |pos: SectionPos| sections.emptiness_of(pos),
        light_emptiness: |pos: SectionPos| known_emptiness(sections.spec_layout(), known, pos),
    }
}

/// Sky-light propagation over the cached sections of a window.
pub struct SkyLightPropagationContext<'a> {
    /// The caches and queues.
    pub engine: LightEngine<'a>,
    /// Whether each light section height was looked at for null sections.
    pub null_section_checked: Vec<bool>,
}

impl<'a> View for SkyLightPropagationContext<'a> {
    type V = SkyState;

    open spec fn view(&self) -> SkyState {
        SkyState { engine: self.engine@, checked: self.null_section_checked@ }
    }
}

impl<'a> SkyLightPropagationContext<'a> {
    /// The engine is well formed, works on sky light, and has a mark for every
    /// light section height.
    pub open spec fn wf(&self) -> bool {
        &&& self.engine.wf()
        &&& self.engine.light.spec_layer() == LightLayer::Sky
        &&& self.null_section_checked@.len() == self.engine.layout().section_range.count()
    }

    /// The blocks and what is known of emptiness.
    pub open spec fn world(&self) -> SkyWorld<'a> {
        sky_world_of(self.engine.table, self.engine.sections, self.engine.light.known())
    }

    /// The window.
    pub open spec fn layout(&self) -> LightCacheLayout {
        self.engine.layout()
    }

    /// Only the light differs from another context.
    pub open spec fn differs_in_light(&self, other: &Self, light: Seq<SlotView>) -> bool {
        &&& engine_frame(&self.engine, &other.engine)
        &&& self@ == (SkyState {
            engine: EngineState { light, ..other@.engine },
            checked: other@.checked,
        })
    }

    /// Creates a sky-light propagation context from matching caches.
    pub fn new(
        table: &'a BlockStateTable,
        sections: &'a LightSectionReadCache<'a>,
        light: LightLayerWriteCache,
        queues: PackedLightPropagationQueues,
    ) -> (result: Result<Self, SkyLightPropagationContextError>)
        requires
            table.wf(),
            sections.wf(),
            light.wf(),
            queues.wf(),
            sections.spec_layout().in_world(),
        ensures
            match result {
                Ok(context) => {
                    &&& context.wf()
                    &&& context.engine == (LightEngine { table, sections, light, queues })
                    &&& context@.checked == Seq::new(
                        light.spec_layout().section_range.count() as nat,
                        |i: int| false,
                    )
                },
                Err(SkyLightPropagationContextError::WrongLayer { layer }) => {
                    &&& light.spec_layer() != LightLayer::Sky
                    &&& layer == light.spec_layer()
                },
                Err(
                    SkyLightPropagationContextError::LayoutMismatch { section_layout, light_layout },
                ) => {
                    &&& light.spec_layer() == LightLayer::Sky
                    &&& section_layout == sections.spec_layout()
                    &&& light_layout == light.spec_layout()
                    &&& section_layout != light_layout
                },
                Err(SkyLightPropagationContextError::MissingCenterChunk { .. }) => false,
            },
    {
        if light.layer() != LightLayer::Sky {
            return Err(SkyLightPropagationContextError::WrongLayer { layer: light.layer() });
        }
        if sections.layout() != light.layout() {
            return Err(
                SkyLightPropagationContextError::LayoutMismatch {
                    section_layout: sections.layout(),
                    light_layout: light.layout(),
                },
            );
        }
        let section_count: usize = light.layout().range().section_count();
        let null_section_checked: Vec<bool> = vec![false; section_count];
        assert(null_section_checked@ =~= Seq::new(
            light.spec_layout().section_range.count() as nat,
            |i: int| false,
        ));
        Ok(
            SkyLightPropagationContext {
                engine: LightEngine { table, sections, light, queues },
                null_section_checked,
            },
        )
    }

    fn section_is_non_empty(&self, section_pos: SectionPos) -> (result: bool)
        requires
            self.wf(),
        ensures
            result == self.world().is_filled(section_pos),
    {
        if let Some(empty) = self.engine.sections.section_empty(section_pos) {
            return !empty;
        }
        if let Some(empty) = self.engine.light.section_empty(section_pos) {
            return !empty;
        }
        false
    }

    fn highest_filled_section(&self, section_pos: SectionPos) -> (y: i32)
        requires
            self.wf(),
        ensures
            y == highest_filled(self.world(), section_pos, self.world().max_chunk_y() - 1),
    {
        let range: LightSectionRange = self.engine.sections.layout().range();
        let min_y: i32 = range.min_chunk_section_y();
        let mut y: i32 = range.max_chunk_section_y_exclusive() - 1;
        while y >= min_y
            invariant
                self.wf(),
                range == self.layout().section_range,
                range.wf(),
                min_y == self.world().min_chunk_y(),
                -134217730 <= min_y - 1 <= y,
                y <= 134217729,
                highest_filled(self.world(), section_pos, self.world().max_chunk_y() - 1)
                    == highest_filled(self.world(), section_pos, y as int),
            decreases y - min_y + 1,
        {
            if self.section_is_non_empty(SectionPos::new(section_pos.x, y, section_pos.z)) {
                return y;
            }
            y -= 1;
        }
        range.min_section_y() - 1
    }

    fn init_nibble(&mut self, section_pos: SectionPos, extrude: bool, init_removed: bool)
        requires
            old(self).wf(),
        ensures
            final(self).wf(),
            final(self).differs_in_light(
                old(self),
                init_section(
                    old(self).world(),
                    old(self)@.engine.light,
                    section_pos,
                    extrude,
                    init_removed,
                ),
            ),
    {
        let ghost sw = self.world();
        let ghost start = self@.engine.light;
        let ghost layout = self.layout();
        if self.engine.sections.layout().section_slot(section_pos).is_none() {
            return ;
        }
        proof {
            layout.slot_round_trip(section_pos, 0);
            self.engine.light.view_valid();
        }
        if !self.engine.light.has_cached_section(section_pos) {
            if !init_removed {
                return ;
            }
            if !self.engine.light.materialize_removed_null_section(section_pos) {
                assert(self@.engine.light =~= start);
                return ;
            }
        }
        let ghost present = self@.engine.light;
        let ghost slot = layout.slot_at(section_pos);
        if !self.engine.light.is_section_null_updating(section_pos) {
            return ;
        }
        let highest: i32 = self.highest_filled_section(section_pos);
        if section_pos.y > highest {
            self.engine.light.set_section_non_null(section_pos);
            self.engine.light.fill_section(section_pos, MAX_LIGHT_LEVEL);
            assert(self@.engine.light =~= present.update(
                slot,
                present[slot].non_null().filled(15),
            ));
        } else if extrude {
            self.engine.light.extrude_lower_from_first_section_above(section_pos);
        } else {
            self.engine.light.set_section_non_null(section_pos);
        }
    }
}

impl<'a> SkyLightPropagationContext<'a> {
    fn init_nibbles_around(&mut self, chunk_pos: ChunkPos, section_y: i32, center_extrudes: bool)
        requires
            old(self).wf(),
            chunk_in_world(chunk_pos),
            -134217730 <= section_y <= 134217730,
        ensures
            final(self).wf(),
            final(self).differs_in_light(
                old(self),
                init_around(
                    old(self).world(),
                    old(self)@.engine.light,
                    chunk_pos,
                    section_y as int,
                    center_extrudes,
                    27,
                ),
            ),
    {
        let mut i: i32 = 0;
        while i < 27
            invariant
                0 <= i <= 27,
                self.wf(),
                chunk_in_world(chunk_pos),
                -134217730 <= section_y <= 134217730,
                self.differs_in_light(
                    old(self),
                    init_around(
                        old(self).world(),
                        old(self)@.engine.light,
                        chunk_pos,
                        section_y as int,
                        center_extrudes,
                        i as int,
                    ),
                ),
            decreases 27 - i,
        {
            let offset_x: i32 = (i / 3) % 3 - 1;
            let offset_y: i32 = 1 - i % 3;
            let offset_z: i32 = i / 9 - 1;
            self.init_nibble(
                SectionPos::new(
                    chunk_pos.x + offset_x,
                    section_y + offset_y,
                    chunk_pos.z + offset_z,
                ),
                offset_x != 0 || offset_z != 0 || center_extrudes,
                false,
            );
            i += 1;
        }
    }

    fn initialize_chunk_nibbles(&mut self, chunk_pos: ChunkPos, unlit: bool)
        requires
            old(self).wf(),
            chunk_in_world(chunk_pos),
        ensures
            final(self).wf(),
            final(self).differs_in_light(
                old(self),
                init_chunk(
                    old(self).world(),
                    old(self)@.engine.light,
                    chunk_pos,
                    unlit,
                    old(self).world().max_chunk_y() - 1,
                ),
            ),
    {
        let range: LightSectionRange = self.engine.sections.layout().range();
        let min_y: i32 = range.min_chunk_section_y();
        let mut y: i32 = range.max_chunk_section_y_exclusive() - 1;
        let ghost goal = init_chunk(
            self.world(),
            self@.engine.light,
            chunk_pos,
            unlit,
            self.world().max_chunk_y() - 1,
        );
        while y >= min_y
            invariant
                self.wf(),
                self.world() == old(self).world(),
                engine_frame(&self.engine, &old(self).engine),
                chunk_in_world(chunk_pos),
                min_y == self.world().min_chunk_y(),
                -134217729 <= min_y - 1 <= y <= 134217729,
                self.differs_in_light(old(self), self@.engine.light),
                goal == init_chunk(
                    old(self).world(),
                    self@.engine.light,
                    chunk_pos,
                    unlit,
                    y as int,
                ),
            decreases y - min_y + 1,
        {
            if self.section_is_non_empty(SectionPos::new(chunk_pos.x, y, chunk_pos.z)) {
                self.init_nibbles_around(chunk_pos, y, !unlit);
            }
            y -= 1;
        }
    }

    fn section_neighborhood_all_empty(&self, chunk_pos: ChunkPos, section_y: i32) -> (result: bool)
        requires
            self.wf(),
            -134217728 <= chunk_pos.x <= 134217728,
            -134217728 <= chunk_pos.z <= 134217728,
            -134217730 <= section_y <= 134217730,
        ensures
            result == surroundings_empty(self.world(), chunk_pos, section_y as int),
    {
        let range: LightSectionRange = self.engine.sections.layout().range();
        let min_y: i32 = range.min_chunk_section_y();
        let max_y: i32 = range.max_chunk_section_y_exclusive();
        let mut i: i32 = 0;
        while i < 27
            invariant
                0 <= i <= 27,
                self.wf(),
                -134217728 <= chunk_pos.x <= 134217728,
                -134217728 <= chunk_pos.z <= 134217728,
                -134217730 <= section_y <= 134217730,
                min_y == self.world().min_chunk_y(),
                max_y == self.world().max_chunk_y(),
                forall|j: int|
                    0 <= j < i && !outside_chunk(self.world(), section_y as int, j)
                        ==> !self.world().is_filled(
                        #[trigger] surrounding(chunk_pos, section_y as int, j),
                    ),
            decreases 27 - i,
        {
            let neighbor_y: i32 = section_y + (i / 9 - 1);
            if neighbor_y >= min_y && neighbor_y < max_y {
                let section_pos: SectionPos = SectionPos::new(
                    chunk_pos.x + (i % 3 - 1),
                    neighbor_y,
                    chunk_pos.z + ((i / 3) % 3 - 1),
                );
                assert(section_pos == surrounding(chunk_pos, section_y as int, i as int));
                if self.section_is_non_empty(section_pos) {
                    return false;
                }
            }
            i += 1;
        }
        true
    }

    fn section_neighborhood_all_empty_if_known(&self, chunk_pos: ChunkPos, section_y: i32) -> (result:
        Option<bool>)
        requires
            self.wf(),
            -134217728 <= chunk_pos.x <= 134217728,
            -134217728 <= chunk_pos.z <= 134217728,
            -134217730 <= section_y <= 134217730,
        ensures
            result == surroundings_known(self.world(), chunk_pos, section_y as int, 0),
    {
        let range: LightSectionRange = self.engine.sections.layout().range();
        let min_y: i32 = range.min_chunk_section_y();
        let max_y: i32 = range.max_chunk_section_y_exclusive();
        let mut i: i32 = 0;
        while i < 27
            invariant
                0 <= i <= 27,
                self.wf(),
                -134217728 <= chunk_pos.x <= 134217728,
                -134217728 <= chunk_pos.z <= 134217728,
                -134217730 <= section_y <= 134217730,
                min_y == self.world().min_chunk_y(),
                max_y == self.world().max_chunk_y(),
                surroundings_known(self.world(), chunk_pos, section_y as int, 0)
                    == surroundings_known(
                    self.world(),
                    chunk_pos,
                    section_y as int,
                    i as int,
                ),
            decreases 27 - i,
        {
            let neighbor_y: i32 = section_y + (i / 9 - 1);
            if neighbor_y >= min_y && neighbor_y < max_y {
                let section_pos: SectionPos = SectionPos::new(
                    chunk_pos.x + (i % 3 - 1),
                    neighbor_y,
                    chunk_pos.z + ((i / 3) % 3 - 1),
                );
                assert(section_pos == surrounding(chunk_pos, section_y as int, i as int));
                match self.engine.sections.section_empty(section_pos) {
                    None => {
                        return None;
                    },
                    Some(empty) => {
                        if !empty {
                            return Some(false);
                        }
                    },
                }
            }
            i += 1;
        }
        Some(true)
    }

    fn settle_section(&mut self, chunk_pos: ChunkPos, section_y: i32, extrude: bool)
        requires
            old(self).wf(),
            -134217728 <= chunk_pos.x <= 134217728,
            -134217728 <= chunk_pos.z <= 134217728,
            -134217730 <= section_y <= 134217730,
        ensures
            final(self).wf(),
            final(self).differs_in_light(
                old(self),
                settle_section(
                    old(self).world(),
                    old(self)@.engine.light,
                    chunk_pos,
                    section_y as int,
                    extrude,
                ),
            ),
    {
        let section_pos: SectionPos = SectionPos::new(chunk_pos.x, section_y, chunk_pos.z);
        match self.section_neighborhood_all_empty_if_known(chunk_pos, section_y) {
            Some(true) => {
                self.engine.light.set_section_null(section_pos);
            },
            Some(false) => {
                self.init_nibble(section_pos, extrude, false);
            },
            None => {
                if !self.section_neighborhood_all_empty(chunk_pos, section_y) {
                    self.init_nibble(section_pos, extrude, false);
                }
            },
        }
    }

    fn settle_chunk(&mut self, chunk_pos: ChunkPos, extrude: bool)
        requires
            old(self).wf(),
            -134217728 <= chunk_pos.x <= 134217728,
            -134217728 <= chunk_pos.z <= 134217728,
        ensures
            final(self).wf(),
            final(self).differs_in_light(
                old(self),
                settle_chunk(
                    old(self).world(),
                    old(self)@.engine.light,
                    chunk_pos,
                    extrude,
                    old(self).layout().section_range.max_y() - 1,
                ),
            ),
    {
        let range: LightSectionRange = self.engine.sections.layout().range();
        let min_y: i32 = range.min_section_y();
        let mut y: i32 = range.max_section_y_exclusive() - 1;
        let ghost goal = settle_chunk(
            self.world(),
            self@.engine.light,
            chunk_pos,
            extrude,
            self.layout().section_range.max_y() - 1,
        );
        while y >= min_y
            invariant
                self.wf(),
                self.world() == old(self).world(),
                -134217728 <= chunk_pos.x <= 134217728,
                -134217728 <= chunk_pos.z <= 134217728,
                min_y == self.layout().section_range.min_y(),
                -134217730 <= min_y - 1 <= y <= 134217729,
                self.differs_in_light(old(self), self@.engine.light),
                goal == settle_chunk(
                    old(self).world(),
                    self@.engine.light,
                    chunk_pos,
                    extrude,
                    y as int,
                ),
            decreases y - min_y + 1,
        {
            self.settle_section(chunk_pos, y, extrude);
            y -= 1;
        }
    }

    /// Makes the sections around a chunk null where their surroundings are
    /// empty, and brings the others into being.
    pub fn deinit_and_lazy_init_empty_sections(&mut self, chunk_pos: ChunkPos, unlit: bool)
        requires
            old(self).wf(),
            chunk_in_world(chunk_pos),
        ensures
            final(self).wf(),
            final(self).differs_in_light(
                old(self),
                settle_around(
                    old(self).world(),
                    old(self)@.engine.light,
                    chunk_pos,
                    unlit,
                    9,
                ),
            ),
    {
        let mut i: i32 = 0;
        while i < 9
            invariant
                0 <= i <= 9,
                self.wf(),
                chunk_in_world(chunk_pos),
                self.differs_in_light(
                    old(self),
                    settle_around(
                        old(self).world(),
                        old(self)@.engine.light,
                        chunk_pos,
                        unlit,
                        i as int,
                    ),
                ),
            decreases 9 - i,
        {
            let target: ChunkPos = ChunkPos::new(
                chunk_pos.x + (i % 3 - 1),
                chunk_pos.z + (i / 3 - 1),
            );
            assert(target == chunk_near(chunk_pos, i as int));
            self.settle_chunk(target, i != 4 || !unlit);
            i += 1;
        }
    }

    /// Initializes the sky nibbles required around non-empty center sections.
    pub fn handle_unlit_empty_section_changes(&mut self, chunk_pos: ChunkPos)
        requires
            old(self).wf(),
            chunk_in_world(chunk_pos),
        ensures
            final(self).wf(),
            final(self).differs_in_light(
                old(self),
                settle_around(
                    old(self).world(),
                    init_chunk(
                        old(self).world(),
                        old(self)@.engine.light,
                        chunk_pos,
                        true,
                        old(self).world().max_chunk_y() - 1,
                    ),
                    chunk_pos,
                    true,
                    9,
                ),
            ),
    {
        self.initialize_chunk_nibbles(chunk_pos, true);
        self.deinit_and_lazy_init_empty_sections(chunk_pos, true);
    }

    /// Synchronizes sky nibbles for an already-lit loaded chunk without resetting light data.
    pub fn handle_loaded_empty_section_changes(&mut self, chunk_pos: ChunkPos)
        requires
            old(self).wf(),
            chunk_in_world(chunk_pos),
        ensures
            final(self).wf(),
            final(self).differs_in_light(
                old(self),
                settle_around(
                    old(self).world(),
                    init_chunk(
                        old(self).world(),
                        old(self)@.engine.light,
                        chunk_pos,
                        false,
                        old(self).world().max_chunk_y() - 1,
                    ),
                    chunk_pos,
                    false,
                    9,
                ),
            ),
    {
        self.initialize_chunk_nibbles(chunk_pos, false);
        self.deinit_and_lazy_init_empty_sections(chunk_pos, false);
    }

    /// Resets the center chunk to its fresh all-null lighting state.
    pub fn reset_center_chunk_nibbles(&mut self)
        requires
            old(self).wf(),
        ensures
            final(self).wf(),
            final(self).differs_in_light(
                old(self),
                reset_chunk(
                    old(self).layout(),
                    old(self)@.engine.light,
                    old(self).layout().center,
                ),
            ),
    {
        let center: ChunkPos = self.engine.sections.layout().center_chunk();
        self.engine.light.reset_chunk_nibbles_to_null(center);
    }

    /// Initializes null sections from the horizontal neighbors at one height.
    fn check_null_section(
        &mut self,
        chunk_pos: ChunkPos,
        section_y: i32,
        extrude_initialized: bool,
    ) -> (result: bool)
        requires
            old(self).wf(),
            -134217728 <= chunk_pos.x <= 134217728,
            -134217728 <= chunk_pos.z <= 134217728,
        ensures
            final(self).wf(),
            engine_frame(&final(self).engine, &old(self).engine),
            final(self)@ == check_null(
                old(self).world(),
                old(self)@,
                chunk_pos,
                section_y as int,
                extrude_initialized,
            ),
            result == (old(self).layout().section_range.contains(section_y as int) && !old(
                self,
            )@.checked[section_y - old(self).layout().section_range.min_y()] && any_lit_near(
                old(self).world(),
                old(self)@.engine.light,
                chunk_pos,
                section_y as int,
            )),
    {
        let section_index: usize = match self.engine.sections.layout().range().section_index(
            section_y,
        ) {
            Some(section_index) => section_index,
            None => {
                return false;
            },
        };
        if self.null_section_checked[section_index] {
            return false;
        }
        self.null_section_checked[section_index] = true;
        let ghost start = self@;
        let mut need_init_neighbors: bool = false;
        let mut i: i32 = 0;
        while i < 9
            invariant
                0 <= i <= 9,
                self.wf(),
                self@ == start,
                -134217728 <= chunk_pos.x <= 134217728,
                -134217728 <= chunk_pos.z <= 134217728,
                engine_frame(&self.engine, &old(self).engine),
                need_init_neighbors == exists|j: int|
                    0 <= j < i && section_view(
                        self.layout(),
                        start.engine.light,
                        chunk_section(#[trigger] chunk_near(chunk_pos, j), section_y as int),
                    ).is_lit(),
            decreases 9 - i,
        {
            let section_pos: SectionPos = SectionPos::new(
                chunk_pos.x + (i % 3 - 1),
                section_y,
                chunk_pos.z + (i / 3 - 1),
            );
            assert(section_pos == chunk_section(
                chunk_near(chunk_pos, i as int),
                section_y as int,
            ));
            let ghost before = need_init_neighbors;
            if self.engine.light.has_non_null_section(section_pos) {
                need_init_neighbors = true;
            }
            proof {
                if before {
                    let j = choose|j: int|
                        0 <= j < i && section_view(
                            self.layout(),
                            start.engine.light,
                            chunk_section(#[trigger] chunk_near(chunk_pos, j), section_y as int),
                        ).is_lit();
                    assert(0 <= j < i + 1 && section_view(
                        self.layout(),
                        start.engine.light,
                        chunk_section(chunk_near(chunk_pos, j), section_y as int),
                    ).is_lit());
                }
            }
            i += 1;
        }
        if need_init_neighbors {
            let mut i: i32 = 0;
            while i < 9
                invariant
                    0 <= i <= 9,
                    self.wf(),
                    -134217728 <= chunk_pos.x <= 134217728,
                    -134217728 <= chunk_pos.z <= 134217728,
                    engine_frame(&self.engine, &old(self).engine),
                    self.world() == old(self).world(),
                    self@ == (SkyState {
                        engine: EngineState {
                            light: init_level(
                                old(self).world(),
                                start.engine.light,
                                chunk_pos,
                                section_y as int,
                                extrude_initialized,
                                i as int,
                            ),
                            ..start.engine
                        },
                        ..start
                    }),
                decreases 9 - i,
            {
                let section_pos: SectionPos = SectionPos::new(
                    chunk_pos.x + (i % 3 - 1),
                    section_y,
                    chunk_pos.z + (i / 3 - 1),
                );
                assert(section_pos == chunk_section(
                    chunk_near(chunk_pos, i as int),
                    section_y as int,
                ));
                self.init_nibble(section_pos, i != 4 || extrude_initialized, true);
                i += 1;
            }
        }
        need_init_neighbors
    }
}

fn edge_block_pos(chunk_pos: ChunkPos, section_y: i32, direction: LightAxisDirection, j: i32) -> (pos:
    BlockPos)
    requires
        chunk_in_world(chunk_pos),
        -134217727 <= section_y <= 134217726,
        0 <= j < 256,
    ensures
        pos == edge_block(chunk_pos, section_y as int, direction, j as int),
        pos.has_neighbors(),
{
    let y: i32 = section_y * 16 + j / 16;
    let k: i32 = j % 16;
    match direction {
        LightAxisDirection::PositiveX => BlockPos::new(
            chunk_pos.x * 16 + 15,
            y,
            chunk_pos.z * 16 + k,
        ),
        LightAxisDirection::NegativeX => BlockPos::new(chunk_pos.x * 16, y, chunk_pos.z * 16 + k),
        LightAxisDirection::PositiveZ => BlockPos::new(
            chunk_pos.x * 16 + k,
            y,
            chunk_pos.z * 16 + 15,
        ),
        _ => BlockPos::new(chunk_pos.x * 16 + k, y, chunk_pos.z * 16),
    }
}

impl<'a> SkyLightPropagationContext<'a> {
    fn has_lit_section_across(
        &self,
        chunk_pos: ChunkPos,
        section_y: i32,
        direction: LightAxisDirection,
    ) -> (result: bool)
        requires
            self.wf(),
            chunk_in_world(chunk_pos),
        ensures
            result == section_view(
                self.layout(),
                self@.engine.light,
                section_across(chunk_pos, section_y as int, direction),
            ).is_lit(),
    {
        let (dx, _, dz) = direction.direction().offset();
        self.engine.light.has_non_null_section(
            SectionPos::new(chunk_pos.x + dx, section_y, chunk_pos.z + dz),
        )
    }

    fn has_initialized_section_across(
        &self,
        chunk_pos: ChunkPos,
        section_y: i32,
        direction: LightAxisDirection,
    ) -> (result: bool)
        requires
            self.wf(),
            chunk_in_world(chunk_pos),
        ensures
            result == section_view(
                self.layout(),
                self@.engine.light,
                section_across(chunk_pos, section_y as int, direction),
            ).is_initialized(),
    {
        let (dx, _, dz) = direction.direction().offset();
        self.engine.light.is_section_initialized_updating(
            SectionPos::new(chunk_pos.x + dx, section_y, chunk_pos.z + dz),
        )
    }

    fn propagate_full_empty_section_edges(&mut self, chunk_pos: ChunkPos, section_y: i32)
        requires
            old(self).wf(),
            chunk_in_world(chunk_pos),
            -134217727 <= section_y <= 134217726,
        ensures
            final(self).wf(),
            engine_frame(&final(self).engine, &old(self).engine),
            final(self)@.checked == old(self)@.checked,
            final(self)@.engine == spread_edges(
                old(self).world(),
                old(self)@.engine,
                chunk_pos,
                section_y as int,
                4,
            ),
    {
        let mut i: usize = 0;
        while i < HORIZONTAL_DIRECTION_COUNT
            invariant
                i <= 4,
                self.wf(),
                chunk_in_world(chunk_pos),
                -134217727 <= section_y <= 134217726,
                engine_frame(&self.engine, &old(self).engine),
                self@.checked == old(self)@.checked,
                self@.engine == spread_edges(
                    old(self).world(),
                    old(self)@.engine,
                    chunk_pos,
                    section_y as int,
                    i as int,
                ),
            decreases 4 - i,
        {
            let direction: LightAxisDirection = LightAxisDirection::from_index(i);
            if self.has_lit_section_across(chunk_pos, section_y, direction) {
                self.spread_edge(chunk_pos, section_y, direction);
            }
            i += 1;
        }
    }

    fn spread_edge(&mut self, chunk_pos: ChunkPos, section_y: i32, direction: LightAxisDirection)
        requires
            old(self).wf(),
            chunk_in_world(chunk_pos),
            -134217727 <= section_y <= 134217726,
        ensures
            final(self).wf(),
            engine_frame(&final(self).engine, &old(self).engine),
            final(self)@.checked == old(self)@.checked,
            final(self)@.engine == spread_edge(
                old(self).world(),
                old(self)@.engine,
                chunk_pos,
                section_y as int,
                direction,
                256,
            ),
    {
        let mut j: i32 = 0;
        while j < 256
            invariant
                0 <= j <= 256,
                self.wf(),
                chunk_in_world(chunk_pos),
                -134217727 <= section_y <= 134217726,
                engine_frame(&self.engine, &old(self).engine),
                self@.checked == old(self)@.checked,
                self@.engine == spread_edge(
                    old(self).world(),
                    old(self)@.engine,
                    chunk_pos,
                    section_y as int,
                    direction,
                    j as int,
                ),
            decreases 256 - j,
        {
            self.engine.enqueue_increase(
                edge_block_pos(chunk_pos, section_y, direction, j),
                MAX_LIGHT_LEVEL,
                LightDirectionSet::only(direction),
                LightQueueFlags::empty(),
            );
            j += 1;
        }
    }

    fn block_state(&self, block_pos: BlockPos) -> (state: BlockStateId)
        requires
            self.wf(),
        ensures
            state == self.world().block_state(block_pos),
    {
        match self.engine.sections.layout().cached_block(block_pos) {
            Some(cached_block) => self.engine.cached_state(cached_block),
            None => self.engine.table.air(),
        }
    }

    fn get_light_level_extruded(&self, block_pos: BlockPos) -> (level: u8)
        requires
            self.wf(),
        ensures
            level == extruded_level(self.layout(), self@.engine.light, block_pos),
    {
        let layout: LightCacheLayout = self.engine.sections.layout();
        let section: SectionPos = SectionPos::from_block_pos(block_pos);
        if self.engine.light.has_non_null_section(section) {
            if let Some(cached_block) = layout.cached_block(block_pos) {
                return self.engine.light.get_updating(cached_block);
            }
        }
        let max_section_y: i32 = layout.range().max_section_y_exclusive();
        let mut section_y: i32 = section.y + 1;
        while section_y < max_section_y
            invariant
                self.wf(),
                layout == self.layout(),
                max_section_y == layout.section_range.max_y(),
                max_section_y <= 134217720,
                -134217728 <= section_y,
                extruded_level(layout, self@.engine.light, block_pos) == level_above(
                    layout,
                    self@.engine.light,
                    block_pos,
                    section_y as int,
                ),
            decreases max_section_y - section_y,
        {
            let above: BlockPos = BlockPos::new(block_pos.x, section_y * 16, block_pos.z);
            if self.engine.light.has_non_null_section(SectionPos::from_block_pos(above)) {
                if let Some(cached_block) = layout.cached_block(above) {
                    return self.engine.light.get_updating(cached_block);
                }
            }
            section_y += 1;
        }
        MAX_LIGHT_LEVEL
    }

    /// Brings sky light down a column from height `y`, if the block above is
    /// fully lit. Returns the height at which it stopped.
    fn try_propagate_skylight_inner(
        &mut self,
        x: i32,
        y: i32,
        z: i32,
        extrude_initialized: bool,
        delay: bool,
        delayed_increases: &mut Vec<PackedLightQueueEntry>,
    ) -> (stopped_y: i32)
        requires
            old(self).wf(),
            y < i32::MAX,
        ensures
            final(self).wf(),
            engine_frame(&final(self).engine, &old(self).engine),
            enter_column(
                old(self).world(),
                old(self)@,
                old(delayed_increases)@,
                x,
                z,
                extrude_initialized,
                delay,
                y as int,
            ) == (Descent {
                state: final(self)@,
                delayed: final(delayed_increases)@,
                y: stopped_y as int,
            }),
    {
        let above_pos: BlockPos = BlockPos::new(x, y + 1, z);
        if self.get_light_level_extruded(above_pos) != MAX_LIGHT_LEVEL {
            return y;
        }
        let chunk_pos: ChunkPos = ChunkPos::new(
            block_to_section_coord(x),
            block_to_section_coord(z),
        );
        self.check_null_section(chunk_pos, block_to_section_coord(y), extrude_initialized);
        let mut above_state: BlockStateId = self.block_state(above_pos);
        let min_y: i32 = self.engine.sections.layout().range().min_section_y() * 16;
        let ghost goal = descend(
            self.world(),
            self@,
            delayed_increases@,
            x,
            z,
            extrude_initialized,
            delay,
            above_state,
            y as int,
        );
        let mut y: i32 = y;
        while y >= min_y
            invariant_except_break
                self.wf(),
                engine_frame(&self.engine, &old(self).engine),
                self.world() == old(self).world(),
                chunk_pos == column_chunk(x, z),
                -134217728 <= chunk_pos.x <= 134217728,
                -134217728 <= chunk_pos.z <= 134217728,
                min_y == self.layout().section_range.min_y() * 16,
                min_y >= -2147483520,
                goal == descend(
                    self.world(),
                    self@,
                    delayed_increases@,
                    x,
                    z,
                    extrude_initialized,
                    delay,
                    above_state,
                    y as int,
                ),
            ensures
                self.wf(),
                engine_frame(&self.engine, &old(self).engine),
                goal == (Descent {
                    state: self@,
                    delayed: delayed_increases@,
                    y: y as int,
                }),
            decreases y - min_y + 1,
        {
            if section_relative_coord(y) == 15 {
                self.check_null_section(chunk_pos, block_to_section_coord(y), extrude_initialized);
            }
            let current_pos: BlockPos = BlockPos::new(x, y, z);
            let current_state: BlockStateId = self.block_state(current_pos);
            let dampening: u8 = self.engine.table.get(current_state).light_dampening;
            let into: u8 = get_light_block_into(
                self.engine.table,
                above_state,
                current_state,
                Direction::Down,
                dampening,
            );
            if into == LIGHT_BLOCKED || dampening > 0 {
                break ;
            }
            if !self.engine.light.has_non_null_section(SectionPos::from_block_pos(current_pos)) {
                above_state = self.engine.table.air();
                y = block_to_section_coord(y) * 16 - 1;
            } else {
                let flags: LightQueueFlags = self.engine.shape_flags(current_state);
                let entry: Option<PackedLightQueueEntry> = self.engine.enqueue_increase(
                    current_pos,
                    MAX_LIGHT_LEVEL,
                    LightDirectionSet::all_except(LightAxisDirection::PositiveY),
                    flags,
                );
                above_state = current_state;
                if delay {
                    if let Some(entry) = entry {
                        delayed_increases.push(entry);
                    }
                } else if let Some(cached_block) = self.engine.sections.layout().cached_block(
                    current_pos,
                ) {
                    self.engine.light.set(cached_block, MAX_LIGHT_LEVEL);
                }
                y -= 1;
            }
        }
        y
    }

    fn propagate_sky_sources_from_top(&mut self, chunk_pos: ChunkPos, highest_section: i32)
        requires
            old(self).wf(),
            chunk_in_world(chunk_pos),
            -134217727 <= highest_section <= 134217726,
        ensures
            final(self).wf(),
            engine_frame(&final(self).engine, &old(self).engine),
            final(self)@ == enter_columns(
                old(self).world(),
                old(self)@,
                chunk_pos,
                highest_section * 16 + 16,
                256,
            ),
    {
        let y: i32 = highest_section * 16 + 16;
        let mut c: i32 = 0;
        while c < 256
            invariant
                0 <= c <= 256,
                self.wf(),
                chunk_in_world(chunk_pos),
                y == highest_section * 16 + 16,
                y < i32::MAX,
                engine_frame(&self.engine, &old(self).engine),
                self@ == enter_columns(
                    old(self).world(),
                    old(self)@,
                    chunk_pos,
                    y as int,
                    c as int,
                ),
            decreases 256 - c,
        {
            let mut delayed: Vec<PackedLightQueueEntry> = Vec::new();
            self.try_propagate_skylight_inner(
                chunk_pos.x * 16 + c % 16,
                y,
                chunk_pos.z * 16 + c / 16,
                false,
                false,
                &mut delayed,
            );
            c += 1;
        }
    }

    fn remove_sky_sources_below(
        &mut self,
        x: i32,
        y: i32,
        z: i32,
        delayed_decreases: &mut Vec<PackedLightQueueEntry>,
    )
        requires
            old(self).wf(),
        ensures
            final(self).wf(),
            engine_frame(&final(self).engine, &old(self).engine),
            ({
                let removed = remove_column(
                    old(self).world(),
                    old(self)@,
                    old(delayed_decreases)@,
                    x,
                    z,
                    y as int,
                );
                &&& final(self)@ == removed.state
                &&& final(delayed_decreases)@ == removed.delayed
            }),
    {
        if self.get_light_level_extruded(BlockPos::new(x, y, z)) != MAX_LIGHT_LEVEL {
            return ;
        }
        let chunk_pos: ChunkPos = ChunkPos::new(
            block_to_section_coord(x),
            block_to_section_coord(z),
        );
        let min_y: i32 = self.engine.sections.layout().range().min_section_y() * 16;
        let ghost goal = remove_below(
            self.world(),
            self@,
            delayed_decreases@,
            x,
            z,
            y as int,
        );
        let mut y: i32 = y;
        while y >= min_y
            invariant_except_break
                self.wf(),
                engine_frame(&self.engine, &old(self).engine),
                self.world() == old(self).world(),
                chunk_pos == column_chunk(x, z),
                -134217728 <= chunk_pos.x <= 134217728,
                -134217728 <= chunk_pos.z <= 134217728,
                min_y == self.layout().section_range.min_y() * 16,
                min_y >= -2147483520,
                goal == remove_below(self.world(), self@, delayed_decreases@, x, z, y as int),
            ensures
                self.wf(),
                engine_frame(&self.engine, &old(self).engine),
                goal.state == self@,
                goal.delayed == delayed_decreases@,
            decreases y - min_y + 1,
        {
            if section_relative_coord(y) == 15 {
                self.check_null_section(chunk_pos, block_to_section_coord(y), true);
            }
            let current_pos: BlockPos = BlockPos::new(x, y, z);
            if !self.engine.light.has_non_null_section(SectionPos::from_block_pos(current_pos)) {
                y = block_to_section_coord(y) * 16 - 1;
            } else {
                let cached_block: CachedLightBlock =
                    match self.engine.sections.layout().cached_block(current_pos) {
                    Some(cached_block) => cached_block,
                    None => {
                        break ;
                    },
                };
                if self.engine.light.get_updating(cached_block) != MAX_LIGHT_LEVEL {
                    break ;
                }
                if let Some(entry) = self.engine.enqueue_decrease(
                    current_pos,
                    MAX_LIGHT_LEVEL,
                    LightDirectionSet::all_except(LightAxisDirection::PositiveY),
                    LightQueueFlags::empty(),
                ) {
                    delayed_decreases.push(entry);
                }
                y -= 1;
            }
        }
    }

    fn process_delayed(&mut self, entries: &Vec<PackedLightQueueEntry>, dark: bool)
        requires
            old(self).wf(),
        ensures
            final(self).wf(),
            final(self).differs_in_light(
                old(self),
                write_delayed(
                    old(self).layout(),
                    old(self)@.engine.light,
                    entries@,
                    dark,
                    entries@.len() as int,
                ),
            ),
    {
        let mut i: usize = 0;
        while i < entries.len()
            invariant
                i <= entries@.len(),
                self.wf(),
                self.differs_in_light(
                    old(self),
                    write_delayed(
                        old(self).layout(),
                        old(self)@.engine.light,
                        entries@,
                        dark,
                        i as int,
                    ),
                ),
            decreases entries@.len() - i,
        {
            if let Some(source_block) = self.engine.cached_block_from_entry(entries[i]) {
                let level: u8 = if dark {
                    0
                } else {
                    entries[i].level()
                };
                self.engine.light.set(source_block, level);
            }
            i += 1;
        }
    }
}

impl<'a> SkyLightPropagationContext<'a> {
    fn propagate_neighbor_level_section(
        &mut self,
        chunk_pos: ChunkPos,
        section_y: i32,
        direction: LightAxisDirection,
    )
        requires
            old(self).wf(),
            chunk_in_world(chunk_pos),
            -134217727 <= section_y <= 134217726,
        ensures
            final(self).wf(),
            engine_frame(&final(self).engine, &old(self).engine),
            final(self)@.checked == old(self)@.checked,
            final(self)@.engine == if section_view(
                old(self).layout(),
                old(self)@.engine.light,
                section_across(chunk_pos, section_y as int, direction),
            ).is_initialized() {
                pull_edge(
                    old(self).world(),
                    old(self)@.engine,
                    chunk_pos,
                    section_y as int,
                    direction,
                    256,
                )
            } else {
                old(self)@.engine
            },
    {
        if !self.has_initialized_section_across(chunk_pos, section_y, direction) {
            return ;
        }
        let mut j: i32 = 0;
        while j < 256
            invariant
                0 <= j <= 256,
                self.wf(),
                chunk_in_world(chunk_pos),
                -134217727 <= section_y <= 134217726,
                engine_frame(&self.engine, &old(self).engine),
                self@.checked == old(self)@.checked,
                self@.engine == pull_edge(
                    old(self).world(),
                    old(self)@.engine,
                    chunk_pos,
                    section_y as int,
                    direction,
                    j as int,
                ),
            decreases 256 - j,
        {
            let source_pos: BlockPos = edge_block_pos(chunk_pos, section_y, direction, j).relative(
                direction.direction(),
            );
            if let Some(source_block) = self.engine.sections.layout().cached_block(source_pos) {
                let level: u8 = self.engine.light.get_updating(source_block);
                if level > 1 {
                    self.engine.enqueue_increase(
                        source_pos,
                        level,
                        LightDirectionSet::only(direction.opposite()),
                        LightQueueFlags::sided(true),
                    );
                }
            }
            j += 1;
        }
    }

    /// Queues the levels that neighbor chunks pass into a chunk's lit sections,
    /// from the given sections down.
    pub fn propagate_neighbor_levels(
        &mut self,
        chunk_pos: ChunkPos,
        from_section: i32,
        to_section: i32,
    )
        requires
            old(self).wf(),
            chunk_in_world(chunk_pos),
            -134217727 <= from_section,
            to_section <= 134217726,
            to_section >= -134217730,
        ensures
            final(self).wf(),
            engine_frame(&final(self).engine, &old(self).engine),
            final(self)@.checked == old(self)@.checked,
            final(self)@.engine == pull_levels(
                old(self).world(),
                old(self)@.engine,
                chunk_pos,
                from_section as int,
                to_section as int,
            ),
    {
        let mut section_y: i32 = to_section;
        let ghost goal = pull_levels(
            self.world(),
            self@.engine,
            chunk_pos,
            from_section as int,
            to_section as int,
        );
        while section_y >= from_section
            invariant
                self.wf(),
                chunk_in_world(chunk_pos),
                -134217727 <= from_section,
                -134217730 <= section_y <= 134217726,
                engine_frame(&self.engine, &old(self).engine),
                self@.checked == old(self)@.checked,
                self.world() == old(self).world(),
                goal == pull_levels(
                    self.world(),
                    self@.engine,
                    chunk_pos,
                    from_section as int,
                    section_y as int,
                ),
            decreases section_y - from_section + 1,
        {
            if self.engine.light.has_non_null_section(
                SectionPos::new(chunk_pos.x, section_y, chunk_pos.z),
            ) {
                self.pull_edges(chunk_pos, section_y);
            }
            section_y -= 1;
        }
    }

    fn pull_edges(&mut self, chunk_pos: ChunkPos, section_y: i32)
        requires
            old(self).wf(),
            chunk_in_world(chunk_pos),
            -134217727 <= section_y <= 134217726,
        ensures
            final(self).wf(),
            engine_frame(&final(self).engine, &old(self).engine),
            final(self)@.checked == old(self)@.checked,
            final(self)@.engine == pull_edges(
                old(self).world(),
                old(self)@.engine,
                chunk_pos,
                section_y as int,
                4,
            ),
    {
        let mut i: usize = 0;
        while i < HORIZONTAL_DIRECTION_COUNT
            invariant
                i <= 4,
                self.wf(),
                chunk_in_world(chunk_pos),
                -134217727 <= section_y <= 134217726,
                engine_frame(&self.engine, &old(self).engine),
                self@.checked == old(self)@.checked,
                self@.engine == pull_edges(
                    old(self).world(),
                    old(self)@.engine,
                    chunk_pos,
                    section_y as int,
                    i as int,
                ),
            decreases 4 - i,
        {
            self.propagate_neighbor_level_section(
                chunk_pos,
                section_y,
                LightAxisDirection::from_index(i),
            );
            i += 1;
        }
    }

    /// Handles one sky-light opacity change.
    ///
    /// Returns false when the changed block is outside this cache window.
    pub fn check_block(&mut self, block_pos: BlockPos) -> (result: bool)
        requires
            old(self).wf(),
        ensures
            final(self).wf(),
            engine_frame(&final(self).engine, &old(self).engine),
            final(self)@.checked == old(self)@.checked,
            result == old(self).layout().has_block(block_pos),
            final(self)@.engine == sky_block_checked(
                old(self).engine.world(),
                old(self)@.engine,
                block_pos,
            ),
    {
        let cached_block: CachedLightBlock = match self.engine.sections.layout().cached_block(
            block_pos,
        ) {
            Some(cached_block) => cached_block,
            None => {
                return false;
            },
        };
        let current_level: u8 = self.engine.light.get_updating(cached_block);
        if current_level == MAX_LIGHT_LEVEL {
            self.engine.enqueue_increase(
                block_pos,
                current_level,
                LightDirectionSet::all(),
                LightQueueFlags::sided(true),
            );
        } else {
            self.engine.light.set(cached_block, 0);
        }
        self.engine.enqueue_decrease(
            block_pos,
            current_level,
            LightDirectionSet::all(),
            LightQueueFlags::empty(),
        );
        true
    }

    /// Calculates the sky-light value that should exist at `block_pos`.
    ///
    /// Returns `None` when the position is outside this cache window, unless
    /// full light is expected.
    #[must_use]
    pub fn calculate_light_value(&self, block_pos: BlockPos, expect: u8) -> (result: Option<u8>)
        requires
            self.wf(),
        ensures
            result == calculated_sky_level(
                self.engine.world(),
                self@.engine.light,
                block_pos,
                expect,
            ),
    {
        if expect == MAX_LIGHT_LEVEL {
            return Some(expect);
        }
        if self.engine.sections.layout().cached_block(block_pos).is_none() {
            return None;
        }
        Some(self.engine.take_level_from_around(block_pos, expect, 0))
    }

    fn is_block_wrong(&self, cached_block: CachedLightBlock) -> (result: bool)
        requires
            self.wf(),
            self.layout().has_block(cached_block.block_pos),
            cached_block == self.layout().cached(cached_block.block_pos),
            cached_block.section_slot < self.layout().slots(),
            cached_block.local_index < 4096,
        ensures
            result == sky_block_wrong(
                self.engine.world(),
                self@.engine.light,
                cached_block.block_pos,
            ),
    {
        let level: u8 = self.engine.light.get_updating(cached_block);
        match self.calculate_light_value(cached_block.block_pos, level) {
            Some(calculated) => calculated != level,
            None => false,
        }
    }

    fn check_chunk_edge_direction(
        &mut self,
        chunk_pos: ChunkPos,
        section_y: i32,
        direction: LightAxisDirection,
    )
        requires
            old(self).wf(),
            chunk_in_world(chunk_pos),
            -134217727 <= section_y <= 134217726,
        ensures
            final(self).wf(),
            engine_frame(&final(self).engine, &old(self).engine),
            final(self)@.checked == old(self)@.checked,
            final(self)@.engine == edge_checked(
                old(self).world(),
                old(self)@.engine,
                chunk_pos,
                section_y as int,
                direction,
            ),
    {
        let layout: LightCacheLayout = self.engine.sections.layout();
        let mut center_delayed_checks: Vec<BlockPos> = Vec::new();
        let mut neighbor_delayed_checks: Vec<BlockPos> = Vec::new();
        let ghost light = self@.engine.light;
        let mut j: i32 = 0;
        while j < 256
            invariant
                0 <= j <= 256,
                self.wf(),
                *self == *old(self),
                layout == self.layout(),
                light == self@.engine.light,
                chunk_in_world(chunk_pos),
                -134217727 <= section_y <= 134217726,
                center_delayed_checks@ == wrong_blocks(
                    self.world(),
                    light,
                    chunk_pos,
                    section_y as int,
                    direction,
                    false,
                    j as int,
                ),
                neighbor_delayed_checks@ == wrong_blocks(
                    self.world(),
                    light,
                    chunk_pos,
                    section_y as int,
                    direction,
                    true,
                    j as int,
                ),
            decreases 256 - j,
        {
            let current_pos: BlockPos = edge_block_pos(chunk_pos, section_y, direction, j);
            let neighbor_pos: BlockPos = current_pos.relative(direction.direction());
            match (layout.cached_block(current_pos), layout.cached_block(neighbor_pos)) {
                (Some(current_block), Some(neighbor_block)) => {
                    if self.is_block_wrong(current_block) {
                        center_delayed_checks.push(current_pos);
                    }
                    if self.is_block_wrong(neighbor_block) {
                        neighbor_delayed_checks.push(neighbor_pos);
                    }
                },
                _ => {},
            }
            j += 1;
        }
        let ghost start = self@.engine;
        let count: usize = if center_delayed_checks.len() < neighbor_delayed_checks.len() {
            neighbor_delayed_checks.len()
        } else {
            center_delayed_checks.len()
        };
        let mut i: usize = 0;
        while i < count
            invariant
                i <= count,
                self.wf(),
                engine_frame(&self.engine, &old(self).engine),
                self@.checked == old(self)@.checked,
                self@.engine == blocks_checked_in_turn(
                    old(self).engine.world(),
                    start,
                    center_delayed_checks@,
                    neighbor_delayed_checks@,
                    i as int,
                ),
            decreases count - i,
        {
            if i < center_delayed_checks.len() {
                self.check_block(center_delayed_checks[i]);
            }
            if i < neighbor_delayed_checks.len() {
                self.check_block(neighbor_delayed_checks[i]);
            }
            i += 1;
        }
    }

    fn check_chunk_edge(&mut self, chunk_pos: ChunkPos, section_y: i32)
        requires
            old(self).wf(),
            chunk_in_world(chunk_pos),
            -134217727 <= section_y <= 134217726,
        ensures
            final(self).wf(),
            engine_frame(&final(self).engine, &old(self).engine),
            final(self)@.checked == old(self)@.checked,
            final(self)@.engine == if section_view(
                old(self).layout(),
                old(self)@.engine.light,
                chunk_section(chunk_pos, section_y as int),
            ).is_lit() {
                edges_checked(
                    old(self).world(),
                    old(self)@.engine,
                    chunk_pos,
                    section_y as int,
                    4,
                )
            } else {
                old(self)@.engine
            },
    {
        let current_section_pos: SectionPos = SectionPos::new(
            chunk_pos.x,
            section_y,
            chunk_pos.z,
        );
        if !self.engine.light.has_non_null_section(current_section_pos) {
            return ;
        }
        let mut i: usize = 0;
        while i < HORIZONTAL_DIRECTION_COUNT
            invariant
                i <= 4,
                self.wf(),
                chunk_in_world(chunk_pos),
                -134217727 <= section_y <= 134217726,
                current_section_pos == chunk_section(chunk_pos, section_y as int),
                engine_frame(&self.engine, &old(self).engine),
                self@.checked == old(self)@.checked,
                self@.engine == edges_checked(
                    old(self).world(),
                    old(self)@.engine,
                    chunk_pos,
                    section_y as int,
                    i as int,
                ),
            decreases 4 - i,
        {
            let direction: LightAxisDirection = LightAxisDirection::from_index(i);
            if self.has_lit_section_across(chunk_pos, section_y, direction) {
                if self.engine.light.is_section_initialized_updating(current_section_pos)
                    || self.has_initialized_section_across(chunk_pos, section_y, direction) {
                    self.check_chunk_edge_direction(chunk_pos, section_y, direction);
                }
            }
            i += 1;
        }
    }

    fn check_chunk_edges(&mut self, chunk_pos: ChunkPos, from_section: i32, to_section: i32)
        requires
            old(self).wf(),
            chunk_in_world(chunk_pos),
            -134217727 <= from_section,
            -134217730 <= to_section <= 134217726,
        ensures
            final(self).wf(),
            engine_frame(&final(self).engine, &old(self).engine),
            final(self)@.checked == old(self)@.checked,
            final(self)@.engine == chunk_edges_checked(
                old(self).world(),
                old(self)@.engine,
                chunk_pos,
                from_section as int,
                to_section as int,
            ),
    {
        let mut section_y: i32 = to_section;
        let ghost goal = sections_checked(
            self.world(),
            self@.engine,
            chunk_pos,
            from_section as int,
            to_section as int,
        );
        while section_y >= from_section
            invariant
                self.wf(),
                chunk_in_world(chunk_pos),
                -134217727 <= from_section,
                -134217730 <= section_y <= 134217726,
                engine_frame(&self.engine, &old(self).engine),
                self@.checked == old(self)@.checked,
                self.world() == old(self).world(),
                goal == sections_checked(
                    self.world(),
                    self@.engine,
                    chunk_pos,
                    from_section as int,
                    section_y as int,
                ),
            decreases section_y - from_section + 1,
        {
            self.check_chunk_edge(chunk_pos, section_y);
            section_y -= 1;
        }
        let ghost before = self@.engine;
        self.engine.perform_light_decrease(false);
        proof {
            lemma_after_relight(old(self).engine.world(), false, before, self@.engine);
        }
    }

    fn check_null_sections(
        &mut self,
        chunk_pos: ChunkPos,
        extrude: bool,
        from_section: i32,
        to_section: i32,
    )
        requires
            old(self).wf(),
            chunk_in_world(chunk_pos),
            -134217727 <= from_section,
            -134217730 <= to_section <= 134217726,
        ensures
            final(self).wf(),
            engine_frame(&final(self).engine, &old(self).engine),
            final(self)@ == check_nulls(
                old(self).world(),
                old(self)@,
                chunk_pos,
                extrude,
                from_section as int,
                to_section as int,
            ),
    {
        let mut section_y: i32 = to_section;
        let ghost goal = check_nulls(
            self.world(),
            self@,
            chunk_pos,
            extrude,
            from_section as int,
            to_section as int,
        );
        while section_y >= from_section
            invariant
                self.wf(),
                chunk_in_world(chunk_pos),
                -134217727 <= from_section,
                -134217730 <= section_y <= 134217726,
                engine_frame(&self.engine, &old(self).engine),
                self.world() == old(self).world(),
                goal == check_nulls(
                    self.world(),
                    self@,
                    chunk_pos,
                    extrude,
                    from_section as int,
                    section_y as int,
                ),
            decreases section_y - from_section + 1,
        {
            self.check_null_section(chunk_pos, section_y, extrude);
            section_y -= 1;
        }
    }

    fn start_pass(&mut self)
        requires
            old(self).wf(),
        ensures
            final(self).wf(),
            engine_frame(&final(self).engine, &old(self).engine),
            final(self)@ == fresh_pass(old(self)@),
    {
        self.engine.light.rewrite_null_nibbles_for_skylight();
        let count: usize = self.null_section_checked.len();
        self.null_section_checked = vec![false; count];
        assert(self.null_section_checked@ =~= fresh_pass(old(self)@).checked);
    }

    fn light_empty_top(&mut self, chunk_pos: ChunkPos) -> (highest_non_empty_section: i32)
        requires
            old(self).wf(),
            chunk_in_world(chunk_pos),
        ensures
            final(self).wf(),
            engine_frame(&final(self).engine, &old(self).engine),
            final(self)@ == light_empty_top(
                old(self).world(),
                old(self)@,
                chunk_pos,
                old(self).world().max_chunk_y() - 1,
            ),
            highest_non_empty_section == top_filled(
                old(self).world(),
                chunk_pos,
                old(self).world().max_chunk_y() - 1,
            ),
            old(self).world().min_chunk_y() - 2 <= highest_non_empty_section
                < old(self).world().max_chunk_y(),
    {
        let range: LightSectionRange = self.engine.sections.layout().range();
        let min_section: i32 = range.min_chunk_section_y();
        let mut y: i32 = range.max_chunk_section_y_exclusive() - 1;
        let ghost sw = self.world();
        let ghost goal = light_empty_top(sw, self@, chunk_pos, sw.max_chunk_y() - 1);
        let ghost top = top_filled(sw, chunk_pos, sw.max_chunk_y() - 1);
        while y >= min_section - 1
            invariant
                self.wf(),
                chunk_in_world(chunk_pos),
                engine_frame(&self.engine, &old(self).engine),
                self.world() == old(self).world(),
                sw == self.world(),
                min_section == sw.min_chunk_y(),
                -134217719 <= min_section <= sw.max_chunk_y(),
                min_section - 2 <= y < sw.max_chunk_y(),
                sw.max_chunk_y() <= 134217720,
                goal == light_empty_top(sw, self@, chunk_pos, y as int),
                top == top_filled(sw, chunk_pos, y as int),
                goal == light_empty_top(old(self).world(), old(self)@, chunk_pos, sw.max_chunk_y() - 1),
                top == top_filled(old(self).world(), chunk_pos, sw.max_chunk_y() - 1),
            decreases y - min_section + 2,
        {
            if y != min_section - 1 && self.engine.sections.has_non_empty_section(
                SectionPos::new(chunk_pos.x, y, chunk_pos.z),
            ) {
                return y;
            }
            self.check_null_section(chunk_pos, y, false);
            self.propagate_full_empty_section_edges(chunk_pos, y);
            y -= 1;
        }
        y
    }

    /// Runs sky chunk lighting with the selected edge-check mode.
    pub fn light_chunk(&mut self, chunk_pos: ChunkPos, edge_checks: SkyLightChunkEdgeChecks)
        requires
            old(self).wf(),
            chunk_in_world(chunk_pos),
        ensures
            final(self).wf(),
            engine_frame(&final(self).engine, &old(self).engine),
            final(self)@ == chunk_lit(
                old(self).world(),
                old(self)@,
                chunk_pos,
                edge_checks == SkyLightChunkEdgeChecks::Required,
            ),
    {
        let range: LightSectionRange = self.engine.sections.layout().range();
        let bottom: i32 = range.min_section_y();
        self.start_pass();
        let top: i32 = self.light_empty_top(chunk_pos);
        if top >= range.min_chunk_section_y() {
            self.propagate_sky_sources_from_top(chunk_pos, top);
        }
        match edge_checks {
            SkyLightChunkEdgeChecks::Required => {
                let ghost before = self@.engine;
                self.engine.perform_light_increase();
                proof {
                    lemma_after_increase(old(self).engine.world(), before, self@.engine);
                }
                self.check_null_sections(chunk_pos, false, bottom, top);
                self.check_chunk_edges(chunk_pos, bottom, top);
            },
            SkyLightChunkEdgeChecks::Skipped => {
                self.check_null_sections(chunk_pos, false, bottom, top);
                self.propagate_neighbor_levels(chunk_pos, bottom, top);
                let ghost before = self@.engine;
                self.engine.perform_light_increase();
                proof {
                    lemma_after_increase(old(self).engine.world(), before, self@.engine);
                }
            },
        }
    }
}

impl<'a> SkyLightPropagationContext<'a> {
    fn initialize_changed_section_nibbles(&mut self, chunk_pos: ChunkPos, positions: &[BlockPos])
        requires
            old(self).wf(),
            chunk_in_world(chunk_pos),
        ensures
            final(self).wf(),
            final(self).differs_in_light(
                old(self),
                init_heights(
                    old(self).world(),
                    old(self)@.engine.light,
                    chunk_pos,
                    changed_heights(chunk_pos, positions@, positions@.len() as int),
                    changed_heights(chunk_pos, positions@, positions@.len() as int).len() as int,
                ),
            ),
    {
        let mut section_ys: Vec<i32> = Vec::new();
        let mut i: usize = 0;
        while i < positions.len()
            invariant
                i <= positions@.len(),
                section_ys@ == changed_heights(chunk_pos, positions@, i as int),
                forall|j: int|
                    0 <= j < section_ys@.len() ==> -134217728 <= #[trigger] section_ys@[j]
                        <= 134217727,
            decreases positions@.len() - i,
        {
            let position: BlockPos = positions[i];
            if block_to_section_coord(position.x) == chunk_pos.x && block_to_section_coord(
                position.z,
            ) == chunk_pos.z {
                let section_y: i32 = block_to_section_coord(position.y);
                if !contains_height(&section_ys, section_y) {
                    section_ys.push(section_y);
                }
            }
            i += 1;
        }
        let ghost heights = section_ys@;
        let mut i: usize = 0;
        while i < section_ys.len()
            invariant
                i <= section_ys@.len(),
                self.wf(),
                chunk_in_world(chunk_pos),
                heights == section_ys@,
                forall|j: int|
                    0 <= j < section_ys@.len() ==> -134217728 <= #[trigger] section_ys@[j]
                        <= 134217727,
                self.differs_in_light(
                    old(self),
                    init_heights(
                        old(self).world(),
                        old(self)@.engine.light,
                        chunk_pos,
                        heights,
                        i as int,
                    ),
                ),
            decreases section_ys@.len() - i,
        {
            let section_y: i32 = section_ys[i];
            if self.engine.sections.has_non_empty_section(
                SectionPos::new(chunk_pos.x, section_y, chunk_pos.z),
            ) {
                self.init_nibbles_around(chunk_pos, section_y, true);
            }
            i += 1;
        }
    }

    fn highest_changes(chunk_pos: ChunkPos, positions: &[BlockPos]) -> (highest: [i32; 256])
        ensures
            forall|column: int|
                0 <= column < 256 ==> #[trigger] highest@[column] == highest_change(
                    chunk_pos,
                    positions@,
                    column,
                    positions@.len() as int,
                ),
    {
        let mut highest: [i32; 256] = [i32::MIN; 256];
        let mut i: usize = 0;
        while i < positions.len()
            invariant
                i <= positions@.len(),
                forall|column: int|
                    0 <= column < 256 ==> #[trigger] highest@[column] == highest_change(
                        chunk_pos,
                        positions@,
                        column,
                        i as int,
                    ),
            decreases positions@.len() - i,
        {
            let position: BlockPos = positions[i];
            if block_to_section_coord(position.x) == chunk_pos.x && block_to_section_coord(
                position.z,
            ) == chunk_pos.z {
                let index: usize = section_relative_coord(position.x) + section_relative_coord(
                    position.z,
                ) * 16;
                assert(highest@[index as int] == highest_change(
                    chunk_pos,
                    positions@,
                    index as int,
                    i as int,
                ));
                if position.y > highest[index] {
                    highest[index] = position.y;
                }
            }
            i += 1;
        }
        highest
    }

    /// Handles sky-light source and opacity changes for blocks in the center chunk.
    pub fn propagate_block_changes(&mut self, positions: &[BlockPos])
        requires
            old(self).wf(),
            forall|i: int| 0 <= i < positions@.len() ==> (#[trigger] positions@[i]).y < i32::MAX,
        ensures
            final(self).wf(),
            engine_frame(&final(self).engine, &old(self).engine),
            final(self)@ == changes_propagated(old(self).world(), old(self)@, positions@),
    {
        self.start_pass();
        let chunk_pos: ChunkPos = self.engine.sections.layout().center_chunk();
        self.initialize_changed_section_nibbles(chunk_pos, positions);
        let ghost opened = self@;
        let highest: [i32; 256] = Self::highest_changes(chunk_pos, positions);
        let mut delayed_increases: Vec<PackedLightQueueEntry> = Vec::new();
        let mut delayed_decreases: Vec<PackedLightQueueEntry> = Vec::new();
        let mut c: usize = 0;
        while c < 256
            invariant
                c <= 256,
                self.wf(),
                engine_frame(&self.engine, &old(self).engine),
                self.world() == old(self).world(),
                chunk_pos == self.layout().center,
                chunk_in_world(chunk_pos),
                forall|i: int|
                    0 <= i < positions@.len() ==> (#[trigger] positions@[i]).y < i32::MAX,
                forall|column: int|
                    0 <= column < 256 ==> #[trigger] highest@[column] == highest_change(
                        chunk_pos,
                        positions@,
                        column,
                        positions@.len() as int,
                    ),
                change_columns(self.world(), opened, positions@, c as int) == (ColumnPass {
                    state: self@,
                    increases: delayed_increases@,
                    removals: delayed_decreases@,
                }),
            decreases 256 - c,
        {
            let max_y: i32 = highest[c];
            proof {
                lemma_highest_change_bound(
                    chunk_pos,
                    positions@,
                    c as int,
                    positions@.len() as int,
                );
            }
            if max_y != i32::MIN {
                let x: i32 = chunk_pos.x * 16 + (c % 16) as i32;
                let z: i32 = chunk_pos.z * 16 + (c / 16) as i32;
                let stopped_y: i32 = self.try_propagate_skylight_inner(
                    x,
                    max_y,
                    z,
                    true,
                    true,
                    &mut delayed_increases,
                );
                self.remove_sky_sources_below(x, stopped_y, z, &mut delayed_decreases);
            }
            c += 1;
        }
        let ghost pass = self@;
        self.process_delayed(&delayed_increases, false);
        self.process_delayed(&delayed_decreases, true);
        let ghost darkened = self@;
        let mut i: usize = 0;
        while i < positions.len()
            invariant
                i <= positions@.len(),
                self.wf(),
                engine_frame(&self.engine, &old(self).engine),
                self@.checked == darkened.checked,
                self@.engine == sky_blocks_checked(
                    old(self).engine.world(),
                    darkened.engine,
                    positions@,
                    i as int,
                ),
            decreases positions@.len() - i,
        {
            self.check_block(positions[i]);
            i += 1;
        }
        let ghost noted = self@.engine;
        self.engine.perform_light_decrease(false);
        proof {
            lemma_after_relight(old(self).engine.world(), false, noted, self@.engine);
        }
    }
}

fn contains_height(heights: &Vec<i32>, height: i32) -> (result: bool)
    ensures
        result == heights@.contains(height),
{
    let mut i: usize = 0;
    while i < heights.len()
        invariant
            i <= heights@.len(),
            forall|j: int| 0 <= j < i ==> heights@[j] != height,
        decreases heights@.len() - i,
    {
        if heights[i] == height {
            assert(heights@[i as int] == height);
            return true;
        }
        i += 1;
    }
    false
}

proof fn lemma_highest_change_bound(
    chunk_pos: ChunkPos,
    positions: Seq<BlockPos>,
    column: int,
    n: int,
)
    requires
        0 <= n <= positions.len(),
        forall|i: int| 0 <= i < positions.len() ==> (#[trigger] positions[i]).y < i32::MAX,
    ensures
        highest_change(chunk_pos, positions, column, n) < i32::MAX,
    decreases n,
{
    if n > 0 {
        lemma_highest_change_bound(chunk_pos, positions, column, n - 1);
        assert(positions[n - 1].y < i32::MAX);
    }
}

impl<'a> SkyLightPropagationContext<'a> {
    /// Looks at every height of the center chunk for null sections, and checks
    /// its edges.
    pub fn check_center_edges(&mut self)
        requires
            old(self).wf(),
        ensures
            final(self).wf(),
            engine_frame(&final(self).engine, &old(self).engine),
            ({
                let sw = old(self).world();
                let range = sw.layout().section_range;
                let center = sw.layout().center;
                let looked = check_nulls(
                    sw,
                    fresh_pass(old(self)@),
                    center,
                    true,
                    range.min_y(),
                    range.max_y() - 1,
                );
                &&& final(self)@.checked == looked.checked
                &&& final(self)@.engine == chunk_edges_checked(
                    sw,
                    looked.engine,
                    center,
                    range.min_y(),
                    range.max_y() - 1,
                )
            }),
    {
        let layout: LightCacheLayout = self.engine.sections.layout();
        let bottom: i32 = layout.range().min_section_y();
        let top: i32 = layout.range().max_section_y_exclusive() - 1;
        self.start_pass();
        self.check_null_sections(layout.center_chunk(), true, bottom, top);
        self.check_chunk_edges(layout.center_chunk(), bottom, top);
    }
}

} // verus!
