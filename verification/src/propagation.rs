//! Block-light propagation.
use vstd::prelude::*;

use crate::block_state::{get_light_block_into, get_light_opacity, BlockStateId, BlockStateTable};
use crate::cache::{CachedLightBlock, LightCacheLayout};
use crate::engine::{engine_frame, lemma_window_has_neighbors, world_of, LightEngine};
use crate::engine_model::{
    increase_done, level_of, queue_decrease, queue_increase, relight_done, set_block, EngineState,
    LightWorld,
};
use crate::light_cache::{
    dirty_sections, same_frame, LightLayerWriteCache, LightSectionReadCache, SlotView,
};
use crate::packed::mask_level;
use crate::packed_queue::{
    AXIS_DIRECTION_COUNT, LightAxisDirection, LightDirectionSet, LightQueueFlags,
    PackedLightPropagationQueues, PackedQueuesView,
};
use crate::position::{BlockPos, SectionPos};
use crate::{LIGHT_BLOCKED, LightLayer, MAX_LIGHT_LEVEL};

verus! {

/// Error returned when a block-light propagation context is built from mismatched caches.
#[derive(Debug, Clone, Copy, PartialEq, Eq, Structural)]
pub enum BlockLightPropagationContextError {
    /// Block-light propagation requires a block light write cache.
    WrongLayer {
        /// Layer supplied by the write cache.
        layer: LightLayer,
    },
    /// Section and light caches were built from different cache layouts.
    LayoutMismatch {
        /// Layout used by the section cache.
        section_layout: LightCacheLayout,
        /// Layout used by the light cache.
        light_layout: LightCacheLayout,
    },
}

/// Sections whose visible block-light data changed during a scoped update.
#[derive(Debug, PartialEq, Eq)]
pub struct BlockLightUpdateResult {
    /// Light sections that should be reported to the world/chunk update layer.
    pub updated_sections: Vec<SectionPos>,
}

/// No flags.
pub open spec fn no_flags() -> LightQueueFlags {
    LightQueueFlags {
        write_level: false,
        recheck_level: false,
        has_sided_transparent_blocks: false,
    }
}

/// The state after a block's source or opacity change was noted: the block
/// takes the light it emits and spreads it, and what it had before decreases.
pub open spec fn block_checked(w: LightWorld<'_>, s: EngineState, pos: BlockPos) -> EngineState {
    if !w.layout.has_block(pos) {
        s
    } else {
        let block = w.layout.cached(pos);
        let state = w.state(block);
        let emitted = w.emission(state);
        let current = level_of(s.light, block);
        let written = EngineState { light: set_block(s.light, block, emitted), ..s };
        let increased = if emitted != 0 {
            queue_increase(
                w.layout,
                written,
                pos,
                emitted,
                LightDirectionSet(63),
                w.shape_flags(state),
            )
        } else {
            written
        };
        queue_decrease(w.layout, increased, pos, current, LightDirectionSet(63), no_flags())
    }
}

/// The state after the first `n` changes were noted.
pub open spec fn blocks_checked(
    w: LightWorld<'_>,
    s: EngineState,
    positions: Seq<BlockPos>,
    n: int,
) -> EngineState
    decreases n,
{
    if n <= 0 {
        s
    } else {
        block_checked(w, blocks_checked(w, s, positions, n - 1), positions[n - 1])
    }
}

/// The level that a block has from one neighbor, if that is more than it has.
pub open spec fn level_from(
    w: LightWorld<'_>,
    light: Seq<SlotView>,
    pos: BlockPos,
    level: u8,
    direction: LightAxisDirection,
) -> u8 {
    let neighbor_pos = pos.spec_relative(direction.spec_direction());
    let center = w.state(w.layout.cached(pos));
    let opacity = w.table.opacity(center);
    if !w.layout.has_block(neighbor_pos) {
        level
    } else {
        let neighbor = w.layout.cached(neighbor_pos);
        let neighbor_level = level_of(light, neighbor);
        if neighbor_level <= level + 1 || w.table.light_block_into(
            w.state(neighbor),
            center,
            direction.spec_opposite().spec_direction(),
            opacity,
        ) == 16 || neighbor_level <= opacity || neighbor_level - opacity <= level {
            level
        } else {
            (neighbor_level - opacity) as u8
        }
    }
}

/// The level that a block has from its neighbors from direction `i` on. The
/// search ends as soon as the level exceeds what is expected.
pub open spec fn level_from_around(
    w: LightWorld<'_>,
    light: Seq<SlotView>,
    pos: BlockPos,
    expect: u8,
    level: u8,
    i: int,
) -> u8
    decreases 6 - i,
{
    if i >= 6 {
        level
    } else {
        let next = level_from(w, light, pos, level, LightAxisDirection::at(i));
        if next > expect {
            next
        } else {
            level_from_around(w, light, pos, expect, next, i + 1)
        }
    }
}

/// The block-light level that a block should have.
pub open spec fn calculated_block_level(
    w: LightWorld<'_>,
    light: Seq<SlotView>,
    pos: BlockPos,
    expect: u8,
) -> Option<u8> {
    if !w.layout.has_block(pos) {
        None
    } else {
        let center = w.state(w.layout.cached(pos));
        let emitted = w.emission(center);
        if emitted >= 14 || emitted > expect || w.table.opacity(center) >= 15 {
            Some(emitted)
        } else {
            Some(level_from_around(w, light, pos, expect, emitted, 0))
        }
    }
}

impl<'a> LightEngine<'a> {
    /// Raises a block's level to what it has from one neighbor.
    fn take_level_from(&self, pos: BlockPos, level: u8, direction: LightAxisDirection) -> (result:
        u8)
        requires
            self.wf(),
            self.layout().has_block(pos),
            level < 16,
        ensures
            result == level_from(self.world(), self@.light, pos, level, direction),
            level <= result < 16,
    {
        proof {
            lemma_window_has_neighbors(self.layout(), pos);
        }
        let layout: LightCacheLayout = self.sections.layout();
        let block: CachedLightBlock = match layout.cached_block(pos) {
            Some(block) => block,
            None => {
                return level;
            },
        };
        let neighbor: CachedLightBlock = match layout.cached_block(
            pos.relative(direction.direction()),
        ) {
            Some(neighbor) => neighbor,
            None => {
                return level;
            },
        };
        let neighbor_level: u8 = self.light.get_updating(neighbor);
        if neighbor_level <= level + 1 {
            return level;
        }
        let center_state: BlockStateId = self.cached_state(block);
        let opacity: u8 = get_light_opacity(self.table, center_state);
        let neighbor_state: BlockStateId = self.cached_state(neighbor);
        if get_light_block_into(
            self.table,
            neighbor_state,
            center_state,
            direction.opposite().direction(),
            opacity,
        ) == LIGHT_BLOCKED {
            return level;
        }
        if neighbor_level <= opacity || neighbor_level - opacity <= level {
            level
        } else {
            neighbor_level - opacity
        }
    }

    /// Returns the level that a block has from its neighbors, or the first one
    /// found that exceeds what is expected.
    pub fn take_level_from_around(&self, pos: BlockPos, expect: u8, level: u8) -> (result: u8)
        requires
            self.wf(),
            self.layout().has_block(pos),
            level < 16,
        ensures
            result == level_from_around(self.world(), self@.light, pos, expect, level, 0),
    {
        let mut current: u8 = level;
        let mut i: usize = 0;
        while i < AXIS_DIRECTION_COUNT
            invariant
                self.wf(),
                self.layout().has_block(pos),
                current < 16,
                i <= 6,
                level_from_around(self.world(), self@.light, pos, expect, level, 0)
                    == level_from_around(
                    self.world(),
                    self@.light,
                    pos,
                    expect,
                    current,
                    i as int,
                ),
            decreases 6 - i,
        {
            current = self.take_level_from(pos, current, LightAxisDirection::from_index(i));
            if current > expect {
                return current;
            }
            i += 1;
        }
        current
    }
}

/// Block-light propagation over the cached sections of a window.
pub struct BlockLightPropagationContext<'a> {
    /// The caches and queues.
    pub engine: LightEngine<'a>,
}

impl<'a> BlockLightPropagationContext<'a> {
    /// The engine is well formed and works on block light.
    pub open spec fn wf(&self) -> bool {
        self.engine.wf() && self.engine.light.spec_layer() == LightLayer::Block
    }

    /// Creates a block-light propagation context from matching caches.
    pub fn new(
        table: &'a BlockStateTable,
        sections: &'a LightSectionReadCache<'a>,
        light: LightLayerWriteCache,
        queues: PackedLightPropagationQueues,
    ) -> (result: Result<Self, BlockLightPropagationContextError>)
        requires
            table.wf(),
            sections.wf(),
            light.wf(),
            queues.wf(),
            sections.spec_layout().in_world(),
        ensures
            match result {
                Ok(context) => {
                    &&& context.wf()
                    &&& context.engine == (LightEngine { table, sections, light, queues })
                },
                Err(BlockLightPropagationContextError::WrongLayer { layer }) => {
                    &&& light.spec_layer() != LightLayer::Block
                    &&& layer == light.spec_layer()
                },
                Err(
                    BlockLightPropagationContextError::LayoutMismatch {
                        section_layout,
                        light_layout,
                    },
                ) => {
                    &&& light.spec_layer() == LightLayer::Block
                    &&& section_layout == sections.spec_layout()
                    &&& light_layout == light.spec_layout()
                    &&& section_layout != light_layout
                },
            },
    {
        if light.layer() != LightLayer::Block {
            return Err(
                BlockLightPropagationContextError::WrongLayer { layer: light.layer() },
            );
        }
        if sections.layout() != light.layout() {
            return Err(
                BlockLightPropagationContextError::LayoutMismatch {
                    section_layout: sections.layout(),
                    light_layout: light.layout(),
                },
            );
        }
        Ok(BlockLightPropagationContext { engine: LightEngine { table, sections, light, queues } })
    }

    /// Handles one block-light source or opacity change.
    ///
    /// Returns false when the changed block is outside this cache window.
    pub fn check_block(&mut self, block_pos: BlockPos) -> (result: bool)
        requires
            old(self).wf(),
        ensures
            final(self).wf(),
            engine_frame(&final(self).engine, &old(self).engine),
            result == old(self).engine.layout().has_block(block_pos),
            final(self).engine@ == block_checked(
                old(self).engine.world(),
                old(self).engine@,
                block_pos,
            ),
    {
        let cached_block: CachedLightBlock = match self.engine.sections.layout().cached_block(
            block_pos,
        ) {
            Some(cached_block) => cached_block,
            None => {
                return false;
            },
        };
        let current_level: u8 = self.engine.light.get_updating(cached_block);
        let block_state: BlockStateId = self.engine.cached_state(cached_block);
        let emitted_level: u8 = mask_level(self.engine.table.get(block_state).light_emission);
        self.engine.light.set(cached_block, emitted_level);
        if emitted_level != 0 {
            let flags: LightQueueFlags = self.engine.shape_flags(block_state);
            self.engine.enqueue_increase(
                block_pos,
                emitted_level,
                LightDirectionSet::all(),
                flags,
            );
        }
        self.engine.enqueue_decrease(
            block_pos,
            current_level,
            LightDirectionSet::all(),
            LightQueueFlags::empty(),
        );
        true
    }

    /// Calculates the block-light value that should exist at `block_pos`.
    ///
    /// Returns `None` when the position is outside this cache window.
    #[must_use]
    pub fn calculate_light_value(&self, block_pos: BlockPos, expect: u8) -> (result: Option<u8>)
        requires
            self.wf(),
        ensures
            result == calculated_block_level(
                self.engine.world(),
                self.engine@.light,
                block_pos,
                expect,
            ),
    {
        let cached_block: CachedLightBlock = match self.engine.sections.layout().cached_block(
            block_pos,
        ) {
            Some(cached_block) => cached_block,
            None => {
                return None;
            },
        };
        let center_state: BlockStateId = self.engine.cached_state(cached_block);
        let level: u8 = mask_level(self.engine.table.get(center_state).light_emission);
        if level >= MAX_LIGHT_LEVEL - 1 || level > expect {
            return Some(level);
        }
        if get_light_opacity(self.engine.table, center_state) >= MAX_LIGHT_LEVEL {
            return Some(level);
        }
        Some(self.engine.take_level_from_around(block_pos, expect, level))
    }

    /// Performs queued block-light decreases, then re-propagates increases.
    pub fn perform_light_decrease(&mut self)
        requires
            old(self).wf(),
        ensures
            final(self).wf(),
            engine_frame(&final(self).engine, &old(self).engine),
            relight_done(
                old(self).engine.world(),
                true,
                old(self).engine@,
                final(self).engine@,
            ),
            final(self).engine@.queues.increase.len() == 0,
            final(self).engine@.queues.decrease.len() == 0,
    {
        self.engine.perform_light_decrease(true);
    }

    /// Performs queued block-light increases.
    pub fn perform_light_increase(&mut self)
        requires
            old(self).wf(),
        ensures
            final(self).wf(),
            engine_frame(&final(self).engine, &old(self).engine),
            increase_done(old(self).engine.world(), old(self).engine@, final(self).engine@),
            final(self).engine@.queues.increase.len() == 0,
            final(self).engine@.queues.decrease == old(self).engine@.queues.decrease,
    {
        self.engine.perform_light_increase();
    }
}

/// An engine state without queued work.
pub open spec fn idle_state(light: Seq<SlotView>) -> EngineState {
    EngineState {
        light,
        queues: PackedQueuesView { increase: Seq::empty(), decrease: Seq::empty() },
    }
}

/// Runs block-light propagation for changed blocks.
///
/// Changed blocks are noted, light is propagated, and changes are published.
/// The window is that of the caches; the caller delivers returned section
/// updates to the world/chunk notification layer.
pub fn propagate_block_light_changes<'a>(
    table: &'a BlockStateTable,
    sections: &'a LightSectionReadCache<'a>,
    light: &mut LightLayerWriteCache,
    positions: &[BlockPos],
) -> (result: Result<BlockLightUpdateResult, BlockLightPropagationContextError>)
    requires
        table.wf(),
        sections.wf(),
        old(light).wf(),
        sections.spec_layout().in_world(),
    ensures
        final(light).wf(),
        same_frame(final(light), old(light)),
        match result {
            Ok(update) => {
                &&& old(light).spec_layer() == LightLayer::Block
                &&& old(light).spec_layout() == sections.spec_layout()
                &&& exists|relit: EngineState|
                    {
                        &&& #[trigger] relight_done(
                            world_of(table, sections),
                            true,
                            blocks_checked(
                                world_of(table, sections),
                                idle_state(old(light)@),
                                positions@,
                                positions@.len() as int,
                            ),
                            relit,
                        )
                        &&& final(light)@ == relit.light.map_values(
                            |slot: SlotView| slot.published(),
                        )
                        &&& update.updated_sections@ == dirty_sections(
                            sections.spec_layout(),
                            relit.light,
                            relit.light.len() as int,
                        )
                    }
            },
            Err(BlockLightPropagationContextError::WrongLayer { layer }) => {
                &&& old(light).spec_layer() != LightLayer::Block
                &&& layer == old(light).spec_layer()
                &&& final(light)@ == old(light)@
            },
            Err(
                BlockLightPropagationContextError::LayoutMismatch { section_layout, light_layout },
            ) => {
                &&& old(light).spec_layer() == LightLayer::Block
                &&& section_layout == sections.spec_layout()
                &&& light_layout == old(light).spec_layout()
                &&& section_layout != light_layout
                &&& final(light)@ == old(light)@
            },
        },
{
    let layer: LightLayer = light.layer();
    if layer != LightLayer::Block {
        return Err(BlockLightPropagationContextError::WrongLayer { layer });
    }
    let layout: LightCacheLayout = sections.layout();
    if layout != light.layout() {
        return Err(
            BlockLightPropagationContextError::LayoutMismatch {
                section_layout: layout,
                light_layout: light.layout(),
            },
        );
    }
    let ghost start = idle_state(light@);
    let ghost w = world_of(table, sections);
    let mut taken: LightLayerWriteCache = LightLayerWriteCache::new(layout, layer);
    std::mem::swap(light, &mut taken);
    let mut context: BlockLightPropagationContext<'a> = BlockLightPropagationContext {
        engine: LightEngine {
            table,
            sections,
            light: taken,
            queues: PackedLightPropagationQueues::new(),
        },
    };
    assert(context.engine@ =~= start);
    let mut i: usize = 0;
    while i < positions.len()
        invariant
            i <= positions@.len(),
            context.wf(),
            w == context.engine.world(),
            context.engine.table == table,
            context.engine.sections == sections,
            same_frame(&context.engine.light, old(light)),
            context.engine@ == blocks_checked(w, start, positions@, i as int),
        decreases positions@.len() - i,
    {
        context.check_block(positions[i]);
        i += 1;
    }
    context.perform_light_decrease();
    let ghost relit = context.engine@;
    let updated_sections: Vec<SectionPos> = context.engine.light.update_visible();
    std::mem::swap(light, &mut context.engine.light);
    assert(relight_done(w, true, blocks_checked(w, start, positions@, positions@.len() as int), relit));
    Ok(BlockLightUpdateResult { updated_sections })
}

} // verus!
