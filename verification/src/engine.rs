//! Light propagation over the cached sections of a window.
use vstd::prelude::*;

use crate::block_state::{
    get_light_block_into, get_light_opacity, light_occlusion_shape, BlockStateId, BlockStateTable,
};
use crate::cache::{CachedLightBlock, LightCacheLayout};
use crate::engine_measure::{
    lemma_decrease_step, lemma_increase_step, lemma_total_light, room_for_light, state_valid,
    total_light, write_count,
};
use crate::engine_model::{
    decrease_around, decrease_done, decrease_into, decrease_step, decrease_steps, entry_for,
    entry_source, increase_around, increase_done, increase_into, increase_step, increase_steps,
    level_of, open_neighbor, queue_decrease, queue_increase, relight_done, set_block, EngineState,
    LightWorld,
};
use crate::light_cache::{same_frame, LightLayerWriteCache, LightSectionReadCache};
use crate::packed::mask_level;
use crate::packed_queue::{
    AXIS_DIRECTION_COUNT, LightAxisDirection, LightDirectionSet, LightQueueFlags,
    PackedLightPropagationQueues, PackedLightQueueEntry,
};
use crate::position::{section_coord, BlockPos};
use crate::LIGHT_BLOCKED;

verus! {

/// The caches and queues of one lighting operation.
pub struct LightEngine<'a> {
    /// The properties of the block states.
    pub table: &'a BlockStateTable,
    /// The sections that are read.
    pub sections: &'a LightSectionReadCache<'a>,
    /// The light that is written.
    pub light: LightLayerWriteCache,
    /// The work that waits.
    pub queues: PackedLightPropagationQueues,
}

/// The blocks that cached sections hold.
pub open spec fn world_of<'a>(
    table: &'a BlockStateTable,
    sections: &LightSectionReadCache<'a>,
) -> LightWorld<'a> {
    LightWorld {
        layout: sections.spec_layout(),
        states: |slot: int, index: int| sections.state_at(table, slot, index),
        table,
    }
}

/// Everything but the light and the work is the same.
pub open spec fn engine_frame(a: &LightEngine<'_>, b: &LightEngine<'_>) -> bool {
    &&& a.table == b.table
    &&& a.sections == b.sections
    &&& same_frame(&a.light, &b.light)
}

/// A block of a window within the world has neighbors.
pub proof fn lemma_window_has_neighbors(layout: LightCacheLayout, pos: BlockPos)
    requires
        layout.wf(),
        layout.in_world(),
        layout.has_block(pos),
    ensures
        pos.has_neighbors(),
        -2147483640 <= pos.y <= 2147483640,
{
    assert(section_coord(pos.x as int) * 16 <= pos.x < section_coord(pos.x as int) * 16 + 16);
    assert(section_coord(pos.y as int) * 16 <= pos.y < section_coord(pos.y as int) * 16 + 16);
    assert(section_coord(pos.z as int) * 16 <= pos.z < section_coord(pos.z as int) * 16 + 16);
}

impl<'a> View for LightEngine<'a> {
    type V = EngineState;

    open spec fn view(&self) -> EngineState {
        EngineState { light: self.light@, queues: self.queues@ }
    }
}

impl<'a> LightEngine<'a> {
    /// The blocks that light passes through.
    pub open spec fn world(&self) -> LightWorld<'a> {
        world_of(self.table, self.sections)
    }

    /// The window.
    pub open spec fn layout(&self) -> LightCacheLayout {
        self.sections.spec_layout()
    }

    /// The parts are well formed and share one window within the world.
    pub open spec fn wf(&self) -> bool {
        &&& self.table.wf()
        &&& self.sections.wf()
        &&& self.light.wf()
        &&& self.queues.wf()
        &&& self.light.spec_layout() == self.sections.spec_layout()
        &&& self.sections.spec_layout().in_world()
    }

    /// The state of a well-formed engine is valid.
    pub proof fn lemma_state_valid(&self)
        requires
            self.wf(),
        ensures
            state_valid(self.world(), self@),
    {
        self.light.view_valid();
    }

    /// Queues increase work for a block, and returns its entry when the block
    /// lies in the queue window.
    pub fn enqueue_increase(
        &mut self,
        block_pos: BlockPos,
        level: u8,
        directions: LightDirectionSet,
        flags: LightQueueFlags,
    ) -> (result: Option<PackedLightQueueEntry>)
        requires
            old(self).wf(),
        ensures
            final(self).wf(),
            engine_frame(final(self), old(self)),
            final(self)@ == queue_increase(
                old(self).layout(),
                old(self)@,
                block_pos,
                level,
                directions,
                flags,
            ),
            result == if old(self).layout().can_encode(block_pos) {
                Some(entry_for(old(self).layout(), block_pos, level, directions, flags))
            } else {
                None
            },
    {
        match self.sections.layout().encode_block_pos(block_pos) {
            None => None,
            Some(packed_pos) => {
                let entry: PackedLightQueueEntry = PackedLightQueueEntry::from_parts(
                    packed_pos,
                    level,
                    directions,
                    flags,
                );
                self.queues.enqueue_increase(entry);
                Some(entry)
            },
        }
    }

    /// Queues decrease work for a block, and returns its entry when the block
    /// lies in the queue window.
    pub fn enqueue_decrease(
        &mut self,
        block_pos: BlockPos,
        level: u8,
        directions: LightDirectionSet,
        flags: LightQueueFlags,
    ) -> (result: Option<PackedLightQueueEntry>)
        requires
            old(self).wf(),
        ensures
            final(self).wf(),
            engine_frame(final(self), old(self)),
            final(self)@ == queue_decrease(
                old(self).layout(),
                old(self)@,
                block_pos,
                level,
                directions,
                flags,
            ),
            result == if old(self).layout().can_encode(block_pos) {
                Some(entry_for(old(self).layout(), block_pos, level, directions, flags))
            } else {
                None
            },
    {
        match self.sections.layout().encode_block_pos(block_pos) {
            None => None,
            Some(packed_pos) => {
                let entry: PackedLightQueueEntry = PackedLightQueueEntry::from_parts(
                    packed_pos,
                    level,
                    directions,
                    flags,
                );
                self.queues.enqueue_decrease(entry);
                Some(entry)
            },
        }
    }

    /// Returns the state of a cached block.
    #[must_use]
    pub fn cached_state(&self, block: CachedLightBlock) -> (state: BlockStateId)
        requires
            self.wf(),
            block.section_slot < self.layout().slots(),
            block.local_index < 4096,
        ensures
            state == self.world().state(block),
    {
        self.sections.get_block_state(self.table, block)
    }

    /// Returns the flags of work that starts at a block of the given state.
    #[must_use]
    pub fn shape_flags(&self, state: BlockStateId) -> (flags: LightQueueFlags)
        requires
            self.wf(),
        ensures
            flags == self.world().shape_flags(state),
    {
        LightQueueFlags::sided(light_occlusion_shape(self.table, state) != 0)
    }

    /// Returns the cached block that an entry starts from.
    #[must_use]
    pub fn cached_block_from_entry(&self, entry: PackedLightQueueEntry) -> (result: Option<
        CachedLightBlock,
    >)
        requires
            self.wf(),
        ensures
            result == entry_source(self.layout(), entry),
            result matches Some(block) ==> block.section_slot < self.layout().slots()
                && block.local_index < 4096 && self.layout().has_block(block.block_pos),
    {
        self.sections.layout().cached_block_from_packed(entry.block_pos())
    }

    fn open_neighbor(&self, pos: BlockPos, direction: LightAxisDirection) -> (result: Option<
        CachedLightBlock,
    >)
        requires
            self.wf(),
            self.layout().has_block(pos),
        ensures
            result == open_neighbor(self.world(), self@.light, pos, direction),
            result matches Some(block) ==> block.section_slot < self.layout().slots()
                && block.local_index < 4096 && self.layout().has_block(block.block_pos),
    {
        proof {
            lemma_window_has_neighbors(self.layout(), pos);
        }
        let neighbor_pos: BlockPos = pos.relative(direction.direction());
        match self.sections.layout().cached_block(neighbor_pos) {
            None => None,
            Some(neighbor) => {
                if self.light.has_non_null_updating(neighbor) {
                    Some(neighbor)
                } else {
                    None
                }
            },
        }
    }

    fn loss(&self, from: BlockStateId, to: BlockStateId, direction: LightAxisDirection) -> (loss:
        u8)
        requires
            self.wf(),
        ensures
            loss == self.world().loss(from, to, direction),
    {
        get_light_block_into(
            self.table,
            from,
            to,
            direction.direction(),
            get_light_opacity(self.table, to),
        )
    }

    fn source_state(&self, entry: PackedLightQueueEntry, source: CachedLightBlock) -> (state:
        BlockStateId)
        requires
            self.wf(),
            source.section_slot < self.layout().slots(),
            source.local_index < 4096,
        ensures
            state == self.world().source_state(entry, source),
    {
        if entry.has_sided_transparent_blocks() {
            self.cached_state(source)
        } else {
            self.table.air()
        }
    }

    fn spread_increase(
        &mut self,
        level: u8,
        from: BlockStateId,
        pos: BlockPos,
        direction: LightAxisDirection,
    )
        requires
            old(self).wf(),
            old(self).layout().has_block(pos),
            level < 16,
        ensures
            final(self).wf(),
            engine_frame(final(self), old(self)),
            final(self)@ == increase_into(
                old(self).world(),
                old(self)@,
                level,
                from,
                pos,
                direction,
            ),
    {
        let neighbor: CachedLightBlock = match self.open_neighbor(pos, direction) {
            Some(neighbor) => neighbor,
            None => {
                return ;
            },
        };
        let current: u8 = self.light.get_updating(neighbor);
        if current + 1 >= level {
            return ;
        }
        let to: BlockStateId = self.cached_state(neighbor);
        let loss: u8 = self.loss(from, to, direction);
        if loss == LIGHT_BLOCKED || loss >= level {
            return ;
        }
        let target: u8 = level - loss;
        if target <= current {
            return ;
        }
        self.light.set(neighbor, target);
        if target > 1 {
            let flags: LightQueueFlags = self.shape_flags(to);
            self.enqueue_increase(
                neighbor.block_pos,
                target,
                LightDirectionSet::all_except_opposite(direction),
                flags,
            );
        }
    }

    fn spread_decrease(
        &mut self,
        emits: bool,
        level: u8,
        from: BlockStateId,
        pos: BlockPos,
        direction: LightAxisDirection,
    )
        requires
            old(self).wf(),
            old(self).layout().has_block(pos),
            level < 16,
        ensures
            final(self).wf(),
            engine_frame(final(self), old(self)),
            final(self)@ == decrease_into(
                old(self).world(),
                emits,
                old(self)@,
                level,
                from,
                pos,
                direction,
            ),
    {
        let neighbor: CachedLightBlock = match self.open_neighbor(pos, direction) {
            Some(neighbor) => neighbor,
            None => {
                return ;
            },
        };
        let current: u8 = self.light.get_updating(neighbor);
        if current == 0 {
            return ;
        }
        let to: BlockStateId = self.cached_state(neighbor);
        let loss: u8 = self.loss(from, to, direction);
        if loss == LIGHT_BLOCKED {
            return ;
        }
        let target: u8 = if loss >= level {
            0
        } else {
            level - loss
        };
        let flags: LightQueueFlags = self.shape_flags(to);
        if current > target {
            self.enqueue_increase(
                neighbor.block_pos,
                current,
                LightDirectionSet::all(),
                flags.with_recheck_level(),
            );
            return ;
        }
        if emits {
            let emitted: u8 = mask_level(self.table.get(to).light_emission);
            if emitted != 0 {
                self.enqueue_increase(
                    neighbor.block_pos,
                    emitted,
                    LightDirectionSet::all(),
                    flags.with_write_level(),
                );
            }
        }
        self.light.set(neighbor, 0);
        if target > 0 {
            self.enqueue_decrease(
                neighbor.block_pos,
                target,
                LightDirectionSet::all_except_opposite(direction),
                flags,
            );
        }
    }

    fn spread_increase_around(
        &mut self,
        entry: PackedLightQueueEntry,
        from: BlockStateId,
        pos: BlockPos,
    )
        requires
            old(self).wf(),
            old(self).layout().has_block(pos),
        ensures
            final(self).wf(),
            engine_frame(final(self), old(self)),
            final(self)@ == increase_around(old(self).world(), old(self)@, entry, from, pos, 6),
    {
        let mut i: usize = 0;
        while i < AXIS_DIRECTION_COUNT
            invariant
                i <= 6,
                self.wf(),
                engine_frame(self, old(self)),
                self.layout().has_block(pos),
                self@ == increase_around(
                    old(self).world(),
                    old(self)@,
                    entry,
                    from,
                    pos,
                    i as int,
                ),
            decreases 6 - i,
        {
            let direction: LightAxisDirection = LightAxisDirection::from_index(i);
            if entry.directions().contains(direction) {
                self.spread_increase(entry.level(), from, pos, direction);
            }
            i += 1;
        }
    }

    fn spread_decrease_around(
        &mut self,
        emits: bool,
        entry: PackedLightQueueEntry,
        from: BlockStateId,
        pos: BlockPos,
    )
        requires
            old(self).wf(),
            old(self).layout().has_block(pos),
        ensures
            final(self).wf(),
            engine_frame(final(self), old(self)),
            final(self)@ == decrease_around(
                old(self).world(),
                emits,
                old(self)@,
                entry,
                from,
                pos,
                6,
            ),
    {
        let mut i: usize = 0;
        while i < AXIS_DIRECTION_COUNT
            invariant
                i <= 6,
                self.wf(),
                engine_frame(self, old(self)),
                self.layout().has_block(pos),
                self@ == decrease_around(
                    old(self).world(),
                    emits,
                    old(self)@,
                    entry,
                    from,
                    pos,
                    i as int,
                ),
            decreases 6 - i,
        {
            let direction: LightAxisDirection = LightAxisDirection::from_index(i);
            if entry.directions().contains(direction) {
                self.spread_decrease(emits, entry.level(), from, pos, direction);
            }
            i += 1;
        }
    }

    /// Works off the increase queue.
    pub fn perform_light_increase(&mut self)
        requires
            old(self).wf(),
        ensures
            final(self).wf(),
            engine_frame(final(self), old(self)),
            increase_done(old(self).world(), old(self)@, final(self)@),
            final(self)@.queues.increase.len() == 0,
            final(self)@.queues.decrease == old(self)@.queues.decrease,
    {
        let ghost w = self.world();
        let ghost start = self@;
        let ghost mut n: nat = 0;
        proof {
            self.lemma_state_valid();
        }
        loop
            invariant
                self.wf(),
                engine_frame(self, old(self)),
                w == old(self).world(),
                w == self.world(),
                start == old(self)@,
                state_valid(w, self@),
                self@ == increase_steps(w, start, n),
                self@.queues.decrease == start.queues.decrease,
            decreases
                    write_count(self@.queues.increase),
                    room_for_light(self@.light),
                    self@.queues.increase.len(),
        {
            let ghost before = self@;
            proof {
                lemma_total_light(before.light);
                if before.queues.increase.len() > 0 {
                    lemma_increase_step(w, before);
                    lemma_total_light(increase_step(w, before).light);
                }
            }
            let entry: PackedLightQueueEntry = match self.queues.dequeue_increase() {
                Some(entry) => entry,
                None => {
                    assert(increase_steps(w, start, n) == self@);
                    return ;
                },
            };
            self.increase_from(entry);
            proof {
                assert(self@ == increase_step(w, before));
                n = n + 1;
            }
        }
    }

    fn increase_from(&mut self, entry: PackedLightQueueEntry)
        requires
            old(self).wf(),
        ensures
            final(self).wf(),
            engine_frame(final(self), old(self)),
            final(self)@ == match entry_source(old(self).layout(), entry) {
                None => old(self)@,
                Some(source) => if entry.flags().recheck_level && level_of(
                    old(self)@.light,
                    source,
                ) != entry.spec_level() {
                    old(self)@
                } else {
                    let written = if !entry.flags().recheck_level && entry.flags().write_level {
                        EngineState {
                            light: set_block(old(self)@.light, source, entry.spec_level()),
                            ..old(self)@
                        }
                    } else {
                        old(self)@
                    };
                    increase_around(
                        old(self).world(),
                        written,
                        entry,
                        old(self).world().source_state(entry, source),
                        source.block_pos,
                        6,
                    )
                },
            },
    {
        let source: CachedLightBlock = match self.cached_block_from_entry(entry) {
            Some(source) => source,
            None => {
                return ;
            },
        };
        if entry.should_recheck_level() {
            if self.light.get_updating(source) != entry.level() {
                return ;
            }
        } else if entry.should_write_level() {
            self.light.set(source, entry.level());
        }
        let from: BlockStateId = self.source_state(entry, source);
        self.spread_increase_around(entry, from, source.block_pos);
    }

    /// Works off the decrease queue, and then the increase queue. Blocks that
    /// emit light get it back when `emits` says so.
    pub fn perform_light_decrease(&mut self, emits: bool)
        requires
            old(self).wf(),
        ensures
            final(self).wf(),
            engine_frame(final(self), old(self)),
            relight_done(old(self).world(), emits, old(self)@, final(self)@),
            final(self)@.queues.increase.len() == 0,
            final(self)@.queues.decrease.len() == 0,
    {
        self.work_off_decreases(emits);
        let ghost middle = self@;
        self.perform_light_increase();
        assert(increase_done(old(self).world(), middle, self@));
    }

    fn work_off_decreases(&mut self, emits: bool)
        requires
            old(self).wf(),
        ensures
            final(self).wf(),
            engine_frame(final(self), old(self)),
            decrease_done(old(self).world(), emits, old(self)@, final(self)@),
            final(self)@.queues.decrease.len() == 0,
    {
        let ghost w = self.world();
        let ghost start = self@;
        let ghost mut n: nat = 0;
        proof {
            self.lemma_state_valid();
        }
        loop
            invariant
                self.wf(),
                engine_frame(self, old(self)),
                w == old(self).world(),
                w == self.world(),
                start == old(self)@,
                state_valid(w, self@),
                self@ == decrease_steps(w, emits, start, n),
            decreases total_light(self@.light), self@.queues.decrease.len(),
        {
            let ghost before = self@;
            proof {
                lemma_total_light(before.light);
                if before.queues.decrease.len() > 0 {
                    lemma_decrease_step(w, emits, before);
                    lemma_total_light(decrease_step(w, emits, before).light);
                }
            }
            let entry: PackedLightQueueEntry = match self.queues.dequeue_decrease() {
                Some(entry) => entry,
                None => {
                    assert(decrease_steps(w, emits, start, n) == self@);
                    return ;
                },
            };
            if let Some(source) = self.cached_block_from_entry(entry) {
                let from: BlockStateId = self.source_state(entry, source);
                self.spread_decrease_around(emits, entry, from, source.block_pos);
            }
            proof {
                assert(self@ == decrease_step(w, emits, before));
                n = n + 1;
            }
        }
    }
}

} // verus!
