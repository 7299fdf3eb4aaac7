//! How light spreads: one step of a propagation queue, and what runs of steps
//! do.
use vstd::prelude::*;

use crate::block_state::{BlockStateId, BlockStateTable};
use crate::cache::{CachedLightBlock, LightCacheLayout};
use crate::light_cache::SlotView;
use crate::packed_queue::{
    axis_bit, LightAxisDirection, LightDirectionSet, LightQueueFlags, PackedLightQueueEntry,
    PackedQueuesView,
};
use crate::position::BlockPos;

verus! {

/// The blocks that light passes through.
pub struct LightWorld<'a> {
    /// The cache window.
    pub layout: LightCacheLayout,
    /// The state of each block, by section slot and local index.
    pub states: spec_fn(int, int) -> BlockStateId,
    /// The properties of the states.
    pub table: &'a BlockStateTable,
}

/// The light of the window and the work that waits.
#[verifier::ext_equal]
pub struct EngineState {
    /// The light of each section slot.
    pub light: Seq<SlotView>,
    /// The queues.
    pub queues: PackedQueuesView,
}

impl<'a> LightWorld<'a> {
    /// The state of a cached block.
    pub open spec fn state(self, block: CachedLightBlock) -> BlockStateId {
        (self.states)(block.section_slot as int, block.local_index as int)
    }

    /// The emission of a state, masked to a light level.
    pub open spec fn emission(self, state: BlockStateId) -> u8 {
        (self.table.info(state).light_emission % 16) as u8
    }

    /// What light loses on its way from one state into another.
    pub open spec fn loss(
        self,
        from: BlockStateId,
        to: BlockStateId,
        direction: LightAxisDirection,
    ) -> u8 {
        self.table.light_block_into(
            from,
            to,
            direction.spec_direction(),
            self.table.opacity(to),
        )
    }

    /// The flags of work that starts at a block of the given state.
    pub open spec fn shape_flags(self, state: BlockStateId) -> LightQueueFlags {
        LightQueueFlags {
            write_level: false,
            recheck_level: false,
            has_sided_transparent_blocks: self.table.light_shape(state) != 0,
        }
    }

    /// The state that light leaves: air, unless the entry says that the source
    /// has occluding faces.
    pub open spec fn source_state(
        self,
        entry: PackedLightQueueEntry,
        source: CachedLightBlock,
    ) -> BlockStateId {
        if entry.flags().has_sided_transparent_blocks {
            self.state(source)
        } else {
            self.table.spec_air()
        }
    }
}

/// The level of a cached block.
pub open spec fn level_of(light: Seq<SlotView>, block: CachedLightBlock) -> u8 {
    light[block.section_slot as int].level(block.local_index as int)
}

/// The light after a cached block's level was set.
pub open spec fn set_block(light: Seq<SlotView>, block: CachedLightBlock, level: u8) -> Seq<
    SlotView,
> {
    light.update(
        block.section_slot as int,
        light[block.section_slot as int].with_level(block.local_index as int, level),
    )
}

/// The directions that lead on, but not back.
pub open spec fn onward(direction: LightAxisDirection) -> LightDirectionSet {
    LightDirectionSet(63 & !axis_bit(direction.spec_opposite()))
}

/// The entry for a block, where it can be packed.
pub open spec fn entry_for(
    layout: LightCacheLayout,
    pos: BlockPos,
    level: u8,
    directions: LightDirectionSet,
    flags: LightQueueFlags,
) -> PackedLightQueueEntry {
    PackedLightQueueEntry::of(layout.encoded(pos), level, directions, flags)
}

/// The state after increase work for a block was queued. Blocks outside of the
/// queue window queue nothing.
pub open spec fn queue_increase(
    layout: LightCacheLayout,
    s: EngineState,
    pos: BlockPos,
    level: u8,
    directions: LightDirectionSet,
    flags: LightQueueFlags,
) -> EngineState {
    if layout.can_encode(pos) {
        EngineState {
            queues: PackedQueuesView {
                increase: s.queues.increase.push(entry_for(layout, pos, level, directions, flags)),
                ..s.queues
            },
            ..s
        }
    } else {
        s
    }
}

/// The state after decrease work for a block was queued. Blocks outside of the
/// queue window queue nothing.
pub open spec fn queue_decrease(
    layout: LightCacheLayout,
    s: EngineState,
    pos: BlockPos,
    level: u8,
    directions: LightDirectionSet,
    flags: LightQueueFlags,
) -> EngineState {
    if layout.can_encode(pos) {
        EngineState {
            queues: PackedQueuesView {
                decrease: s.queues.decrease.push(entry_for(layout, pos, level, directions, flags)),
                ..s.queues
            },
            ..s
        }
    } else {
        s
    }
}

/// The neighbor of a block in the window that light may enter: its section is
/// cached and not null.
pub open spec fn open_neighbor(
    w: LightWorld<'_>,
    light: Seq<SlotView>,
    pos: BlockPos,
    direction: LightAxisDirection,
) -> Option<CachedLightBlock> {
    let neighbor = pos.spec_relative(direction.spec_direction());
    if w.layout.has_block(neighbor) && light[w.layout.cached(
        neighbor,
    ).section_slot as int].is_lit() {
        Some(w.layout.cached(neighbor))
    } else {
        None
    }
}

/// What an increase does in one direction: a neighbor that would be brighter
/// takes the level that is left after the way into it, and spreads it on.
pub open spec fn increase_into(
    w: LightWorld<'_>,
    s: EngineState,
    level: u8,
    from: BlockStateId,
    pos: BlockPos,
    direction: LightAxisDirection,
) -> EngineState {
    match open_neighbor(w, s.light, pos, direction) {
        None => s,
        Some(neighbor) => {
            let current = level_of(s.light, neighbor);
            let to = w.state(neighbor);
            let loss = w.loss(from, to, direction);
            if current + 1 >= level || loss == 16 || loss >= level || level - loss <= current {
                s
            } else {
                let target = (level - loss) as u8;
                let lit = EngineState { light: set_block(s.light, neighbor, target), ..s };
                if target > 1 {
                    queue_increase(
                        w.layout,
                        lit,
                        neighbor.block_pos,
                        target,
                        onward(direction),
                        w.shape_flags(to),
                    )
                } else {
                    lit
                }
            }
        },
    }
}

/// What a decrease does in one direction: a neighbor that is no brighter than
/// what came from here becomes dark and spreads its darkness, one that emits
/// light gets it back, and a brighter one spreads its own light again.
pub open spec fn decrease_into(
    w: LightWorld<'_>,
    emits: bool,
    s: EngineState,
    level: u8,
    from: BlockStateId,
    pos: BlockPos,
    direction: LightAxisDirection,
) -> EngineState {
    match open_neighbor(w, s.light, pos, direction) {
        None => s,
        Some(neighbor) => {
            let current = level_of(s.light, neighbor);
            let to = w.state(neighbor);
            let loss = w.loss(from, to, direction);
            if current == 0 || loss == 16 {
                s
            } else {
                let target = if loss >= level {
                    0u8
                } else {
                    (level - loss) as u8
                };
                let flags = w.shape_flags(to);
                if current > target {
                    queue_increase(
                        w.layout,
                        s,
                        neighbor.block_pos,
                        current,
                        LightDirectionSet(63),
                        LightQueueFlags { recheck_level: true, ..flags },
                    )
                } else {
                    let restored = if emits && w.emission(to) != 0 {
                        queue_increase(
                            w.layout,
                            s,
                            neighbor.block_pos,
                            w.emission(to),
                            LightDirectionSet(63),
                            LightQueueFlags { write_level: true, ..flags },
                        )
                    } else {
                        s
                    };
                    let darkened = EngineState {
                        light: set_block(restored.light, neighbor, 0),
                        ..restored
                    };
                    if target > 0 {
                        queue_decrease(
                            w.layout,
                            darkened,
                            neighbor.block_pos,
                            target,
                            onward(direction),
                            flags,
                        )
                    } else {
                        darkened
                    }
                }
            }
        },
    }
}

/// An increase in the first `n` directions.
pub open spec fn increase_around(
    w: LightWorld<'_>,
    s: EngineState,
    entry: PackedLightQueueEntry,
    from: BlockStateId,
    pos: BlockPos,
    n: int,
) -> EngineState
    decreases n,
{
    if n <= 0 {
        s
    } else {
        let before = increase_around(w, s, entry, from, pos, n - 1);
        let direction = LightAxisDirection::at(n - 1);
        if entry.spec_directions().has(direction) {
            increase_into(w, before, entry.spec_level(), from, pos, direction)
        } else {
            before
        }
    }
}

/// A decrease in the first `n` directions.
pub open spec fn decrease_around(
    w: LightWorld<'_>,
    emits: bool,
    s: EngineState,
    entry: PackedLightQueueEntry,
    from: BlockStateId,
    pos: BlockPos,
    n: int,
) -> EngineState
    decreases n,
{
    if n <= 0 {
        s
    } else {
        let before = decrease_around(w, emits, s, entry, from, pos, n - 1);
        let direction = LightAxisDirection::at(n - 1);
        if entry.spec_directions().has(direction) {
            decrease_into(w, emits, before, entry.spec_level(), from, pos, direction)
        } else {
            before
        }
    }
}

/// The cached block that an entry starts from.
pub open spec fn entry_source(
    layout: LightCacheLayout,
    entry: PackedLightQueueEntry,
) -> Option<CachedLightBlock> {
    match layout.decoded(entry.pos()) {
        Some(pos) => if layout.has_block(pos) {
            Some(layout.cached(pos))
        } else {
            None
        },
        None => None,
    }
}

/// The state after the first increase entry was worked off.
pub open spec fn increase_step(w: LightWorld<'_>, s: EngineState) -> EngineState {
    if s.queues.increase.len() == 0 {
        s
    } else {
        let entry = s.queues.increase[0];
        let popped = EngineState {
            queues: PackedQueuesView { increase: s.queues.increase.skip(1), ..s.queues },
            ..s
        };
        match entry_source(w.layout, entry) {
            None => popped,
            Some(source) => if entry.flags().recheck_level && level_of(popped.light, source)
                != entry.spec_level() {
                popped
            } else {
                let written = if !entry.flags().recheck_level && entry.flags().write_level {
                    EngineState {
                        light: set_block(popped.light, source, entry.spec_level()),
                        ..popped
                    }
                } else {
                    popped
                };
                increase_around(
                    w,
                    written,
                    entry,
                    w.source_state(entry, source),
                    source.block_pos,
                    6,
                )
            },
        }
    }
}

/// The state after the first decrease entry was worked off.
pub open spec fn decrease_step(w: LightWorld<'_>, emits: bool, s: EngineState) -> EngineState {
    if s.queues.decrease.len() == 0 {
        s
    } else {
        let entry = s.queues.decrease[0];
        let popped = EngineState {
            queues: PackedQueuesView { decrease: s.queues.decrease.skip(1), ..s.queues },
            ..s
        };
        match entry_source(w.layout, entry) {
            None => popped,
            Some(source) => decrease_around(
                w,
                emits,
                popped,
                entry,
                w.source_state(entry, source),
                source.block_pos,
                6,
            ),
        }
    }
}

/// The state after `n` increase steps.
pub open spec fn increase_steps(w: LightWorld<'_>, s: EngineState, n: nat) -> EngineState
    decreases n,
{
    if n == 0 {
        s
    } else {
        increase_step(w, increase_steps(w, s, (n - 1) as nat))
    }
}

/// The state after `n` decrease steps.
pub open spec fn decrease_steps(
    w: LightWorld<'_>,
    emits: bool,
    s: EngineState,
    n: nat,
) -> EngineState
    decreases n,
{
    if n == 0 {
        s
    } else {
        decrease_step(w, emits, decrease_steps(w, emits, s, (n - 1) as nat))
    }
}

/// Increase work was done until none was left.
pub open spec fn increase_done(
    w: LightWorld<'_>,
    before: EngineState,
    after: EngineState,
) -> bool {
    exists|n: nat|
        #[trigger] increase_steps(w, before, n) == after && after.queues.increase.len() == 0
}

/// Decrease work was done until none was left.
pub open spec fn decrease_done(
    w: LightWorld<'_>,
    emits: bool,
    before: EngineState,
    after: EngineState,
) -> bool {
    exists|n: nat|
        #[trigger] decrease_steps(w, emits, before, n) == after && after.queues.decrease.len()
            == 0
}

/// Decrease work was done, and then increase work.
pub open spec fn relight_done(
    w: LightWorld<'_>,
    emits: bool,
    before: EngineState,
    after: EngineState,
) -> bool {
    exists|middle: EngineState|
        decrease_done(w, emits, before, middle) && #[trigger] increase_done(w, middle, after)
}

proof fn lemma_increase_idle(w: LightWorld<'_>, s: EngineState, n: nat, k: nat)
    requires
        n <= k,
        increase_steps(w, s, n).queues.increase.len() == 0,
    ensures
        increase_steps(w, s, k) == increase_steps(w, s, n),
    decreases k,
{
    if n < k {
        lemma_increase_idle(w, s, n, (k - 1) as nat);
    }
}

proof fn lemma_decrease_idle(w: LightWorld<'_>, emits: bool, s: EngineState, n: nat, k: nat)
    requires
        n <= k,
        decrease_steps(w, emits, s, n).queues.decrease.len() == 0,
    ensures
        decrease_steps(w, emits, s, k) == decrease_steps(w, emits, s, n),
    decreases k,
{
    if n < k {
        lemma_decrease_idle(w, emits, s, n, (k - 1) as nat);
    }
}

/// The outcome of increase work is determined by its start.
pub proof fn increase_is_deterministic(
    w: LightWorld<'_>,
    before: EngineState,
    a: EngineState,
    b: EngineState,
)
    requires
        increase_done(w, before, a),
        increase_done(w, before, b),
    ensures
        a == b,
{
    let n = choose|n: nat|
        #[trigger] increase_steps(w, before, n) == a && a.queues.increase.len() == 0;
    let k = choose|n: nat|
        #[trigger] increase_steps(w, before, n) == b && b.queues.increase.len() == 0;
    if n <= k {
        lemma_increase_idle(w, before, n, k);
    } else {
        lemma_increase_idle(w, before, k, n);
    }
}

/// The outcome of decrease work is determined by its start.
pub proof fn decrease_is_deterministic(
    w: LightWorld<'_>,
    emits: bool,
    before: EngineState,
    a: EngineState,
    b: EngineState,
)
    requires
        decrease_done(w, emits, before, a),
        decrease_done(w, emits, before, b),
    ensures
        a == b,
{
    let n = choose|n: nat|
        #[trigger] decrease_steps(w, emits, before, n) == a && a.queues.decrease.len() == 0;
    let k = choose|n: nat|
        #[trigger] decrease_steps(w, emits, before, n) == b && b.queues.decrease.len() == 0;
    if n <= k {
        lemma_decrease_idle(w, emits, before, n, k);
    } else {
        lemma_decrease_idle(w, emits, before, k, n);
    }
}

/// The outcome of relighting is determined by its start.
pub proof fn relight_is_deterministic(
    w: LightWorld<'_>,
    emits: bool,
    before: EngineState,
    a: EngineState,
    b: EngineState,
)
    requires
        relight_done(w, emits, before, a),
        relight_done(w, emits, before, b),
    ensures
        a == b,
{
    let middle_a = choose|middle: EngineState|
        decrease_done(w, emits, before, middle) && #[trigger] increase_done(w, middle, a);
    let middle_b = choose|middle: EngineState|
        decrease_done(w, emits, before, middle) && #[trigger] increase_done(w, middle, b);
    decrease_is_deterministic(w, emits, before, middle_a, middle_b);
    increase_is_deterministic(w, middle_a, a, b);
}

/// The state that increase work leads to.
pub open spec fn after_increase(w: LightWorld<'_>, before: EngineState) -> EngineState {
    choose|after: EngineState| #[trigger] increase_done(w, before, after)
}

/// The state that relighting leads to.
pub open spec fn after_relight(w: LightWorld<'_>, emits: bool, before: EngineState) -> EngineState {
    choose|after: EngineState| #[trigger] relight_done(w, emits, before, after)
}

/// Increase work that was done led to the one state that it leads to.
pub proof fn lemma_after_increase(w: LightWorld<'_>, before: EngineState, after: EngineState)
    requires
        increase_done(w, before, after),
    ensures
        after == after_increase(w, before),
{
    increase_is_deterministic(w, before, after, after_increase(w, before));
}

/// Relighting that was done led to the one state that it leads to.
pub proof fn lemma_after_relight(
    w: LightWorld<'_>,
    emits: bool,
    before: EngineState,
    after: EngineState,
)
    requires
        relight_done(w, emits, before, after),
    ensures
        after == after_relight(w, emits, before),
{
    relight_is_deterministic(w, emits, before, after, after_relight(w, emits, before));
}

} // verus!
