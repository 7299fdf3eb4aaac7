//! Where block light comes from: decrease work makes dark what nothing supports,
//! and increase work gives nothing that is not there.
use vstd::prelude::*;

use crate::balance::{
    all_honest, balanced_or_pending, has_or_gets, increase_popped, increase_started, is_honest,
    is_promised, is_writing, lemma_can_encode_has_block, lemma_increase_steps_balance,
    lemma_onward_has, lemma_popped_promise, lemma_promise_stays, lemma_relative_back,
    lemma_set_block_levels, lemma_started_has_or_gets, lemma_started_levels, level_at, next_raises,
    queue_grew, world_plain, writes_raise,
};
use crate::block_state::BlockStateId;
use crate::cache::LightCacheLayout;
use crate::engine::lemma_window_has_neighbors;
use crate::engine_laws::{lemma_decrease_around_darkens, lemma_decrease_steps_darken};
use crate::engine_measure::{
    lemma_cached_block, lemma_increase_into, lemma_onward, lemma_set_block, state_valid,
};
use crate::engine_model::{
    decrease_around, decrease_done, decrease_into, decrease_steps, entry_for, entry_source,
    increase_around, increase_into, increase_steps, level_of, onward, open_neighbor,
    queue_decrease, queue_increase, set_block, EngineState, LightWorld,
};
use crate::light_cache::{slot_valid, SlotView};
use crate::packed_queue::{
    LightAxisDirection, LightDirectionSet, LightQueueFlags, PackedLightQueueEntry,
    PackedQueuesView,
};
use crate::position::BlockPos;
use crate::relight::{lemma_queued_entry, lemma_unlit_is_dark, strayed};

verus! {

/// How far a coordinate lies beyond the sixteen of a chunk.
pub open spec fn beyond(coord: int, chunk: int) -> int {
    if coord < chunk * 16 {
        chunk * 16 - coord
    } else if coord > chunk * 16 + 15 {
        coord - chunk * 16 - 15
    } else {
        0
    }
}

/// A block with a level that came from the active chunk lies near it.
pub open spec fn is_near(layout: LightCacheLayout, pos: BlockPos, level: int) -> bool {
    beyond(pos.x as int, layout.center.x as int) + level <= 15 && beyond(
        pos.z as int,
        layout.center.z as int,
    ) + level <= 15
}

/// Decrease work has not gone farther than levels carry it.
pub open spec fn decreases_near(w: LightWorld<'_>, s: EngineState) -> bool {
    forall|k: int|
        0 <= k < s.queues.decrease.len() ==> (entry_source(
            w.layout,
            #[trigger] s.queues.decrease[k],
        ) matches Some(source) ==> is_near(
            w.layout,
            source.block_pos,
            s.queues.decrease[k].spec_level() as int,
        ))
}

/// Blocks outside of the queue window have the levels that they had.
pub open spec fn same_outside(w: LightWorld<'_>, before: Seq<SlotView>, after: Seq<SlotView>) -> bool {
    forall|pos: BlockPos|
        w.layout.has_block(pos) && !w.layout.can_encode(pos) ==> #[trigger] level_at(w, after, pos)
            == level_at(w, before, pos)
}

pub proof fn lemma_near_can_encode(w: LightWorld<'_>, pos: BlockPos, level: int)
    requires
        w.layout.has_block(pos),
        is_near(w.layout, pos, level),
        level >= 0,
    ensures
        w.layout.can_encode(pos),
{
}

proof fn lemma_decrease_into_near(
    w: LightWorld<'_>,
    emits: bool,
    s: EngineState,
    level: u8,
    from: BlockStateId,
    source: BlockPos,
    direction: LightAxisDirection,
)
    requires
        world_plain(w),
        state_valid(w, s),
        w.layout.has_block(source),
        level < 16,
        is_near(w.layout, source, level as int),
        decreases_near(w, s),
    ensures
        ({
            let after = decrease_into(w, emits, s, level, from, source, direction);
            &&& decreases_near(w, after)
            &&& same_outside(w, s.light, after.light)
        }),
{
    let after = decrease_into(w, emits, s, level, from, source, direction);
    let at = source.spec_relative(direction.spec_direction());
    lemma_window_has_neighbors(w.layout, source);
    if let Some(neighbor) = open_neighbor(w, s.light, source, direction) {
        assert(neighbor == w.layout.cached(at));
        let current = level_of(s.light, neighbor);
        let to = w.state(neighbor);
        let loss = w.loss(from, to, direction);
        let target = if loss >= level {
            0u8
        } else {
            (level - loss) as u8
        };
        assert(loss >= 1);
        if current != 0 && loss != 16 && current <= target {
            lemma_near_can_encode(w, at, target as int);
            lemma_onward(direction);
            lemma_queued_entry(w, at, target, onward(direction), w.shape_flags(to));
            let last = after.queues.decrease.len() - 1;
            assert(last == s.queues.decrease.len());
            assert forall|k: int| 0 <= k < after.queues.decrease.len() implies (entry_source(
                w.layout,
                #[trigger] after.queues.decrease[k],
            ) matches Some(b) ==> is_near(
                w.layout,
                b.block_pos,
                after.queues.decrease[k].spec_level() as int,
            )) by {
                if k < last {
                    assert(after.queues.decrease[k] == s.queues.decrease[k]);
                }
            }
            assert forall|pos: BlockPos|
                w.layout.has_block(pos) && !w.layout.can_encode(pos) implies #[trigger] level_at(
                w,
                after.light,
                pos,
            ) == level_at(w, s.light, pos) by {
                lemma_set_block_levels(w, s.light, at, 0, pos);
            }
        } else {
            assert(after.light == s.light);
            assert(after.queues.decrease == s.queues.decrease);
        }
    }
}

proof fn lemma_decrease_around_near(
    w: LightWorld<'_>,
    emits: bool,
    s: EngineState,
    entry: PackedLightQueueEntry,
    from: BlockStateId,
    source: BlockPos,
    n: int,
)
    requires
        world_plain(w),
        state_valid(w, s),
        w.layout.has_block(source),
        is_near(w.layout, source, entry.spec_level() as int),
        decreases_near(w, s),
    ensures
        ({
            let after = decrease_around(w, emits, s, entry, from, source, n);
            &&& decreases_near(w, after)
            &&& same_outside(w, s.light, after.light)
        }),
    decreases n,
{
    if n > 0 {
        lemma_decrease_around_near(w, emits, s, entry, from, source, n - 1);
        lemma_decrease_around_darkens(w, emits, s, entry, from, source, n - 1);
        let before = decrease_around(w, emits, s, entry, from, source, n - 1);
        entry.level_is_nibble();
        lemma_decrease_into_near(
            w,
            emits,
            before,
            entry.spec_level(),
            from,
            source,
            LightAxisDirection::at(n - 1),
        );
    }
}

pub proof fn lemma_decrease_steps_near(w: LightWorld<'_>, emits: bool, s: EngineState, n: nat)
    requires
        world_plain(w),
        state_valid(w, s),
        decreases_near(w, s),
    ensures
        decreases_near(w, decrease_steps(w, emits, s, n)),
        same_outside(w, s.light, decrease_steps(w, emits, s, n).light),
    decreases n,
{
    if n > 0 {
        let before = decrease_steps(w, emits, s, (n - 1) as nat);
        lemma_decrease_steps_near(w, emits, s, (n - 1) as nat);
        lemma_decrease_steps_darken(w, emits, s, (n - 1) as nat);
        if before.queues.decrease.len() > 0 {
            let entry = before.queues.decrease[0];
            let popped = EngineState {
                queues: PackedQueuesView {
                    decrease: before.queues.decrease.skip(1),
                    ..before.queues
                },
                ..before
            };
            assert(decreases_near(w, popped)) by {
                assert forall|k: int| 0 <= k < popped.queues.decrease.len() implies (entry_source(
                    w.layout,
                    #[trigger] popped.queues.decrease[k],
                ) matches Some(b) ==> is_near(
                    w.layout,
                    b.block_pos,
                    popped.queues.decrease[k].spec_level() as int,
                )) by {
                    assert(popped.queues.decrease[k] == before.queues.decrease[k + 1]);
                }
            }
            if let Some(block) = entry_source(w.layout, entry) {
                lemma_decrease_around_near(
                    w,
                    emits,
                    popped,
                    entry,
                    w.source_state(entry, block),
                    block.block_pos,
                    6,
                );
            }
        }
    }
}

/// Decrease work that starts near the active chunk stays in the queue window.
pub proof fn near_decrease_stays(
    w: LightWorld<'_>,
    emits: bool,
    before: EngineState,
    after: EngineState,
)
    requires
        world_plain(w),
        state_valid(w, before),
        decreases_near(w, before),
        decrease_done(w, emits, before, after),
    ensures
        !strayed(w, before.light, after.light),
{
    let n = choose|n: nat|
        #[trigger] decrease_steps(w, emits, before, n) == after && after.queues.decrease.len()
            == 0;
    lemma_decrease_steps_near(w, emits, before, n);
}

/// What a block of the window emits.
pub open spec fn emission_at(w: LightWorld<'_>, pos: BlockPos) -> u8 {
    w.emission(w.state(w.layout.cached(pos)))
}

/// The section of a block of the window is cached and not null.
pub open spec fn lit_at(w: LightWorld<'_>, light: Seq<SlotView>, pos: BlockPos) -> bool {
    light[w.layout.cached(pos).section_slot as int].is_lit()
}

/// Decrease entries start from blocks with no more light than they emit.
pub open spec fn sources_own(w: LightWorld<'_>, s: EngineState) -> bool {
    forall|k: int|
        0 <= k < s.queues.decrease.len() ==> (entry_source(
            w.layout,
            #[trigger] s.queues.decrease[k],
        ) matches Some(source) ==> level_at(w, s.light, source.block_pos) <= emission_at(
            w,
            source.block_pos,
        ))
}

/// An increase entry that writes goes everywhere from a lit block and writes
/// what the block emits, and every entry names occluding faces where there are
/// any.
pub open spec fn is_faithful(
    w: LightWorld<'_>,
    light: Seq<SlotView>,
    entry: PackedLightQueueEntry,
) -> bool {
    entry_source(w.layout, entry) matches Some(source) ==> {
        &&& is_writing(entry) ==> {
            &&& entry.spec_directions() == LightDirectionSet(63)
            &&& entry.spec_level() == emission_at(w, source.block_pos)
            &&& lit_at(w, light, source.block_pos)
        }
        &&& !entry.flags().has_sided_transparent_blocks ==> w.table.light_shape(w.state(source))
            == 0
    }
}

/// Every increase entry is faithful.
pub open spec fn increases_faithful(w: LightWorld<'_>, s: EngineState) -> bool {
    forall|k: int|
        0 <= k < s.queues.increase.len() ==> is_faithful(
            w,
            s.light,
            #[trigger] s.queues.increase[k],
        )
}

/// Increase entries that neither check nor write start from lit blocks of the
/// queue window and spread no more than the blocks emit.
pub open spec fn plain_entries_own(w: LightWorld<'_>, s: EngineState) -> bool {
    forall|k: int|
        0 <= k < s.queues.increase.len() ==> spreads_own(w, s.light, #[trigger] s.queues.increase[k])
}

/// An increase entry checks or writes, or spreads no more than its source emits.
pub open spec fn spreads_own(
    w: LightWorld<'_>,
    light: Seq<SlotView>,
    entry: PackedLightQueueEntry,
) -> bool {
    !entry.flags().recheck_level && !is_writing(entry) ==> (entry_source(
        w.layout,
        entry,
    ) matches Some(source) ==> {
        &&& w.layout.can_encode(source.block_pos)
        &&& lit_at(w, light, source.block_pos)
        &&& entry.spec_level() <= emission_at(w, source.block_pos)
    })
}

/// Some queued entry will write what a block emits.
pub open spec fn will_be_written(w: LightWorld<'_>, s: EngineState, pos: BlockPos) -> bool {
    exists|k: int|
        0 <= k < s.queues.increase.len() && is_writing(#[trigger] s.queues.increase[k])
            && entry_source(w.layout, s.queues.increase[k]) == Some(w.layout.cached(pos))
}

/// Every block of the queue window has at least the light that it emits, where
/// its section keeps light.
pub open spec fn emission_kept(w: LightWorld<'_>, light: Seq<SlotView>) -> bool {
    forall|pos: BlockPos|
        w.layout.can_encode(pos) && lit_at(w, light, pos) ==> #[trigger] emission_at(w, pos)
            <= level_at(w, light, pos)
}

/// Every block of the queue window has at least the light that it emits, or
/// gets it back.
pub open spec fn emission_kept_or_written(w: LightWorld<'_>, s: EngineState) -> bool {
    forall|pos: BlockPos|
        w.layout.can_encode(pos) && lit_at(w, s.light, pos) ==> #[trigger] emission_at(w, pos)
            <= level_at(w, s.light, pos) || will_be_written(w, s, pos)
}

/// Decrease sources, increase entries and emitting blocks are as block light
/// needs them.
pub open spec fn is_tame(w: LightWorld<'_>, s: EngineState) -> bool {
    &&& sources_own(w, s)
    &&& increases_faithful(w, s)
    &&& plain_entries_own(w, s)
    &&& emission_kept_or_written(w, s)
}

proof fn lemma_writes_stay(
    w: LightWorld<'_>,
    s: EngineState,
    after: EngineState,
    pos: BlockPos,
)
    requires
        queue_grew(s, after),
        will_be_written(w, s, pos),
    ensures
        will_be_written(w, after, pos),
{
    let k = choose|k: int|
        0 <= k < s.queues.increase.len() && is_writing(#[trigger] s.queues.increase[k])
            && entry_source(w.layout, s.queues.increase[k]) == Some(w.layout.cached(pos));
    assert(after.queues.increase[k] == s.queues.increase[k]);
}

/// An entry that rechecks a level is faithful and needs nothing of its source.
proof fn lemma_recheck_faithful(
    w: LightWorld<'_>,
    light: Seq<SlotView>,
    at: BlockPos,
    level: u8,
)
    requires
        world_plain(w),
        w.layout.can_encode(at),
        level < 16,
    ensures
        is_faithful(
            w,
            light,
            entry_for(
                w.layout,
                at,
                level,
                LightDirectionSet(63),
                LightQueueFlags {
                    recheck_level: true,
                    ..w.shape_flags(w.state(w.layout.cached(at)))
                },
            ),
        ),
        spreads_own(
            w,
            light,
            entry_for(
                w.layout,
                at,
                level,
                LightDirectionSet(63),
                LightQueueFlags {
                    recheck_level: true,
                    ..w.shape_flags(w.state(w.layout.cached(at)))
                },
            ),
        ),
{
    lemma_queued_entry(
        w,
        at,
        level,
        LightDirectionSet(63),
        LightQueueFlags { recheck_level: true, ..w.shape_flags(w.state(w.layout.cached(at))) },
    );
}

/// The state after a neighbor became dark.
spec fn dark_neighbor(
    w: LightWorld<'_>,
    s: EngineState,
    at: BlockPos,
    target: u8,
    direction: LightAxisDirection,
) -> EngineState {
    let to = w.state(w.layout.cached(at));
    let flags = w.shape_flags(to);
    let restored = if w.emission(to) != 0 {
        queue_increase(
            w.layout,
            s,
            at,
            w.emission(to),
            LightDirectionSet(63),
            LightQueueFlags { write_level: true, ..flags },
        )
    } else {
        s
    };
    let dark = EngineState {
        light: set_block(restored.light, w.layout.cached(at), 0),
        ..restored
    };
    queue_decrease(w.layout, dark, at, target, onward(direction), flags)
}

/// A neighbor in the queue window is about to become dark.
spec fn may_darken(w: LightWorld<'_>, s: EngineState, at: BlockPos, target: u8) -> bool {
    &&& world_plain(w)
    &&& state_valid(w, s)
    &&& w.layout.can_encode(at)
    &&& lit_at(w, s.light, at)
    &&& 0 < target < 16
}

proof fn lemma_dark_neighbor_entry(
    w: LightWorld<'_>,
    s: EngineState,
    at: BlockPos,
    target: u8,
    direction: LightAxisDirection,
)
    requires
        may_darken(w, s, at, target),
    ensures
        ({
            let after = dark_neighbor(w, s, at, target, direction);
            let last = after.queues.decrease.len() - 1;
            &&& last == s.queues.decrease.len()
            &&& forall|k: int|
                0 <= k < last ==> #[trigger] after.queues.decrease[k] == s.queues.decrease[k]
            &&& entry_source(w.layout, after.queues.decrease[last]) == Some(w.layout.cached(at))
            &&& after.queues.decrease[last].spec_level() == target
            &&& after.queues.decrease[last].spec_directions() == onward(direction)
            &&& after.queues.decrease[last].flags() == w.shape_flags(
                w.state(w.layout.cached(at)),
            )
            &&& emission_at(w, at) != 0 ==> {
                let added = after.queues.increase[s.queues.increase.len() as int];
                &&& after.queues.increase.len() == s.queues.increase.len() + 1
                &&& is_writing(added)
                &&& entry_source(w.layout, added) == Some(w.layout.cached(at))
                &&& is_faithful(w, after.light, added)
            }
            &&& emission_at(w, at) == 0 ==> after.queues.increase == s.queues.increase
            &&& level_at(w, after.light, at) == 0
            &&& queue_grew(s, after)
        }),
{
    lemma_can_encode_has_block(w.layout, at);
    lemma_set_block_levels(w, s.light, at, 0, at);
    lemma_onward(direction);
    let flags = w.shape_flags(w.state(w.layout.cached(at)));
    lemma_queued_entry(w, at, target, onward(direction), flags);
    let after = dark_neighbor(w, s, at, target, direction);
    if emission_at(w, at) != 0 {
        let writing = LightQueueFlags { write_level: true, ..flags };
        lemma_queued_entry(w, at, emission_at(w, at), LightDirectionSet(63), writing);
    }
}

proof fn lemma_dark_neighbor_level(
    w: LightWorld<'_>,
    s: EngineState,
    at: BlockPos,
    target: u8,
    direction: LightAxisDirection,
    pos: BlockPos,
)
    requires
        may_darken(w, s, at, target),
        w.layout.has_block(pos),
    ensures
        ({
            let after = dark_neighbor(w, s, at, target, direction);
            &&& level_at(w, after.light, pos) == if pos == at {
                0
            } else {
                level_at(w, s.light, pos)
            }
            &&& lit_at(w, after.light, pos) == lit_at(w, s.light, pos)
        }),
{
    lemma_can_encode_has_block(w.layout, at);
    lemma_set_block_levels(w, s.light, at, 0, pos);
}

proof fn lemma_dark_neighbor_tame(
    w: LightWorld<'_>,
    s: EngineState,
    at: BlockPos,
    target: u8,
    direction: LightAxisDirection,
)
    requires
        may_darken(w, s, at, target),
        is_tame(w, s),
    ensures
        is_tame(w, dark_neighbor(w, s, at, target, direction)),
{
    let after = dark_neighbor(w, s, at, target, direction);
    lemma_dark_neighbor_entry(w, s, at, target, direction);
    assert forall|k: int| 0 <= k < after.queues.decrease.len() implies (entry_source(
        w.layout,
        #[trigger] after.queues.decrease[k],
    ) matches Some(b) ==> level_at(w, after.light, b.block_pos) <= emission_at(
        w,
        b.block_pos,
    )) by {
        if let Some(b) = entry_source(w.layout, after.queues.decrease[k]) {
            lemma_dark_neighbor_level(w, s, at, target, direction, b.block_pos);
            if b.block_pos != at {
                assert(after.queues.decrease[k] == s.queues.decrease[k]);
            }
        }
    }
    assert forall|k: int| 0 <= k < after.queues.increase.len() implies is_faithful(
        w,
        after.light,
        #[trigger] after.queues.increase[k],
    ) by {
        if k < s.queues.increase.len() {
            let entry = s.queues.increase[k];
            assert(after.queues.increase[k] == entry);
            assert(is_faithful(w, s.light, entry));
            if let Some(b) = entry_source(w.layout, entry) {
                lemma_dark_neighbor_level(w, s, at, target, direction, b.block_pos);
            }
        }
    }
    assert forall|k: int| 0 <= k < after.queues.increase.len() implies spreads_own(
        w,
        after.light,
        #[trigger] after.queues.increase[k],
    ) by {
        if k < s.queues.increase.len() {
            let entry = s.queues.increase[k];
            assert(after.queues.increase[k] == entry);
            assert(spreads_own(w, s.light, entry));
            if let Some(b) = entry_source(w.layout, entry) {
                lemma_dark_neighbor_level(w, s, at, target, direction, b.block_pos);
            }
        }
    }
    assert forall|pos: BlockPos|
        w.layout.can_encode(pos) && lit_at(w, after.light, pos) implies #[trigger] emission_at(
        w,
        pos,
    ) <= level_at(w, after.light, pos) || will_be_written(w, after, pos) by {
        lemma_can_encode_has_block(w.layout, pos);
        lemma_dark_neighbor_level(w, s, at, target, direction, pos);
        if pos == at {
            if emission_at(w, at) != 0 {
                let k = s.queues.increase.len() as int;
                assert(is_writing(after.queues.increase[k]));
            }
        } else if will_be_written(w, s, pos) {
            lemma_writes_stay(w, s, after, pos);
        }
    }
}

/// Decrease work leaves a neighbor alone, has it spread its light again, or
/// makes it dark.
proof fn lemma_decrease_into_cases(
    w: LightWorld<'_>,
    s: EngineState,
    level: u8,
    from: BlockStateId,
    source: BlockPos,
    direction: LightAxisDirection,
)
    requires
        world_plain(w),
        state_valid(w, s),
        w.layout.has_block(source),
        level < 16,
        is_near(w.layout, source, level as int),
    ensures
        ({
            let after = decrease_into(w, true, s, level, from, source, direction);
            let at = source.spec_relative(direction.spec_direction());
            let loss = w.loss(from, w.state(w.layout.cached(at)), direction);
            let current = level_at(w, s.light, at);
            let flags = LightQueueFlags {
                recheck_level: true,
                ..w.shape_flags(w.state(w.layout.cached(at)))
            };
            if !w.layout.has_block(at) || !lit_at(w, s.light, at) || current == 0 || loss == 16 {
                after == s
            } else if current + loss > level {
                current < 16 && after == queue_increase(
                    w.layout,
                    s,
                    at,
                    current,
                    LightDirectionSet(63),
                    flags,
                )
            } else {
                &&& may_darken(w, s, at, (level - loss) as u8)
                &&& loss < level
                &&& current <= level - loss
                &&& after == dark_neighbor(w, s, at, (level - loss) as u8, direction)
            }
        }),
{
    let at = source.spec_relative(direction.spec_direction());
    lemma_window_has_neighbors(w.layout, source);
    if w.layout.has_block(at) {
        lemma_cached_block(w.layout, at);
        assert(slot_valid(s.light[w.layout.cached(at).section_slot as int]));
        let loss = w.loss(from, w.state(w.layout.cached(at)), direction);
        assert(loss >= 1);
        let current = level_at(w, s.light, at);
        if lit_at(w, s.light, at) && current != 0 && loss != 16 && current + loss <= level {
            lemma_near_can_encode(w, at, (level - loss) as int);
        }
    }
}

proof fn lemma_decrease_into_tame(
    w: LightWorld<'_>,
    s: EngineState,
    level: u8,
    from: BlockStateId,
    source: BlockPos,
    direction: LightAxisDirection,
)
    requires
        world_plain(w),
        state_valid(w, s),
        w.layout.has_block(source),
        level < 16,
        is_near(w.layout, source, level as int),
        is_tame(w, s),
    ensures
        is_tame(w, decrease_into(w, true, s, level, from, source, direction)),
{
    let after = decrease_into(w, true, s, level, from, source, direction);
    let at = source.spec_relative(direction.spec_direction());
    let loss = w.loss(from, w.state(w.layout.cached(at)), direction);
    let current = level_at(w, s.light, at);
    lemma_decrease_into_cases(w, s, level, from, source, direction);
    if !w.layout.has_block(at) || !lit_at(w, s.light, at) || current == 0 || loss == 16 {
    } else if current + loss > level {
        if w.layout.can_encode(at) {
            lemma_recheck_faithful(w, s.light, at, current);
        }
        assert forall|k: int| 0 <= k < after.queues.increase.len() implies is_faithful(
            w,
            after.light,
            #[trigger] after.queues.increase[k],
        ) by {
            if k < s.queues.increase.len() {
                assert(after.queues.increase[k] == s.queues.increase[k]);
            }
        }
        assert forall|k: int| 0 <= k < after.queues.increase.len() implies spreads_own(
            w,
            after.light,
            #[trigger] after.queues.increase[k],
        ) by {
            if k < s.queues.increase.len() {
                assert(after.queues.increase[k] == s.queues.increase[k]);
                assert(spreads_own(w, s.light, s.queues.increase[k]));
            }
        }
        assert forall|pos: BlockPos|
            w.layout.can_encode(pos) && lit_at(w, after.light, pos) implies #[trigger] emission_at(
            w,
            pos,
        ) <= level_at(w, after.light, pos) || will_be_written(w, after, pos) by {
            if will_be_written(w, s, pos) {
                lemma_writes_stay(w, s, after, pos);
            }
        }
    } else {
        lemma_dark_neighbor_tame(w, s, at, (level - loss) as u8, direction);
    }
}

proof fn lemma_decrease_around_tame(
    w: LightWorld<'_>,
    s: EngineState,
    entry: PackedLightQueueEntry,
    from: BlockStateId,
    source: BlockPos,
    n: int,
)
    requires
        world_plain(w),
        state_valid(w, s),
        w.layout.has_block(source),
        is_near(w.layout, source, entry.spec_level() as int),
        is_tame(w, s),
    ensures
        is_tame(w, decrease_around(w, true, s, entry, from, source, n)),
    decreases n,
{
    if n > 0 {
        lemma_decrease_around_tame(w, s, entry, from, source, n - 1);
        lemma_decrease_around_darkens(w, true, s, entry, from, source, n - 1);
        let before = decrease_around(w, true, s, entry, from, source, n - 1);
        entry.level_is_nibble();
        lemma_decrease_into_tame(
            w,
            before,
            entry.spec_level(),
            from,
            source,
            LightAxisDirection::at(n - 1),
        );
    }
}

/// Runs of decrease steps keep sources, entries and emitting blocks as they
/// should be.
pub proof fn lemma_decrease_steps_tame(w: LightWorld<'_>, s: EngineState, n: nat)
    requires
        world_plain(w),
        state_valid(w, s),
        decreases_near(w, s),
        is_tame(w, s),
    ensures
        is_tame(w, decrease_steps(w, true, s, n)),
    decreases n,
{
    if n > 0 {
        let before = decrease_steps(w, true, s, (n - 1) as nat);
        lemma_decrease_steps_tame(w, s, (n - 1) as nat);
        lemma_decrease_steps_near(w, true, s, (n - 1) as nat);
        lemma_decrease_steps_darken(w, true, s, (n - 1) as nat);
        if before.queues.decrease.len() > 0 {
            let entry = before.queues.decrease[0];
            let popped = EngineState {
                queues: PackedQueuesView {
                    decrease: before.queues.decrease.skip(1),
                    ..before.queues
                },
                ..before
            };
            assert(is_tame(w, popped)) by {
                assert forall|k: int| 0 <= k < popped.queues.decrease.len() implies (entry_source(
                    w.layout,
                    #[trigger] popped.queues.decrease[k],
                ) matches Some(b) ==> level_at(w, popped.light, b.block_pos) <= emission_at(
                    w,
                    b.block_pos,
                )) by {
                    assert(popped.queues.decrease[k] == before.queues.decrease[k + 1]);
                }
                assert forall|pos: BlockPos|
                    w.layout.can_encode(pos) && lit_at(
                        w,
                        popped.light,
                        pos,
                    ) implies #[trigger] emission_at(w, pos) <= level_at(w, popped.light, pos)
                    || will_be_written(w, popped, pos) by {
                    if will_be_written(w, before, pos) {
                        lemma_writes_stay(w, before, popped, pos);
                    }
                }
            }
            if let Some(block) = entry_source(w.layout, entry) {
                lemma_decrease_around_tame(
                    w,
                    popped,
                    entry,
                    w.source_state(entry, block),
                    block.block_pos,
                    6,
                );
            }
        }
    }
}

/// A neighbor leaves a block at least the level that it has.
#[verifier::opaque]
pub open spec fn is_supported_from(
    w: LightWorld<'_>,
    light: Seq<SlotView>,
    pos: BlockPos,
    direction: LightAxisDirection,
) -> bool {
    let neighbor = pos.spec_relative(direction.spec_direction());
    let loss = w.loss(
        w.state(w.layout.cached(neighbor)),
        w.state(w.layout.cached(pos)),
        direction.spec_opposite(),
    );
    &&& w.layout.has_block(neighbor)
    &&& loss != 16
    &&& level_at(w, light, neighbor) >= level_at(w, light, pos) + loss
}

/// A block is dark, emits its level, or has it from a neighbor.
pub open spec fn is_supported(w: LightWorld<'_>, light: Seq<SlotView>, pos: BlockPos) -> bool {
    level_at(w, light, pos) <= emission_at(w, pos) || exists|direction: LightAxisDirection|
        #[trigger] is_supported_from(w, light, pos, direction)
}

/// Every block of the queue window is supported.
pub open spec fn all_supported(w: LightWorld<'_>, light: Seq<SlotView>) -> bool {
    forall|pos: BlockPos| w.layout.can_encode(pos) ==> #[trigger] is_supported(w, light, pos)
}

/// A decrease entry will make a block dark.
#[verifier::opaque]
pub open spec fn dooms(
    w: LightWorld<'_>,
    light: Seq<SlotView>,
    entry: PackedLightQueueEntry,
    pos: BlockPos,
    direction: LightAxisDirection,
) -> bool {
    let neighbor = w.layout.cached(pos.spec_relative(direction.spec_direction()));
    let loss = w.loss(
        w.source_state(entry, neighbor),
        w.state(w.layout.cached(pos)),
        direction.spec_opposite(),
    );
    &&& entry_source(w.layout, entry) == Some(neighbor)
    &&& entry.spec_directions().has(direction.spec_opposite())
    &&& loss != 16
    &&& entry.spec_level() >= level_at(w, light, pos) + loss
}

/// Some queued decrease entry will make a block dark.
pub open spec fn is_doomed(w: LightWorld<'_>, s: EngineState, pos: BlockPos) -> bool {
    exists|k: int, direction: LightAxisDirection|
        0 <= k < s.queues.decrease.len() && #[trigger] dooms(
            w,
            s.light,
            s.queues.decrease[k],
            pos,
            direction,
        )
}

/// Every block of the queue window is supported, or will be made dark.
pub open spec fn supported_or_doomed(w: LightWorld<'_>, s: EngineState) -> bool {
    forall|pos: BlockPos|
        w.layout.can_encode(pos) ==> #[trigger] is_supported(w, s.light, pos) || is_doomed(
            w,
            s,
            pos,
        )
}

/// What a decrease that is being worked off will still make dark.
pub open spec fn is_doomed_underway(
    w: LightWorld<'_>,
    light: Seq<SlotView>,
    entry: PackedLightQueueEntry,
    n: int,
    pos: BlockPos,
) -> bool {
    exists|direction: LightAxisDirection|
        direction.spec_opposite().place() >= n && #[trigger] dooms(w, light, entry, pos, direction)
}

spec fn supported_except(
    w: LightWorld<'_>,
    s: EngineState,
    entry: PackedLightQueueEntry,
    n: int,
) -> bool {
    forall|pos: BlockPos|
        w.layout.can_encode(pos) ==> #[trigger] is_supported(w, s.light, pos) || is_doomed(
            w,
            s,
            pos,
        ) || is_doomed_underway(w, s.light, entry, n, pos)
}

/// Light that leaves a block without occluding faces leaves it as it leaves air.
pub proof fn lemma_same_loss(
    w: LightWorld<'_>,
    entry: PackedLightQueueEntry,
    source: BlockPos,
    to: BlockStateId,
    direction: LightAxisDirection,
)
    requires
        world_plain(w),
        !entry.flags().has_sided_transparent_blocks ==> w.table.light_shape(
            w.state(w.layout.cached(source)),
        ) == 0,
    ensures
        w.loss(w.source_state(entry, w.layout.cached(source)), to, direction) == w.loss(
            w.state(w.layout.cached(source)),
            to,
            direction,
        ),
{
}

pub proof fn lemma_support_stays(
    w: LightWorld<'_>,
    before: Seq<SlotView>,
    after: Seq<SlotView>,
    pos: BlockPos,
    direction: LightAxisDirection,
)
    requires
        is_supported_from(w, before, pos, direction),
        level_at(w, after, pos) <= level_at(w, before, pos),
        level_at(w, after, pos.spec_relative(direction.spec_direction())) >= level_at(
            w,
            before,
            pos.spec_relative(direction.spec_direction()),
        ),
    ensures
        is_supported_from(w, after, pos, direction),
        is_supported(w, after, pos),
{
    assert(is_supported_from(w, after, pos, direction)) by {
        reveal(is_supported_from);
    }
}

pub proof fn lemma_doom_stays(
    w: LightWorld<'_>,
    before: Seq<SlotView>,
    after: Seq<SlotView>,
    entry: PackedLightQueueEntry,
    pos: BlockPos,
    direction: LightAxisDirection,
)
    requires
        dooms(w, before, entry, pos, direction),
        level_at(w, after, pos) <= level_at(w, before, pos),
    ensures
        dooms(w, after, entry, pos, direction),
{
    reveal(dooms);
}

/// A decrease entry that starts from a supporting neighbor with at least its
/// level dooms the block.
pub proof fn lemma_entry_dooms(
    w: LightWorld<'_>,
    before: Seq<SlotView>,
    after: Seq<SlotView>,
    entry: PackedLightQueueEntry,
    pos: BlockPos,
    direction: LightAxisDirection,
)
    requires
        world_plain(w),
        is_supported_from(w, before, pos, direction),
        level_at(w, after, pos) == level_at(w, before, pos),
        entry_source(w.layout, entry) == Some(
            w.layout.cached(pos.spec_relative(direction.spec_direction())),
        ),
        entry.flags() == w.shape_flags(
            w.state(w.layout.cached(pos.spec_relative(direction.spec_direction()))),
        ),
        entry.spec_directions().has(direction.spec_opposite()),
        entry.spec_level() >= level_at(
            w,
            before,
            pos.spec_relative(direction.spec_direction()),
        ),
    ensures
        dooms(w, after, entry, pos, direction),
{
    reveal(dooms);
    reveal(is_supported_from);
    lemma_same_loss(
        w,
        entry,
        pos.spec_relative(direction.spec_direction()),
        w.state(w.layout.cached(pos)),
        direction.spec_opposite(),
    );
}

/// What a queued entry dooms when nothing is said of the other parts.
pub proof fn lemma_doomed_stays(
    w: LightWorld<'_>,
    s: EngineState,
    after: EngineState,
    pos: BlockPos,
)
    requires
        is_doomed(w, s, pos),
        level_at(w, after.light, pos) <= level_at(w, s.light, pos),
        after.queues.decrease.len() >= s.queues.decrease.len(),
        forall|k: int|
            0 <= k < s.queues.decrease.len() ==> #[trigger] after.queues.decrease[k]
                == s.queues.decrease[k],
    ensures
        is_doomed(w, after, pos),
{
    let (k, other) = choose|k: int, other: LightAxisDirection|
        0 <= k < s.queues.decrease.len() && #[trigger] dooms(
            w,
            s.light,
            s.queues.decrease[k],
            pos,
            other,
        );
    assert(after.queues.decrease[k] == s.queues.decrease[k]);
    lemma_doom_stays(w, s.light, after.light, after.queues.decrease[k], pos, other);
}

/// What an entry still dooms once it was worked off in direction `n`, but for
/// the block there.
pub proof fn lemma_underway_stays(
    w: LightWorld<'_>,
    before: Seq<SlotView>,
    after: Seq<SlotView>,
    entry: PackedLightQueueEntry,
    source: BlockPos,
    n: int,
    pos: BlockPos,
)
    requires
        0 <= n < 6,
        world_plain(w),
        w.layout.can_encode(pos),
        entry_source(w.layout, entry) == Some(w.layout.cached(source)),
        is_doomed_underway(w, before, entry, n, pos),
        level_at(w, after, pos) <= level_at(w, before, pos),
    ensures
        is_doomed_underway(w, after, entry, n + 1, pos) || (pos == source.spec_relative(
            LightAxisDirection::at(n).spec_direction(),
        ) && dooms(w, before, entry, pos, LightAxisDirection::at(n).spec_opposite())),
{
    let other = choose|other: LightAxisDirection|
        other.spec_opposite().place() >= n && #[trigger] dooms(w, before, entry, pos, other);
    lemma_doom_stays(w, before, after, entry, pos, other);
    if other.spec_opposite().place() == n {
        assert(other.spec_opposite() == LightAxisDirection::at(n));
        assert(other == LightAxisDirection::at(n).spec_opposite());
        assert(pos.spec_relative(other.spec_direction()) == source) by {
            reveal(dooms);
        }
        lemma_can_encode_has_block(w.layout, pos);
        lemma_window_has_neighbors(w.layout, pos);
        lemma_relative_back(pos, other);
    }
}

/// A supported block stays supported when a neighbor becomes dark, or the
/// darkness comes to it.
proof fn lemma_dark_neighbor_supported(
    w: LightWorld<'_>,
    s: EngineState,
    source: BlockPos,
    target: u8,
    direction: LightAxisDirection,
    pos: BlockPos,
)
    requires
        w.layout.has_block(source),
        may_darken(w, s, source.spec_relative(direction.spec_direction()), target),
        level_at(w, s.light, source.spec_relative(direction.spec_direction())) <= target,
        level_at(w, s.light, source) <= emission_at(w, source),
        w.layout.can_encode(pos),
        pos != source.spec_relative(direction.spec_direction()),
        is_supported(w, s.light, pos),
    ensures
        ({
            let at = source.spec_relative(direction.spec_direction());
            let after = dark_neighbor(w, s, at, target, direction);
            is_supported(w, after.light, pos) || is_doomed(w, after, pos)
        }),
{
    let at = source.spec_relative(direction.spec_direction());
    let after = dark_neighbor(w, s, at, target, direction);
    lemma_can_encode_has_block(w.layout, pos);
    lemma_window_has_neighbors(w.layout, pos);
    lemma_window_has_neighbors(w.layout, source);
    lemma_dark_neighbor_entry(w, s, at, target, direction);
    lemma_dark_neighbor_level(w, s, at, target, direction, pos);
    if level_at(w, s.light, pos) > emission_at(w, pos) {
        let other = choose|other: LightAxisDirection|
            #[trigger] is_supported_from(w, s.light, pos, other);
        let neighbor = pos.spec_relative(other.spec_direction());
        assert(w.layout.has_block(neighbor)) by {
            reveal(is_supported_from);
        }
        lemma_dark_neighbor_level(w, s, at, target, direction, neighbor);
        if neighbor == at {
            lemma_relative_back(pos, other);
            lemma_relative_back(source, direction);
            if other.spec_opposite() == direction.spec_opposite() {
                assert(pos == source);
            }
            lemma_onward_has(direction, other.spec_opposite());
            let last = after.queues.decrease.len() - 1;
            lemma_entry_dooms(
                w,
                s.light,
                after.light,
                after.queues.decrease[last],
                pos,
                other,
            );
        } else {
            lemma_support_stays(w, s.light, after.light, pos, other);
        }
    }
}

/// A neighbor's darkness leaves a block supported or doomed.
proof fn lemma_dark_neighbor_support(
    w: LightWorld<'_>,
    s: EngineState,
    entry: PackedLightQueueEntry,
    source: BlockPos,
    target: u8,
    n: int,
    pos: BlockPos,
)
    requires
        0 <= n < 6,
        w.layout.has_block(source),
        may_darken(
            w,
            s,
            source.spec_relative(LightAxisDirection::at(n).spec_direction()),
            target,
        ),
        level_at(
            w,
            s.light,
            source.spec_relative(LightAxisDirection::at(n).spec_direction()),
        ) <= target,
        entry_source(w.layout, entry) == Some(w.layout.cached(source)),
        level_at(w, s.light, source) <= emission_at(w, source),
        w.layout.can_encode(pos),
        is_supported(w, s.light, pos) || is_doomed(w, s, pos) || is_doomed_underway(
            w,
            s.light,
            entry,
            n,
            pos,
        ),
    ensures
        ({
            let at = source.spec_relative(LightAxisDirection::at(n).spec_direction());
            let after = dark_neighbor(w, s, at, target, LightAxisDirection::at(n));
            is_supported(w, after.light, pos) || is_doomed(w, after, pos) || is_doomed_underway(
                w,
                after.light,
                entry,
                n + 1,
                pos,
            )
        }),
{
    let direction = LightAxisDirection::at(n);
    let at = source.spec_relative(direction.spec_direction());
    let after = dark_neighbor(w, s, at, target, direction);
    lemma_can_encode_has_block(w.layout, pos);
    lemma_dark_neighbor_entry(w, s, at, target, direction);
    lemma_dark_neighbor_level(w, s, at, target, direction, pos);
    if pos == at {
        assert(is_supported(w, after.light, pos));
    } else if is_supported(w, s.light, pos) {
        lemma_dark_neighbor_supported(w, s, source, target, direction, pos);
    } else if is_doomed(w, s, pos) {
        lemma_doomed_stays(w, s, after, pos);
    } else {
        lemma_underway_stays(w, s.light, after.light, entry, source, n, pos);
    }
}

/// A block that decrease work left as it was is no longer doomed by it.
proof fn lemma_not_doomed_there(
    w: LightWorld<'_>,
    s: EngineState,
    entry: PackedLightQueueEntry,
    source: BlockPos,
    direction: LightAxisDirection,
)
    requires
        world_plain(w),
        state_valid(w, s),
        w.layout.has_block(source),
        w.layout.has_block(source.spec_relative(direction.spec_direction())),
        ({
            let at = source.spec_relative(direction.spec_direction());
            let loss = w.loss(
                w.source_state(entry, w.layout.cached(source)),
                w.state(w.layout.cached(at)),
                direction,
            );
            let current = level_at(w, s.light, at);
            !lit_at(w, s.light, at) || current == 0 || loss == 16 || current + loss
                > entry.spec_level()
        }),
    ensures
        ({
            let at = source.spec_relative(direction.spec_direction());
            is_supported(w, s.light, at) || !dooms(
                w,
                s.light,
                entry,
                at,
                direction.spec_opposite(),
            )
        }),
{
    let at = source.spec_relative(direction.spec_direction());
    lemma_window_has_neighbors(w.layout, source);
    lemma_relative_back(source, direction);
    if !lit_at(w, s.light, at) {
        lemma_unlit_is_dark(w, s, at);
    }
    reveal(dooms);
}

proof fn lemma_decrease_into_support(
    w: LightWorld<'_>,
    s: EngineState,
    entry: PackedLightQueueEntry,
    source: BlockPos,
    n: int,
)
    requires
        0 <= n < 6,
        world_plain(w),
        state_valid(w, s),
        w.layout.has_block(source),
        is_near(w.layout, source, entry.spec_level() as int),
        entry_source(w.layout, entry) == Some(w.layout.cached(source)),
        level_at(w, s.light, source) <= emission_at(w, source),
        supported_except(w, s, entry, n),
    ensures
        ({
            let after = decrease_into(
                w,
                true,
                s,
                entry.spec_level(),
                w.source_state(entry, w.layout.cached(source)),
                source,
                LightAxisDirection::at(n),
            );
            &&& level_at(w, after.light, source) <= emission_at(w, source)
            &&& supported_except(w, after, entry, n + 1)
        }),
{
    let direction = LightAxisDirection::at(n);
    let at = source.spec_relative(direction.spec_direction());
    let level = entry.spec_level();
    let from = w.source_state(entry, w.layout.cached(source));
    let after = decrease_into(w, true, s, level, from, source, direction);
    let loss = w.loss(from, w.state(w.layout.cached(at)), direction);
    let current = level_at(w, s.light, at);
    entry.level_is_nibble();
    lemma_decrease_into_cases(w, s, level, from, source, direction);
    let darkens = w.layout.has_block(at) && lit_at(w, s.light, at) && current != 0 && loss != 16
        && current + loss <= level;
    if darkens {
        lemma_dark_neighbor_level(w, s, at, (level - loss) as u8, direction, source);
    } else {
        assert(after.light == s.light);
        assert(after.queues.decrease == s.queues.decrease);
        if w.layout.has_block(at) {
            lemma_not_doomed_there(w, s, entry, source, direction);
        }
    }
    assert forall|pos: BlockPos|
        w.layout.can_encode(pos) implies #[trigger] is_supported(w, after.light, pos) || is_doomed(
        w,
        after,
        pos,
    ) || is_doomed_underway(w, after.light, entry, n + 1, pos) by {
        assert(is_supported(w, s.light, pos) || is_doomed(w, s, pos) || is_doomed_underway(
            w,
            s.light,
            entry,
            n,
            pos,
        ));
        if darkens {
            lemma_dark_neighbor_support(w, s, entry, source, (level - loss) as u8, n, pos);
        } else if is_supported(w, s.light, pos) {
        } else if is_doomed(w, s, pos) {
            lemma_doomed_stays(w, s, after, pos);
        } else {
            lemma_underway_stays(w, s.light, after.light, entry, source, n, pos);
            if pos == at {
                lemma_can_encode_has_block(w.layout, pos);
            }
        }
    }
}

proof fn lemma_decrease_around_support(
    w: LightWorld<'_>,
    s: EngineState,
    entry: PackedLightQueueEntry,
    source: BlockPos,
    n: int,
)
    requires
        0 <= n <= 6,
        world_plain(w),
        state_valid(w, s),
        w.layout.has_block(source),
        is_near(w.layout, source, entry.spec_level() as int),
        entry_source(w.layout, entry) == Some(w.layout.cached(source)),
        level_at(w, s.light, source) <= emission_at(w, source),
        supported_except(w, s, entry, 0),
    ensures
        ({
            let after = decrease_around(
                w,
                true,
                s,
                entry,
                w.source_state(entry, w.layout.cached(source)),
                source,
                n,
            );
            &&& level_at(w, after.light, source) <= emission_at(w, source)
            &&& supported_except(w, after, entry, n)
        }),
    decreases n,
{
    if n > 0 {
        let from = w.source_state(entry, w.layout.cached(source));
        lemma_decrease_around_support(w, s, entry, source, n - 1);
        lemma_decrease_around_darkens(w, true, s, entry, from, source, n - 1);
        let before = decrease_around(w, true, s, entry, from, source, n - 1);
        if entry.spec_directions().has(LightAxisDirection::at(n - 1)) {
            lemma_decrease_into_support(w, before, entry, source, n - 1);
        } else {
            assert forall|pos: BlockPos|
                w.layout.can_encode(pos) implies #[trigger] is_supported(w, before.light, pos)
                || is_doomed(w, before, pos) || is_doomed_underway(
                w,
                before.light,
                entry,
                n,
                pos,
            ) by {
                if !is_supported(w, before.light, pos) && !is_doomed(w, before, pos) {
                    assert(is_doomed_underway(w, before.light, entry, n - 1, pos));
                    lemma_underway_stays(
                        w,
                        before.light,
                        before.light,
                        entry,
                        source,
                        n - 1,
                        pos,
                    );
                    if dooms(
                        w,
                        before.light,
                        entry,
                        pos,
                        LightAxisDirection::at(n - 1).spec_opposite(),
                    ) {
                        reveal(dooms);
                        assert(LightAxisDirection::at(n - 1).spec_opposite().spec_opposite()
                            == LightAxisDirection::at(n - 1));
                    }
                }
            }
        }
    }
}

proof fn lemma_popped_support(w: LightWorld<'_>, s: EngineState)
    requires
        s.queues.decrease.len() > 0,
        supported_or_doomed(w, s),
    ensures
        ({
            let popped = EngineState {
                queues: PackedQueuesView { decrease: s.queues.decrease.skip(1), ..s.queues },
                ..s
            };
            &&& supported_except(w, popped, s.queues.decrease[0], 0)
            &&& entry_source(w.layout, s.queues.decrease[0]) is None ==> supported_or_doomed(
                w,
                popped,
            )
        }),
{
    let entry = s.queues.decrease[0];
    let popped = EngineState {
        queues: PackedQueuesView { decrease: s.queues.decrease.skip(1), ..s.queues },
        ..s
    };
    assert forall|pos: BlockPos| w.layout.can_encode(pos) && !is_supported(w, s.light, pos) implies
        is_doomed(w, popped, pos) || (entry_source(w.layout, entry) is Some && is_doomed_underway(
        w,
        s.light,
        entry,
        0,
        pos,
    )) by {
        assert(is_doomed(w, s, pos));
        let (k, other) = choose|k: int, other: LightAxisDirection|
            0 <= k < s.queues.decrease.len() && #[trigger] dooms(
                w,
                s.light,
                s.queues.decrease[k],
                pos,
                other,
            );
        if k == 0 {
            assert(other.spec_opposite().place() >= 0);
            assert(entry_source(w.layout, entry) is Some) by {
                reveal(dooms);
            }
        } else {
            assert(popped.queues.decrease[k - 1] == s.queues.decrease[k]);
            assert(dooms(w, popped.light, popped.queues.decrease[k - 1], pos, other));
        }
    }
}

/// Runs of steps keep block light supported.
pub proof fn lemma_decrease_steps_support(w: LightWorld<'_>, s: EngineState, n: nat)
    requires
        world_plain(w),
        state_valid(w, s),
        decreases_near(w, s),
        is_tame(w, s),
        supported_or_doomed(w, s),
    ensures
        supported_or_doomed(w, decrease_steps(w, true, s, n)),
    decreases n,
{
    if n > 0 {
        let before = decrease_steps(w, true, s, (n - 1) as nat);
        let after = decrease_steps(w, true, s, n);
        lemma_decrease_steps_support(w, s, (n - 1) as nat);
        lemma_decrease_steps_tame(w, s, (n - 1) as nat);
        lemma_decrease_steps_near(w, true, s, (n - 1) as nat);
        lemma_decrease_steps_darken(w, true, s, (n - 1) as nat);
        if before.queues.decrease.len() > 0 {
            let entry = before.queues.decrease[0];
            let popped = EngineState {
                queues: PackedQueuesView {
                    decrease: before.queues.decrease.skip(1),
                    ..before.queues
                },
                ..before
            };
            lemma_popped_support(w, before);
            if let Some(block) = entry_source(w.layout, entry) {
                let source = block.block_pos;
                assert(block == w.layout.cached(source));
                lemma_decrease_around_support(w, popped, entry, source, 6);
                assert forall|pos: BlockPos|
                    w.layout.can_encode(pos) implies #[trigger] is_supported(w, after.light, pos)
                    || is_doomed(w, after, pos) by {
                    if is_doomed_underway(w, after.light, entry, 6, pos) {
                        let other = choose|other: LightAxisDirection|
                            other.spec_opposite().place() >= 6 && #[trigger] dooms(
                                w,
                                after.light,
                                entry,
                                pos,
                                other,
                            );
                        assert(other.spec_opposite().place() < 6);
                    }
                }
            }
        }
    }
}

/// A neighbor is about to be written a level that leaves a block at least the
/// level that it has.
#[verifier::opaque]
pub open spec fn is_promised_from(
    w: LightWorld<'_>,
    s: EngineState,
    pos: BlockPos,
    direction: LightAxisDirection,
) -> bool {
    let neighbor = pos.spec_relative(direction.spec_direction());
    let loss = w.loss(
        w.state(w.layout.cached(neighbor)),
        w.state(w.layout.cached(pos)),
        direction.spec_opposite(),
    );
    &&& w.layout.has_block(neighbor)
    &&& loss != 16
    &&& is_promised(w, s, neighbor, level_at(w, s.light, pos) + loss)
}

/// A block is supported, or will be when a neighbor's level is written.
pub open spec fn is_backed(w: LightWorld<'_>, s: EngineState, pos: BlockPos) -> bool {
    is_supported(w, s.light, pos) || exists|direction: LightAxisDirection|
        #[trigger] is_promised_from(w, s, pos, direction)
}

/// Every block of the queue window is supported, or will be.
pub open spec fn all_backed(w: LightWorld<'_>, s: EngineState) -> bool {
    forall|pos: BlockPos| w.layout.can_encode(pos) ==> #[trigger] is_backed(w, s, pos)
}

/// With no work left, blocks that are backed are supported.
pub proof fn lemma_backed_supported(w: LightWorld<'_>, s: EngineState)
    requires
        all_backed(w, s),
        s.queues.increase.len() == 0,
    ensures
        all_supported(w, s.light),
{
    reveal(is_promised_from);
    assert forall|pos: BlockPos| w.layout.can_encode(pos) implies #[trigger] is_supported(
        w,
        s.light,
        pos,
    ) by {
        assert(is_backed(w, s, pos));
    }
}

/// Raising a neighbor to what the source leaves it keeps a block backed.
proof fn lemma_raised_backed(
    w: LightWorld<'_>,
    s: EngineState,
    after: EngineState,
    source: BlockPos,
    direction: LightAxisDirection,
    level: u8,
    target: u8,
    pos: BlockPos,
)
    requires
        world_plain(w),
        state_valid(w, s),
        w.layout.has_block(source),
        w.layout.has_block(source.spec_relative(direction.spec_direction())),
        lit_at(w, s.light, source.spec_relative(direction.spec_direction())),
        level_at(w, s.light, source.spec_relative(direction.spec_direction())) < target < 16,
        ({
            let loss = w.loss(
                w.state(w.layout.cached(source)),
                w.state(w.layout.cached(source.spec_relative(direction.spec_direction()))),
                direction,
            );
            loss != 16 && level == target + loss
        }),
        has_or_gets(w, s, source, level),
        queue_grew(s, after),
        after.light == set_block(
            s.light,
            w.layout.cached(source.spec_relative(direction.spec_direction())),
            target,
        ),
        w.layout.can_encode(pos),
        is_backed(w, s, pos),
    ensures
        is_backed(w, after, pos),
{
    let at = source.spec_relative(direction.spec_direction());
    lemma_window_has_neighbors(w.layout, source);
    lemma_relative_back(source, direction);
    lemma_can_encode_has_block(w.layout, pos);
    lemma_set_block_levels(w, s.light, at, target, pos);
    if pos == at {
        lemma_set_block_levels(w, s.light, at, target, source);
        assert(direction.spec_opposite().spec_opposite() == direction);
        if level_at(w, s.light, source) >= level {
            assert(is_supported_from(w, after.light, at, direction.spec_opposite())) by {
                reveal(is_supported_from);
            }
        } else {
            lemma_promise_stays(w, s, after, source, level as int);
            assert(is_promised_from(w, after, at, direction.spec_opposite())) by {
                reveal(is_promised_from);
            }
        }
    } else if is_supported(w, s.light, pos) {
        if level_at(w, s.light, pos) > emission_at(w, pos) {
            let other = choose|other: LightAxisDirection|
                #[trigger] is_supported_from(w, s.light, pos, other);
            let giver = pos.spec_relative(other.spec_direction());
            assert(w.layout.has_block(giver)) by {
                reveal(is_supported_from);
            }
            lemma_set_block_levels(w, s.light, at, target, giver);
            lemma_support_stays(w, s.light, after.light, pos, other);
        }
    } else {
        let other = choose|other: LightAxisDirection|
            #[trigger] is_promised_from(w, s, pos, other);
        lemma_promised_from_stays(w, s, after, pos, other);
    }
}

/// What a neighbor is about to be given stays so while the block's level does
/// not change and nothing is taken from the queue.
proof fn lemma_promised_from_stays(
    w: LightWorld<'_>,
    s: EngineState,
    after: EngineState,
    pos: BlockPos,
    direction: LightAxisDirection,
)
    requires
        queue_grew(s, after),
        level_at(w, after.light, pos) == level_at(w, s.light, pos),
        is_promised_from(w, s, pos, direction),
    ensures
        is_promised_from(w, after, pos, direction),
{
    reveal(is_promised_from);
    let neighbor = pos.spec_relative(direction.spec_direction());
    let loss = w.loss(
        w.state(w.layout.cached(neighbor)),
        w.state(w.layout.cached(pos)),
        direction.spec_opposite(),
    );
    lemma_promise_stays(w, s, after, neighbor, level_at(w, s.light, pos) + loss);
}

/// Raising a neighbor leaves every block backed.
proof fn lemma_increase_into_backed(
    w: LightWorld<'_>,
    s: EngineState,
    level: u8,
    from: BlockStateId,
    source: BlockPos,
    direction: LightAxisDirection,
)
    requires
        world_plain(w),
        state_valid(w, s),
        level < 16,
        w.layout.has_block(source),
        has_or_gets(w, s, source, level),
        w.table.light_shape(from) == w.table.light_shape(w.state(w.layout.cached(source))),
        all_backed(w, s),
    ensures
        ({
            let after = increase_into(w, s, level, from, source, direction);
            &&& has_or_gets(w, after, source, level)
            &&& all_backed(w, after)
        }),
{
    let after = increase_into(w, s, level, from, source, direction);
    let at = source.spec_relative(direction.spec_direction());
    lemma_window_has_neighbors(w.layout, source);
    lemma_relative_back(source, direction);
    if let Some(neighbor) = open_neighbor(w, s.light, source, direction) {
        assert(neighbor == w.layout.cached(at));
        let current = level_of(s.light, neighbor);
        let to = w.state(neighbor);
        let loss = w.loss(from, to, direction);
        if !(current + 1 >= level || loss == 16 || loss >= level || level - loss <= current) {
            let target = (level - loss) as u8;
            assert(after.light == set_block(s.light, w.layout.cached(at), target));
            assert(queue_grew(s, after));
            lemma_set_block_levels(w, s.light, at, target, source);
            if is_promised(w, s, source, level as int) {
                lemma_promise_stays(w, s, after, source, level as int);
            }
            assert forall|pos: BlockPos| w.layout.can_encode(pos) implies #[trigger] is_backed(
                w,
                after,
                pos,
            ) by {
                assert(is_backed(w, s, pos));
                lemma_raised_backed(w, s, after, source, direction, level, target, pos);
            }
        }
    }
}

proof fn lemma_increase_around_backed(
    w: LightWorld<'_>,
    s: EngineState,
    entry: PackedLightQueueEntry,
    from: BlockStateId,
    source: BlockPos,
    n: int,
)
    requires
        world_plain(w),
        state_valid(w, s),
        w.layout.has_block(source),
        has_or_gets(w, s, source, entry.spec_level()),
        w.table.light_shape(from) == w.table.light_shape(w.state(w.layout.cached(source))),
        all_backed(w, s),
    ensures
        ({
            let after = increase_around(w, s, entry, from, source, n);
            &&& state_valid(w, after)
            &&& has_or_gets(w, after, source, entry.spec_level())
            &&& all_backed(w, after)
        }),
    decreases n,
{
    if n > 0 {
        lemma_increase_around_backed(w, s, entry, from, source, n - 1);
        let before = increase_around(w, s, entry, from, source, n - 1);
        let direction = LightAxisDirection::at(n - 1);
        entry.level_is_nibble();
        lemma_increase_into(w, before, entry.spec_level(), from, source, direction);
        lemma_increase_into_backed(w, before, entry.spec_level(), from, source, direction);
    }
}

/// A block stays backed when the first entry starts to spread.
proof fn lemma_started_backed(w: LightWorld<'_>, s: EngineState, pos: BlockPos)
    requires
        world_plain(w),
        state_valid(w, s),
        all_honest(w, s),
        next_raises(w, s),
        increases_faithful(w, s),
        s.queues.increase.len() > 0,
        w.layout.can_encode(pos),
        is_backed(w, s, pos),
    ensures
        is_backed(w, increase_started(w, s), pos),
{
    let entry = s.queues.increase[0];
    let start = increase_started(w, s);
    assert(is_faithful(w, s.light, entry));
    lemma_can_encode_has_block(w.layout, pos);
    lemma_started_levels(w, s, pos);
    if is_writing(entry) && entry_source(w.layout, entry) == Some(w.layout.cached(pos)) {
        assert(is_supported(w, start.light, pos));
    } else if is_supported(w, s.light, pos) {
        if level_at(w, s.light, pos) > emission_at(w, pos) {
            let other = choose|other: LightAxisDirection|
                #[trigger] is_supported_from(w, s.light, pos, other);
            let giver = pos.spec_relative(other.spec_direction());
            assert(w.layout.has_block(giver)) by {
                reveal(is_supported_from);
            }
            lemma_started_levels(w, s, giver);
            lemma_support_stays(w, s.light, start.light, pos, other);
        }
    } else {
        let other = choose|other: LightAxisDirection|
            #[trigger] is_promised_from(w, s, pos, other);
        let giver = pos.spec_relative(other.spec_direction());
        let loss = w.loss(
            w.state(w.layout.cached(giver)),
            w.state(w.layout.cached(pos)),
            other.spec_opposite(),
        );
        let level = level_at(w, s.light, pos) + loss;
        assert(w.layout.has_block(giver) && loss != 16 && is_promised(w, s, giver, level)) by {
            reveal(is_promised_from);
        }
        lemma_started_levels(w, s, giver);
        lemma_popped_promise(w, s, giver, level);
        if is_promised(w, increase_popped(s), giver, level) {
            lemma_promise_stays(w, increase_popped(s), start, giver, level);
            assert(is_promised_from(w, start, pos, other)) by {
                reveal(is_promised_from);
            }
        } else {
            assert(is_supported_from(w, start.light, pos, other)) by {
                reveal(is_supported_from);
            }
        }
    }
}

/// What increase work does in one direction: levels rise, and what is queued
/// stays queued beside faithful entries.
proof fn lemma_increase_into_emission(
    w: LightWorld<'_>,
    s: EngineState,
    level: u8,
    from: BlockStateId,
    source: BlockPos,
    direction: LightAxisDirection,
)
    requires
        world_plain(w),
        state_valid(w, s),
        level < 16,
        w.layout.has_block(source),
        increases_faithful(w, s),
        emission_kept_or_written(w, s),
    ensures
        ({
            let after = increase_into(w, s, level, from, source, direction);
            &&& increases_faithful(w, after)
            &&& emission_kept_or_written(w, after)
        }),
{
    let after = increase_into(w, s, level, from, source, direction);
    let at = source.spec_relative(direction.spec_direction());
    lemma_window_has_neighbors(w.layout, source);
    if let Some(neighbor) = open_neighbor(w, s.light, source, direction) {
        assert(neighbor == w.layout.cached(at));
        let current = level_of(s.light, neighbor);
        let to = w.state(neighbor);
        let loss = w.loss(from, to, direction);
        if !(current + 1 >= level || loss == 16 || loss >= level || level - loss <= current) {
            let target = (level - loss) as u8;
            assert(after.light == set_block(s.light, w.layout.cached(at), target));
            assert(queue_grew(s, after));
            lemma_set_block_levels(w, s.light, at, target, at);
            if w.layout.can_encode(at) {
                lemma_onward(direction);
                lemma_queued_entry(w, at, target, onward(direction), w.shape_flags(to));
            }
            assert forall|k: int| 0 <= k < after.queues.increase.len() implies is_faithful(
                w,
                after.light,
                #[trigger] after.queues.increase[k],
            ) by {
                if k < s.queues.increase.len() {
                    let entry = s.queues.increase[k];
                    assert(after.queues.increase[k] == entry);
                    assert(is_faithful(w, s.light, entry));
                    if let Some(b) = entry_source(w.layout, entry) {
                        lemma_set_block_levels(w, s.light, at, target, b.block_pos);
                    }
                }
            }
            assert forall|pos: BlockPos|
                w.layout.can_encode(pos) && lit_at(
                    w,
                    after.light,
                    pos,
                ) implies #[trigger] emission_at(w, pos) <= level_at(w, after.light, pos)
                || will_be_written(w, after, pos) by {
                lemma_can_encode_has_block(w.layout, pos);
                lemma_set_block_levels(w, s.light, at, target, pos);
                if will_be_written(w, s, pos) {
                    lemma_writes_stay(w, s, after, pos);
                }
            }
        }
    }
}

proof fn lemma_increase_around_emission(
    w: LightWorld<'_>,
    s: EngineState,
    entry: PackedLightQueueEntry,
    from: BlockStateId,
    source: BlockPos,
    n: int,
)
    requires
        world_plain(w),
        state_valid(w, s),
        w.layout.has_block(source),
        increases_faithful(w, s),
        emission_kept_or_written(w, s),
    ensures
        ({
            let after = increase_around(w, s, entry, from, source, n);
            &&& state_valid(w, after)
            &&& increases_faithful(w, after)
            &&& emission_kept_or_written(w, after)
        }),
    decreases n,
{
    if n > 0 {
        lemma_increase_around_emission(w, s, entry, from, source, n - 1);
        let before = increase_around(w, s, entry, from, source, n - 1);
        let direction = LightAxisDirection::at(n - 1);
        entry.level_is_nibble();
        lemma_increase_into(w, before, entry.spec_level(), from, source, direction);
        lemma_increase_into_emission(w, before, entry.spec_level(), from, source, direction);
    }
}

proof fn lemma_started_emission(w: LightWorld<'_>, s: EngineState)
    requires
        world_plain(w),
        state_valid(w, s),
        s.queues.increase.len() > 0,
        increases_faithful(w, s),
        emission_kept_or_written(w, s),
    ensures
        state_valid(w, increase_started(w, s)),
        increases_faithful(w, increase_started(w, s)),
        emission_kept_or_written(w, increase_started(w, s)),
{
    let entry = s.queues.increase[0];
    let after = increase_started(w, s);
    assert(is_faithful(w, s.light, entry));
    entry.level_is_nibble();
    let writes = is_writing(entry) && entry_source(w.layout, entry) is Some;
    let source = entry_source(w.layout, entry)->0.block_pos;
    if writes {
        lemma_cached_block(w.layout, source);
        lemma_set_block(s.light, w.layout.cached(source), entry.spec_level());
    }
    assert forall|k: int| 0 <= k < after.queues.increase.len() implies is_faithful(
        w,
        after.light,
        #[trigger] after.queues.increase[k],
    ) by {
        let e = s.queues.increase[k + 1];
        assert(after.queues.increase[k] == e);
        assert(is_faithful(w, s.light, e));
        if writes {
            if let Some(b) = entry_source(w.layout, e) {
                lemma_set_block_levels(w, s.light, source, entry.spec_level(), b.block_pos);
            }
        }
    }
    assert forall|pos: BlockPos|
        w.layout.can_encode(pos) && lit_at(w, after.light, pos) implies #[trigger] emission_at(
        w,
        pos,
    ) <= level_at(w, after.light, pos) || will_be_written(w, after, pos) by {
        lemma_can_encode_has_block(w.layout, pos);
        if writes {
            lemma_set_block_levels(w, s.light, source, entry.spec_level(), pos);
        }
        assert(emission_at(w, pos) <= level_at(w, s.light, pos) || will_be_written(w, s, pos));
        if will_be_written(w, s, pos) {
            let k = choose|k: int|
                0 <= k < s.queues.increase.len() && is_writing(#[trigger] s.queues.increase[k])
                    && entry_source(w.layout, s.queues.increase[k]) == Some(w.layout.cached(pos));
            if k > 0 {
                assert(after.queues.increase[k - 1] == s.queues.increase[k]);
                assert(is_writing(after.queues.increase[k - 1]));
            } else {
                assert(source == pos);
            }
        }
    }
}

/// Runs of steps keep what blocks emit, or give it back to them.
pub proof fn lemma_increase_steps_emission(w: LightWorld<'_>, s: EngineState, n: nat)
    requires
        world_plain(w),
        state_valid(w, s),
        increases_faithful(w, s),
        emission_kept_or_written(w, s),
    ensures
        state_valid(w, increase_steps(w, s, n)),
        increases_faithful(w, increase_steps(w, s, n)),
        emission_kept_or_written(w, increase_steps(w, s, n)),
    decreases n,
{
    if n > 0 {
        let before = increase_steps(w, s, (n - 1) as nat);
        let after = increase_steps(w, s, n);
        lemma_increase_steps_emission(w, s, (n - 1) as nat);
        if before.queues.increase.len() > 0 {
            let entry = before.queues.increase[0];
            let start = increase_started(w, before);
            lemma_started_emission(w, before);
            if let Some(block) = entry_source(w.layout, entry) {
                let source = block.block_pos;
                assert(block == w.layout.cached(source));
                if !(entry.flags().recheck_level && level_of(before.light, block)
                    != entry.spec_level()) {
                    let from = w.source_state(entry, block);
                    assert(after == increase_around(w, start, entry, from, source, 6));
                    lemma_increase_around_emission(w, start, entry, from, source, 6);
                } else {
                    assert(after == start);
                }
            } else {
                assert(after == start);
            }
        }
    }
}

/// Runs of steps keep block light supported, but for blocks lit by a neighbor
/// that is still to be written.
pub proof fn lemma_increase_steps_support(w: LightWorld<'_>, s: EngineState, n: nat)
    requires
        world_plain(w),
        state_valid(w, s),
        all_honest(w, s),
        balanced_or_pending(w, s),
        writes_raise(w, s),
        increases_faithful(w, s),
        emission_kept_or_written(w, s),
        all_supported(w, s.light),
    ensures
        all_backed(w, increase_steps(w, s, n)),
        increases_faithful(w, increase_steps(w, s, n)),
        emission_kept_or_written(w, increase_steps(w, s, n)),
    decreases n,
{
    if n > 0 {
        let before = increase_steps(w, s, (n - 1) as nat);
        let after = increase_steps(w, s, n);
        lemma_increase_steps_support(w, s, (n - 1) as nat);
        lemma_increase_steps_balance(w, s, (n - 1) as nat);
        assert(next_raises(w, before));
        if before.queues.increase.len() > 0 {
            let entry = before.queues.increase[0];
            let start = increase_started(w, before);
            assert(is_honest(w, before, entry));
            assert(is_faithful(w, before.light, entry));
            entry.level_is_nibble();
            lemma_started_emission(w, before);
            assert forall|pos: BlockPos| w.layout.can_encode(pos) implies #[trigger] is_backed(
                w,
                start,
                pos,
            ) by {
                assert(is_backed(w, before, pos));
                lemma_started_backed(w, before, pos);
            }
            if let Some(block) = entry_source(w.layout, entry) {
                let source = block.block_pos;
                assert(block == w.layout.cached(source));
                lemma_started_levels(w, before, source);
                if !(entry.flags().recheck_level && level_of(before.light, block)
                    != entry.spec_level()) {
                    if !entry.flags().recheck_level && !is_writing(entry) {
                        lemma_started_has_or_gets(w, before, source, entry.spec_level());
                    }
                    let from = w.source_state(entry, block);
                    assert(after == increase_around(w, start, entry, from, source, 6));
                    lemma_increase_around_backed(w, start, entry, from, source, 6);
                    lemma_increase_around_emission(w, start, entry, from, source, 6);
                } else {
                    assert(after == start);
                }
            } else {
                assert(after == start);
            }
        }
    } else {
        assert forall|pos: BlockPos| w.layout.can_encode(pos) implies #[trigger] is_backed(
            w,
            s,
            pos,
        ) by {
            assert(is_supported(w, s.light, pos));
        }
    }
}

} // verus!
