//! Block light after changes in the active chunk: every block has exactly what
//! it emits or what its neighbors leave it.
use vstd::prelude::*;

use crate::balance::{
    all_honest, balanced, covers, in_balance, is_honest, is_pending, is_writing,
    lemma_all_directions, lemma_can_encode_has_block, lemma_relative_back, lemma_set_block_levels,
    level_at, promises, queue_grew, world_plain, writes_raise,
};
use crate::block_state::BlockStateId;
use crate::cache::LightCacheLayout;
use crate::engine::lemma_window_has_neighbors;
use crate::engine_laws::lemma_decrease_steps_darken;
use crate::engine_measure::{lemma_cached_block, lemma_set_block, state_valid};
use crate::engine_model::{
    decrease_done, decrease_steps, entry_source, increase_done, increase_steps, relight_done,
    set_block, EngineState, LightWorld,
};
use crate::light_cache::{slot_valid, SlotView};
use crate::packed_queue::{
    LightAxisDirection, LightDirectionSet, LightQueueFlags, PackedLightQueueEntry,
};
use crate::position::{BlockPos, ChunkPos};
use crate::propagation::{
    block_checked, blocks_checked, calculated_block_level, idle_state, level_from,
    level_from_around, no_flags,
};
use crate::relight::{
    decrease_leaves_work, faces_regular, imbalance_covered, is_excused, is_quiet, leads_back,
    lemma_queued_entry, relight_reaches_balance, sources_quiet,
};
use crate::sky_model::calculated_sky_level;
use crate::support::{
    all_supported, beyond, decreases_near, dooms, emission_at, emission_kept,
    emission_kept_or_written, increases_faithful, is_doomed, is_faithful, is_near, is_supported,
    is_supported_from, lemma_backed_supported, lemma_decrease_steps_support,
    lemma_decrease_steps_tame, lemma_increase_steps_emission, lemma_increase_steps_support, lit_at,
    near_decrease_stays, plain_entries_own, sources_own, spreads_own, supported_or_doomed,
    will_be_written,
};

verus! {

/// Block light is in equilibrium: no block could brighten a neighbor, every
/// block has its light from somewhere, and no block has less than it emits.
pub open spec fn in_equilibrium(w: LightWorld<'_>, light: Seq<SlotView>) -> bool {
    balanced(w, light) && all_supported(w, light) && emission_kept(w, light)
}

/// Two worlds differ at some blocks only.
pub open spec fn differ_at(
    old_world: LightWorld<'_>,
    w: LightWorld<'_>,
    positions: Seq<BlockPos>,
) -> bool {
    &&& old_world.layout == w.layout
    &&& old_world.table == w.table
    &&& forall|pos: BlockPos|
        w.layout.has_block(pos) && !positions.contains(pos) ==> old_world.state(
            #[trigger] w.layout.cached(pos),
        ) == w.state(w.layout.cached(pos))
}

/// Changed blocks lie in the active chunk, in sections that keep light.
pub open spec fn changes_in_center(
    w: LightWorld<'_>,
    light: Seq<SlotView>,
    positions: Seq<BlockPos>,
) -> bool {
    forall|i: int|
        0 <= i < positions.len() ==> {
            &&& ChunkPos::of_block(#[trigger] positions[i]) == w.layout.center
            &&& w.layout.has_block(positions[i])
            &&& lit_at(w, light, positions[i])
        }
}

/// An entry of a changed block, as noting the change queues it.
spec fn is_change_entry(
    w: LightWorld<'_>,
    entry: PackedLightQueueEntry,
    pos: BlockPos,
    level: u8,
    flags: LightQueueFlags,
) -> bool {
    &&& entry_source(w.layout, entry) == Some(w.layout.cached(pos))
    &&& entry.spec_level() == level
    &&& entry.spec_directions() == LightDirectionSet(63)
    &&& entry.flags() == flags
}

/// The state after the first `n` changes were noted: changed blocks have what
/// they emit, and their entries are queued.
spec fn changes_noted(
    w: LightWorld<'_>,
    light: Seq<SlotView>,
    positions: Seq<BlockPos>,
    n: int,
    s: EngineState,
) -> bool {
    &&& state_valid(w, s)
    &&& forall|pos: BlockPos|
        w.layout.has_block(pos) ==> #[trigger] level_at(w, s.light, pos) == if positions.take(
            n,
        ).contains(pos) {
            emission_at(w, pos)
        } else {
            level_at(w, light, pos)
        }
    &&& forall|pos: BlockPos|
        w.layout.has_block(pos) ==> #[trigger] lit_at(w, s.light, pos) == lit_at(w, light, pos)
    &&& forall|i: int| 0 <= i < n ==> has_decrease(w, light, s, #[trigger] positions[i])
    &&& forall|i: int|
        0 <= i < n && emission_at(w, #[trigger] positions[i]) != 0 ==> has_increase(
            w,
            s,
            positions[i],
        )
    &&& forall|k: int|
        0 <= k < s.queues.decrease.len() ==> is_some_decrease(
            w,
            #[trigger] s.queues.decrease[k],
            positions,
            n,
        )
    &&& forall|k: int|
        0 <= k < s.queues.increase.len() ==> is_some_increase(
            w,
            #[trigger] s.queues.increase[k],
            positions,
            n,
        )
}

spec fn has_decrease(
    w: LightWorld<'_>,
    light: Seq<SlotView>,
    s: EngineState,
    pos: BlockPos,
) -> bool {
    exists|k: int|
        0 <= k < s.queues.decrease.len() && is_change_entry(
            w,
            #[trigger] s.queues.decrease[k],
            pos,
            level_at(w, light, pos),
            no_flags(),
        )
}

spec fn has_increase(w: LightWorld<'_>, s: EngineState, pos: BlockPos) -> bool {
    exists|k: int|
        0 <= k < s.queues.increase.len() && is_change_entry(
            w,
            #[trigger] s.queues.increase[k],
            pos,
            emission_at(w, pos),
            w.shape_flags(w.state(w.layout.cached(pos))),
        )
}

spec fn is_some_decrease(
    w: LightWorld<'_>,
    entry: PackedLightQueueEntry,
    positions: Seq<BlockPos>,
    n: int,
) -> bool {
    exists|i: int|
        0 <= i < n && entry_source(w.layout, entry) == Some(
            w.layout.cached(#[trigger] positions[i]),
        )
}

spec fn is_some_increase(
    w: LightWorld<'_>,
    entry: PackedLightQueueEntry,
    positions: Seq<BlockPos>,
    n: int,
) -> bool {
    exists|i: int|
        0 <= i < n && emission_at(w, #[trigger] positions[i]) != 0 && is_change_entry(
            w,
            entry,
            positions[i],
            emission_at(w, positions[i]),
            w.shape_flags(w.state(w.layout.cached(positions[i]))),
        )
}

proof fn lemma_center_can_encode(layout: LightCacheLayout, pos: BlockPos)
    requires
        ChunkPos::of_block(pos) == layout.center,
        layout.has_block(pos),
    ensures
        layout.can_encode(pos),
        beyond(pos.x as int, layout.center.x as int) == 0,
        beyond(pos.z as int, layout.center.z as int) == 0,
{
}

proof fn lemma_take_contains(positions: Seq<BlockPos>, n: int, pos: BlockPos)
    requires
        0 < n <= positions.len(),
    ensures
        positions.take(n).contains(pos) <==> positions.take(n - 1).contains(pos) || positions[n
            - 1] == pos,
{
    if positions.take(n - 1).contains(pos) {
        let front = positions.take(n - 1);
        let k = choose|k: int| 0 <= k < front.len() && front[k] == pos;
        assert(positions.take(n)[k] == pos);
    }
    if positions[n - 1] == pos {
        assert(positions.take(n)[n - 1] == pos);
    }
    if positions.take(n).contains(pos) {
        let all = positions.take(n);
        let k = choose|k: int| 0 <= k < all.len() && all[k] == pos;
        if k < n - 1 {
            assert(positions.take(n - 1)[k] == pos);
        }
    }
}

/// Noting one more change.
proof fn lemma_block_checked(w: LightWorld<'_>, s: EngineState, pos: BlockPos)
    requires
        world_plain(w),
        state_valid(w, s),
        w.layout.can_encode(pos),
        lit_at(w, s.light, pos),
    ensures
        ({
            let after = block_checked(w, s, pos);
            let last = after.queues.decrease.len() - 1;
            &&& state_valid(w, after)
            &&& forall|other: BlockPos|
                w.layout.has_block(other) ==> #[trigger] level_at(w, after.light, other)
                    == if other == pos {
                    emission_at(w, pos)
                } else {
                    level_at(w, s.light, other)
                }
            &&& forall|other: BlockPos|
                w.layout.has_block(other) ==> #[trigger] lit_at(w, after.light, other) == lit_at(
                    w,
                    s.light,
                    other,
                )
            &&& last == s.queues.decrease.len()
            &&& forall|k: int|
                0 <= k < last ==> #[trigger] after.queues.decrease[k] == s.queues.decrease[k]
            &&& is_change_entry(
                w,
                after.queues.decrease[last],
                pos,
                level_at(w, s.light, pos),
                no_flags(),
            )
            &&& queue_grew(s, after)
            &&& emission_at(w, pos) == 0 ==> after.queues.increase == s.queues.increase
            &&& emission_at(w, pos) != 0 ==> after.queues.increase.len()
                == s.queues.increase.len() + 1 && is_change_entry(
                w,
                after.queues.increase[s.queues.increase.len() as int],
                pos,
                emission_at(w, pos),
                w.shape_flags(w.state(w.layout.cached(pos))),
            )
        }),
{
    let after = block_checked(w, s, pos);
    let block = w.layout.cached(pos);
    let emitted = emission_at(w, pos);
    lemma_can_encode_has_block(w.layout, pos);
    lemma_cached_block(w.layout, pos);
    assert(slot_valid(s.light[block.section_slot as int]));
    lemma_set_block(s.light, block, emitted);
    assert(after.light == set_block(s.light, block, emitted));
    lemma_queued_entry(
        w,
        pos,
        emitted,
        LightDirectionSet(63),
        w.shape_flags(w.state(block)),
    );
    lemma_queued_entry(w, pos, level_at(w, s.light, pos), LightDirectionSet(63), no_flags());
    assert forall|other: BlockPos| w.layout.has_block(other) implies #[trigger] level_at(
        w,
        after.light,
        other,
    ) == if other == pos {
        emission_at(w, pos)
    } else {
        level_at(w, s.light, other)
    } by {
        lemma_set_block_levels(w, s.light, pos, emitted, other);
    }
    assert forall|other: BlockPos| w.layout.has_block(other) implies #[trigger] lit_at(
        w,
        after.light,
        other,
    ) == lit_at(w, s.light, other) by {
        lemma_set_block_levels(w, s.light, pos, emitted, other);
    }
}

proof fn lemma_changes_noted(
    w: LightWorld<'_>,
    light: Seq<SlotView>,
    positions: Seq<BlockPos>,
    n: int,
)
    requires
        world_plain(w),
        state_valid(w, idle_state(light)),
        changes_in_center(w, light, positions),
        0 <= n <= positions.len(),
    ensures
        changes_noted(w, light, positions, n, blocks_checked(w, idle_state(light), positions, n)),
    decreases n,
{
    let s = blocks_checked(w, idle_state(light), positions, n);
    if n > 0 {
        lemma_changes_noted(w, light, positions, n - 1);
        let before = blocks_checked(w, idle_state(light), positions, n - 1);
        let pos = positions[n - 1];
        lemma_center_can_encode(w.layout, pos);
        assert(lit_at(w, before.light, pos) == lit_at(w, light, pos));
        lemma_block_checked(w, before, pos);
        lemma_noted_next(w, light, positions, n, before, s);
    }
}

proof fn lemma_noted_next(
    w: LightWorld<'_>,
    light: Seq<SlotView>,
    positions: Seq<BlockPos>,
    n: int,
    before: EngineState,
    s: EngineState,
)
    requires
        world_plain(w),
        0 < n <= positions.len(),
        changes_noted(w, light, positions, n - 1, before),
        w.layout.can_encode(positions[n - 1]),
        lit_at(w, before.light, positions[n - 1]),
        s == block_checked(w, before, positions[n - 1]),
    ensures
        changes_noted(w, light, positions, n, s),
{
    let pos = positions[n - 1];
    let last = s.queues.decrease.len() - 1;
    lemma_can_encode_has_block(w.layout, pos);
    lemma_block_checked(w, before, pos);
    assert forall|other: BlockPos| w.layout.has_block(other) implies #[trigger] level_at(
        w,
        s.light,
        other,
    ) == if positions.take(n).contains(other) {
        emission_at(w, other)
    } else {
        level_at(w, light, other)
    } by {
        lemma_take_contains(positions, n, other);
        assert(level_at(w, before.light, other) == if positions.take(n - 1).contains(other) {
            emission_at(w, other)
        } else {
            level_at(w, light, other)
        });
    }
    assert forall|other: BlockPos| w.layout.has_block(other) implies #[trigger] lit_at(
        w,
        s.light,
        other,
    ) == lit_at(w, light, other) by {
        assert(lit_at(w, before.light, other) == lit_at(w, light, other));
    }
    assert forall|i: int| 0 <= i < n implies has_decrease(w, light, s, #[trigger] positions[i]) by {
        if i < n - 1 {
            assert(has_decrease(w, light, before, positions[i]));
            let k = choose|k: int|
                0 <= k < before.queues.decrease.len() && is_change_entry(
                    w,
                    #[trigger] before.queues.decrease[k],
                    positions[i],
                    level_at(w, light, positions[i]),
                    no_flags(),
                );
            assert(s.queues.decrease[k] == before.queues.decrease[k]);
        } else if positions.take(n - 1).contains(pos) {
            let front = positions.take(n - 1);
            let j = choose|j: int| 0 <= j < front.len() && front[j] == pos;
            assert(positions[j] == pos);
            assert(has_decrease(w, light, before, positions[j]));
            let k = choose|k: int|
                0 <= k < before.queues.decrease.len() && is_change_entry(
                    w,
                    #[trigger] before.queues.decrease[k],
                    pos,
                    level_at(w, light, pos),
                    no_flags(),
                );
            assert(s.queues.decrease[k] == before.queues.decrease[k]);
        } else {
            assert(level_at(w, before.light, pos) == level_at(w, light, pos));
            assert(is_change_entry(
                w,
                s.queues.decrease[last],
                pos,
                level_at(w, light, pos),
                no_flags(),
            ));
        }
    }
    assert forall|i: int|
        0 <= i < n && emission_at(w, #[trigger] positions[i]) != 0 implies has_increase(
        w,
        s,
        positions[i],
    ) by {
        if i < n - 1 {
            assert(has_increase(w, before, positions[i]));
            let k = choose|k: int|
                0 <= k < before.queues.increase.len() && is_change_entry(
                    w,
                    #[trigger] before.queues.increase[k],
                    positions[i],
                    emission_at(w, positions[i]),
                    w.shape_flags(w.state(w.layout.cached(positions[i]))),
                );
            assert(s.queues.increase[k] == before.queues.increase[k]);
        } else {
            let k = before.queues.increase.len() as int;
            assert(is_change_entry(
                w,
                s.queues.increase[k],
                pos,
                emission_at(w, pos),
                w.shape_flags(w.state(w.layout.cached(pos))),
            ));
        }
    }
    assert forall|k: int| 0 <= k < s.queues.decrease.len() implies is_some_decrease(
        w,
        #[trigger] s.queues.decrease[k],
        positions,
        n,
    ) by {
        if k < last {
            assert(s.queues.decrease[k] == before.queues.decrease[k]);
            assert(is_some_decrease(w, before.queues.decrease[k], positions, n - 1));
            let i = choose|i: int|
                0 <= i < n - 1 && entry_source(w.layout, before.queues.decrease[k]) == Some(
                    w.layout.cached(#[trigger] positions[i]),
                );
            assert(0 <= i < n);
        } else {
            assert(entry_source(w.layout, s.queues.decrease[k]) == Some(
                w.layout.cached(positions[n - 1]),
            ));
        }
    }
    assert forall|k: int| 0 <= k < s.queues.increase.len() implies is_some_increase(
        w,
        #[trigger] s.queues.increase[k],
        positions,
        n,
    ) by {
        if k < before.queues.increase.len() {
            assert(s.queues.increase[k] == before.queues.increase[k]);
            assert(is_some_increase(w, before.queues.increase[k], positions, n - 1));
            let i = choose|i: int|
                0 <= i < n - 1 && emission_at(w, #[trigger] positions[i]) != 0 && is_change_entry(
                    w,
                    before.queues.increase[k],
                    positions[i],
                    emission_at(w, positions[i]),
                    w.shape_flags(w.state(w.layout.cached(positions[i]))),
                );
            assert(0 <= i < n);
        } else {
            assert(emission_at(w, positions[n - 1]) != 0);
        }
    }
}

proof fn lemma_contains_at(positions: Seq<BlockPos>, pos: BlockPos) -> (i: int)
    requires
        positions.contains(pos),
    ensures
        0 <= i < positions.len(),
        positions[i] == pos,
{
    choose|i: int| 0 <= i < positions.len() && positions[i] == pos
}

proof fn lemma_noted_level(
    w: LightWorld<'_>,
    light: Seq<SlotView>,
    positions: Seq<BlockPos>,
    s: EngineState,
    pos: BlockPos,
)
    requires
        changes_noted(w, light, positions, positions.len() as int, s),
        w.layout.has_block(pos),
    ensures
        positions.contains(pos) ==> level_at(w, s.light, pos) == emission_at(w, pos),
        !positions.contains(pos) ==> level_at(w, s.light, pos) == level_at(w, light, pos),
        lit_at(w, s.light, pos) == lit_at(w, light, pos),
{
    assert(positions.take(positions.len() as int) =~= positions);
    assert(lit_at(w, s.light, pos) == lit_at(w, light, pos));
}

/// A changed block that emits light has work queued in every direction.
proof fn lemma_noted_pending(
    w: LightWorld<'_>,
    light: Seq<SlotView>,
    positions: Seq<BlockPos>,
    s: EngineState,
    pos: BlockPos,
    direction: LightAxisDirection,
)
    requires
        changes_noted(w, light, positions, positions.len() as int, s),
        changes_in_center(w, light, positions),
        positions.contains(pos),
        emission_at(w, pos) != 0,
    ensures
        is_pending(w, s, pos, direction),
{
    let i = lemma_contains_at(positions, pos);
    assert(has_increase(w, s, positions[i]));
    let k = choose|k: int|
        0 <= k < s.queues.increase.len() && is_change_entry(
            w,
            #[trigger] s.queues.increase[k],
            pos,
            emission_at(w, pos),
            w.shape_flags(w.state(w.layout.cached(pos))),
        );
    lemma_noted_level(w, light, positions, s, pos);
    lemma_all_directions(direction);
    assert(covers(w, s.light, s.queues.increase[k], pos, direction));
}

proof fn lemma_noted_quiet(
    w: LightWorld<'_>,
    light: Seq<SlotView>,
    positions: Seq<BlockPos>,
    s: EngineState,
)
    requires
        changes_noted(w, light, positions, positions.len() as int, s),
        changes_in_center(w, light, positions),
    ensures
        sources_quiet(w, s),
        sources_own(w, s),
        decreases_near(w, s),
{
    assert forall|k: int| 0 <= k < s.queues.decrease.len() implies {
        &&& entry_source(w.layout, #[trigger] s.queues.decrease[k]) matches Some(source)
            ==> is_quiet(w, s, source.block_pos)
        &&& entry_source(w.layout, s.queues.decrease[k]) matches Some(source) ==> level_at(
            w,
            s.light,
            source.block_pos,
        ) <= emission_at(w, source.block_pos)
        &&& entry_source(w.layout, s.queues.decrease[k]) matches Some(source) ==> is_near(
            w.layout,
            source.block_pos,
            s.queues.decrease[k].spec_level() as int,
        )
    } by {
        let entry = s.queues.decrease[k];
        assert(is_some_decrease(w, entry, positions, positions.len() as int));
        let i = choose|i: int|
            0 <= i < positions.len() && entry_source(w.layout, entry) == Some(
                w.layout.cached(#[trigger] positions[i]),
            );
        let pos = positions[i];
        assert(positions.contains(pos));
        lemma_noted_level(w, light, positions, s, pos);
        lemma_center_can_encode(w.layout, pos);
        entry.level_is_nibble();
        if emission_at(w, pos) != 0 {
            assert forall|direction: LightAxisDirection| #[trigger]
                is_pending(w, s, pos, direction) by {
                lemma_noted_pending(w, light, positions, s, pos, direction);
            }
        }
    }
}

proof fn lemma_noted_faithful(
    w: LightWorld<'_>,
    light: Seq<SlotView>,
    positions: Seq<BlockPos>,
    s: EngineState,
)
    requires
        changes_noted(w, light, positions, positions.len() as int, s),
        changes_in_center(w, light, positions),
    ensures
        increases_faithful(w, s),
        plain_entries_own(w, s),
{
    assert forall|k: int| 0 <= k < s.queues.increase.len() implies is_faithful(
        w,
        s.light,
        #[trigger] s.queues.increase[k],
    ) && spreads_own(w, s.light, s.queues.increase[k]) by {
        let entry = s.queues.increase[k];
        assert(is_some_increase(w, entry, positions, positions.len() as int));
        let i = choose|i: int|
            0 <= i < positions.len() && emission_at(w, #[trigger] positions[i]) != 0
                && is_change_entry(
                w,
                entry,
                positions[i],
                emission_at(w, positions[i]),
                w.shape_flags(w.state(w.layout.cached(positions[i]))),
            );
        assert(positions.contains(positions[i]));
        lemma_noted_level(w, light, positions, s, positions[i]);
        lemma_center_can_encode(w.layout, positions[i]);
    }
}

/// Neighbors that did not change are in balance as they were, and those of
/// changed blocks have work queued.
proof fn lemma_noted_covered(
    old_world: LightWorld<'_>,
    w: LightWorld<'_>,
    light: Seq<SlotView>,
    positions: Seq<BlockPos>,
    s: EngineState,
    pos: BlockPos,
    direction: LightAxisDirection,
)
    requires
        world_plain(w),
        differ_at(old_world, w, positions),
        changes_noted(w, light, positions, positions.len() as int, s),
        changes_in_center(w, light, positions),
        w.layout.can_encode(pos),
        in_balance(old_world, light, pos, direction),
    ensures
        in_balance(w, s.light, pos, direction) || is_pending(w, s, pos, direction) || is_excused(
            w,
            s,
            pos,
            direction,
        ),
{
    let neighbor = pos.spec_relative(direction.spec_direction());
    lemma_can_encode_has_block(w.layout, pos);
    lemma_noted_level(w, light, positions, s, pos);
    if positions.contains(pos) {
        if emission_at(w, pos) != 0 {
            lemma_noted_pending(w, light, positions, s, pos, direction);
        }
    } else if w.layout.has_block(neighbor) {
        lemma_noted_level(w, light, positions, s, neighbor);
        if positions.contains(neighbor) {
            let i = lemma_contains_at(positions, neighbor);
            assert(has_decrease(w, light, s, positions[i]));
            let k = choose|k: int|
                0 <= k < s.queues.decrease.len() && is_change_entry(
                    w,
                    #[trigger] s.queues.decrease[k],
                    neighbor,
                    level_at(w, light, neighbor),
                    no_flags(),
                );
            lemma_all_directions(direction.spec_opposite());
            assert(leads_back(w, s.queues.decrease[k], pos, direction));
        } else {
            assert(old_world.state(w.layout.cached(pos)) == w.state(w.layout.cached(pos)));
            assert(old_world.state(w.layout.cached(neighbor)) == w.state(
                w.layout.cached(neighbor),
            ));
            assert(level_at(old_world, light, pos) == level_at(w, light, pos));
        }
    }
}

/// Light from a changed block is doomed by the block's decrease entry.
proof fn lemma_noted_doomed(
    old_world: LightWorld<'_>,
    w: LightWorld<'_>,
    light: Seq<SlotView>,
    positions: Seq<BlockPos>,
    s: EngineState,
    pos: BlockPos,
    direction: LightAxisDirection,
)
    requires
        world_plain(w),
        faces_regular(w),
        differ_at(old_world, w, positions),
        changes_noted(w, light, positions, positions.len() as int, s),
        w.layout.can_encode(pos),
        !positions.contains(pos),
        positions.contains(pos.spec_relative(direction.spec_direction())),
        is_supported_from(old_world, light, pos, direction),
    ensures
        is_doomed(w, s, pos),
{
    let neighbor = pos.spec_relative(direction.spec_direction());
    let back = direction.spec_opposite();
    let i = lemma_contains_at(positions, neighbor);
    assert(has_decrease(w, light, s, positions[i]));
    let k = choose|k: int|
        0 <= k < s.queues.decrease.len() && is_change_entry(
            w,
            #[trigger] s.queues.decrease[k],
            neighbor,
            level_at(w, light, neighbor),
            no_flags(),
        );
    let entry = s.queues.decrease[k];
    let to = w.state(w.layout.cached(pos));
    lemma_can_encode_has_block(w.layout, pos);
    lemma_noted_level(w, light, positions, s, pos);
    lemma_all_directions(back);
    assert(old_world.state(w.layout.cached(pos)) == to);
    let was = old_world.state(w.layout.cached(neighbor));
    assert(w.loss(was, to, back) != 16 && level_at(w, light, neighbor) >= level_at(w, light, pos)
        + w.loss(was, to, back)) by {
        reveal(is_supported_from);
    }
    assert(w.loss(w.table.spec_air(), to, back) != 16) by {
        reveal(faces_regular);
    }
    assert(w.loss(w.table.spec_air(), to, back) == w.loss(was, to, back));
    assert(dooms(w, s.light, entry, pos, direction)) by {
        reveal(dooms);
    }
}

proof fn lemma_noted_supported(
    old_world: LightWorld<'_>,
    w: LightWorld<'_>,
    light: Seq<SlotView>,
    positions: Seq<BlockPos>,
    s: EngineState,
    pos: BlockPos,
)
    requires
        world_plain(w),
        faces_regular(w),
        differ_at(old_world, w, positions),
        changes_noted(w, light, positions, positions.len() as int, s),
        w.layout.can_encode(pos),
        is_supported(old_world, light, pos),
    ensures
        is_supported(w, s.light, pos) || is_doomed(w, s, pos),
{
    lemma_can_encode_has_block(w.layout, pos);
    lemma_noted_level(w, light, positions, s, pos);
    if !positions.contains(pos) {
        assert(old_world.state(w.layout.cached(pos)) == w.state(w.layout.cached(pos)));
        if level_at(w, light, pos) > emission_at(w, pos) {
            let direction = choose|direction: LightAxisDirection|
                #[trigger] is_supported_from(old_world, light, pos, direction);
            let neighbor = pos.spec_relative(direction.spec_direction());
            assert(w.layout.has_block(neighbor)) by {
                reveal(is_supported_from);
            }
            if positions.contains(neighbor) {
                lemma_noted_doomed(old_world, w, light, positions, s, pos, direction);
            } else {
                lemma_noted_level(w, light, positions, s, neighbor);
                assert(old_world.state(w.layout.cached(neighbor)) == w.state(
                    w.layout.cached(neighbor),
                ));
                assert(is_supported_from(w, s.light, pos, direction)) by {
                    reveal(is_supported_from);
                }
            }
        }
    }
}

/// Changes in the active chunk leave the window ready to be relit.
proof fn lemma_noted_ready(
    old_world: LightWorld<'_>,
    w: LightWorld<'_>,
    light: Seq<SlotView>,
    positions: Seq<BlockPos>,
    s: EngineState,
)
    requires
        world_plain(w),
        faces_regular(w),
        differ_at(old_world, w, positions),
        changes_noted(w, light, positions, positions.len() as int, s),
        changes_in_center(w, light, positions),
        in_equilibrium(old_world, light),
    ensures
        imbalance_covered(w, s),
        supported_or_doomed(w, s),
        emission_kept(w, s.light),
{
    assert forall|pos: BlockPos, direction: LightAxisDirection|
        w.layout.can_encode(pos) implies #[trigger] in_balance(w, s.light, pos, direction)
        || is_pending(w, s, pos, direction) || is_excused(w, s, pos, direction) by {
        assert(in_balance(old_world, light, pos, direction));
        lemma_noted_covered(old_world, w, light, positions, s, pos, direction);
    }
    assert forall|pos: BlockPos| w.layout.can_encode(pos) implies #[trigger] is_supported(
        w,
        s.light,
        pos,
    ) || is_doomed(w, s, pos) by {
        assert(is_supported(old_world, light, pos));
        lemma_noted_supported(old_world, w, light, positions, s, pos);
    }
    assert forall|pos: BlockPos|
        w.layout.can_encode(pos) && lit_at(w, s.light, pos) implies #[trigger] emission_at(w, pos)
        <= level_at(w, s.light, pos) by {
        lemma_can_encode_has_block(w.layout, pos);
        lemma_noted_level(w, light, positions, s, pos);
        if !positions.contains(pos) {
            assert(old_world.state(w.layout.cached(pos)) == w.state(w.layout.cached(pos)));
            assert(emission_at(old_world, pos) <= level_at(old_world, light, pos));
        }
    }
}

/// Entries spread no more than their sources have or are about to be written.
proof fn lemma_work_honest(w: LightWorld<'_>, s: EngineState)
    requires
        increases_faithful(w, s),
        plain_entries_own(w, s),
        emission_kept_or_written(w, s),
    ensures
        all_honest(w, s),
{
    assert forall|k: int| 0 <= k < s.queues.increase.len() implies is_honest(
        w,
        s,
        #[trigger] s.queues.increase[k],
    ) by {
        let entry = s.queues.increase[k];
        assert(is_faithful(w, s.light, entry));
        assert(spreads_own(w, s.light, entry));
        if let Some(source) = entry_source(w.layout, entry) {
            let pos = source.block_pos;
            if !entry.flags().recheck_level && !is_writing(entry) {
                assert(emission_at(w, pos) <= level_at(w, s.light, pos) || will_be_written(
                    w,
                    s,
                    pos,
                ));
                if will_be_written(w, s, pos) {
                    let i = choose|i: int|
                        0 <= i < s.queues.increase.len() && is_writing(
                            #[trigger] s.queues.increase[i],
                        ) && entry_source(w.layout, s.queues.increase[i]) == Some(
                            w.layout.cached(pos),
                        );
                    assert(is_faithful(w, s.light, s.queues.increase[i]));
                    assert(promises(w, s.queues.increase[i], pos, entry.spec_level() as int));
                }
            }
        }
    }
}

/// Block light that was in equilibrium is in equilibrium again after changes
/// in the active chunk were worked off, as long as no emitting block that became
/// dark on the way was given less light back than it already had again.
pub proof fn block_changes_reach_equilibrium(
    old_world: LightWorld<'_>,
    w: LightWorld<'_>,
    light: Seq<SlotView>,
    positions: Seq<BlockPos>,
    after: EngineState,
)
    requires
        world_plain(w),
        faces_regular(w),
        differ_at(old_world, w, positions),
        state_valid(w, idle_state(light)),
        changes_in_center(w, light, positions),
        in_equilibrium(old_world, light),
        relight_done(
            w,
            true,
            blocks_checked(w, idle_state(light), positions, positions.len() as int),
            after,
        ),
        forall|middle: EngineState| #[trigger]
            decrease_done(
                w,
                true,
                blocks_checked(w, idle_state(light), positions, positions.len() as int),
                middle,
            ) ==> writes_raise(w, middle),
    ensures
        in_equilibrium(w, after.light),
{
    let s = blocks_checked(w, idle_state(light), positions, positions.len() as int);
    let middle = choose|middle: EngineState|
        decrease_done(w, true, s, middle) && #[trigger] increase_done(w, middle, after);
    lemma_changes_noted(w, light, positions, positions.len() as int);
    lemma_noted_quiet(w, light, positions, s);
    lemma_noted_faithful(w, light, positions, s);
    lemma_noted_ready(old_world, w, light, positions, s);
    near_decrease_stays(w, true, s, middle);
    decrease_leaves_work(w, true, s, middle);
    let n = choose|n: nat|
        #[trigger] decrease_steps(w, true, s, n) == middle && middle.queues.decrease.len() == 0;
    lemma_decrease_steps_tame(w, s, n);
    lemma_decrease_steps_support(w, s, n);
    lemma_decrease_steps_darken(w, true, s, n);
    lemma_work_honest(w, middle);
    assert(all_supported(w, middle.light)) by {
        assert forall|pos: BlockPos| w.layout.can_encode(pos) implies #[trigger] is_supported(
            w,
            middle.light,
            pos,
        ) by {
            assert(!is_doomed(w, middle, pos));
        }
    }
    relight_reaches_balance(w, true, s, middle, after);
    let m = choose|m: nat|
        #[trigger] increase_steps(w, middle, m) == after && after.queues.increase.len() == 0;
    lemma_increase_steps_support(w, middle, m);
    lemma_backed_supported(w, after);
    assert forall|pos: BlockPos|
        w.layout.can_encode(pos) && lit_at(w, after.light, pos) implies #[trigger] emission_at(
        w,
        pos,
    ) <= level_at(w, after.light, pos) by {
        assert(!will_be_written(w, after, pos));
    }
}

/// Every lit block of the queue window has at least the light that the table
/// says its state emits.
pub open spec fn emitters_shine(w: LightWorld<'_>, light: Seq<SlotView>) -> bool {
    forall|pos: BlockPos|
        #![trigger level_at(w, light, pos)]
        w.layout.can_encode(pos) && lit_at(w, light, pos) ==> {
            let emission = w.table.info(w.state(w.layout.cached(pos))).light_emission;
            emission <= 15 ==> emission <= level_at(w, light, pos)
        }
}

/// A state that emits a light level emits it.
pub proof fn emission_is_the_tables(w: LightWorld<'_>, state: BlockStateId)
    ensures
        w.table.info(state).light_emission <= 15 ==> w.emission(state) == w.table.info(
            state,
        ).light_emission,
        w.emission(state) <= 15,
{
}

/// After block changes in the active chunk were worked off, every emitting
/// block has at least the light that it emits, if every one had it before and
/// no state emits more than there is.
pub proof fn changed_emitters_shine(
    old_world: LightWorld<'_>,
    w: LightWorld<'_>,
    light: Seq<SlotView>,
    positions: Seq<BlockPos>,
    after: EngineState,
)
    requires
        world_plain(w),
        forall|state: BlockStateId| (#[trigger] w.table.info(state)).light_emission <= 15,
        differ_at(old_world, w, positions),
        state_valid(w, idle_state(light)),
        changes_in_center(w, light, positions),
        emitters_shine(old_world, light),
        relight_done(
            w,
            true,
            blocks_checked(w, idle_state(light), positions, positions.len() as int),
            after,
        ),
    ensures
        emitters_shine(w, after.light),
{
    let s = blocks_checked(w, idle_state(light), positions, positions.len() as int);
    let middle = choose|middle: EngineState|
        decrease_done(w, true, s, middle) && #[trigger] increase_done(w, middle, after);
    lemma_changes_noted(w, light, positions, positions.len() as int);
    lemma_noted_quiet(w, light, positions, s);
    lemma_noted_faithful(w, light, positions, s);
    assert forall|pos: BlockPos|
        w.layout.can_encode(pos) && lit_at(w, s.light, pos) implies #[trigger] emission_at(w, pos)
        <= level_at(w, s.light, pos) by {
        lemma_can_encode_has_block(w.layout, pos);
        lemma_noted_level(w, light, positions, s, pos);
        emission_is_the_tables(w, w.state(w.layout.cached(pos)));
        if !positions.contains(pos) {
            assert(old_world.state(w.layout.cached(pos)) == w.state(w.layout.cached(pos)));
            assert(level_at(old_world, light, pos) == level_at(w, light, pos));
        }
    }
    let n = choose|n: nat|
        #[trigger] decrease_steps(w, true, s, n) == middle && middle.queues.decrease.len() == 0;
    lemma_decrease_steps_tame(w, s, n);
    lemma_decrease_steps_darken(w, true, s, n);
    let m = choose|m: nat|
        #[trigger] increase_steps(w, middle, m) == after && after.queues.increase.len() == 0;
    lemma_increase_steps_emission(w, middle, m);
    assert forall|pos: BlockPos|
        #![trigger level_at(w, after.light, pos)]
        w.layout.can_encode(pos) && lit_at(w, after.light, pos) implies {
            let emission = w.table.info(w.state(w.layout.cached(pos))).light_emission;
            emission <= 15 ==> emission <= level_at(w, after.light, pos)
        } by {
        emission_is_the_tables(w, w.state(w.layout.cached(pos)));
        assert(emission_at(w, pos) <= level_at(w, after.light, pos) || will_be_written(
            w,
            after,
            pos,
        ));
        assert(!will_be_written(w, after, pos));
    }
}

/// What a neighbor leaves a block.
pub open spec fn level_given(
    w: LightWorld<'_>,
    light: Seq<SlotView>,
    pos: BlockPos,
    direction: LightAxisDirection,
) -> int {
    let neighbor = pos.spec_relative(direction.spec_direction());
    let loss = w.loss(
        w.state(w.layout.cached(neighbor)),
        w.state(w.layout.cached(pos)),
        direction.spec_opposite(),
    );
    if w.layout.has_block(neighbor) && loss != 16 && level_at(w, light, neighbor) > loss {
        level_at(w, light, neighbor) - loss
    } else {
        0
    }
}

/// The most that the first `n` neighbors leave a block, or what it emits.
pub open spec fn brightest(w: LightWorld<'_>, light: Seq<SlotView>, pos: BlockPos, n: int) -> int
    decreases n,
{
    if n <= 0 {
        emission_at(w, pos) as int
    } else {
        let before = brightest(w, light, pos, n - 1);
        let given = level_given(w, light, pos, LightAxisDirection::at(n - 1));
        if given > before {
            given
        } else {
            before
        }
    }
}

/// The block's neighbors in the window lie in the queue window too.
pub open spec fn is_inner(w: LightWorld<'_>, pos: BlockPos) -> bool {
    forall|direction: LightAxisDirection|
        w.layout.has_block(#[trigger] pos.spec_relative(direction.spec_direction()))
            ==> w.layout.can_encode(pos.spec_relative(direction.spec_direction()))
}

proof fn lemma_brightest_bounds(
    w: LightWorld<'_>,
    light: Seq<SlotView>,
    pos: BlockPos,
    n: int,
    i: int,
)
    requires
        0 <= n <= 6,
    ensures
        emission_at(w, pos) <= brightest(w, light, pos, n),
        0 <= i < n ==> level_given(w, light, pos, LightAxisDirection::at(i)) <= brightest(
            w,
            light,
            pos,
            n,
        ),
    decreases n,
{
    if n > 0 {
        lemma_brightest_bounds(w, light, pos, n - 1, i);
    }
}

proof fn lemma_brightest_least(w: LightWorld<'_>, light: Seq<SlotView>, pos: BlockPos, n: int)
    requires
        0 <= n <= 6,
        emission_at(w, pos) <= level_at(w, light, pos),
        forall|direction: LightAxisDirection| #[trigger]
            level_given(w, light, pos, direction) <= level_at(w, light, pos),
    ensures
        brightest(w, light, pos, n) <= level_at(w, light, pos),
    decreases n,
{
    if n > 0 {
        lemma_brightest_least(w, light, pos, n - 1);
    }
}

/// In equilibrium no neighbor leaves a block more than it has.
proof fn lemma_given_bounded(
    w: LightWorld<'_>,
    light: Seq<SlotView>,
    pos: BlockPos,
    direction: LightAxisDirection,
)
    requires
        world_plain(w),
        balanced(w, light),
        w.layout.can_encode(pos),
        lit_at(w, light, pos),
        is_inner(w, pos),
    ensures
        level_given(w, light, pos, direction) <= level_at(w, light, pos),
{
    lemma_can_encode_has_block(w.layout, pos);
    lemma_window_has_neighbors(w.layout, pos);
    let neighbor = pos.spec_relative(direction.spec_direction());
    if w.layout.has_block(neighbor) {
        lemma_relative_back(pos, direction);
        assert(w.layout.can_encode(neighbor));
        assert(in_balance(w, light, neighbor, direction.spec_opposite()));
    }
}

/// In equilibrium a block has exactly what it emits or the most that a
/// neighbor leaves it, whichever is more.
#[verifier::rlimit(40)]
pub proof fn equilibrium_is_exact(w: LightWorld<'_>, light: Seq<SlotView>, pos: BlockPos)
    requires
        world_plain(w),
        state_valid(w, idle_state(light)),
        in_equilibrium(w, light),
        w.layout.can_encode(pos),
        lit_at(w, light, pos),
        is_inner(w, pos),
    ensures
        level_at(w, light, pos) == brightest(w, light, pos, 6),
{
    assert forall|direction: LightAxisDirection| #[trigger]
        level_given(w, light, pos, direction) <= level_at(w, light, pos) by {
        lemma_given_bounded(w, light, pos, direction);
    }
    assert(emission_at(w, pos) <= level_at(w, light, pos));
    lemma_brightest_least(w, light, pos, 6);
    assert(is_supported(w, light, pos));
    if level_at(w, light, pos) > emission_at(w, pos) {
        let direction = choose|direction: LightAxisDirection|
            #[trigger] is_supported_from(w, light, pos, direction);
        assert(level_given(w, light, pos, direction) >= level_at(w, light, pos)) by {
            reveal(is_supported_from);
        }
        assert(LightAxisDirection::at(direction.place()) == direction);
        lemma_brightest_bounds(w, light, pos, 6, direction.place());
    } else {
        lemma_brightest_bounds(w, light, pos, 6, 0);
    }
}

/// Light that passes from one block into another loses what the table says the
/// second dampens, but at least one level, unless faces between them stop it.
pub proof fn loss_follows_the_table(
    w: LightWorld<'_>,
    from: BlockStateId,
    to: BlockStateId,
    direction: LightAxisDirection,
)
    ensures
        ({
            let dampening = w.table.info(to).light_dampening;
            let faces = w.table.light_shape(from) != 0 || w.table.light_shape(to) != 0;
            &&& dampening > 0 && !faces ==> w.loss(from, to, direction) == dampening
            &&& dampening == 0 && !faces ==> w.loss(from, to, direction) == 1
            &&& w.loss(from, to, direction) == 16 || w.loss(from, to, direction) == w.loss(
                w.table.spec_air(),
                to,
                direction,
            ) || w.loss(w.table.spec_air(), to, direction) == 16
            &&& w.loss(from, to, direction) == 16 && dampening != 16 ==> faces
        }),
{
}

/// A level is the most that a block has of its own or from a neighbor.
pub open spec fn is_most_given(
    w: LightWorld<'_>,
    light: Seq<SlotView>,
    pos: BlockPos,
    own: u8,
    level: u8,
) -> bool {
    &&& own <= level
    &&& forall|direction: LightAxisDirection| #[trigger]
        level_given(w, light, pos, direction) <= level
    &&& level == own || exists|direction: LightAxisDirection| #[trigger]
        level_given(w, light, pos, direction) == level
}

/// Some neighbor leaves a block a level, or the level is its own.
pub open spec fn is_some_given(
    w: LightWorld<'_>,
    light: Seq<SlotView>,
    pos: BlockPos,
    own: u8,
    level: u8,
) -> bool {
    level == own || exists|direction: LightAxisDirection| #[trigger]
        level_given(w, light, pos, direction) == level
}

proof fn lemma_level_from(
    w: LightWorld<'_>,
    light: Seq<SlotView>,
    pos: BlockPos,
    level: u8,
    direction: LightAxisDirection,
)
    requires
        world_plain(w),
        state_valid(w, idle_state(light)),
        level < 16,
    ensures
        ({
            let next = level_from(w, light, pos, level, direction);
            let given = level_given(w, light, pos, direction);
            next == if given > level {
                given
            } else {
                level as int
            } && given < 16
        }),
{
    let near = pos.spec_relative(direction.spec_direction());
    if w.layout.has_block(near) {
        lemma_cached_block(w.layout, near);
        lemma_set_block(light, w.layout.cached(near), 0);
    }
}

proof fn lemma_level_from_around(
    w: LightWorld<'_>,
    light: Seq<SlotView>,
    pos: BlockPos,
    expect: u8,
    level: u8,
    i: int,
)
    requires
        world_plain(w),
        state_valid(w, idle_state(light)),
        level <= expect < 16,
        0 <= i <= 6,
    ensures
        ({
            let result = level_from_around(w, light, pos, expect, level, i);
            &&& level <= result
            &&& is_some_given(w, light, pos, level, result)
            &&& result <= expect ==> forall|direction: LightAxisDirection|
                direction.place() >= i ==> #[trigger] level_given(w, light, pos, direction)
                    <= result
        }),
    decreases 6 - i,
{
    if i < 6 {
        let direction = LightAxisDirection::at(i);
        let next = level_from(w, light, pos, level, direction);
        lemma_level_from(w, light, pos, level, direction);
        assert(level_given(w, light, pos, direction) <= next);
        if next <= expect {
            lemma_level_from_around(w, light, pos, expect, next, i + 1);
            let result = level_from_around(w, light, pos, expect, next, i + 1);
            assert forall|other: LightAxisDirection|
                other.place() >= i && result <= expect implies #[trigger] level_given(
                w,
                light,
                pos,
                other,
            ) <= result by {
                if other.place() == i {
                    assert(other == direction);
                }
            }
        }
    }
}

/// The sky-light level that a block should have is full light where that is
/// expected, and otherwise the most that a neighbor leaves it. Where that is more
/// than expected, it may also be another level that a neighbor leaves it and that
/// is more than expected.
pub proof fn calculated_sky_level_is_exact(
    w: LightWorld<'_>,
    light: Seq<SlotView>,
    pos: BlockPos,
    expect: u8,
)
    requires
        world_plain(w),
        state_valid(w, idle_state(light)),
        w.layout.has_block(pos),
        expect < 16,
    ensures
        calculated_sky_level(w, light, pos, expect) matches Some(level) && (expect == 15 ==> level
            == 15) && (expect < 15 && level <= expect ==> is_most_given(w, light, pos, 0, level))
            && (level > expect ==> is_some_given(w, light, pos, 0, level)),
{
    if expect < 15 {
        lemma_level_from_around(w, light, pos, expect, 0, 0);
    }
}

/// The block-light level that a block should have is the most that it emits or
/// that a neighbor leaves it. Where that is more than expected, it may also be
/// another such level that is more than expected.
pub proof fn calculated_block_level_is_exact(
    w: LightWorld<'_>,
    light: Seq<SlotView>,
    pos: BlockPos,
    expect: u8,
)
    requires
        world_plain(w),
        state_valid(w, idle_state(light)),
        w.layout.has_block(pos),
        expect < 16,
    ensures
        calculated_block_level(w, light, pos, expect) matches Some(level) && (level <= expect
            ==> is_most_given(w, light, pos, emission_at(w, pos), level)) && (level > expect
            ==> is_some_given(w, light, pos, emission_at(w, pos), level)),
{
    let emitted = emission_at(w, pos);
    let center = w.state(w.layout.cached(pos));
    if emitted >= 14 || emitted > expect || w.table.opacity(center) >= 15 {
        assert forall|direction: LightAxisDirection| emitted <= expect implies #[trigger]
            level_given(w, light, pos, direction) <= emitted by {
            let near = pos.spec_relative(direction.spec_direction());
            if w.layout.has_block(near) {
                lemma_cached_block(w.layout, near);
                lemma_set_block(light, w.layout.cached(near), 0);
            }
        }
    } else {
        lemma_level_from_around(w, light, pos, expect, emitted, 0);
    }
}

} // verus!
