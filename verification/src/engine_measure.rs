//! Why propagation ends: the amount of light bounds the work.
use vstd::prelude::*;

use crate::block_state::BlockStateId;
use crate::cache::{CachedLightBlock, LightCacheLayout};
use crate::count::{count_where, lemma_count_push, unit};
use crate::engine_model::{
    decrease_around, decrease_into, decrease_step, entry_for, entry_source, increase_around,
    increase_into, increase_step, level_of, onward, open_neighbor, queue_increase, set_block,
    EngineState, LightWorld,
};
use crate::light_cache::{slot_valid, slots_valid, SlotView};
use crate::packed::levels_valid;
use crate::packed_queue::{
    axis_bit, LightAxisDirection, LightDirectionSet, LightQueueFlags, PackedLightQueueEntry,
    PackedQueuesView,
};
use crate::position::{BlockPos, SectionPos};

verus! {

/// The sum of the first `n` levels of a section.
pub open spec fn level_sum(levels: Seq<u8>, n: int) -> int
    decreases n,
{
    if n <= 0 {
        0
    } else {
        level_sum(levels, n - 1) + levels[n - 1]
    }
}

/// The light in a slot.
pub open spec fn slot_sum(slot: SlotView) -> int {
    match slot {
        SlotView::Cached(nibble, _) => level_sum(nibble.updating.levels, 4096),
        _ => 0,
    }
}

/// The light in the first `n` slots.
pub open spec fn light_sum(light: Seq<SlotView>, n: int) -> int
    decreases n,
{
    if n <= 0 {
        0
    } else {
        light_sum(light, n - 1) + slot_sum(light[n - 1])
    }
}

/// The light in the window.
pub open spec fn total_light(light: Seq<SlotView>) -> int {
    light_sum(light, light.len() as int)
}

/// The light that the window still has room for.
pub open spec fn room_for_light(light: Seq<SlotView>) -> int {
    61440 * light.len() - total_light(light)
}

/// The number of entries that write their level first.
pub open spec fn write_count(queue: Seq<PackedLightQueueEntry>) -> nat {
    count_where(queue, |entry: PackedLightQueueEntry| entry.flags().write_level)
}

proof fn lemma_level_sum_bounds(levels: Seq<u8>, n: int)
    requires
        levels_valid(levels),
        0 <= n <= 4096,
    ensures
        0 <= level_sum(levels, n) <= 15 * n,
    decreases n,
{
    if n > 0 {
        lemma_level_sum_bounds(levels, n - 1);
        assert(levels[n - 1] < 16);
    }
}

proof fn lemma_level_sum_update(levels: Seq<u8>, index: int, level: u8, n: int)
    requires
        0 <= index < levels.len(),
        0 <= n <= levels.len(),
    ensures
        level_sum(levels.update(index, level), n) == level_sum(levels, n) + if index < n {
            level - levels[index]
        } else {
            0
        },
    decreases n,
{
    if n > 0 {
        lemma_level_sum_update(levels, index, level, n - 1);
    }
}

proof fn lemma_light_sum_bounds(light: Seq<SlotView>, n: int)
    requires
        slots_valid(light),
        0 <= n <= light.len(),
    ensures
        0 <= light_sum(light, n) <= 61440 * n,
    decreases n,
{
    if n > 0 {
        lemma_light_sum_bounds(light, n - 1);
        assert(slot_valid(light[n - 1]));
        if let SlotView::Cached(nibble, _) = light[n - 1] {
            lemma_level_sum_bounds(nibble.updating.levels, 4096);
        }
    }
}

proof fn lemma_light_sum_update(light: Seq<SlotView>, slot: int, value: SlotView, n: int)
    requires
        0 <= slot < light.len(),
        0 <= n <= light.len(),
    ensures
        light_sum(light.update(slot, value), n) == light_sum(light, n) + if slot < n {
            slot_sum(value) - slot_sum(light[slot])
        } else {
            0
        },
    decreases n,
{
    if n > 0 {
        lemma_light_sum_update(light, slot, value, n - 1);
    }
}

/// The light in the window and the room for more are not negative.
pub proof fn lemma_total_light(light: Seq<SlotView>)
    requires
        slots_valid(light),
    ensures
        0 <= total_light(light),
        0 <= room_for_light(light),
{
    lemma_light_sum_bounds(light, light.len() as int);
}

/// Setting a level of a cached section changes the light by the difference, and
/// keeps the sections valid.
pub proof fn lemma_set_block(light: Seq<SlotView>, block: CachedLightBlock, level: u8)
    requires
        slots_valid(light),
        block.section_slot < light.len(),
        block.local_index < 4096,
        level < 16,
    ensures
        slots_valid(set_block(light, block, level)),
        set_block(light, block, level).len() == light.len(),
        light[block.section_slot as int] is Cached ==> total_light(set_block(light, block, level))
            == total_light(light) + level - level_of(light, block),
        light[block.section_slot as int] is Cached ==> level_of(
            set_block(light, block, level),
            block,
        ) == level,
        !(light[block.section_slot as int] is Cached) ==> set_block(light, block, level) == light,
        level_of(light, block) < 16,
{
    let slot = block.section_slot as int;
    let after = set_block(light, block, level);
    assert(slot_valid(light[slot]));
    assert forall|i: int| 0 <= i < after.len() implies slot_valid(#[trigger] after[i]) by {
        assert(slot_valid(light[i]));
    }
    if let SlotView::Cached(nibble, _) = light[slot] {
        lemma_level_sum_update(
            nibble.updating.levels,
            block.local_index as int,
            level,
            4096,
        );
        lemma_light_sum_update(
            light,
            slot,
            light[slot].with_level(block.local_index as int, level),
            light.len() as int,
        );
    } else {
        assert(after =~= light);
    }
}

proof fn lemma_count_skip<A>(s: Seq<A>, p: spec_fn(A) -> bool)
    requires
        s.len() > 0,
    ensures
        count_where(s.skip(1), p) == count_where(s, p) - unit(p(s[0])),
    decreases s.len(),
{
    if s.len() == 1 {
        assert(s.skip(1) =~= Seq::<A>::empty());
        assert(s.drop_last() =~= Seq::<A>::empty());
    } else {
        lemma_count_skip(s.drop_last(), p);
        assert(s.drop_last().skip(1) =~= s.skip(1).drop_last());
        assert(s.skip(1).last() == s.last());
    }
}

/// Taking the first entry off a queue takes its write off the count.
pub proof fn lemma_write_count_skip(queue: Seq<PackedLightQueueEntry>)
    requires
        queue.len() > 0,
    ensures
        write_count(queue.skip(1)) == write_count(queue) - unit(queue[0].flags().write_level),
{
    lemma_count_skip(queue, |entry: PackedLightQueueEntry| entry.flags().write_level);
}

/// A packed block position has 28 bits.
pub proof fn lemma_encoded_small(layout: LightCacheLayout, pos: BlockPos)
    requires
        layout.can_encode(pos),
    ensures
        layout.encoded(pos).0 < 0x1000_0000,
{
}

/// The directions that lead on form a direction set.
pub proof fn lemma_onward(direction: LightAxisDirection)
    ensures
        onward(direction).0 < 64,
{
    let bit = axis_bit(direction.spec_opposite());
    assert(63u8 & !bit < 64) by (bit_vector);
}

/// The state's sections are valid and fill the window.
pub open spec fn state_valid(w: LightWorld<'_>, s: EngineState) -> bool {
    &&& w.layout.wf()
    &&& s.light.len() == w.layout.slots()
    &&& slots_valid(s.light)
}

/// A block of the window has a slot and an index.
pub proof fn lemma_cached_block(layout: LightCacheLayout, pos: BlockPos)
    requires
        layout.wf(),
        layout.has_block(pos),
    ensures
        layout.cached(pos).section_slot < layout.slots(),
        layout.cached(pos).section_slot == layout.slot_at(SectionPos::of_block(pos)),
        layout.cached(pos).local_index < 4096,
        layout.cached(pos).local_index == crate::storage_model::block_index(pos),
{
    layout.slot_round_trip(SectionPos::of_block(pos), 0);
}

proof fn lemma_queue_increase(
    layout: LightCacheLayout,
    s: EngineState,
    pos: BlockPos,
    level: u8,
    directions: LightDirectionSet,
    flags: LightQueueFlags,
)
    requires
        directions.0 < 64,
    ensures
        ({
            let after = queue_increase(layout, s, pos, level, directions, flags);
            &&& after.light == s.light
            &&& after.queues.decrease == s.queues.decrease
            &&& !flags.write_level ==> write_count(after.queues.increase) == write_count(
                s.queues.increase,
            )
        }),
{
    if layout.can_encode(pos) {
        lemma_encoded_small(layout, pos);
        let entry = entry_for(layout, pos, level, directions, flags);
        PackedLightQueueEntry::fields_round_trip(layout.encoded(pos), level, directions, flags);
        lemma_count_push(
            s.queues.increase,
            entry,
            |e: PackedLightQueueEntry| e.flags().write_level,
        );
    }
}

/// An increase in one direction leaves the decrease queue and the pending
/// writes alone. It adds light, or changes nothing.
pub proof fn lemma_increase_into(
    w: LightWorld<'_>,
    s: EngineState,
    level: u8,
    from: BlockStateId,
    pos: BlockPos,
    direction: LightAxisDirection,
)
    requires
        state_valid(w, s),
        level < 16,
    ensures
        ({
            let after = increase_into(w, s, level, from, pos, direction);
            &&& state_valid(w, after)
            &&& after.queues.decrease == s.queues.decrease
            &&& write_count(after.queues.increase) == write_count(s.queues.increase)
            &&& after == s || room_for_light(after.light) < room_for_light(s.light)
        }),
{
    let after = increase_into(w, s, level, from, pos, direction);
    if after != s {
        let neighbor = open_neighbor(w, s.light, pos, direction)->0;
        let next = pos.spec_relative(direction.spec_direction());
        lemma_cached_block(w.layout, next);
        let to = w.state(neighbor);
        let loss = w.loss(from, to, direction);
        let target = (level - loss) as u8;
        lemma_set_block(s.light, neighbor, target);
        lemma_onward(direction);
        lemma_queue_increase(
            w.layout,
            EngineState { light: set_block(s.light, neighbor, target), ..s },
            neighbor.block_pos,
            target,
            onward(direction),
            w.shape_flags(to),
        );
    }
}

/// An increase in several directions leaves the decrease queue and the pending
/// writes alone. It adds light, or changes nothing.
pub proof fn lemma_increase_around(
    w: LightWorld<'_>,
    s: EngineState,
    entry: PackedLightQueueEntry,
    from: BlockStateId,
    pos: BlockPos,
    n: int,
)
    requires
        state_valid(w, s),
    ensures
        ({
            let after = increase_around(w, s, entry, from, pos, n);
            &&& state_valid(w, after)
            &&& after.queues.decrease == s.queues.decrease
            &&& write_count(after.queues.increase) == write_count(s.queues.increase)
            &&& after == s || room_for_light(after.light) < room_for_light(s.light)
        }),
    decreases n,
{
    if n > 0 {
        lemma_increase_around(w, s, entry, from, pos, n - 1);
        entry.level_is_nibble();
        lemma_increase_into(
            w,
            increase_around(w, s, entry, from, pos, n - 1),
            entry.spec_level(),
            from,
            pos,
            LightAxisDirection::at(n - 1),
        );
    }
}

/// An increase step works off a write, or adds light, or shortens the queue.
pub proof fn lemma_increase_step(w: LightWorld<'_>, s: EngineState)
    requires
        state_valid(w, s),
        s.queues.increase.len() > 0,
    ensures
        ({
            let after = increase_step(w, s);
            &&& state_valid(w, after)
            &&& after.queues.decrease == s.queues.decrease
            &&& {
                ||| write_count(after.queues.increase) < write_count(s.queues.increase)
                ||| write_count(after.queues.increase) == write_count(s.queues.increase)
                    && room_for_light(after.light) < room_for_light(s.light)
                ||| write_count(after.queues.increase) == write_count(s.queues.increase)
                    && room_for_light(after.light) == room_for_light(s.light)
                    && after.queues.increase.len() < s.queues.increase.len()
            }
        }),
{
    let entry = s.queues.increase[0];
    let popped = EngineState {
        queues: PackedQueuesView { increase: s.queues.increase.skip(1), ..s.queues },
        ..s
    };
    lemma_write_count_skip(s.queues.increase);
    if let Some(source) = entry_source(w.layout, entry) {
        lemma_cached_block(w.layout, source.block_pos);
        entry.level_is_nibble();
        lemma_set_block(popped.light, source, entry.spec_level());
        let written = EngineState {
            light: set_block(popped.light, source, entry.spec_level()),
            ..popped
        };
        let from = w.source_state(entry, source);
        lemma_increase_around(w, written, entry, from, source.block_pos, 6);
        lemma_increase_around(w, popped, entry, from, source.block_pos, 6);
    }
}

/// A decrease in one direction removes light, or leaves the light and the
/// decrease queue alone.
pub proof fn lemma_decrease_into(
    w: LightWorld<'_>,
    emits: bool,
    s: EngineState,
    level: u8,
    from: BlockStateId,
    pos: BlockPos,
    direction: LightAxisDirection,
)
    requires
        state_valid(w, s),
        level < 16,
    ensures
        ({
            let after = decrease_into(w, emits, s, level, from, pos, direction);
            &&& state_valid(w, after)
            &&& {
                ||| after.light == s.light && after.queues.decrease == s.queues.decrease
                ||| total_light(after.light) < total_light(s.light)
            }
        }),
{
    if let Some(neighbor) = open_neighbor(w, s.light, pos, direction) {
        let next = pos.spec_relative(direction.spec_direction());
        lemma_cached_block(w.layout, next);
        lemma_set_block(s.light, neighbor, 0);
    }
}

/// A decrease in several directions removes light, or leaves the light and the
/// decrease queue alone.
pub proof fn lemma_decrease_around(
    w: LightWorld<'_>,
    emits: bool,
    s: EngineState,
    entry: PackedLightQueueEntry,
    from: BlockStateId,
    pos: BlockPos,
    n: int,
)
    requires
        state_valid(w, s),
    ensures
        ({
            let after = decrease_around(w, emits, s, entry, from, pos, n);
            &&& state_valid(w, after)
            &&& {
                ||| after.light == s.light && after.queues.decrease == s.queues.decrease
                ||| total_light(after.light) < total_light(s.light)
            }
        }),
    decreases n,
{
    if n > 0 {
        lemma_decrease_around(w, emits, s, entry, from, pos, n - 1);
        entry.level_is_nibble();
        lemma_decrease_into(
            w,
            emits,
            decrease_around(w, emits, s, entry, from, pos, n - 1),
            entry.spec_level(),
            from,
            pos,
            LightAxisDirection::at(n - 1),
        );
    }
}

/// A decrease step removes light, or shortens the queue.
pub proof fn lemma_decrease_step(w: LightWorld<'_>, emits: bool, s: EngineState)
    requires
        state_valid(w, s),
        s.queues.decrease.len() > 0,
    ensures
        ({
            let after = decrease_step(w, emits, s);
            &&& state_valid(w, after)
            &&& {
                ||| total_light(after.light) < total_light(s.light)
                ||| total_light(after.light) == total_light(s.light)
                    && after.queues.decrease.len() < s.queues.decrease.len()
            }
        }),
{
    let entry = s.queues.decrease[0];
    let popped = EngineState {
        queues: PackedQueuesView { decrease: s.queues.decrease.skip(1), ..s.queues },
        ..s
    };
    if let Some(source) = entry_source(w.layout, entry) {
        lemma_decrease_around(
            w,
            emits,
            popped,
            entry,
            w.source_state(entry, source),
            source.block_pos,
            6,
        );
    }
}

} // verus!
