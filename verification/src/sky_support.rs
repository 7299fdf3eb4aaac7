//! Sky light that is taken back and spread again: full light stays, other light
//! has a neighbor that it comes from, and nothing could still be brighter.
use vstd::prelude::*;

use crate::balance::{
    all_honest, balanced_in, balanced_or_pending_in, encodes, increase_popped,
    increase_reaches_balance_in, is_honest, is_promised, lemma_can_encode_has_block,
    lemma_increase_steps_balance_in, lemma_onward_has, lemma_relative_back, lemma_set_block_levels,
    level_at, next_raises, promises, world_plain, writes_raise,
};
use crate::block_state::BlockStateId;
use crate::engine::lemma_window_has_neighbors;
use crate::engine_laws::{lemma_increase_steps_brighten, no_writes};
use crate::engine_measure::{
    lemma_cached_block, lemma_decrease_step, lemma_increase_into, lemma_increase_step,
    lemma_onward, lemma_set_block, lemma_total_light, room_for_light, state_valid, total_light,
    write_count,
};
use crate::engine_model::{
    after_increase, after_relight, decrease_around, decrease_done, decrease_into, decrease_step,
    decrease_steps, entry_source, increase_around, increase_done, increase_into, increase_step,
    increase_steps, lemma_after_increase, lemma_after_relight, level_of, onward, open_neighbor,
    relight_done, set_block, EngineState, LightWorld,
};
use crate::light_cache::{slot_valid, SlotView};
use crate::packed_queue::{
    LightAxisDirection, LightDirectionSet, LightQueueFlags, PackedLightQueueEntry,
    PackedQueuesView,
};
use crate::position::BlockPos;
use crate::relight::{
    faces_regular, imbalance_covered_in, lemma_queued_entry, lemma_unlit_is_dark,
    relight_reaches_balance_in, sources_quiet,
};
use crate::support::{
    decreases_near, dooms, is_doomed, is_doomed_underway, is_near, is_supported_from,
    lemma_decrease_steps_near, lemma_doomed_stays, lemma_entry_dooms, lemma_near_can_encode,
    lemma_support_stays, lemma_underway_stays, lit_at, near_decrease_stays,
};

verus! {

proof fn lemma_first_increase(w: LightWorld<'_>, s: EngineState, n: nat)
    ensures
        increase_steps(w, increase_step(w, s), n) == increase_steps(w, s, n + 1),
    decreases n,
{
    if n > 0 {
        lemma_first_increase(w, s, (n - 1) as nat);
    } else {
        reveal_with_fuel(increase_steps, 2);
    }
}

proof fn lemma_first_decrease(w: LightWorld<'_>, emits: bool, s: EngineState, n: nat)
    ensures
        decrease_steps(w, emits, decrease_step(w, emits, s), n) == decrease_steps(
            w,
            emits,
            s,
            n + 1,
        ),
    decreases n,
{
    if n > 0 {
        lemma_first_decrease(w, emits, s, (n - 1) as nat);
    } else {
        reveal_with_fuel(decrease_steps, 2);
    }
}

/// Increase work ends.
pub proof fn increase_ends(w: LightWorld<'_>, s: EngineState) -> (after: EngineState)
    requires
        state_valid(w, s),
    ensures
        increase_done(w, s, after),
    decreases write_count(s.queues.increase), room_for_light(s.light), s.queues.increase.len(),
{
    if s.queues.increase.len() == 0 {
        assert(increase_steps(w, s, 0) == s);
        s
    } else {
        let next = increase_step(w, s);
        lemma_increase_step(w, s);
        lemma_total_light(s.light);
        lemma_total_light(next.light);
        let after = increase_ends(w, next);
        let n = choose|n: nat|
            #[trigger] increase_steps(w, next, n) == after && after.queues.increase.len() == 0;
        lemma_first_increase(w, s, n);
        assert(increase_steps(w, s, n + 1) == after);
        after
    }
}

/// Decrease work ends.
pub proof fn decrease_ends(w: LightWorld<'_>, emits: bool, s: EngineState) -> (after: EngineState)
    requires
        state_valid(w, s),
    ensures
        decrease_done(w, emits, s, after),
        state_valid(w, after),
    decreases total_light(s.light), s.queues.decrease.len(),
{
    if s.queues.decrease.len() == 0 {
        assert(decrease_steps(w, emits, s, 0) == s);
        s
    } else {
        let next = decrease_step(w, emits, s);
        lemma_decrease_step(w, emits, s);
        lemma_total_light(s.light);
        lemma_total_light(next.light);
        let after = decrease_ends(w, emits, next);
        let n = choose|n: nat|
            #[trigger] decrease_steps(w, emits, next, n) == after && after.queues.decrease.len()
                == 0;
        lemma_first_decrease(w, emits, s, n);
        assert(decrease_steps(w, emits, s, n + 1) == after);
        after
    }
}

/// The state that increase work leads to is reached.
pub proof fn increase_is_done(w: LightWorld<'_>, s: EngineState)
    requires
        state_valid(w, s),
    ensures
        increase_done(w, s, after_increase(w, s)),
{
    let after = increase_ends(w, s);
    lemma_after_increase(w, s, after);
}

/// The state that relighting leads to is reached.
pub proof fn relight_is_done(w: LightWorld<'_>, emits: bool, s: EngineState)
    requires
        state_valid(w, s),
    ensures
        relight_done(w, emits, s, after_relight(w, emits, s)),
{
    let middle = decrease_ends(w, emits, s);
    let after = increase_ends(w, middle);
    lemma_after_relight(w, emits, s, after);
}

/// A section slot is kept, taken out or absent as another one is.
pub open spec fn slot_like(a: SlotView, b: SlotView) -> bool {
    match (a, b) {
        (SlotView::Absent, SlotView::Absent) => true,
        (SlotView::Removed(x), SlotView::Removed(y)) => x == y,
        (SlotView::Cached(_, x), SlotView::Cached(_, y)) => x == y && a.is_lit() == b.is_lit(),
        _ => false,
    }
}

/// Every section slot is kept, taken out or absent as before.
pub open spec fn same_slots(a: Seq<SlotView>, b: Seq<SlotView>) -> bool {
    &&& a.len() == b.len()
    &&& forall|slot: int| 0 <= slot < a.len() ==> slot_like(a[slot], #[trigger] b[slot])
}

/// The blocks with full light are the same.
pub open spec fn same_full(w: LightWorld<'_>, a: Seq<SlotView>, b: Seq<SlotView>) -> bool {
    forall|pos: BlockPos|
        w.layout.has_block(pos) ==> (#[trigger] level_at(w, b, pos) == 15 <==> level_at(w, a, pos)
            == 15)
}

/// Sections and full light are as before.
pub open spec fn keeps_full(w: LightWorld<'_>, a: Seq<SlotView>, b: Seq<SlotView>) -> bool {
    same_slots(a, b) && same_full(w, a, b)
}

pub proof fn lemma_keeps_full_trans(
    w: LightWorld<'_>,
    a: Seq<SlotView>,
    b: Seq<SlotView>,
    c: Seq<SlotView>,
)
    requires
        keeps_full(w, a, b),
        keeps_full(w, b, c),
    ensures
        keeps_full(w, a, c),
{
    assert forall|slot: int| 0 <= slot < a.len() implies slot_like(a[slot], #[trigger] c[slot]) by {
        assert(slot_like(a[slot], b[slot]));
        assert(slot_like(b[slot], c[slot]));
    }
    assert forall|pos: BlockPos| w.layout.has_block(pos) implies (#[trigger] level_at(w, c, pos)
        == 15 <==> level_at(w, a, pos) == 15) by {
        assert(level_at(w, b, pos) == 15 <==> level_at(w, a, pos) == 15);
    }
}

pub proof fn lemma_same_slots_trans(a: Seq<SlotView>, b: Seq<SlotView>, c: Seq<SlotView>)
    requires
        same_slots(a, b),
        same_slots(b, c),
    ensures
        same_slots(a, c),
{
    assert forall|slot: int| 0 <= slot < a.len() implies slot_like(a[slot], #[trigger] c[slot]) by {
        assert(slot_like(a[slot], b[slot]));
        assert(slot_like(b[slot], c[slot]));
    }
}

/// Setting a level in a lit section keeps all sections.
pub proof fn lemma_set_same_slots(
    w: LightWorld<'_>,
    light: Seq<SlotView>,
    at: BlockPos,
    level: u8,
)
    requires
        world_plain(w),
        light.len() == w.layout.slots(),
        w.layout.has_block(at),
        lit_at(w, light, at),
    ensures
        same_slots(light, set_block(light, w.layout.cached(at), level)),
{
    lemma_cached_block(w.layout, at);
}

/// Setting a block that is not fully lit to a level below full light keeps full
/// light.
proof fn lemma_set_keeps_full(w: LightWorld<'_>, s: EngineState, at: BlockPos, level: u8)
    requires
        world_plain(w),
        state_valid(w, s),
        w.layout.has_block(at),
        lit_at(w, s.light, at),
        level < 15,
        level_at(w, s.light, at) < 15,
    ensures
        keeps_full(w, s.light, set_block(s.light, w.layout.cached(at), level)),
{
    lemma_set_same_slots(w, s.light, at, level);
    let after = set_block(s.light, w.layout.cached(at), level);
    assert forall|pos: BlockPos| w.layout.has_block(pos) implies (#[trigger] level_at(w, after, pos)
        == 15 <==> level_at(w, s.light, pos) == 15) by {
        lemma_set_block_levels(w, s.light, at, level, pos);
    }
}

proof fn lemma_keeps_full_refl(w: LightWorld<'_>, light: Seq<SlotView>)
    ensures
        keeps_full(w, light, light),
{
}

/// An increase entry of sky work: it writes nothing, names occluding faces where
/// there are any, and unless it checks first it spreads full light from a fully
/// lit block.
pub open spec fn is_full_entry(
    w: LightWorld<'_>,
    light: Seq<SlotView>,
    entry: PackedLightQueueEntry,
) -> bool {
    &&& !entry.flags().write_level
    &&& entry_source(w.layout, entry) matches Some(source) ==> {
        &&& !entry.flags().recheck_level ==> entry.spec_level() == 15 && level_at(
            w,
            light,
            source.block_pos,
        ) == 15
        &&& !entry.flags().has_sided_transparent_blocks ==> w.table.light_shape(w.state(source))
            == 0
    }
}

/// All queued increase work spreads full light or checks first.
pub open spec fn full_work(w: LightWorld<'_>, s: EngineState) -> bool {
    forall|k: int|
        0 <= k < s.queues.increase.len() ==> is_full_entry(
            w,
            s.light,
            #[trigger] s.queues.increase[k],
        )
}

/// Decrease work starts from blocks that are dark or fully lit.
pub open spec fn sources_dull(w: LightWorld<'_>, s: EngineState) -> bool {
    forall|k: int|
        0 <= k < s.queues.decrease.len() ==> (entry_source(
            w.layout,
            #[trigger] s.queues.decrease[k],
        ) matches Some(source) ==> level_at(w, s.light, source.block_pos) == 0 || level_at(
            w,
            s.light,
            source.block_pos,
        ) == 15)
}

/// A neighbor may give a block its level: it leaves at least that, or nothing is
/// known of its light.
pub open spec fn sky_given(
    w: LightWorld<'_>,
    light: Seq<SlotView>,
    pos: BlockPos,
    direction: LightAxisDirection,
) -> bool {
    open_neighbor(w, light, pos, direction) is None || is_supported_from(w, light, pos, direction)
}

/// A block is dark or fully lit, or has its level from a neighbor.
pub open spec fn sky_supported(w: LightWorld<'_>, light: Seq<SlotView>, pos: BlockPos) -> bool {
    level_at(w, light, pos) == 0 || level_at(w, light, pos) == 15 || exists|
        direction: LightAxisDirection,
    | #[trigger]
        sky_given(w, light, pos, direction)
}

/// Every block of the queue window is supported.
pub open spec fn all_sky_supported(w: LightWorld<'_>, light: Seq<SlotView>) -> bool {
    forall|pos: BlockPos| w.layout.can_encode(pos) ==> #[trigger] sky_supported(w, light, pos)
}

/// Every block of the queue window is supported, or will be made dark.
pub open spec fn sky_supported_or_doomed(w: LightWorld<'_>, s: EngineState) -> bool {
    forall|pos: BlockPos|
        w.layout.can_encode(pos) ==> #[trigger] sky_supported(w, s.light, pos) || is_doomed(
            w,
            s,
            pos,
        )
}

spec fn sky_supported_except(
    w: LightWorld<'_>,
    s: EngineState,
    entry: PackedLightQueueEntry,
    n: int,
) -> bool {
    forall|pos: BlockPos|
        w.layout.can_encode(pos) ==> #[trigger] sky_supported(w, s.light, pos) || is_doomed(
            w,
            s,
            pos,
        ) || is_doomed_underway(w, s.light, entry, n, pos)
}

/// A neighbor of the queue window is about to become dark.
spec fn may_dim(w: LightWorld<'_>, s: EngineState, at: BlockPos, target: u8) -> bool {
    &&& world_plain(w)
    &&& state_valid(w, s)
    &&& w.layout.can_encode(at)
    &&& lit_at(w, s.light, at)
    &&& 0 < level_at(w, s.light, at) <= target < 15
}

/// The state after a neighbor became dark.
spec fn dimmed(
    w: LightWorld<'_>,
    s: EngineState,
    at: BlockPos,
    target: u8,
    direction: LightAxisDirection,
) -> EngineState {
    crate::engine_model::queue_decrease(
        w.layout,
        EngineState { light: set_block(s.light, w.layout.cached(at), 0), ..s },
        at,
        target,
        onward(direction),
        w.shape_flags(w.state(w.layout.cached(at))),
    )
}

/// Decrease work leaves a neighbor alone, has it spread its light again, or
/// makes it dark.
proof fn lemma_dim_cases(
    w: LightWorld<'_>,
    s: EngineState,
    level: u8,
    from: BlockStateId,
    source: BlockPos,
    direction: LightAxisDirection,
)
    requires
        world_plain(w),
        state_valid(w, s),
        w.layout.has_block(source),
        level < 16,
        is_near(w.layout, source, level as int),
    ensures
        ({
            let after = decrease_into(w, false, s, level, from, source, direction);
            let at = source.spec_relative(direction.spec_direction());
            let to = w.state(w.layout.cached(at));
            let loss = w.loss(from, to, direction);
            let current = level_at(w, s.light, at);
            if open_neighbor(w, s.light, source, direction) is None || current == 0 || loss == 16 {
                after == s
            } else if current + loss > level {
                current < 16 && after == crate::engine_model::queue_increase(
                    w.layout,
                    s,
                    at,
                    current,
                    LightDirectionSet(63),
                    LightQueueFlags { recheck_level: true, ..w.shape_flags(to) },
                )
            } else {
                may_dim(w, s, at, (level - loss) as u8) && after == dimmed(
                    w,
                    s,
                    at,
                    (level - loss) as u8,
                    direction,
                )
            }
        }),
{
    let at = source.spec_relative(direction.spec_direction());
    lemma_window_has_neighbors(w.layout, source);
    if w.layout.has_block(at) {
        lemma_cached_block(w.layout, at);
        assert(slot_valid(s.light[w.layout.cached(at).section_slot as int]));
        let loss = w.loss(from, w.state(w.layout.cached(at)), direction);
        assert(loss >= 1);
        let current = level_at(w, s.light, at);
        if lit_at(w, s.light, at) && current != 0 && loss != 16 && current + loss <= level {
            lemma_near_can_encode(w, at, (level - loss) as int);
        }
    }
}

proof fn lemma_dimmed(
    w: LightWorld<'_>,
    s: EngineState,
    at: BlockPos,
    target: u8,
    direction: LightAxisDirection,
)
    requires
        may_dim(w, s, at, target),
    ensures
        ({
            let after = dimmed(w, s, at, target, direction);
            let last = s.queues.decrease.len() as int;
            &&& state_valid(w, after)
            &&& keeps_full(w, s.light, after.light)
            &&& level_at(w, after.light, at) == 0
            &&& after.queues.increase == s.queues.increase
            &&& after.queues.decrease.len() == last + 1
            &&& forall|k: int|
                0 <= k < last ==> #[trigger] after.queues.decrease[k] == s.queues.decrease[k]
            &&& entry_source(w.layout, after.queues.decrease[last]) == Some(w.layout.cached(at))
            &&& after.queues.decrease[last].spec_level() == target
            &&& after.queues.decrease[last].spec_directions() == onward(direction)
            &&& after.queues.decrease[last].flags() == w.shape_flags(w.state(w.layout.cached(at)))
        }),
{
    lemma_can_encode_has_block(w.layout, at);
    lemma_set_block_levels(w, s.light, at, 0, at);
    lemma_cached_block(w.layout, at);
    lemma_set_block(s.light, w.layout.cached(at), 0);
    lemma_set_keeps_full(w, s, at, 0);
    lemma_onward(direction);
    lemma_queued_entry(
        w,
        at,
        target,
        onward(direction),
        w.shape_flags(w.state(w.layout.cached(at))),
    );
}

proof fn lemma_dimmed_level(
    w: LightWorld<'_>,
    s: EngineState,
    at: BlockPos,
    target: u8,
    direction: LightAxisDirection,
    pos: BlockPos,
)
    requires
        may_dim(w, s, at, target),
        w.layout.has_block(pos),
    ensures
        ({
            let after = dimmed(w, s, at, target, direction);
            &&& level_at(w, after.light, pos) == if pos == at {
                0
            } else {
                level_at(w, s.light, pos)
            }
            &&& lit_at(w, after.light, pos) == lit_at(w, s.light, pos)
        }),
{
    lemma_can_encode_has_block(w.layout, at);
    lemma_set_block_levels(w, s.light, at, 0, pos);
}

/// What sky work needs of what is queued.
pub open spec fn sky_work(w: LightWorld<'_>, s: EngineState) -> bool {
    full_work(w, s) && sources_dull(w, s)
}

proof fn lemma_dimmed_work(
    w: LightWorld<'_>,
    s: EngineState,
    at: BlockPos,
    target: u8,
    direction: LightAxisDirection,
)
    requires
        may_dim(w, s, at, target),
        sky_work(w, s),
    ensures
        sky_work(w, dimmed(w, s, at, target, direction)),
{
    let after = dimmed(w, s, at, target, direction);
    lemma_dimmed(w, s, at, target, direction);
    assert forall|k: int| 0 <= k < after.queues.increase.len() implies is_full_entry(
        w,
        after.light,
        #[trigger] after.queues.increase[k],
    ) by {
        assert(is_full_entry(w, s.light, s.queues.increase[k]));
        if let Some(b) = entry_source(w.layout, s.queues.increase[k]) {
            lemma_dimmed_level(w, s, at, target, direction, b.block_pos);
        }
    }
    assert forall|k: int| 0 <= k < after.queues.decrease.len() implies (entry_source(
        w.layout,
        #[trigger] after.queues.decrease[k],
    ) matches Some(b) ==> level_at(w, after.light, b.block_pos) == 0 || level_at(
        w,
        after.light,
        b.block_pos,
    ) == 15) by {
        if let Some(b) = entry_source(w.layout, after.queues.decrease[k]) {
            lemma_dimmed_level(w, s, at, target, direction, b.block_pos);
            if k < s.queues.decrease.len() {
                assert(after.queues.decrease[k] == s.queues.decrease[k]);
            }
        }
    }
}

/// A supported block stays supported when a neighbor becomes dark, or the
/// darkness comes to it.
proof fn lemma_dimmed_supported(
    w: LightWorld<'_>,
    s: EngineState,
    source: BlockPos,
    target: u8,
    direction: LightAxisDirection,
    pos: BlockPos,
)
    requires
        w.layout.has_block(source),
        may_dim(w, s, source.spec_relative(direction.spec_direction()), target),
        level_at(w, s.light, source) == 0 || level_at(w, s.light, source) == 15,
        w.layout.can_encode(pos),
        pos != source.spec_relative(direction.spec_direction()),
        sky_supported(w, s.light, pos),
    ensures
        ({
            let after = dimmed(
                w,
                s,
                source.spec_relative(direction.spec_direction()),
                target,
                direction,
            );
            sky_supported(w, after.light, pos) || is_doomed(w, after, pos)
        }),
{
    let at = source.spec_relative(direction.spec_direction());
    let after = dimmed(w, s, at, target, direction);
    lemma_can_encode_has_block(w.layout, pos);
    lemma_window_has_neighbors(w.layout, source);
    lemma_window_has_neighbors(w.layout, pos);
    lemma_relative_back(source, direction);
    lemma_dimmed(w, s, at, target, direction);
    lemma_dimmed_level(w, s, at, target, direction, pos);
    if level_at(w, s.light, pos) != 0 && level_at(w, s.light, pos) != 15 {
        let other = choose|other: LightAxisDirection| #[trigger] sky_given(w, s.light, pos, other);
        let giver = pos.spec_relative(other.spec_direction());
        if w.layout.has_block(giver) {
            lemma_dimmed_level(w, s, at, target, direction, giver);
        }
        if open_neighbor(w, s.light, pos, other) is None {
            assert(sky_given(w, after.light, pos, other));
        } else if giver != at {
            lemma_support_stays(w, s.light, after.light, pos, other);
            assert(sky_given(w, after.light, pos, other));
        } else {
            lemma_relative_back(pos, other);
            assert(pos != source);
            assert(other.spec_opposite() != direction.spec_opposite());
            lemma_onward_has(direction, other.spec_opposite());
            let last = s.queues.decrease.len() as int;
            lemma_entry_dooms(
                w,
                s.light,
                after.light,
                after.queues.decrease[last],
                pos,
                other,
            );
            assert(dooms(w, after.light, after.queues.decrease[last], pos, other));
        }
    }
}

/// One direction of decrease work leaves every block supported or doomed.
proof fn lemma_decrease_into_sky(
    w: LightWorld<'_>,
    s: EngineState,
    entry: PackedLightQueueEntry,
    source: BlockPos,
    n: int,
)
    requires
        world_plain(w),
        state_valid(w, s),
        0 <= n < 6,
        w.layout.has_block(source),
        entry_source(w.layout, entry) == Some(w.layout.cached(source)),
        entry.spec_directions().has(LightAxisDirection::at(n)),
        is_near(w.layout, source, entry.spec_level() as int),
        level_at(w, s.light, source) == 0 || level_at(w, s.light, source) == 15,
        sky_work(w, s),
    ensures
        ({
            let after = decrease_into(
                w,
                false,
                s,
                entry.spec_level(),
                w.source_state(entry, w.layout.cached(source)),
                source,
                LightAxisDirection::at(n),
            );
            &&& state_valid(w, after)
            &&& keeps_full(w, s.light, after.light)
            &&& sky_work(w, after)
            &&& level_at(w, after.light, source) == level_at(w, s.light, source)
            &&& sky_supported_except(w, s, entry, n) ==> sky_supported_except(
                w,
                after,
                entry,
                n + 1,
            )
        }),
{
    let direction = LightAxisDirection::at(n);
    let level = entry.spec_level();
    let from = w.source_state(entry, w.layout.cached(source));
    let after = decrease_into(w, false, s, level, from, source, direction);
    let at = source.spec_relative(direction.spec_direction());
    let to = w.state(w.layout.cached(at));
    let loss = w.loss(from, to, direction);
    let current = level_at(w, s.light, at);
    entry.level_is_nibble();
    lemma_dim_cases(w, s, level, from, source, direction);
    lemma_window_has_neighbors(w.layout, source);
    lemma_relative_back(source, direction);
    let dims = open_neighbor(w, s.light, source, direction) is Some && current != 0 && loss != 16
        && current + loss <= level;
    if dims {
        let target = (level - loss) as u8;
        lemma_dimmed(w, s, at, target, direction);
        lemma_dimmed_work(w, s, at, target, direction);
        lemma_dimmed_level(w, s, at, target, direction, source);
    } else {
        assert(after.light == s.light);
        assert(after.queues.decrease == s.queues.decrease);
        lemma_keeps_full_refl(w, s.light);
        assert forall|k: int| 0 <= k < after.queues.increase.len() implies is_full_entry(
            w,
            after.light,
            #[trigger] after.queues.increase[k],
        ) by {
            if k < s.queues.increase.len() {
                assert(after.queues.increase[k] == s.queues.increase[k]);
            } else {
                lemma_queued_entry(
                    w,
                    at,
                    current,
                    LightDirectionSet(63),
                    LightQueueFlags { recheck_level: true, ..w.shape_flags(to) },
                );
            }
        }
    }
    if sky_supported_except(w, s, entry, n) {
        assert forall|pos: BlockPos| w.layout.can_encode(pos) implies #[trigger] sky_supported(
            w,
            after.light,
            pos,
        ) || is_doomed(w, after, pos) || is_doomed_underway(
            w,
            after.light,
            entry,
            n + 1,
            pos,
        ) by {
            lemma_can_encode_has_block(w.layout, pos);
            assert(sky_supported(w, s.light, pos) || is_doomed(w, s, pos) || is_doomed_underway(
                w,
                s.light,
                entry,
                n,
                pos,
            ));
            if dims {
                lemma_dimmed_level(w, s, at, (level - loss) as u8, direction, pos);
            }
            if !(dims && pos == at) {
                if sky_supported(w, s.light, pos) {
                    if dims {
                        lemma_dimmed_supported(
                            w,
                            s,
                            source,
                            (level - loss) as u8,
                            direction,
                            pos,
                        );
                    }
                } else if is_doomed(w, s, pos) {
                    lemma_doomed_stays(w, s, after, pos);
                } else {
                    lemma_underway_stays(w, s.light, after.light, entry, source, n, pos);
                    if !is_doomed_underway(w, after.light, entry, n + 1, pos) {
                        assert(pos == at);
                        assert(loss != 16 && level >= current + loss) by {
                            reveal(dooms);
                            lemma_relative_back(source, direction);
                            assert(direction.spec_opposite().spec_opposite() == direction);
                        }
                        if open_neighbor(w, s.light, source, direction) is None {
                            lemma_unlit_is_dark(w, s, at);
                        }
                        assert(false);
                    }
                }
            }
        }
    }
}

proof fn lemma_decrease_around_sky(
    w: LightWorld<'_>,
    s: EngineState,
    entry: PackedLightQueueEntry,
    source: BlockPos,
    n: int,
)
    requires
        world_plain(w),
        state_valid(w, s),
        0 <= n <= 6,
        w.layout.has_block(source),
        entry_source(w.layout, entry) == Some(w.layout.cached(source)),
        is_near(w.layout, source, entry.spec_level() as int),
        level_at(w, s.light, source) == 0 || level_at(w, s.light, source) == 15,
        sky_work(w, s),
    ensures
        ({
            let after = decrease_around(
                w,
                false,
                s,
                entry,
                w.source_state(entry, w.layout.cached(source)),
                source,
                n,
            );
            &&& state_valid(w, after)
            &&& keeps_full(w, s.light, after.light)
            &&& sky_work(w, after)
            &&& level_at(w, after.light, source) == level_at(w, s.light, source)
            &&& sky_supported_except(w, s, entry, 0) ==> sky_supported_except(w, after, entry, n)
        }),
    decreases n,
{
    lemma_keeps_full_refl(w, s.light);
    if n > 0 {
        let from = w.source_state(entry, w.layout.cached(source));
        lemma_decrease_around_sky(w, s, entry, source, n - 1);
        let before = decrease_around(w, false, s, entry, from, source, n - 1);
        let direction = LightAxisDirection::at(n - 1);
        if entry.spec_directions().has(direction) {
            lemma_decrease_into_sky(w, before, entry, source, n - 1);
            lemma_keeps_full_trans(
                w,
                s.light,
                before.light,
                decrease_around(w, false, s, entry, from, source, n).light,
            );
        } else if sky_supported_except(w, before, entry, n - 1) {
            assert forall|pos: BlockPos| w.layout.can_encode(pos) implies #[trigger] sky_supported(
                w,
                before.light,
                pos,
            ) || is_doomed(w, before, pos) || is_doomed_underway(
                w,
                before.light,
                entry,
                n,
                pos,
            ) by {
                if is_doomed_underway(w, before.light, entry, n - 1, pos) {
                    let other = choose|other: LightAxisDirection|
                        other.spec_opposite().place() >= n - 1 && #[trigger] dooms(
                            w,
                            before.light,
                            entry,
                            pos,
                            other,
                        );
                    assert(entry.spec_directions().has(other.spec_opposite())) by {
                        reveal(dooms);
                    }
                    assert(other.spec_opposite() != direction);
                    assert(other.spec_opposite().place() >= n);
                }
            }
        }
    }
}

/// Runs of decrease steps keep full light and leave every block supported or
/// doomed.
pub proof fn lemma_decrease_steps_sky(w: LightWorld<'_>, s: EngineState, n: nat)
    requires
        world_plain(w),
        state_valid(w, s),
        decreases_near(w, s),
        sky_work(w, s),
    ensures
        ({
            let after = decrease_steps(w, false, s, n);
            &&& state_valid(w, after)
            &&& keeps_full(w, s.light, after.light)
            &&& sky_work(w, after)
            &&& sky_supported_or_doomed(w, s) ==> sky_supported_or_doomed(w, after)
        }),
    decreases n,
{
    lemma_keeps_full_refl(w, s.light);
    if n > 0 {
        let before = decrease_steps(w, false, s, (n - 1) as nat);
        let after = decrease_steps(w, false, s, n);
        lemma_decrease_steps_sky(w, s, (n - 1) as nat);
        lemma_decrease_steps_near(w, false, s, (n - 1) as nat);
        if before.queues.decrease.len() > 0 {
            let entry = before.queues.decrease[0];
            let popped = EngineState {
                queues: PackedQueuesView {
                    decrease: before.queues.decrease.skip(1),
                    ..before.queues
                },
                ..before
            };
            assert(sky_work(w, popped)) by {
                assert forall|k: int| 0 <= k < popped.queues.decrease.len() implies (entry_source(
                    w.layout,
                    #[trigger] popped.queues.decrease[k],
                ) matches Some(b) ==> level_at(w, popped.light, b.block_pos) == 0 || level_at(
                    w,
                    popped.light,
                    b.block_pos,
                ) == 15) by {
                    assert(popped.queues.decrease[k] == before.queues.decrease[k + 1]);
                }
            }
            if sky_supported_or_doomed(w, before) {
                lemma_popped_sky(w, before);
            }
            if let Some(block) = entry_source(w.layout, entry) {
                let source = block.block_pos;
                assert(block == w.layout.cached(source));
                lemma_decrease_around_sky(w, popped, entry, source, 6);
                lemma_keeps_full_trans(w, s.light, before.light, after.light);
                if sky_supported_or_doomed(w, before) {
                    assert forall|pos: BlockPos|
                        w.layout.can_encode(pos) implies #[trigger] sky_supported(
                        w,
                        after.light,
                        pos,
                    ) || is_doomed(w, after, pos) by {
                        assert(!is_doomed_underway(w, after.light, entry, 6, pos));
                    }
                }
            }
        }
    }
}

proof fn lemma_popped_sky(w: LightWorld<'_>, s: EngineState)
    requires
        s.queues.decrease.len() > 0,
        sky_supported_or_doomed(w, s),
    ensures
        ({
            let popped = EngineState {
                queues: PackedQueuesView { decrease: s.queues.decrease.skip(1), ..s.queues },
                ..s
            };
            &&& sky_supported_except(w, popped, s.queues.decrease[0], 0)
            &&& entry_source(w.layout, s.queues.decrease[0]) is None ==> sky_supported_or_doomed(
                w,
                popped,
            )
        }),
{
    let entry = s.queues.decrease[0];
    let popped = EngineState {
        queues: PackedQueuesView { decrease: s.queues.decrease.skip(1), ..s.queues },
        ..s
    };
    assert forall|pos: BlockPos| w.layout.can_encode(pos) && !sky_supported(
        w,
        s.light,
        pos,
    ) implies is_doomed(w, popped, pos) || (entry_source(w.layout, entry) is Some
        && is_doomed_underway(w, s.light, entry, 0, pos)) by {
        assert(is_doomed(w, s, pos));
        let (k, other) = choose|k: int, other: LightAxisDirection|
            0 <= k < s.queues.decrease.len() && #[trigger] dooms(
                w,
                s.light,
                s.queues.decrease[k],
                pos,
                other,
            );
        if k == 0 {
            assert(other.spec_opposite().place() >= 0);
            assert(entry_source(w.layout, entry) is Some) by {
                reveal(dooms);
            }
        } else {
            assert(popped.queues.decrease[k - 1] == s.queues.decrease[k]);
            assert(dooms(w, popped.light, popped.queues.decrease[k - 1], pos, other));
        }
    }
}

/// What an increase does in one direction: it keeps full light and what supports
/// it.
proof fn lemma_increase_into_sky(
    w: LightWorld<'_>,
    s: EngineState,
    level: u8,
    from: BlockStateId,
    source: BlockPos,
    direction: LightAxisDirection,
)
    requires
        world_plain(w),
        state_valid(w, s),
        level < 16,
        w.layout.has_block(source),
        level_at(w, s.light, source) >= level,
        w.table.light_shape(from) == w.table.light_shape(w.state(w.layout.cached(source))),
    ensures
        ({
            let after = increase_into(w, s, level, from, source, direction);
            &&& keeps_full(w, s.light, after.light)
            &&& level_at(w, after.light, source) == level_at(w, s.light, source)
            &&& all_sky_supported(w, s.light) ==> all_sky_supported(w, after.light)
        }),
{
    let after = increase_into(w, s, level, from, source, direction);
    let at = source.spec_relative(direction.spec_direction());
    lemma_window_has_neighbors(w.layout, source);
    lemma_relative_back(source, direction);
    lemma_keeps_full_refl(w, s.light);
    if let Some(neighbor) = open_neighbor(w, s.light, source, direction) {
        assert(neighbor == w.layout.cached(at));
        let current = level_of(s.light, neighbor);
        let to = w.state(neighbor);
        let loss = w.loss(from, to, direction);
        assert(loss >= 1);
        if !(current + 1 >= level || loss == 16 || loss >= level || level - loss <= current) {
            let target = (level - loss) as u8;
            assert(after.light == set_block(s.light, w.layout.cached(at), target));
            lemma_set_block_levels(w, s.light, at, target, source);
            lemma_set_keeps_full(w, s, at, target);
            if all_sky_supported(w, s.light) {
                assert forall|pos: BlockPos|
                    w.layout.can_encode(pos) implies #[trigger] sky_supported(
                    w,
                    after.light,
                    pos,
                ) by {
                    assert(sky_supported(w, s.light, pos));
                    lemma_raised_sky(w, s, source, direction, level, target, pos);
                }
            }
        }
    }
}

/// Raising a neighbor to what the source leaves it keeps a block supported.
proof fn lemma_raised_sky(
    w: LightWorld<'_>,
    s: EngineState,
    source: BlockPos,
    direction: LightAxisDirection,
    level: u8,
    target: u8,
    pos: BlockPos,
)
    requires
        world_plain(w),
        state_valid(w, s),
        w.layout.has_block(source),
        w.layout.has_block(source.spec_relative(direction.spec_direction())),
        lit_at(w, s.light, source.spec_relative(direction.spec_direction())),
        level_at(w, s.light, source.spec_relative(direction.spec_direction())) < target < 16,
        ({
            let loss = w.loss(
                w.state(w.layout.cached(source)),
                w.state(w.layout.cached(source.spec_relative(direction.spec_direction()))),
                direction,
            );
            loss != 16 && level == target + loss
        }),
        level_at(w, s.light, source) >= level,
        w.layout.can_encode(pos),
        sky_supported(w, s.light, pos),
    ensures
        sky_supported(
            w,
            set_block(
                s.light,
                w.layout.cached(source.spec_relative(direction.spec_direction())),
                target,
            ),
            pos,
        ),
{
    let at = source.spec_relative(direction.spec_direction());
    let after = set_block(s.light, w.layout.cached(at), target);
    lemma_window_has_neighbors(w.layout, source);
    lemma_relative_back(source, direction);
    lemma_can_encode_has_block(w.layout, pos);
    lemma_set_block_levels(w, s.light, at, target, pos);
    if pos == at {
        lemma_set_block_levels(w, s.light, at, target, source);
        assert(direction.spec_opposite().spec_opposite() == direction);
        assert(is_supported_from(w, after, at, direction.spec_opposite())) by {
            reveal(is_supported_from);
        }
        assert(sky_given(w, after, at, direction.spec_opposite()));
    } else if level_at(w, s.light, pos) != 0 && level_at(w, s.light, pos) != 15 {
        let other = choose|other: LightAxisDirection| #[trigger] sky_given(w, s.light, pos, other);
        let giver = pos.spec_relative(other.spec_direction());
        lemma_window_has_neighbors(w.layout, pos);
        if w.layout.has_block(giver) {
            lemma_set_block_levels(w, s.light, at, target, giver);
        }
        if open_neighbor(w, s.light, pos, other) is Some {
            lemma_support_stays(w, s.light, after, pos, other);
        }
        assert(sky_given(w, after, pos, other));
    }
}

proof fn lemma_increase_around_sky(
    w: LightWorld<'_>,
    s: EngineState,
    entry: PackedLightQueueEntry,
    from: BlockStateId,
    source: BlockPos,
    n: int,
)
    requires
        world_plain(w),
        state_valid(w, s),
        w.layout.has_block(source),
        level_at(w, s.light, source) >= entry.spec_level(),
        w.table.light_shape(from) == w.table.light_shape(w.state(w.layout.cached(source))),
    ensures
        ({
            let after = increase_around(w, s, entry, from, source, n);
            &&& state_valid(w, after)
            &&& keeps_full(w, s.light, after.light)
            &&& level_at(w, after.light, source) == level_at(w, s.light, source)
            &&& all_sky_supported(w, s.light) ==> all_sky_supported(w, after.light)
        }),
    decreases n,
{
    lemma_keeps_full_refl(w, s.light);
    if n > 0 {
        lemma_increase_around_sky(w, s, entry, from, source, n - 1);
        let before = increase_around(w, s, entry, from, source, n - 1);
        let direction = LightAxisDirection::at(n - 1);
        entry.level_is_nibble();
        if entry.spec_directions().has(direction) {
            lemma_increase_into(w, before, entry.spec_level(), from, source, direction);
            lemma_increase_into_sky(w, before, entry.spec_level(), from, source, direction);
            lemma_keeps_full_trans(
                w,
                s.light,
                before.light,
                increase_around(w, s, entry, from, source, n).light,
            );
        }
    }
}

/// Work that writes nothing never writes less than there is.
pub proof fn lemma_no_writes_raise(w: LightWorld<'_>, s: EngineState)
    requires
        state_valid(w, s),
        no_writes(s.queues.increase),
    ensures
        writes_raise(w, s),
{
    assert forall|n: nat| next_raises(w, #[trigger] increase_steps(w, s, n)) by {
        lemma_increase_steps_brighten(w, s, n);
        let at = increase_steps(w, s, n);
        if at.queues.increase.len() > 0 {
            assert(!at.queues.increase[0].flags().write_level);
        }
    }
}

/// Runs of increase steps that write nothing keep full light, and leave every
/// block supported that was.
pub proof fn lemma_increase_steps_sky(w: LightWorld<'_>, s: EngineState, n: nat)
    requires
        world_plain(w),
        state_valid(w, s),
        all_honest(w, s),
        no_writes(s.queues.increase),
    ensures
        ({
            let after = increase_steps(w, s, n);
            &&& state_valid(w, after)
            &&& keeps_full(w, s.light, after.light)
            &&& all_sky_supported(w, s.light) ==> all_sky_supported(w, after.light)
        }),
    decreases n,
{
    lemma_keeps_full_refl(w, s.light);
    if n > 0 {
        let before = increase_steps(w, s, (n - 1) as nat);
        let after = increase_steps(w, s, n);
        lemma_increase_steps_sky(w, s, (n - 1) as nat);
        lemma_increase_steps_brighten(w, s, (n - 1) as nat);
        lemma_no_writes_raise(w, s);
        lemma_increase_steps_balance_in(w, s, (n - 1) as nat, Set::empty());
        if before.queues.increase.len() > 0 {
            let entry = before.queues.increase[0];
            let popped = increase_popped(before);
            assert(!entry.flags().write_level);
            assert(is_honest(w, before, entry));
            if let Some(source) = entry_source(w.layout, entry) {
                let pos = source.block_pos;
                if !entry.flags().recheck_level {
                    assert(!is_promised(w, before, pos, entry.spec_level() as int)) by {
                        assert forall|k: int| 0 <= k < before.queues.increase.len() implies !promises(
                            w,
                            #[trigger] before.queues.increase[k],
                            pos,
                            entry.spec_level() as int,
                        ) by {
                            assert(!before.queues.increase[k].flags().write_level);
                        }
                    }
                }
                if !(entry.flags().recheck_level && level_of(popped.light, source)
                    != entry.spec_level()) {
                    lemma_increase_around_sky(
                        w,
                        popped,
                        entry,
                        w.source_state(entry, source),
                        pos,
                        6,
                    );
                }
            }
        }
        lemma_keeps_full_trans(w, s.light, before.light, after.light);
    }
}

/// Full work is honest work.
pub proof fn lemma_full_honest(w: LightWorld<'_>, s: EngineState)
    requires
        full_work(w, s),
    ensures
        all_honest(w, s),
        no_writes(s.queues.increase),
{
    assert forall|k: int| 0 <= k < s.queues.increase.len() implies is_honest(
        w,
        s,
        #[trigger] s.queues.increase[k],
    ) && !s.queues.increase[k].flags().write_level by {
        assert(is_full_entry(w, s.light, s.queues.increase[k]));
        s.queues.increase[k].level_is_nibble();
    }
}

/// Sky light that is taken back from the queued decreases and spread again ends
/// supported and in balance, with full light where it was, if it was covered and
/// supported by what was queued.
pub proof fn sky_relight_settles(w: LightWorld<'_>, s: EngineState, region: Set<(BlockPos, LightAxisDirection)>)
    requires
        encodes(w, region),
        world_plain(w),
        faces_regular(w),
        state_valid(w, s),
        decreases_near(w, s),
        sky_work(w, s),
        sources_quiet(w, s),
        imbalance_covered_in(w, s, region),
    ensures
        ({
            let after = after_relight(w, false, s);
            &&& state_valid(w, after)
            &&& keeps_full(w, s.light, after.light)
            &&& balanced_in(w, after.light, region)
            &&& sky_supported_or_doomed(w, s) ==> all_sky_supported(w, after.light)
        }),
{
    let middle = decrease_ends(w, false, s);
    let after = increase_ends(w, middle);
    lemma_after_relight(w, false, s, after);
    let n = choose|n: nat|
        #[trigger] decrease_steps(w, false, s, n) == middle && middle.queues.decrease.len() == 0;
    let m = choose|m: nat|
        #[trigger] increase_steps(w, middle, m) == after && after.queues.increase.len() == 0;
    lemma_decrease_steps_sky(w, s, n);
    near_decrease_stays(w, false, s, middle);
    lemma_full_honest(w, middle);
    lemma_no_writes_raise(w, middle);
    relight_reaches_balance_in(w, false, s, middle, after, region);
    if sky_supported_or_doomed(w, s) {
        assert forall|pos: BlockPos| w.layout.can_encode(pos) implies #[trigger] sky_supported(
            w,
            middle.light,
            pos,
        ) by {
            assert(!is_doomed(w, middle, pos));
        }
    }
    lemma_increase_steps_sky(w, middle, m);
    lemma_keeps_full_trans(w, s.light, middle.light, after.light);
}

/// Increase work on sky light that writes nothing ends in balance, with full
/// light where it was, if every imbalance was covered by what was queued.
pub proof fn sky_increase_settles(w: LightWorld<'_>, s: EngineState, region: Set<(BlockPos, LightAxisDirection)>)
    requires
        encodes(w, region),
        world_plain(w),
        state_valid(w, s),
        all_honest(w, s),
        no_writes(s.queues.increase),
        balanced_or_pending_in(w, s, region),
    ensures
        ({
            let after = after_increase(w, s);
            &&& state_valid(w, after)
            &&& keeps_full(w, s.light, after.light)
            &&& balanced_in(w, after.light, region)
            &&& after.queues.increase.len() == 0
        }),
{
    increase_is_done(w, s);
    let after = after_increase(w, s);
    let m = choose|m: nat|
        #[trigger] increase_steps(w, s, m) == after && after.queues.increase.len() == 0;
    lemma_no_writes_raise(w, s);
    increase_reaches_balance_in(w, s, after, region);
    lemma_increase_steps_sky(w, s, m);
}

} // verus!
