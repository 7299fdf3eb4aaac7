//! Decrease work leaves no imbalance without work, so that relighting ends in
//! balance.
use vstd::prelude::*;

use crate::balance::{
    all_honest, balanced, balanced_in, balanced_or_pending, balanced_or_pending_in, covers, encodes,
    in_balance, increase_reaches_balance, increase_reaches_balance_in, is_awaited, is_pending,
    lemma_all_directions, lemma_can_encode_has_block, lemma_onward_has, lemma_relative_back,
    lemma_set_block_levels, level_at, queue_window, world_plain, writes_raise,
};
use crate::block_state::BlockStateId;
use crate::engine::lemma_window_has_neighbors;
use crate::engine_laws::{
    lemma_decrease_around_darkens, lemma_decrease_into_darkens, lemma_decrease_steps_darken,
    no_brighter,
};
use crate::engine_measure::{lemma_cached_block, lemma_encoded_small, lemma_onward, state_valid};
use crate::engine_model::{
    decrease_around, decrease_done, decrease_into, decrease_step, decrease_steps, entry_for,
    entry_source, increase_done, level_of, onward, open_neighbor, queue_decrease, queue_increase,
    set_block, EngineState, LightWorld,
};
use crate::light_cache::{slot_valid, SlotView};
use crate::packed_queue::{
    LightAxisDirection, LightDirectionSet, LightQueueFlags, PackedLightQueueEntry,
    PackedQueuesView,
};
use crate::position::BlockPos;

verus! {

/// A face that blocks light one way blocks it the other way too, and a face
/// that blocks light from air blocks it from everything.
#[verifier::opaque]
pub open spec fn faces_regular(w: LightWorld<'_>) -> bool {
    &&& forall|a: BlockStateId, b: BlockStateId, direction: LightAxisDirection|
        #[trigger] w.loss(a, b, direction) == 16 ==> w.loss(b, a, direction.spec_opposite()) == 16
    &&& forall|a: BlockStateId, b: BlockStateId, direction: LightAxisDirection|
        w.loss(w.table.spec_air(), b, direction) == 16 ==> #[trigger] w.loss(a, b, direction) == 16
}

proof fn lemma_blocked_back(
    w: LightWorld<'_>,
    from: BlockStateId,
    source: BlockStateId,
    to: BlockStateId,
    direction: LightAxisDirection,
)
    requires
        faces_regular(w),
        from == source || from == w.table.spec_air(),
        w.loss(from, to, direction) == 16,
    ensures
        w.loss(to, source, direction.spec_opposite()) == 16,
{
    reveal(faces_regular);
    assert(w.loss(source, to, direction) == 16);
}

/// A decrease entry leads from a block's neighbor back to the block.
pub open spec fn leads_back(
    w: LightWorld<'_>,
    entry: PackedLightQueueEntry,
    pos: BlockPos,
    direction: LightAxisDirection,
) -> bool {
    &&& entry_source(w.layout, entry) == Some(
        w.layout.cached(pos.spec_relative(direction.spec_direction())),
    )
    &&& entry.spec_directions().has(direction.spec_opposite())
}

/// Some queued decrease entry leads from a block's neighbor back to the block.
pub open spec fn is_excused(
    w: LightWorld<'_>,
    s: EngineState,
    pos: BlockPos,
    direction: LightAxisDirection,
) -> bool {
    exists|k: int|
        0 <= k < s.queues.decrease.len() && leads_back(
            w,
            #[trigger] s.queues.decrease[k],
            pos,
            direction,
        )
}

/// A block is dark, or work is queued that spreads its level all around.
pub open spec fn is_quiet(w: LightWorld<'_>, s: EngineState, pos: BlockPos) -> bool {
    level_at(w, s.light, pos) == 0 || forall|direction: LightAxisDirection| #[trigger]
        is_pending(w, s, pos, direction)
}

/// Decrease entries start from blocks that are dark or spread their level.
pub open spec fn sources_quiet(w: LightWorld<'_>, s: EngineState) -> bool {
    forall|k: int|
        0 <= k < s.queues.decrease.len() ==> (entry_source(
            w.layout,
            #[trigger] s.queues.decrease[k],
        ) matches Some(source) ==> is_quiet(w, s, source.block_pos))
}

/// Every block of the queue window is in balance with its neighbors, or work
/// is queued where it is not: an increase from the block, or a decrease that
/// comes back to it.
pub open spec fn imbalance_covered(w: LightWorld<'_>, s: EngineState) -> bool {
    forall|pos: BlockPos, direction: LightAxisDirection|
        w.layout.can_encode(pos) ==> #[trigger] in_balance(w, s.light, pos, direction)
            || is_pending(w, s, pos, direction) || is_excused(w, s, pos, direction)
}

/// Every block of a region is in balance with its neighbors, or work is queued
/// where it is not.
pub open spec fn imbalance_covered_in(
    w: LightWorld<'_>,
    s: EngineState,
    region: Set<(BlockPos, LightAxisDirection)>,
) -> bool {
    forall|pos: BlockPos, direction: LightAxisDirection|
        region.contains((pos, direction)) ==> #[trigger] in_balance(w, s.light, pos, direction) || is_pending(
            w,
            s,
            pos,
            direction,
        ) || is_excused(w, s, pos, direction)
}

/// Some block outside of the queue window became darker.
pub open spec fn strayed(w: LightWorld<'_>, before: Seq<SlotView>, after: Seq<SlotView>) -> bool {
    exists|pos: BlockPos|
        w.layout.has_block(pos) && !w.layout.can_encode(pos) && #[trigger] level_at(w, after, pos)
            < level_at(w, before, pos)
}

/// What a decrease that is being worked off still excuses.
spec fn is_underway(
    entry: PackedLightQueueEntry,
    source: BlockPos,
    n: int,
    pos: BlockPos,
    direction: LightAxisDirection,
) -> bool {
    &&& pos.spec_relative(direction.spec_direction()) == source
    &&& direction.spec_opposite().place() >= n
    &&& entry.spec_directions().has(direction.spec_opposite())
}

spec fn covered_except(
    w: LightWorld<'_>,
    s: EngineState,
    source: BlockPos,
    entry: PackedLightQueueEntry,
    n: int,
    region: Set<(BlockPos, LightAxisDirection)>,
) -> bool {
    forall|pos: BlockPos, direction: LightAxisDirection|
        region.contains((pos, direction)) ==> #[trigger] in_balance(w, s.light, pos, direction)
            || is_pending(w, s, pos, direction) || is_excused(w, s, pos, direction) || is_underway(
            entry,
            source,
            n,
            pos,
            direction,
        )
}

proof fn lemma_relative_injective(pos: BlockPos, a: LightAxisDirection, b: LightAxisDirection)
    requires
        pos.has_neighbors(),
        pos.spec_relative(a.spec_direction()) == pos.spec_relative(b.spec_direction()),
    ensures
        a == b,
{
}

/// The block that a neighbor's direction leads back to.
proof fn lemma_back_to(pos: BlockPos, direction: LightAxisDirection, source: BlockPos)
    requires
        pos.has_neighbors(),
        pos.spec_relative(direction.spec_direction()) == source,
    ensures
        source.spec_relative(direction.spec_opposite().spec_direction()) == pos,
{
    lemma_relative_back(pos, direction);
}

/// A queued entry has the fields that it was made of.
pub proof fn lemma_queued_entry(
    w: LightWorld<'_>,
    at: BlockPos,
    level: u8,
    directions: LightDirectionSet,
    flags: LightQueueFlags,
)
    requires
        world_plain(w),
        w.layout.can_encode(at),
        directions.0 < 64,
        level < 16,
    ensures
        entry_source(w.layout, entry_for(w.layout, at, level, directions, flags)) == Some(
            w.layout.cached(at),
        ),
        entry_for(w.layout, at, level, directions, flags).spec_level() == level,
        entry_for(w.layout, at, level, directions, flags).spec_directions() == directions,
        entry_for(w.layout, at, level, directions, flags).flags() == flags,
{
    lemma_encoded_small(w.layout, at);
    PackedLightQueueEntry::fields_round_trip(w.layout.encoded(at), level, directions, flags);
    w.layout.encode_round_trip(at);
    lemma_can_encode_has_block(w.layout, at);
}

/// Nothing that is queued is lost, and the level of a block stays what it was.
spec fn keeps_work(w: LightWorld<'_>, s: EngineState, after: EngineState, pos: BlockPos) -> bool {
    &&& level_at(w, after.light, pos) == level_at(w, s.light, pos)
    &&& after.queues.increase.len() >= s.queues.increase.len()
    &&& after.queues.decrease.len() >= s.queues.decrease.len()
    &&& forall|k: int|
        0 <= k < s.queues.increase.len() ==> #[trigger] after.queues.increase[k]
            == s.queues.increase[k]
    &&& forall|k: int|
        0 <= k < s.queues.decrease.len() ==> #[trigger] after.queues.decrease[k]
            == s.queues.decrease[k]
}

proof fn lemma_keeps_work(
    w: LightWorld<'_>,
    s: EngineState,
    after: EngineState,
    pos: BlockPos,
    direction: LightAxisDirection,
)
    requires
        keeps_work(w, s, after, pos),
    ensures
        is_pending(w, s, pos, direction) ==> is_pending(w, after, pos, direction),
        is_excused(w, s, pos, direction) ==> is_excused(w, after, pos, direction),
{
    if is_pending(w, s, pos, direction) {
        let k = choose|k: int|
            0 <= k < s.queues.increase.len() && covers(
                w,
                s.light,
                #[trigger] s.queues.increase[k],
                pos,
                direction,
            );
        assert(covers(w, after.light, after.queues.increase[k], pos, direction));
    }
    if is_excused(w, s, pos, direction) {
        let k = choose|k: int|
            0 <= k < s.queues.decrease.len() && leads_back(
                w,
                #[trigger] s.queues.decrease[k],
                pos,
                direction,
            );
        assert(leads_back(w, after.queues.decrease[k], pos, direction));
    }
}

proof fn lemma_keeps_quiet(w: LightWorld<'_>, s: EngineState, after: EngineState, pos: BlockPos)
    requires
        keeps_work(w, s, after, pos),
        is_quiet(w, s, pos),
    ensures
        is_quiet(w, after, pos),
{
    if level_at(w, s.light, pos) != 0 {
        assert forall|direction: LightAxisDirection| #[trigger]
            is_pending(w, after, pos, direction) by {
            lemma_keeps_work(w, s, after, pos, direction);
        }
    }
}

/// A dark block is in balance.
proof fn lemma_dark_in_balance(
    w: LightWorld<'_>,
    light: Seq<SlotView>,
    pos: BlockPos,
    direction: LightAxisDirection,
)
    requires
        level_at(w, light, pos) == 0,
    ensures
        in_balance(w, light, pos, direction),
{
}

/// A block of a section that is null or not cached is dark.
pub proof fn lemma_unlit_is_dark(w: LightWorld<'_>, s: EngineState, pos: BlockPos)
    requires
        state_valid(w, s),
        w.layout.has_block(pos),
        !s.light[w.layout.cached(pos).section_slot as int].is_lit(),
    ensures
        level_at(w, s.light, pos) == 0,
{
    lemma_cached_block(w.layout, pos);
    assert(slot_valid(s.light[w.layout.cached(pos).section_slot as int]));
}

/// The state after a neighbor became dark and spread its darkness.
spec fn darkened(
    w: LightWorld<'_>,
    emits: bool,
    s: EngineState,
    at: BlockPos,
    target: u8,
    direction: LightAxisDirection,
) -> EngineState {
    let to = w.state(w.layout.cached(at));
    let flags = w.shape_flags(to);
    let restored = if emits && w.emission(to) != 0 {
        queue_increase(
            w.layout,
            s,
            at,
            w.emission(to),
            LightDirectionSet(63),
            LightQueueFlags { write_level: true, ..flags },
        )
    } else {
        s
    };
    let dark = EngineState {
        light: set_block(restored.light, w.layout.cached(at), 0),
        ..restored
    };
    queue_decrease(w.layout, dark, at, target, onward(direction), flags)
}

/// A neighbor of the source is about to become dark.
spec fn can_darken(w: LightWorld<'_>, s: EngineState, at: BlockPos, target: u8) -> bool {
    &&& world_plain(w)
    &&& state_valid(w, s)
    &&& w.layout.has_block(at)
    &&& s.light[w.layout.cached(at).section_slot as int].is_lit()
    &&& 0 < target < 16
}

proof fn lemma_darkened_keeps(
    w: LightWorld<'_>,
    emits: bool,
    s: EngineState,
    at: BlockPos,
    target: u8,
    direction: LightAxisDirection,
    pos: BlockPos,
)
    requires
        can_darken(w, s, at, target),
        w.layout.has_block(pos),
        pos != at,
    ensures
        keeps_work(w, s, darkened(w, emits, s, at, target, direction), pos),
        s.light[w.layout.cached(pos).section_slot as int].is_lit() == darkened(
            w,
            emits,
            s,
            at,
            target,
            direction,
        ).light[w.layout.cached(pos).section_slot as int].is_lit(),
{
    lemma_set_block_levels(w, s.light, at, 0, pos);
}

proof fn lemma_darkened_there(
    w: LightWorld<'_>,
    emits: bool,
    s: EngineState,
    at: BlockPos,
    target: u8,
    direction: LightAxisDirection,
)
    requires
        can_darken(w, s, at, target),
        w.layout.can_encode(at),
    ensures
        ({
            let after = darkened(w, emits, s, at, target, direction);
            let last = after.queues.decrease.len() - 1;
            &&& level_at(w, after.light, at) == 0
            &&& last == s.queues.decrease.len()
            &&& entry_source(w.layout, after.queues.decrease[last]) == Some(w.layout.cached(at))
            &&& after.queues.decrease[last].spec_directions() == onward(direction)
        }),
{
    lemma_set_block_levels(w, s.light, at, 0, at);
    lemma_onward(direction);
    lemma_queued_entry(
        w,
        at,
        target,
        onward(direction),
        w.shape_flags(w.state(w.layout.cached(at))),
    );
}

/// A pair of blocks that leads into the dark neighbor is covered.
proof fn lemma_darkened_into(
    w: LightWorld<'_>,
    emits: bool,
    s: EngineState,
    source: BlockPos,
    target: u8,
    direction: LightAxisDirection,
    pos: BlockPos,
    other: LightAxisDirection,
)
    requires
        w.layout.has_block(source),
        can_darken(w, s, source.spec_relative(direction.spec_direction()), target),
        w.layout.can_encode(source.spec_relative(direction.spec_direction())),
        w.layout.can_encode(pos),
        pos != source.spec_relative(direction.spec_direction()),
        pos.spec_relative(other.spec_direction()) == source.spec_relative(
            direction.spec_direction(),
        ),
        is_quiet(w, s, source),
    ensures
        ({
            let at = source.spec_relative(direction.spec_direction());
            let after = darkened(w, emits, s, at, target, direction);
            in_balance(w, after.light, pos, other) || is_pending(w, after, pos, other)
                || is_excused(w, after, pos, other)
        }),
{
    let at = source.spec_relative(direction.spec_direction());
    let after = darkened(w, emits, s, at, target, direction);
    lemma_can_encode_has_block(w.layout, pos);
    lemma_window_has_neighbors(w.layout, pos);
    lemma_window_has_neighbors(w.layout, source);
    lemma_darkened_there(w, emits, s, at, target, direction);
    if pos == source {
        lemma_relative_injective(source, other, direction);
        lemma_darkened_keeps(w, emits, s, at, target, direction, source);
        if level_at(w, s.light, source) == 0 {
            lemma_dark_in_balance(w, after.light, source, other);
        } else {
            assert(is_pending(w, s, source, other));
            lemma_keeps_work(w, s, after, source, other);
        }
    } else {
        lemma_back_to(pos, other, at);
        lemma_back_to(source, direction, at);
        assert(other.spec_opposite() != direction.spec_opposite());
        lemma_onward_has(direction, other.spec_opposite());
        let last = after.queues.decrease.len() - 1;
        assert(leads_back(w, after.queues.decrease[last], pos, other));
    }
}

/// A pair of blocks apart from the dark neighbor is as it was.
proof fn lemma_darkened_apart(
    w: LightWorld<'_>,
    emits: bool,
    s: EngineState,
    source: BlockPos,
    target: u8,
    direction: LightAxisDirection,
    pos: BlockPos,
    other: LightAxisDirection,
)
    requires
        w.layout.has_block(source),
        can_darken(w, s, source.spec_relative(direction.spec_direction()), target),
        w.layout.can_encode(pos),
        pos != source.spec_relative(direction.spec_direction()),
        pos.spec_relative(other.spec_direction()) != source.spec_relative(
            direction.spec_direction(),
        ),
    ensures
        ({
            let at = source.spec_relative(direction.spec_direction());
            let after = darkened(w, emits, s, at, target, direction);
            &&& in_balance(w, s.light, pos, other) ==> in_balance(w, after.light, pos, other)
            &&& is_pending(w, s, pos, other) ==> is_pending(w, after, pos, other)
            &&& is_excused(w, s, pos, other) ==> is_excused(w, after, pos, other)
        }),
{
    let at = source.spec_relative(direction.spec_direction());
    let after = darkened(w, emits, s, at, target, direction);
    let next = pos.spec_relative(other.spec_direction());
    lemma_can_encode_has_block(w.layout, pos);
    lemma_darkened_keeps(w, emits, s, at, target, direction, pos);
    lemma_keeps_work(w, s, after, pos, other);
    if w.layout.has_block(next) {
        lemma_darkened_keeps(w, emits, s, at, target, direction, next);
    }
}

/// A neighbor's darkness leaves a pair of blocks covered.
proof fn lemma_darkened_pair(
    w: LightWorld<'_>,
    emits: bool,
    s: EngineState,
    entry: PackedLightQueueEntry,
    source: BlockPos,
    target: u8,
    n: int,
    pos: BlockPos,
    other: LightAxisDirection,
)
    requires
        0 <= n < 6,
        w.layout.has_block(source),
        can_darken(w, s, source.spec_relative(LightAxisDirection::at(n).spec_direction()), target),
        w.layout.can_encode(source.spec_relative(LightAxisDirection::at(n).spec_direction())),
        w.layout.can_encode(pos),
        is_quiet(w, s, source),
        in_balance(w, s.light, pos, other) || is_pending(w, s, pos, other) || is_excused(
            w,
            s,
            pos,
            other,
        ) || is_underway(entry, source, n, pos, other),
    ensures
        ({
            let after = darkened(
                w,
                emits,
                s,
                source.spec_relative(LightAxisDirection::at(n).spec_direction()),
                target,
                LightAxisDirection::at(n),
            );
            in_balance(w, after.light, pos, other) || is_pending(w, after, pos, other)
                || is_excused(w, after, pos, other) || is_underway(entry, source, n + 1, pos, other)
        }),
{
    let direction = LightAxisDirection::at(n);
    let at = source.spec_relative(direction.spec_direction());
    let after = darkened(w, emits, s, at, target, direction);
    if pos == at {
        lemma_darkened_there(w, emits, s, at, target, direction);
        lemma_dark_in_balance(w, after.light, pos, other);
    } else if pos.spec_relative(other.spec_direction()) == at {
        lemma_darkened_into(w, emits, s, source, target, direction, pos, other);
    } else {
        lemma_darkened_apart(w, emits, s, source, target, direction, pos, other);
        if is_underway(entry, source, n, pos, other) && other.spec_opposite().place() == n {
            lemma_can_encode_has_block(w.layout, pos);
            lemma_window_has_neighbors(w.layout, pos);
            lemma_back_to(pos, other, source);
            assert(other.spec_opposite() == direction);
        }
    }
}

proof fn lemma_darkened_covered(
    w: LightWorld<'_>,
    emits: bool,
    s: EngineState,
    entry: PackedLightQueueEntry,
    source: BlockPos,
    target: u8,
    n: int,
    region: Set<(BlockPos, LightAxisDirection)>,
)
    requires
        encodes(w, region),
        0 <= n < 6,
        w.layout.has_block(source),
        can_darken(w, s, source.spec_relative(LightAxisDirection::at(n).spec_direction()), target),
        w.layout.can_encode(source.spec_relative(LightAxisDirection::at(n).spec_direction())),
        is_quiet(w, s, source),
        sources_quiet(w, s),
        covered_except(w, s, source, entry, n, region),
    ensures
        ({
            let after = darkened(
                w,
                emits,
                s,
                source.spec_relative(LightAxisDirection::at(n).spec_direction()),
                target,
                LightAxisDirection::at(n),
            );
            &&& is_quiet(w, after, source)
            &&& sources_quiet(w, after)
            &&& covered_except(w, after, source, entry, n + 1, region)
        }),
{
    let direction = LightAxisDirection::at(n);
    let at = source.spec_relative(direction.spec_direction());
    let after = darkened(w, emits, s, at, target, direction);
    lemma_window_has_neighbors(w.layout, source);
    lemma_relative_back(source, direction);
    lemma_darkened_there(w, emits, s, at, target, direction);
    lemma_darkened_keeps(w, emits, s, at, target, direction, source);
    lemma_keeps_quiet(w, s, after, source);
    assert forall|k: int| 0 <= k < after.queues.decrease.len() implies (entry_source(
        w.layout,
        #[trigger] after.queues.decrease[k],
    ) matches Some(b) ==> is_quiet(w, after, b.block_pos)) by {
        if let Some(b) = entry_source(w.layout, after.queues.decrease[k]) {
            if b.block_pos != at {
                assert(after.queues.decrease[k] == s.queues.decrease[k]);
                lemma_darkened_keeps(w, emits, s, at, target, direction, b.block_pos);
                lemma_keeps_quiet(w, s, after, b.block_pos);
            }
        }
    }
    assert forall|pos: BlockPos, other: LightAxisDirection|
        region.contains((pos, other)) implies #[trigger] in_balance(w, after.light, pos, other)
        || is_pending(w, after, pos, other) || is_excused(w, after, pos, other) || is_underway(
        entry,
        source,
        n + 1,
        pos,
        other,
    ) by {
        assert(in_balance(w, s.light, pos, other) || is_pending(w, s, pos, other) || is_excused(
            w,
            s,
            pos,
            other,
        ) || is_underway(entry, source, n, pos, other));
        lemma_darkened_pair(w, emits, s, entry, source, target, n, pos, other);
    }
}

/// A neighbor that stays as it is: it is in balance with the source.
proof fn lemma_idle_covered(
    w: LightWorld<'_>,
    s: EngineState,
    entry: PackedLightQueueEntry,
    source: BlockPos,
    n: int,
    region: Set<(BlockPos, LightAxisDirection)>,
)
    requires
        encodes(w, region),
        0 <= n < 6,
        world_plain(w),
        w.layout.has_block(source),
        covered_except(w, s, source, entry, n, region),
        w.layout.can_encode(source.spec_relative(LightAxisDirection::at(n).spec_direction()))
            && entry.spec_directions().has(LightAxisDirection::at(n)) ==> {
            let at = source.spec_relative(LightAxisDirection::at(n).spec_direction());
            let back = LightAxisDirection::at(n).spec_opposite();
            in_balance(w, s.light, at, back) || is_pending(w, s, at, back)
        },
    ensures
        covered_except(w, s, source, entry, n + 1, region),
{
    let direction = LightAxisDirection::at(n);
    let at = source.spec_relative(direction.spec_direction());
    assert forall|pos: BlockPos, other: LightAxisDirection|
        region.contains((pos, other)) implies #[trigger] in_balance(w, s.light, pos, other)
        || is_pending(w, s, pos, other) || is_excused(w, s, pos, other) || is_underway(
        entry,
        source,
        n + 1,
        pos,
        other,
    ) by {
        if is_underway(entry, source, n, pos, other) && other.spec_opposite().place() == n {
            lemma_can_encode_has_block(w.layout, pos);
            lemma_window_has_neighbors(w.layout, pos);
            lemma_back_to(pos, other, source);
            assert(other.spec_opposite() == direction);
            assert(other == direction.spec_opposite());
            assert(pos == at);
        }
    }
}

/// Work that is queued leaves everything else covered.
proof fn lemma_recheck_covered(
    w: LightWorld<'_>,
    s: EngineState,
    entry: PackedLightQueueEntry,
    source: BlockPos,
    flags: LightQueueFlags,
    n: int,
    region: Set<(BlockPos, LightAxisDirection)>,
)
    requires
        encodes(w, region),
        0 <= n < 6,
        world_plain(w),
        state_valid(w, s),
        w.layout.has_block(source),
        is_quiet(w, s, source),
        sources_quiet(w, s),
        covered_except(w, s, source, entry, n, region),
        level_at(
            w,
            s.light,
            source.spec_relative(LightAxisDirection::at(n).spec_direction()),
        ) < 16,
    ensures
        ({
            let at = source.spec_relative(LightAxisDirection::at(n).spec_direction());
            let after = queue_increase(
                w.layout,
                s,
                at,
                level_at(w, s.light, at),
                LightDirectionSet(63),
                flags,
            );
            &&& is_quiet(w, after, source)
            &&& sources_quiet(w, after)
            &&& covered_except(w, after, source, entry, n + 1, region)
        }),
{
    let direction = LightAxisDirection::at(n);
    let at = source.spec_relative(direction.spec_direction());
    let level = level_at(w, s.light, at);
    let after = queue_increase(w.layout, s, at, level, LightDirectionSet(63), flags);
    lemma_keeps_quiet(w, s, after, source);
    assert forall|k: int| 0 <= k < after.queues.decrease.len() implies (entry_source(
        w.layout,
        #[trigger] after.queues.decrease[k],
    ) matches Some(b) ==> is_quiet(w, after, b.block_pos)) by {
        if let Some(b) = entry_source(w.layout, after.queues.decrease[k]) {
            assert(after.queues.decrease[k] == s.queues.decrease[k]);
            lemma_keeps_quiet(w, s, after, b.block_pos);
        }
    }
    assert(covered_except(w, after, source, entry, n, region)) by {
        assert forall|pos: BlockPos, other: LightAxisDirection|
            region.contains((pos, other)) implies #[trigger] in_balance(w, after.light, pos, other)
            || is_pending(w, after, pos, other) || is_excused(w, after, pos, other) || is_underway(
            entry,
            source,
            n,
            pos,
            other,
        ) by {
            lemma_keeps_work(w, s, after, pos, other);
            assert(in_balance(w, s.light, pos, other) || is_pending(w, s, pos, other)
                || is_excused(w, s, pos, other) || is_underway(entry, source, n, pos, other));
        }
    }
    if w.layout.can_encode(at) {
        lemma_queued_entry(w, at, level, LightDirectionSet(63), flags);
        lemma_all_directions(direction.spec_opposite());
        let last = after.queues.increase.len() - 1;
        assert(covers(
            w,
            after.light,
            after.queues.increase[last],
            at,
            direction.spec_opposite(),
        ));
    }
    lemma_idle_covered(w, after, entry, source, n, region);
}

/// A block outside of the queue window that becomes dark has strayed.
proof fn lemma_darkened_strays(
    w: LightWorld<'_>,
    emits: bool,
    s: EngineState,
    at: BlockPos,
    target: u8,
    direction: LightAxisDirection,
)
    requires
        can_darken(w, s, at, target),
        !w.layout.can_encode(at),
        level_at(w, s.light, at) > 0,
    ensures
        strayed(w, s.light, darkened(w, emits, s, at, target, direction).light),
{
    lemma_set_block_levels(w, s.light, at, 0, at);
    let after = darkened(w, emits, s, at, target, direction);
    assert(level_at(w, after.light, at) < level_at(w, s.light, at));
}

proof fn lemma_decrease_into_covered(
    w: LightWorld<'_>,
    emits: bool,
    s: EngineState,
    entry: PackedLightQueueEntry,
    from: BlockStateId,
    source: BlockPos,
    n: int,
    region: Set<(BlockPos, LightAxisDirection)>,
)
    requires
        encodes(w, region),
        0 <= n < 6,
        world_plain(w),
        faces_regular(w),
        state_valid(w, s),
        w.layout.has_block(source),
        from == w.state(w.layout.cached(source)) || from == w.table.spec_air(),
        is_quiet(w, s, source),
        sources_quiet(w, s),
        covered_except(w, s, source, entry, n, region),
    ensures
        ({
            let after = decrease_into(
                w,
                emits,
                s,
                entry.spec_level(),
                from,
                source,
                LightAxisDirection::at(n),
            );
            strayed(w, s.light, after.light) || {
                &&& is_quiet(w, after, source)
                &&& sources_quiet(w, after)
                &&& covered_except(w, after, source, entry, n + 1, region)
            }
        }),
{
    let direction = LightAxisDirection::at(n);
    let at = source.spec_relative(direction.spec_direction());
    let back = direction.spec_opposite();
    let level = entry.spec_level();
    entry.level_is_nibble();
    lemma_window_has_neighbors(w.layout, source);
    lemma_relative_back(source, direction);
    match open_neighbor(w, s.light, source, direction) {
        None => {
            if w.layout.can_encode(at) {
                lemma_can_encode_has_block(w.layout, at);
                lemma_unlit_is_dark(w, s, at);
                lemma_dark_in_balance(w, s.light, at, back);
            }
            lemma_idle_covered(w, s, entry, source, n, region);
        },
        Some(neighbor) => {
            assert(neighbor == w.layout.cached(at));
            lemma_cached_block(w.layout, at);
            assert(slot_valid(s.light[neighbor.section_slot as int]));
            let current = level_of(s.light, neighbor);
            let to = w.state(neighbor);
            let loss = w.loss(from, to, direction);
            if current == 0 {
                lemma_dark_in_balance(w, s.light, at, back);
                lemma_idle_covered(w, s, entry, source, n, region);
            } else if loss == 16 {
                lemma_blocked_back(w, from, w.state(w.layout.cached(source)), to, direction);
                assert(in_balance(w, s.light, at, back));
                lemma_idle_covered(w, s, entry, source, n, region);
            } else {
                let target = if loss >= level {
                    0u8
                } else {
                    (level - loss) as u8
                };
                if current > target {
                    lemma_recheck_covered(
                        w,
                        s,
                        entry,
                        source,
                        LightQueueFlags { recheck_level: true, ..w.shape_flags(to) },
                        n,
                        region,
                    );
                } else {
                    assert(decrease_into(w, emits, s, level, from, source, direction) == darkened(
                        w,
                        emits,
                        s,
                        at,
                        target,
                        direction,
                    ));
                    if w.layout.can_encode(at) {
                        lemma_darkened_covered(w, emits, s, entry, source, target, n, region);
                    } else {
                        lemma_darkened_strays(w, emits, s, at, target, direction);
                    }
                }
            }
        },
    }
}

proof fn lemma_strayed_after(
    w: LightWorld<'_>,
    before: Seq<SlotView>,
    middle: Seq<SlotView>,
    after: Seq<SlotView>,
)
    requires
        w.layout.wf(),
        before.len() == w.layout.slots(),
        no_brighter(before, middle),
        no_brighter(middle, after),
        strayed(w, before, middle) || strayed(w, middle, after),
    ensures
        strayed(w, before, after),
{
    if strayed(w, before, middle) {
        let pos = choose|pos: BlockPos|
            w.layout.has_block(pos) && !w.layout.can_encode(pos) && #[trigger] level_at(
                w,
                middle,
                pos,
            ) < level_at(w, before, pos);
        lemma_no_brighter_at(w, middle, after, pos);
        assert(level_at(w, after, pos) < level_at(w, before, pos));
    } else {
        let pos = choose|pos: BlockPos|
            w.layout.has_block(pos) && !w.layout.can_encode(pos) && #[trigger] level_at(
                w,
                after,
                pos,
            ) < level_at(w, middle, pos);
        lemma_no_brighter_at(w, before, middle, pos);
        assert(level_at(w, after, pos) < level_at(w, before, pos));
    }
}

proof fn lemma_no_brighter_at(
    w: LightWorld<'_>,
    before: Seq<SlotView>,
    after: Seq<SlotView>,
    pos: BlockPos,
)
    requires
        w.layout.wf(),
        before.len() == w.layout.slots(),
        no_brighter(before, after),
        w.layout.has_block(pos),
    ensures
        level_at(w, after, pos) <= level_at(w, before, pos),
{
    lemma_cached_block(w.layout, pos);
    let block = w.layout.cached(pos);
    assert(after[block.section_slot as int].level(block.local_index as int)
        <= before[block.section_slot as int].level(block.local_index as int));
}

proof fn lemma_decrease_around_covered(
    w: LightWorld<'_>,
    emits: bool,
    s: EngineState,
    entry: PackedLightQueueEntry,
    from: BlockStateId,
    source: BlockPos,
    n: int,
    region: Set<(BlockPos, LightAxisDirection)>,
)
    requires
        encodes(w, region),
        0 <= n <= 6,
        world_plain(w),
        faces_regular(w),
        state_valid(w, s),
        w.layout.has_block(source),
        from == w.state(w.layout.cached(source)) || from == w.table.spec_air(),
        is_quiet(w, s, source),
        sources_quiet(w, s),
        covered_except(w, s, source, entry, 0, region),
    ensures
        ({
            let after = decrease_around(w, emits, s, entry, from, source, n);
            strayed(w, s.light, after.light) || {
                &&& is_quiet(w, after, source)
                &&& sources_quiet(w, after)
                &&& covered_except(w, after, source, entry, n, region)
            }
        }),
    decreases n,
{
    if n > 0 {
        lemma_decrease_around_covered(w, emits, s, entry, from, source, n - 1, region);
        lemma_decrease_around_darkens(w, emits, s, entry, from, source, n - 1);
        let before = decrease_around(w, emits, s, entry, from, source, n - 1);
        let after = decrease_around(w, emits, s, entry, from, source, n);
        let direction = LightAxisDirection::at(n - 1);
        entry.level_is_nibble();
        if entry.spec_directions().has(direction) {
            lemma_decrease_into_darkens(
                w,
                emits,
                before,
                entry.spec_level(),
                from,
                source,
                direction,
            );
            if strayed(w, s.light, before.light) {
                lemma_strayed_after(w, s.light, before.light, after.light);
            } else {
                lemma_decrease_into_covered(w, emits, before, entry, from, source, n - 1, region);
                if strayed(w, before.light, after.light) {
                    lemma_strayed_after(w, s.light, before.light, after.light);
                }
            }
        } else if !strayed(w, s.light, before.light) {
            lemma_idle_covered(w, before, entry, source, n - 1, region);
        }
    }
}

proof fn lemma_decrease_step_covered(w: LightWorld<'_>, emits: bool, s: EngineState, region: Set<(BlockPos, LightAxisDirection)>)
    requires
        encodes(w, region),
        world_plain(w),
        faces_regular(w),
        state_valid(w, s),
        sources_quiet(w, s),
        imbalance_covered_in(w, s, region),
    ensures
        strayed(w, s.light, decrease_step(w, emits, s).light) || {
            &&& sources_quiet(w, decrease_step(w, emits, s))
            &&& imbalance_covered_in(w, decrease_step(w, emits, s), region)
        },
{
    if s.queues.decrease.len() > 0 {
        let entry = s.queues.decrease[0];
        let popped = EngineState {
            queues: PackedQueuesView { decrease: s.queues.decrease.skip(1), ..s.queues },
            ..s
        };
        let after = decrease_step(w, emits, s);
        assert forall|pos: BlockPos, direction: LightAxisDirection|
            #![trigger is_pending(w, popped, pos, direction)]
            is_pending(w, s, pos, direction) == is_pending(w, popped, pos, direction) by {
            if is_pending(w, s, pos, direction) {
                let k = choose|k: int|
                    0 <= k < s.queues.increase.len() && covers(
                        w,
                        s.light,
                        #[trigger] s.queues.increase[k],
                        pos,
                        direction,
                    );
                assert(covers(w, popped.light, popped.queues.increase[k], pos, direction));
            }
        }
        assert(sources_quiet(w, popped)) by {
            assert forall|k: int| 0 <= k < popped.queues.decrease.len() implies (entry_source(
                w.layout,
                #[trigger] popped.queues.decrease[k],
            ) matches Some(b) ==> is_quiet(w, popped, b.block_pos)) by {
                assert(popped.queues.decrease[k] == s.queues.decrease[k + 1]);
                if let Some(b) = entry_source(w.layout, popped.queues.decrease[k]) {
                    assert(is_quiet(w, s, b.block_pos));
                    lemma_popped_quiet(w, s, popped, b.block_pos);
                }
            }
        }
        assert forall|pos: BlockPos, direction: LightAxisDirection|
            region.contains((pos, direction)) implies #[trigger] in_balance(w, popped.light, pos, direction)
            || is_pending(w, popped, pos, direction) || is_excused(w, popped, pos, direction)
            || leads_back(w, entry, pos, direction) by {
            assert(in_balance(w, s.light, pos, direction) || is_pending(w, s, pos, direction)
                || is_excused(w, s, pos, direction));
            if is_excused(w, s, pos, direction) {
                let k = choose|k: int|
                    0 <= k < s.queues.decrease.len() && leads_back(
                        w,
                        #[trigger] s.queues.decrease[k],
                        pos,
                        direction,
                    );
                if k > 0 {
                    assert(popped.queues.decrease[k - 1] == s.queues.decrease[k]);
                    assert(leads_back(w, popped.queues.decrease[k - 1], pos, direction));
                }
            }
        }
        match entry_source(w.layout, entry) {
            None => {
                assert(imbalance_covered_in(w, popped, region));
            },
            Some(block) => {
                let source = block.block_pos;
                let from = w.source_state(entry, block);
                assert(block == w.layout.cached(source));
                assert(is_quiet(w, s, source));
                lemma_popped_quiet(w, s, popped, source);
                assert(covered_except(w, popped, source, entry, 0, region)) by {
                    assert forall|pos: BlockPos, direction: LightAxisDirection|
                        region.contains((pos, direction)) implies #[trigger] in_balance(
                        w,
                        popped.light,
                        pos,
                        direction,
                    ) || is_pending(w, popped, pos, direction) || is_excused(
                        w,
                        popped,
                        pos,
                        direction,
                    ) || is_underway(entry, source, 0, pos, direction) by {
                        if leads_back(w, entry, pos, direction) {
                            assert(block.block_pos == pos.spec_relative(
                                direction.spec_direction(),
                            ));
                        }
                    }
                }
                lemma_decrease_around_covered(w, emits, popped, entry, from, source, 6, region);
                if !strayed(w, s.light, after.light) {
                    assert forall|pos: BlockPos, direction: LightAxisDirection|
                        region.contains((pos, direction)) implies #[trigger] in_balance(
                        w,
                        after.light,
                        pos,
                        direction,
                    ) || is_pending(w, after, pos, direction) || is_excused(
                        w,
                        after,
                        pos,
                        direction,
                    ) by {
                        assert(direction.spec_opposite().place() < 6);
                        assert(!is_underway(entry, source, 6, pos, direction));
                    }
                }
            },
        }
    }
}

proof fn lemma_popped_quiet(
    w: LightWorld<'_>,
    s: EngineState,
    popped: EngineState,
    pos: BlockPos,
)
    requires
        is_quiet(w, s, pos),
        popped.light == s.light,
        popped.queues.increase == s.queues.increase,
    ensures
        is_quiet(w, popped, pos),
{
    if level_at(w, s.light, pos) != 0 {
        assert forall|direction: LightAxisDirection| #[trigger]
            is_pending(w, popped, pos, direction) by {
            assert(is_pending(w, s, pos, direction));
            let k = choose|k: int|
                0 <= k < s.queues.increase.len() && covers(
                    w,
                    s.light,
                    #[trigger] s.queues.increase[k],
                    pos,
                    direction,
                );
            assert(covers(w, popped.light, popped.queues.increase[k], pos, direction));
        }
    }
}

proof fn lemma_decrease_steps_covered(w: LightWorld<'_>, emits: bool, s: EngineState, n: nat, region: Set<(BlockPos, LightAxisDirection)>)
    requires
        encodes(w, region),
        world_plain(w),
        faces_regular(w),
        state_valid(w, s),
        sources_quiet(w, s),
        imbalance_covered_in(w, s, region),
    ensures
        strayed(w, s.light, decrease_steps(w, emits, s, n).light) || {
            &&& sources_quiet(w, decrease_steps(w, emits, s, n))
            &&& imbalance_covered_in(w, decrease_steps(w, emits, s, n), region)
        },
    decreases n,
{
    if n > 0 {
        let before = decrease_steps(w, emits, s, (n - 1) as nat);
        let after = decrease_steps(w, emits, s, n);
        lemma_decrease_steps_covered(w, emits, s, (n - 1) as nat, region);
        lemma_decrease_steps_darken(w, emits, s, (n - 1) as nat);
        lemma_decrease_steps_darken(w, emits, before, 1);
        assert(decrease_steps(w, emits, before, 1) == after) by {
            reveal_with_fuel(decrease_steps, 2);
        }
        if strayed(w, s.light, before.light) {
            lemma_strayed_after(w, s.light, before.light, after.light);
        } else {
            lemma_decrease_step_covered(w, emits, before, region);
            if strayed(w, before.light, after.light) {
                lemma_strayed_after(w, s.light, before.light, after.light);
            }
        }
    }
}

/// Decrease work that stays in the queue window leaves no imbalance of a region
/// without work.
pub proof fn decrease_leaves_work_in(
    w: LightWorld<'_>,
    emits: bool,
    before: EngineState,
    after: EngineState,
    region: Set<(BlockPos, LightAxisDirection)>,
)
    requires
        encodes(w, region),
        world_plain(w),
        faces_regular(w),
        state_valid(w, before),
        sources_quiet(w, before),
        imbalance_covered_in(w, before, region),
        decrease_done(w, emits, before, after),
        !strayed(w, before.light, after.light),
    ensures
        balanced_or_pending_in(w, after, region),
{
    let n = choose|n: nat|
        #[trigger] decrease_steps(w, emits, before, n) == after && after.queues.decrease.len()
            == 0;
    lemma_decrease_steps_covered(w, emits, before, n, region);
    assert forall|pos: BlockPos, direction: LightAxisDirection|
        region.contains((pos, direction)) implies #[trigger] in_balance(w, after.light, pos, direction)
        || is_pending(w, after, pos, direction) by {
        assert(!is_excused(w, after, pos, direction));
    }
}

/// Relighting leaves a region in balance.
pub proof fn relight_reaches_balance_in(
    w: LightWorld<'_>,
    emits: bool,
    before: EngineState,
    middle: EngineState,
    after: EngineState,
    region: Set<(BlockPos, LightAxisDirection)>,
)
    requires
        encodes(w, region),
        world_plain(w),
        faces_regular(w),
        state_valid(w, before),
        sources_quiet(w, before),
        imbalance_covered_in(w, before, region),
        decrease_done(w, emits, before, middle),
        !strayed(w, before.light, middle.light),
        all_honest(w, middle),
        writes_raise(w, middle),
        increase_done(w, middle, after),
    ensures
        balanced_in(w, after.light, region),
{
    decrease_leaves_work_in(w, emits, before, middle, region);
    let n = choose|n: nat|
        #[trigger] decrease_steps(w, emits, before, n) == middle && middle.queues.decrease.len()
            == 0;
    lemma_decrease_steps_darken(w, emits, before, n);
    increase_reaches_balance_in(w, middle, after, region);
}

/// Decrease work that stays in the queue window leaves no imbalance without
/// work: wherever a block could brighten a neighbor afterwards, an increase is
/// queued.
pub proof fn decrease_leaves_work(
    w: LightWorld<'_>,
    emits: bool,
    before: EngineState,
    after: EngineState,
)
    requires
        world_plain(w),
        faces_regular(w),
        state_valid(w, before),
        sources_quiet(w, before),
        imbalance_covered(w, before),
        decrease_done(w, emits, before, after),
        !strayed(w, before.light, after.light),
    ensures
        balanced_or_pending(w, after),
{
    let region = queue_window(w);
    decrease_leaves_work_in(w, emits, before, after, region);
    assert forall|pos: BlockPos, direction: LightAxisDirection|
        w.layout.can_encode(pos) implies #[trigger] in_balance(w, after.light, pos, direction)
        || is_pending(w, after, pos, direction) || is_awaited(w, after, pos, direction) by {
        assert(region.contains((pos, direction)));
    }
}

/// Relighting ends in balance: decrease work that stays in the queue window and
/// leaves honest entries, and then increase work that never writes less light
/// than there is, leave no block that could brighten a neighbor.
pub proof fn relight_reaches_balance(
    w: LightWorld<'_>,
    emits: bool,
    before: EngineState,
    middle: EngineState,
    after: EngineState,
)
    requires
        world_plain(w),
        faces_regular(w),
        state_valid(w, before),
        sources_quiet(w, before),
        imbalance_covered(w, before),
        decrease_done(w, emits, before, middle),
        !strayed(w, before.light, middle.light),
        all_honest(w, middle),
        writes_raise(w, middle),
        increase_done(w, middle, after),
    ensures
        balanced(w, after.light),
{
    decrease_leaves_work(w, emits, before, middle);
    let n = choose|n: nat|
        #[trigger] decrease_steps(w, emits, before, n) == middle && middle.queues.decrease.len()
            == 0;
    lemma_decrease_steps_darken(w, emits, before, n);
    increase_reaches_balance(w, middle, after);
}

} // verus!
