//! Increase work ends in balance: no block could still brighten a neighbor.
use vstd::prelude::*;

use crate::block_state::BlockStateId;
use crate::cache::LightCacheLayout;
use crate::engine::lemma_window_has_neighbors;
use crate::engine_measure::{
    lemma_cached_block, lemma_encoded_small, lemma_increase_into, lemma_onward, lemma_set_block,
    state_valid,
};
use crate::engine_model::{
    entry_source, increase_around, increase_done, increase_into, increase_step, increase_steps,
    level_of, onward, open_neighbor, queue_increase, set_block, EngineState, LightWorld,
};
use crate::light_cache::SlotView;
use crate::packed_queue::{
    axis_bit, LightAxisDirection, LightDirectionSet, PackedLightQueueEntry, PackedQueuesView,
};
use crate::position::{local_coord, section_coord, BlockPos, SectionPos};
use crate::storage_model::block_index;

verus! {

/// The level of a block of the window.
pub open spec fn level_at(w: LightWorld<'_>, light: Seq<SlotView>, pos: BlockPos) -> u8 {
    level_of(light, w.layout.cached(pos))
}

/// A block cannot brighten its neighbor in a direction: light may not enter it
/// or does not get there, or the neighbor already has what would be left.
pub open spec fn in_balance(
    w: LightWorld<'_>,
    light: Seq<SlotView>,
    pos: BlockPos,
    direction: LightAxisDirection,
) -> bool {
    match open_neighbor(w, light, pos, direction) {
        None => true,
        Some(neighbor) => {
            let loss = w.loss(w.state(w.layout.cached(pos)), w.state(neighbor), direction);
            loss == 16 || level_at(w, light, pos) <= level_of(light, neighbor) + loss
        },
    }
}

/// An entry will spread a block's level in a direction.
pub open spec fn covers(
    w: LightWorld<'_>,
    light: Seq<SlotView>,
    entry: PackedLightQueueEntry,
    pos: BlockPos,
    direction: LightAxisDirection,
) -> bool {
    &&& entry_source(w.layout, entry) == Some(w.layout.cached(pos))
    &&& entry.spec_level() == level_at(w, light, pos)
    &&& entry.spec_directions().has(direction)
}

/// Some queued entry will spread a block's level in a direction.
pub open spec fn is_pending(
    w: LightWorld<'_>,
    s: EngineState,
    pos: BlockPos,
    direction: LightAxisDirection,
) -> bool {
    exists|k: int|
        0 <= k < s.queues.increase.len() && covers(
            w,
            s.light,
            #[trigger] s.queues.increase[k],
            pos,
            direction,
        )
}

/// An entry writes its level when it is worked off.
pub open spec fn is_writing(entry: PackedLightQueueEntry) -> bool {
    entry.flags().write_level && !entry.flags().recheck_level
}

/// Some queued entry will write at least a level at a block.
pub open spec fn is_promised(
    w: LightWorld<'_>,
    s: EngineState,
    pos: BlockPos,
    level: int,
) -> bool {
    exists|k: int|
        0 <= k < s.queues.increase.len() && promises(
            w,
            #[trigger] s.queues.increase[k],
            pos,
            level,
        )
}

/// An entry will write at least a level at a block.
pub open spec fn promises(
    w: LightWorld<'_>,
    entry: PackedLightQueueEntry,
    pos: BlockPos,
    level: int,
) -> bool {
    &&& is_writing(entry)
    &&& entry_source(w.layout, entry) == Some(w.layout.cached(pos))
    &&& entry.spec_level() >= level
}

/// A block is brighter than its neighbor allows only until the neighbor's level
/// is written.
pub open spec fn is_awaited(
    w: LightWorld<'_>,
    s: EngineState,
    pos: BlockPos,
    direction: LightAxisDirection,
) -> bool {
    let neighbor = pos.spec_relative(direction.spec_direction());
    let loss = w.loss(
        w.state(w.layout.cached(pos)),
        w.state(w.layout.cached(neighbor)),
        direction,
    );
    is_promised(w, s, neighbor, level_at(w, s.light, pos) - loss)
}

/// An entry does not promise more light than its source has or is about to get
/// unless it checks first or writes it, goes everywhere if it writes, and names
/// occluding faces where there are any.
pub open spec fn is_honest(
    w: LightWorld<'_>,
    s: EngineState,
    entry: PackedLightQueueEntry,
) -> bool {
    entry_source(w.layout, entry) matches Some(source) ==> {
        &&& !entry.flags().recheck_level && !is_writing(entry) ==> has_or_gets(
            w,
            s,
            source.block_pos,
            entry.spec_level(),
        )
        &&& is_writing(entry) ==> entry.spec_directions() == LightDirectionSet(63)
            && s.light[source.section_slot as int].is_lit()
        &&& !entry.flags().has_sided_transparent_blocks ==> w.table.light_shape(w.state(source))
            == 0
    }
}

/// A block has a level, or it will be written.
pub open spec fn has_or_gets(
    w: LightWorld<'_>,
    s: EngineState,
    pos: BlockPos,
    level: u8,
) -> bool {
    level_at(w, s.light, pos) >= level || is_promised(w, s, pos, level as int)
}

/// The next entry does not write less light than its source has.
pub open spec fn next_raises(w: LightWorld<'_>, s: EngineState) -> bool {
    s.queues.increase.len() > 0 && is_writing(s.queues.increase[0]) ==> (entry_source(
        w.layout,
        s.queues.increase[0],
    ) matches Some(source) ==> level_of(s.light, source) <= s.queues.increase[0].spec_level())
}

/// No entry that is worked off writes less light than its source has then.
pub open spec fn writes_raise(w: LightWorld<'_>, s: EngineState) -> bool {
    forall|n: nat| next_raises(w, #[trigger] increase_steps(w, s, n))
}

/// Every entry of the queue is honest.
pub open spec fn all_honest(w: LightWorld<'_>, s: EngineState) -> bool {
    forall|k: int|
        0 <= k < s.queues.increase.len() ==> is_honest(w, s, #[trigger] s.queues.increase[k])
}

/// Every block of the queue window is in balance with its neighbors, or work
/// is queued where it is not.
pub open spec fn balanced_or_pending(w: LightWorld<'_>, s: EngineState) -> bool {
    forall|pos: BlockPos, direction: LightAxisDirection|
        w.layout.can_encode(pos) ==> #[trigger] in_balance(w, s.light, pos, direction)
            || is_pending(w, s, pos, direction) || is_awaited(w, s, pos, direction)
}

/// Every block of a region is in balance with its neighbors, or work is queued
/// where it is not.
pub open spec fn balanced_or_pending_in(
    w: LightWorld<'_>,
    s: EngineState,
    region: Set<(BlockPos, LightAxisDirection)>,
) -> bool {
    forall|pos: BlockPos, direction: LightAxisDirection|
        region.contains((pos, direction)) ==> #[trigger] in_balance(w, s.light, pos, direction) || is_pending(
            w,
            s,
            pos,
            direction,
        ) || is_awaited(w, s, pos, direction)
}

/// The blocks of a region lie in the queue window. A region is made of blocks
/// and directions that lead from them.
pub open spec fn encodes(w: LightWorld<'_>, region: Set<(BlockPos, LightAxisDirection)>) -> bool {
    forall|pos: BlockPos, direction: LightAxisDirection| #[trigger]
        region.contains((pos, direction)) ==> w.layout.can_encode(pos)
}

/// The blocks of the queue window, with all directions.
pub open spec fn queue_window(w: LightWorld<'_>) -> Set<(BlockPos, LightAxisDirection)> {
    Set::new(|pair: (BlockPos, LightAxisDirection)| w.layout.can_encode(pair.0))
}

/// No block of a region could brighten a neighbor.
pub open spec fn balanced_in(
    w: LightWorld<'_>,
    light: Seq<SlotView>,
    region: Set<(BlockPos, LightAxisDirection)>,
) -> bool {
    forall|pos: BlockPos, direction: LightAxisDirection|
        region.contains((pos, direction)) ==> #[trigger] in_balance(w, light, pos, direction)
}

/// Every block of the queue window is in balance with its neighbors.
pub open spec fn balanced(w: LightWorld<'_>, light: Seq<SlotView>) -> bool {
    forall|pos: BlockPos, direction: LightAxisDirection|
        w.layout.can_encode(pos) ==> #[trigger] in_balance(w, light, pos, direction)
}

/// The world's packed heights have room for every cached section, and its air
/// has no occluding faces.
pub open spec fn world_plain(w: LightWorld<'_>) -> bool {
    &&& w.layout.wf()
    &&& w.layout.in_world()
    &&& w.layout.depth() * 16 <= 65536
    &&& w.table.light_shape(w.table.spec_air()) == 0
}

pub proof fn lemma_can_encode_has_block(layout: LightCacheLayout, pos: BlockPos)
    requires
        layout.can_encode(pos),
    ensures
        layout.has_block(pos),
{
}

proof fn lemma_cell_injective(layout: LightCacheLayout, a: BlockPos, b: BlockPos)
    requires
        layout.wf(),
        layout.has_block(a),
        layout.has_block(b),
        layout.cached(a).section_slot == layout.cached(b).section_slot,
        layout.cached(a).local_index == layout.cached(b).local_index,
    ensures
        a == b,
{
    lemma_cached_block(layout, a);
    lemma_cached_block(layout, b);
    layout.slot_round_trip(SectionPos::of_block(a), 0);
    layout.slot_round_trip(SectionPos::of_block(b), 0);
    assert(block_index(a) == block_index(b));
    let (ax, ay, az) = (
        local_coord(a.x as int),
        local_coord(a.y as int),
        local_coord(a.z as int),
    );
    let (bx, by, bz) = (
        local_coord(b.x as int),
        local_coord(b.y as int),
        local_coord(b.z as int),
    );
    assert(ay * 256 + az * 16 + ax == by * 256 + bz * 16 + bx);
    assert(ay == by && az == bz && ax == bx);
    assert(a.x == section_coord(a.x as int) * 16 + ax);
    assert(b.x == section_coord(b.x as int) * 16 + bx);
    assert(a.y == section_coord(a.y as int) * 16 + ay);
    assert(b.y == section_coord(b.y as int) * 16 + by);
    assert(a.z == section_coord(a.z as int) * 16 + az);
    assert(b.z == section_coord(b.z as int) * 16 + bz);
}

pub proof fn lemma_relative_back(pos: BlockPos, direction: LightAxisDirection)
    requires
        pos.has_neighbors(),
    ensures
        pos.spec_relative(direction.spec_direction()).spec_relative(
            direction.spec_opposite().spec_direction(),
        ) == pos,
        pos.spec_relative(direction.spec_direction()) != pos,
{
}

/// Balance is kept by everything but the excused directions of one source.
spec fn balanced_except(
    w: LightWorld<'_>,
    s: EngineState,
    source: BlockPos,
    entry: PackedLightQueueEntry,
    n: int,
    region: Set<(BlockPos, LightAxisDirection)>,
) -> bool {
    forall|pos: BlockPos, direction: LightAxisDirection|
        region.contains((pos, direction)) ==> #[trigger] in_balance(w, s.light, pos, direction)
            || is_pending(w, s, pos, direction) || is_awaited(w, s, pos, direction) || (pos
            == source && direction.place() >= n && entry.spec_directions().has(direction)
            && level_at(w, s.light, source) == entry.spec_level())
}

/// The increase queue has only grown.
pub open spec fn queue_grew(s: EngineState, after: EngineState) -> bool {
    &&& after.queues.increase.len() >= s.queues.increase.len()
    &&& forall|k: int|
        0 <= k < s.queues.increase.len() ==> #[trigger] after.queues.increase[k]
            == s.queues.increase[k]
}

/// What was promised stays promised while nothing is taken from the queue.
pub proof fn lemma_promise_stays(
    w: LightWorld<'_>,
    s: EngineState,
    after: EngineState,
    pos: BlockPos,
    level: int,
)
    requires
        queue_grew(s, after),
        is_promised(w, s, pos, level),
    ensures
        is_promised(w, after, pos, level),
{
    let k = choose|k: int|
        0 <= k < s.queues.increase.len() && promises(
            w,
            #[trigger] s.queues.increase[k],
            pos,
            level,
        );
    assert(promises(w, after.queues.increase[k], pos, level));
}

pub proof fn lemma_set_block_levels(
    w: LightWorld<'_>,
    light: Seq<SlotView>,
    at: BlockPos,
    level: u8,
    other: BlockPos,
)
    requires
        world_plain(w),
        light.len() == w.layout.slots(),
        crate::light_cache::slots_valid(light),
        w.layout.has_block(at),
        w.layout.has_block(other),
        light[w.layout.cached(at).section_slot as int] is Cached,
        level < 16,
    ensures
        level_at(w, set_block(light, w.layout.cached(at), level), other) == if other == at {
            level
        } else {
            level_at(w, light, other)
        },
        light[w.layout.cached(at).section_slot as int].is_lit() ==> set_block(
            light,
            w.layout.cached(at),
            level,
        )[w.layout.cached(other).section_slot as int].is_lit()
            == light[w.layout.cached(other).section_slot as int].is_lit(),
{
    lemma_cached_block(w.layout, at);
    lemma_cached_block(w.layout, other);
    lemma_set_block(light, w.layout.cached(at), level);
    if other != at && w.layout.cached(at).section_slot == w.layout.cached(other).section_slot
        && w.layout.cached(at).local_index == w.layout.cached(other).local_index {
        lemma_cell_injective(w.layout, at, other);
    }
}

/// A neighbor of a source took a level: the light and the queue afterwards.
spec fn raised(
    w: LightWorld<'_>,
    s: EngineState,
    at: BlockPos,
    target: u8,
    direction: LightAxisDirection,
) -> EngineState {
    let lit = EngineState { light: set_block(s.light, w.layout.cached(at), target), ..s };
    if target > 1 {
        queue_increase(
            w.layout,
            lit,
            at,
            target,
            onward(direction),
            w.shape_flags(w.state(w.layout.cached(at))),
        )
    } else {
        lit
    }
}

/// A neighbor that light may enter is about to become brighter.
spec fn can_raise(w: LightWorld<'_>, s: EngineState, at: BlockPos, target: u8) -> bool {
    &&& world_plain(w)
    &&& state_valid(w, s)
    &&& w.layout.has_block(at)
    &&& s.light[w.layout.cached(at).section_slot as int].is_lit()
    &&& level_at(w, s.light, at) < target < 16
}

proof fn lemma_raised_entry(
    w: LightWorld<'_>,
    s: EngineState,
    at: BlockPos,
    target: u8,
    direction: LightAxisDirection,
)
    requires
        can_raise(w, s, at, target),
        target > 1,
        w.layout.can_encode(at),
    ensures
        ({
            let after = raised(w, s, at, target, direction);
            let last = after.queues.increase.len() - 1;
            let added = after.queues.increase[last];
            &&& last == s.queues.increase.len()
            &&& entry_source(w.layout, added) == Some(w.layout.cached(at))
            &&& added.spec_level() == target
            &&& added.spec_directions() == onward(direction)
            &&& added.flags() == w.shape_flags(w.state(w.layout.cached(at)))
        }),
{
    lemma_onward(direction);
    lemma_encoded_small(w.layout, at);
    PackedLightQueueEntry::fields_round_trip(
        w.layout.encoded(at),
        target,
        onward(direction),
        w.shape_flags(w.state(w.layout.cached(at))),
    );
    w.layout.encode_round_trip(at);
}

proof fn lemma_raised_honest(
    w: LightWorld<'_>,
    s: EngineState,
    at: BlockPos,
    target: u8,
    direction: LightAxisDirection,
)
    requires
        can_raise(w, s, at, target),
        all_honest(w, s),
    ensures
        all_honest(w, raised(w, s, at, target, direction)),
{
    let after = raised(w, s, at, target, direction);
    if target > 1 && w.layout.can_encode(at) {
        lemma_raised_entry(w, s, at, target, direction);
        lemma_set_block_levels(w, s.light, at, target, at);
    }
    assert(queue_grew(s, after));
    assert forall|k: int| 0 <= k < after.queues.increase.len() implies is_honest(
        w,
        after,
        #[trigger] after.queues.increase[k],
    ) by {
        if k < s.queues.increase.len() {
            let e = s.queues.increase[k];
            assert(after.queues.increase[k] == e);
            assert(is_honest(w, s, e));
            if let Some(b) = entry_source(w.layout, e) {
                lemma_set_block_levels(w, s.light, at, target, b.block_pos);
                if is_promised(w, s, b.block_pos, e.spec_level() as int) {
                    lemma_promise_stays(w, s, after, b.block_pos, e.spec_level() as int);
                }
            }
        }
    }
}

proof fn lemma_raised_elsewhere(
    w: LightWorld<'_>,
    s: EngineState,
    at: BlockPos,
    target: u8,
    direction: LightAxisDirection,
    pos: BlockPos,
    other: LightAxisDirection,
)
    requires
        can_raise(w, s, at, target),
        w.layout.can_encode(pos),
        pos != at,
    ensures
        in_balance(w, s.light, pos, other) ==> in_balance(
            w,
            raised(w, s, at, target, direction).light,
            pos,
            other,
        ),
        is_pending(w, s, pos, other) ==> is_pending(
            w,
            raised(w, s, at, target, direction),
            pos,
            other,
        ),
        is_awaited(w, s, pos, other) ==> is_awaited(
            w,
            raised(w, s, at, target, direction),
            pos,
            other,
        ),
{
    let after = raised(w, s, at, target, direction);
    assert(queue_grew(s, after));
    lemma_can_encode_has_block(w.layout, pos);
    lemma_set_block_levels(w, s.light, at, target, pos);
    lemma_window_has_neighbors(w.layout, pos);
    let beyond = pos.spec_relative(other.spec_direction());
    if w.layout.has_block(beyond) {
        lemma_set_block_levels(w, s.light, at, target, beyond);
    }
    if is_pending(w, s, pos, other) {
        let k = choose|k: int|
            0 <= k < s.queues.increase.len() && covers(
                w,
                s.light,
                #[trigger] s.queues.increase[k],
                pos,
                other,
            );
        assert(after.queues.increase[k] == s.queues.increase[k]);
        assert(covers(w, after.light, after.queues.increase[k], pos, other));
    }
    if is_awaited(w, s, pos, other) {
        let loss = w.loss(
            w.state(w.layout.cached(pos)),
            w.state(w.layout.cached(beyond)),
            other,
        );
        lemma_promise_stays(w, s, after, beyond, level_at(w, s.light, pos) - loss);
    }
}

proof fn lemma_raised_there(
    w: LightWorld<'_>,
    s: EngineState,
    source: BlockPos,
    level: u8,
    target: u8,
    direction: LightAxisDirection,
    other: LightAxisDirection,
)
    requires
        w.layout.has_block(source),
        can_raise(w, s, source.spec_relative(direction.spec_direction()), target),
        w.layout.can_encode(source.spec_relative(direction.spec_direction())),
        target < level,
        has_or_gets(w, s, source, level),
    ensures
        ({
            let at = source.spec_relative(direction.spec_direction());
            let after = raised(w, s, at, target, direction);
            in_balance(w, after.light, at, other) || is_pending(w, after, at, other) || is_awaited(
                w,
                after,
                at,
                other,
            )
        }),
{
    let at = source.spec_relative(direction.spec_direction());
    let after = raised(w, s, at, target, direction);
    lemma_window_has_neighbors(w.layout, source);
    lemma_relative_back(source, direction);
    lemma_set_block_levels(w, s.light, at, target, at);
    lemma_set_block_levels(w, s.light, at, target, source);
    if target > 1 && other != direction.spec_opposite() {
        lemma_raised_entry(w, s, at, target, direction);
        lemma_onward_has(direction, other);
        let last = after.queues.increase.len() - 1;
        assert(covers(w, after.light, after.queues.increase[last], at, other));
    } else if target <= 1 || level_at(w, s.light, source) >= level {
        assert(in_balance(w, after.light, at, other));
    } else {
        assert(queue_grew(s, after));
        lemma_promise_stays(w, s, after, source, level as int);
        let loss = w.loss(
            w.state(w.layout.cached(at)),
            w.state(w.layout.cached(source)),
            other,
        );
        let k = choose|k: int|
            0 <= k < after.queues.increase.len() && promises(
                w,
                #[trigger] after.queues.increase[k],
                source,
                level as int,
            );
        assert(promises(w, after.queues.increase[k], source, target - loss));
    }
}

proof fn lemma_increase_into_balance(
    w: LightWorld<'_>,
    s: EngineState,
    entry: PackedLightQueueEntry,
    from: BlockStateId,
    source: BlockPos,
    n: int,
    region: Set<(BlockPos, LightAxisDirection)>,
)
    requires
        encodes(w, region),
        world_plain(w),
        state_valid(w, s),
        all_honest(w, s),
        0 <= n < 6,
        w.layout.has_block(source),
        has_or_gets(w, s, source, entry.spec_level()),
        w.table.light_shape(from) == w.table.light_shape(w.state(w.layout.cached(source))),
        entry.spec_directions().has(LightAxisDirection::at(n)),
        balanced_except(w, s, source, entry, n, region),
    ensures
        ({
            let after = increase_into(
                w,
                s,
                entry.spec_level(),
                from,
                source,
                LightAxisDirection::at(n),
            );
            &&& all_honest(w, after)
            &&& has_or_gets(w, after, source, entry.spec_level())
            &&& balanced_except(w, after, source, entry, n + 1, region)
        }),
{
    let direction = LightAxisDirection::at(n);
    let level = entry.spec_level();
    entry.level_is_nibble();
    if increase_into(w, s, level, from, source, direction) == s {
        lemma_idle_balance(w, s, entry, from, source, n, region);
    } else {
        lemma_into_raises(w, s, level, from, source, direction);
        let at = source.spec_relative(direction.spec_direction());
        let target = (level - w.loss(from, w.state(w.layout.cached(at)), direction)) as u8;
        lemma_window_has_neighbors(w.layout, source);
        lemma_relative_back(source, direction);
        lemma_raised_honest(w, s, at, target, direction);
        lemma_set_block_levels(w, s.light, at, target, source);
        if is_promised(w, s, source, level as int) {
            assert(queue_grew(s, raised(w, s, at, target, direction)));
            lemma_promise_stays(
                w,
                s,
                raised(w, s, at, target, direction),
                source,
                level as int,
            );
        }
        lemma_raised_balance(w, s, entry, source, target, n, region);
    }
}

proof fn lemma_idle_balance(
    w: LightWorld<'_>,
    s: EngineState,
    entry: PackedLightQueueEntry,
    from: BlockStateId,
    source: BlockPos,
    n: int,
    region: Set<(BlockPos, LightAxisDirection)>,
)
    requires
        encodes(w, region),
        world_plain(w),
        state_valid(w, s),
        0 <= n < 6,
        w.layout.has_block(source),
        w.table.light_shape(from) == w.table.light_shape(w.state(w.layout.cached(source))),
        balanced_except(w, s, source, entry, n, region),
        increase_into(w, s, entry.spec_level(), from, source, LightAxisDirection::at(n)) == s,
    ensures
        balanced_except(w, s, source, entry, n + 1, region),
{
    let direction = LightAxisDirection::at(n);
    let level = entry.spec_level();
    entry.level_is_nibble();
    assert forall|pos: BlockPos, other: LightAxisDirection|
        region.contains((pos, other)) implies #[trigger] in_balance(w, s.light, pos, other)
        || is_pending(w, s, pos, other) || is_awaited(w, s, pos, other) || (pos == source
        && other.place() >= n + 1
        && entry.spec_directions().has(other) && level_at(w, s.light, source) == level) by {
        if pos == source && other.place() == n && level_at(w, s.light, source) == level {
            assert(other == direction);
            lemma_idle_in_balance(w, s, level, from, source, direction);
        }
    }
}

proof fn lemma_into_raises(
    w: LightWorld<'_>,
    s: EngineState,
    level: u8,
    from: BlockStateId,
    source: BlockPos,
    direction: LightAxisDirection,
)
    requires
        world_plain(w),
        state_valid(w, s),
        level < 16,
        w.table.light_shape(from) == w.table.light_shape(w.state(w.layout.cached(source))),
        increase_into(w, s, level, from, source, direction) != s,
    ensures
        ({
            let at = source.spec_relative(direction.spec_direction());
            let loss = w.loss(from, w.state(w.layout.cached(at)), direction);
            let target = (level - loss) as u8;
            &&& increase_into(w, s, level, from, source, direction) == raised(
                w,
                s,
                at,
                target,
                direction,
            )
            &&& can_raise(w, s, at, target)
            &&& loss == w.loss(
                w.state(w.layout.cached(source)),
                w.state(w.layout.cached(at)),
                direction,
            )
            &&& target + loss == level
            &&& target < level
        }),
{
}

proof fn lemma_raised_source(
    w: LightWorld<'_>,
    s: EngineState,
    source: BlockPos,
    target: u8,
    direction: LightAxisDirection,
)
    requires
        w.layout.has_block(source),
        can_raise(w, s, source.spec_relative(direction.spec_direction()), target),
        level_at(w, s.light, source) == target + w.loss(
            w.state(w.layout.cached(source)),
            w.state(w.layout.cached(source.spec_relative(direction.spec_direction()))),
            direction,
        ),
    ensures
        in_balance(
            w,
            raised(
                w,
                s,
                source.spec_relative(direction.spec_direction()),
                target,
                direction,
            ).light,
            source,
            direction,
        ),
{
    let at = source.spec_relative(direction.spec_direction());
    lemma_window_has_neighbors(w.layout, source);
    lemma_relative_back(source, direction);
    lemma_set_block_levels(w, s.light, at, target, source);
    lemma_set_block_levels(w, s.light, at, target, at);
}

proof fn lemma_raised_balance(
    w: LightWorld<'_>,
    s: EngineState,
    entry: PackedLightQueueEntry,
    source: BlockPos,
    target: u8,
    n: int,
    region: Set<(BlockPos, LightAxisDirection)>,
)
    requires
        encodes(w, region),
        0 <= n < 6,
        w.layout.has_block(source),
        can_raise(
            w,
            s,
            source.spec_relative(LightAxisDirection::at(n).spec_direction()),
            target,
        ),
        has_or_gets(w, s, source, entry.spec_level()),
        entry.spec_level() > target,
        entry.spec_level() == target + w.loss(
            w.state(w.layout.cached(source)),
            w.state(
                w.layout.cached(source.spec_relative(LightAxisDirection::at(n).spec_direction())),
            ),
            LightAxisDirection::at(n),
        ),
        balanced_except(w, s, source, entry, n, region),
    ensures
        balanced_except(
            w,
            raised(
                w,
                s,
                source.spec_relative(LightAxisDirection::at(n).spec_direction()),
                target,
                LightAxisDirection::at(n),
            ),
            source,
            entry,
            n + 1,
            region,
        ),
{
    let direction = LightAxisDirection::at(n);
    let level = entry.spec_level();
    let at = source.spec_relative(direction.spec_direction());
    let after = raised(w, s, at, target, direction);
    lemma_window_has_neighbors(w.layout, source);
    lemma_relative_back(source, direction);
    lemma_set_block_levels(w, s.light, at, target, source);
    assert(level_at(w, after.light, source) == level_at(w, s.light, source));
    assert forall|pos: BlockPos, other: LightAxisDirection|
        region.contains((pos, other)) implies #[trigger] in_balance(w, after.light, pos, other)
        || is_pending(w, after, pos, other) || is_awaited(w, after, pos, other) || (pos == source
        && other.place() >= n + 1
        && entry.spec_directions().has(other) && level_at(w, after.light, source) == level) by {
        if pos == at {
            lemma_raised_there(w, s, source, level, target, direction, other);
        } else {
            lemma_raised_elsewhere(w, s, at, target, direction, pos, other);
            let was = in_balance(w, s.light, pos, other);
            if pos == source && other.place() == n && level_at(w, s.light, source) == level {
                assert(other == direction);
                lemma_raised_source(w, s, source, target, direction);
            }
        }
    }
}

pub proof fn lemma_onward_has(direction: LightAxisDirection, other: LightAxisDirection)
    requires
        other != direction.spec_opposite(),
    ensures
        onward(direction).has(other),
{
    let a = axis_bit(direction.spec_opposite());
    let b = axis_bit(other);
    assert((63u8 & !a) & b != 0) by (bit_vector)
        requires
            a == 1 || a == 2 || a == 4 || a == 8 || a == 16 || a == 32,
            b == 1 || b == 2 || b == 4 || b == 8 || b == 16 || b == 32,
            a != b,
    ;
}

proof fn lemma_idle_in_balance(
    w: LightWorld<'_>,
    s: EngineState,
    level: u8,
    from: BlockStateId,
    source: BlockPos,
    direction: LightAxisDirection,
)
    requires
        world_plain(w),
        state_valid(w, s),
        level < 16,
        w.layout.has_block(source),
        level_at(w, s.light, source) == level,
        w.table.light_shape(from) == w.table.light_shape(w.state(w.layout.cached(source))),
        increase_into(w, s, level, from, source, direction) == s,
    ensures
        in_balance(w, s.light, source, direction),
{
    if let Some(neighbor) = open_neighbor(w, s.light, source, direction) {
        lemma_cached_block(w.layout, neighbor.block_pos);
        let to = w.state(neighbor);
        let loss = w.loss(from, to, direction);
        let current = level_of(s.light, neighbor);
        assert(loss == w.loss(w.state(w.layout.cached(source)), to, direction));
        assert(loss >= 1);
        if !(current + 1 >= level || loss == 16 || loss >= level || level - loss <= current) {
            let target = (level - loss) as u8;
            lemma_set_block(s.light, neighbor, target);
            let lit = EngineState { light: set_block(s.light, neighbor, target), ..s };
            assert(lit.light == s.light);
            assert(false);
        }
    }
}

proof fn lemma_increase_around_balance(
    w: LightWorld<'_>,
    s: EngineState,
    entry: PackedLightQueueEntry,
    from: BlockStateId,
    source: BlockPos,
    n: int,
    region: Set<(BlockPos, LightAxisDirection)>,
)
    requires
        encodes(w, region),
        world_plain(w),
        state_valid(w, s),
        all_honest(w, s),
        0 <= n <= 6,
        w.layout.has_block(source),
        has_or_gets(w, s, source, entry.spec_level()),
        w.table.light_shape(from) == w.table.light_shape(w.state(w.layout.cached(source))),
        balanced_except(w, s, source, entry, 0, region),
    ensures
        ({
            let after = increase_around(w, s, entry, from, source, n);
            &&& state_valid(w, after)
            &&& all_honest(w, after)
            &&& has_or_gets(w, after, source, entry.spec_level())
            &&& balanced_except(w, after, source, entry, n, region)
        }),
    decreases n,
{
    if n > 0 {
        lemma_increase_around_balance(w, s, entry, from, source, n - 1, region);
        let before = increase_around(w, s, entry, from, source, n - 1);
        entry.level_is_nibble();
        lemma_increase_into(
            w,
            before,
            entry.spec_level(),
            from,
            source,
            LightAxisDirection::at(n - 1),
        );
        if entry.spec_directions().has(LightAxisDirection::at(n - 1)) {
            lemma_increase_into_balance(w, before, entry, from, source, n - 1, region);
        } else {
            assert forall|pos: BlockPos, direction: LightAxisDirection|
                region.contains((pos, direction)) implies #[trigger] in_balance(
                w,
                before.light,
                pos,
                direction,
            ) || is_pending(w, before, pos, direction) || is_awaited(
                    w,
                    before,
                    pos,
                    direction,
                ) || (pos == source && direction.place() >= n && entry.spec_directions().has(direction)
                    && level_at(w, before.light, source) == entry.spec_level()) by {
                if direction.place() == n - 1 {
                    assert(direction == LightAxisDirection::at(n - 1));
                }
            }
        }
    }
}

/// The state after the first increase entry was taken from the queue.
pub open spec fn increase_popped(s: EngineState) -> EngineState {
    EngineState {
        queues: PackedQueuesView { increase: s.queues.increase.skip(1), ..s.queues },
        ..s
    }
}

/// What was promised stays promised when the first entry is taken, unless that
/// entry promised it.
pub proof fn lemma_popped_promise(w: LightWorld<'_>, s: EngineState, pos: BlockPos, level: int)
    requires
        s.queues.increase.len() > 0,
        is_promised(w, s, pos, level),
    ensures
        is_promised(w, increase_popped(s), pos, level) || promises(
            w,
            s.queues.increase[0],
            pos,
            level,
        ),
{
    let popped = increase_popped(s);
    let k = choose|k: int|
        0 <= k < s.queues.increase.len() && promises(
            w,
            #[trigger] s.queues.increase[k],
            pos,
            level,
        );
    if k > 0 {
        assert(popped.queues.increase[k - 1] == s.queues.increase[k]);
        assert(promises(w, popped.queues.increase[k - 1], pos, level));
    }
}

/// The state in which the first increase entry starts to spread: it is taken
/// from the queue, and its level is written if it says so.
pub open spec fn increase_started(w: LightWorld<'_>, s: EngineState) -> EngineState {
    let entry = s.queues.increase[0];
    match entry_source(w.layout, entry) {
        Some(source) => if is_writing(entry) {
            EngineState {
                light: set_block(s.light, source, entry.spec_level()),
                ..increase_popped(s)
            }
        } else {
            increase_popped(s)
        },
        None => increase_popped(s),
    }
}

/// A level that starts to spread has been raised, and everything else has the
/// level that it had.
pub proof fn lemma_started_levels(w: LightWorld<'_>, s: EngineState, pos: BlockPos)
    requires
        world_plain(w),
        state_valid(w, s),
        all_honest(w, s),
        next_raises(w, s),
        s.queues.increase.len() > 0,
        w.layout.has_block(pos),
    ensures
        ({
            let entry = s.queues.increase[0];
            let start = increase_started(w, s);
            let writes_here = is_writing(entry) && entry_source(w.layout, entry) == Some(
                w.layout.cached(pos),
            );
            &&& state_valid(w, start)
            &&& level_at(w, start.light, pos) == if writes_here {
                entry.spec_level()
            } else {
                level_at(w, s.light, pos)
            }
            &&& level_at(w, start.light, pos) >= level_at(w, s.light, pos)
            &&& start.light[w.layout.cached(pos).section_slot as int].is_lit()
                == s.light[w.layout.cached(pos).section_slot as int].is_lit()
        }),
{
    let entry = s.queues.increase[0];
    assert(is_honest(w, s, entry));
    entry.level_is_nibble();
    if let Some(source) = entry_source(w.layout, entry) {
        assert(source == w.layout.cached(source.block_pos));
        if is_writing(entry) {
            lemma_cached_block(w.layout, source.block_pos);
            lemma_set_block(s.light, source, entry.spec_level());
            lemma_set_block_levels(w, s.light, source.block_pos, entry.spec_level(), pos);
        }
    }
}

/// A block that has a level or gets it still does when the first entry starts.
pub proof fn lemma_started_has_or_gets(
    w: LightWorld<'_>,
    s: EngineState,
    pos: BlockPos,
    level: u8,
)
    requires
        world_plain(w),
        state_valid(w, s),
        all_honest(w, s),
        next_raises(w, s),
        s.queues.increase.len() > 0,
        w.layout.has_block(pos),
        has_or_gets(w, s, pos, level),
    ensures
        has_or_gets(w, increase_started(w, s), pos, level),
{
    lemma_started_levels(w, s, pos);
    if level_at(w, s.light, pos) < level {
        lemma_popped_promise(w, s, pos, level as int);
        if is_promised(w, increase_popped(s), pos, level as int) {
            lemma_promise_stays(w, increase_popped(s), increase_started(w, s), pos, level as int);
        }
    }
}

proof fn lemma_started_honest(w: LightWorld<'_>, s: EngineState)
    requires
        world_plain(w),
        state_valid(w, s),
        all_honest(w, s),
        next_raises(w, s),
        s.queues.increase.len() > 0,
    ensures
        all_honest(w, increase_started(w, s)),
{
    let start = increase_started(w, s);
    assert forall|k: int| 0 <= k < start.queues.increase.len() implies is_honest(
        w,
        start,
        #[trigger] start.queues.increase[k],
    ) by {
        let e = s.queues.increase[k + 1];
        assert(start.queues.increase[k] == e);
        assert(is_honest(w, s, e));
        if let Some(b) = entry_source(w.layout, e) {
            lemma_started_levels(w, s, b.block_pos);
            if !e.flags().recheck_level && !is_writing(e) {
                lemma_started_has_or_gets(w, s, b.block_pos, e.spec_level());
            }
        }
    }
}

/// When the first entry starts to spread, every imbalance is covered or is one
/// that the entry is about to work off.
proof fn lemma_started_pair(
    w: LightWorld<'_>,
    s: EngineState,
    pos: BlockPos,
    direction: LightAxisDirection,
)
    requires
        world_plain(w),
        state_valid(w, s),
        all_honest(w, s),
        next_raises(w, s),
        s.queues.increase.len() > 0,
        w.layout.can_encode(pos),
        in_balance(w, s.light, pos, direction) || is_pending(w, s, pos, direction) || is_awaited(
            w,
            s,
            pos,
            direction,
        ),
    ensures
        ({
            let entry = s.queues.increase[0];
            let start = increase_started(w, s);
            in_balance(w, start.light, pos, direction) || is_pending(w, start, pos, direction)
                || is_awaited(w, start, pos, direction) || (entry_source(w.layout, entry) == Some(
                w.layout.cached(pos),
            ) && (is_writing(entry) || covers(w, s.light, entry, pos, direction)))
        }),
{
    let entry = s.queues.increase[0];
    let start = increase_started(w, s);
    let next = pos.spec_relative(direction.spec_direction());
    let loss = w.loss(w.state(w.layout.cached(pos)), w.state(w.layout.cached(next)), direction);
    lemma_can_encode_has_block(w.layout, pos);
    lemma_started_levels(w, s, pos);
    if w.layout.has_block(next) {
        lemma_started_levels(w, s, next);
    }
    if !(is_writing(entry) && entry_source(w.layout, entry) == Some(w.layout.cached(pos))) {
        if in_balance(w, s.light, pos, direction) {
            assert(in_balance(w, start.light, pos, direction));
        } else if is_pending(w, s, pos, direction) {
            let k = choose|k: int|
                0 <= k < s.queues.increase.len() && covers(
                    w,
                    s.light,
                    #[trigger] s.queues.increase[k],
                    pos,
                    direction,
                );
            if k > 0 {
                assert(start.queues.increase[k - 1] == s.queues.increase[k]);
                assert(covers(w, start.light, start.queues.increase[k - 1], pos, direction));
            }
        } else {
            let level = level_at(w, s.light, pos) - loss;
            lemma_popped_promise(w, s, next, level);
            if is_promised(w, increase_popped(s), next, level) {
                lemma_promise_stays(w, increase_popped(s), start, next, level);
            } else if w.layout.has_block(next) {
                assert(in_balance(w, start.light, pos, direction));
            }
        }
    }
}

/// The set of all directions has each of them.
pub proof fn lemma_all_directions(direction: LightAxisDirection)
    ensures
        LightDirectionSet(63).has(direction),
{
    let b = axis_bit(direction);
    assert(63u8 & b != 0) by (bit_vector)
        requires
            b == 1 || b == 2 || b == 4 || b == 8 || b == 16 || b == 32,
    ;
}

proof fn lemma_started_balance(w: LightWorld<'_>, s: EngineState, source: BlockPos, region: Set<(BlockPos, LightAxisDirection)>)
    requires
        encodes(w, region),
        world_plain(w),
        state_valid(w, s),
        all_honest(w, s),
        balanced_or_pending_in(w, s, region),
        next_raises(w, s),
        s.queues.increase.len() > 0,
        entry_source(w.layout, s.queues.increase[0]) == Some(w.layout.cached(source)),
        w.layout.has_block(source),
    ensures
        balanced_except(w, increase_started(w, s), source, s.queues.increase[0], 0, region),
{
    let entry = s.queues.increase[0];
    let start = increase_started(w, s);
    lemma_started_levels(w, s, source);
    assert(is_honest(w, s, entry));
    assert forall|pos: BlockPos, direction: LightAxisDirection|
        region.contains((pos, direction)) implies #[trigger] in_balance(w, start.light, pos, direction)
        || is_pending(w, start, pos, direction) || is_awaited(w, start, pos, direction) || (pos
        == source && direction.place() >= 0 && entry.spec_directions().has(direction) && level_at(
        w,
        start.light,
        source,
    ) == entry.spec_level()) by {
        assert(in_balance(w, s.light, pos, direction) || is_pending(w, s, pos, direction)
            || is_awaited(w, s, pos, direction));
        lemma_started_pair(w, s, pos, direction);
        lemma_all_directions(direction);
    }
}

proof fn lemma_increase_step_balance(w: LightWorld<'_>, s: EngineState, region: Set<(BlockPos, LightAxisDirection)>)
    requires
        encodes(w, region),
        world_plain(w),
        state_valid(w, s),
        all_honest(w, s),
        balanced_or_pending_in(w, s, region),
        next_raises(w, s),
    ensures
        state_valid(w, increase_step(w, s)),
        all_honest(w, increase_step(w, s)),
        balanced_or_pending_in(w, increase_step(w, s), region),
{
    if s.queues.increase.len() > 0 {
        let entry = s.queues.increase[0];
        let start = increase_started(w, s);
        let after = increase_step(w, s);
        assert(is_honest(w, s, entry));
        lemma_started_honest(w, s);
        match entry_source(w.layout, entry) {
            None => {
                assert(after == start);
                assert forall|pos: BlockPos, direction: LightAxisDirection|
                    region.contains((pos, direction)) implies #[trigger] in_balance(
                    w,
                    after.light,
                    pos,
                    direction,
                ) || is_pending(w, after, pos, direction) || is_awaited(
                    w,
                    after,
                    pos,
                    direction,
                ) by {
                    assert(in_balance(w, s.light, pos, direction) || is_pending(
                        w,
                        s,
                        pos,
                        direction,
                    ) || is_awaited(w, s, pos, direction));
                    lemma_started_pair(w, s, pos, direction);
                }
            },
            Some(block) => {
                let source = block.block_pos;
                assert(block == w.layout.cached(source));
                lemma_started_levels(w, s, source);
                if entry.flags().recheck_level && level_of(s.light, block) != entry.spec_level() {
                    assert(after == start);
                    assert forall|pos: BlockPos, direction: LightAxisDirection|
                        region.contains((pos, direction)) implies #[trigger] in_balance(
                        w,
                        after.light,
                        pos,
                        direction,
                    ) || is_pending(w, after, pos, direction) || is_awaited(
                        w,
                        after,
                        pos,
                        direction,
                    ) by {
                        assert(in_balance(w, s.light, pos, direction) || is_pending(
                            w,
                            s,
                            pos,
                            direction,
                        ) || is_awaited(w, s, pos, direction));
                        lemma_started_pair(w, s, pos, direction);
                    }
                } else {
                    let from = w.source_state(entry, block);
                    lemma_started_balance(w, s, source, region);
                    if !entry.flags().recheck_level && !is_writing(entry) {
                        lemma_started_has_or_gets(w, s, source, entry.spec_level());
                    }
                    assert(has_or_gets(w, start, source, entry.spec_level()));
                    lemma_increase_around_balance(w, start, entry, from, source, 6, region);
                    assert(after == increase_around(w, start, entry, from, source, 6));
                    assert forall|pos: BlockPos, direction: LightAxisDirection|
                        region.contains((pos, direction)) implies #[trigger] in_balance(
                        w,
                        after.light,
                        pos,
                        direction,
                    ) || is_pending(w, after, pos, direction) || is_awaited(
                        w,
                        after,
                        pos,
                        direction,
                    ) by {
                        assert(direction.place() < 6);
                    }
                }
            },
        }
    }
}

/// Runs of increase steps keep the queue honest and imbalances covered.
pub proof fn lemma_increase_steps_balance_in(
    w: LightWorld<'_>,
    s: EngineState,
    n: nat,
    region: Set<(BlockPos, LightAxisDirection)>,
)
    requires
        encodes(w, region),
        world_plain(w),
        state_valid(w, s),
        all_honest(w, s),
        balanced_or_pending_in(w, s, region),
        writes_raise(w, s),
    ensures
        state_valid(w, increase_steps(w, s, n)),
        all_honest(w, increase_steps(w, s, n)),
        balanced_or_pending_in(w, increase_steps(w, s, n), region),
    decreases n,
{
    if n > 0 {
        lemma_increase_steps_balance_in(w, s, (n - 1) as nat, region);
        lemma_increase_step_balance(w, increase_steps(w, s, (n - 1) as nat), region);
    }
}

/// Runs of increase steps keep the queue honest and imbalances covered.
pub proof fn lemma_increase_steps_balance(w: LightWorld<'_>, s: EngineState, n: nat)
    requires
        world_plain(w),
        state_valid(w, s),
        all_honest(w, s),
        balanced_or_pending(w, s),
        writes_raise(w, s),
    ensures
        state_valid(w, increase_steps(w, s, n)),
        all_honest(w, increase_steps(w, s, n)),
        balanced_or_pending(w, increase_steps(w, s, n)),
{
    let region = queue_window(w);
    lemma_increase_steps_balance_in(w, s, n, region);
    assert forall|pos: BlockPos, direction: LightAxisDirection|
        w.layout.can_encode(pos) implies #[trigger] in_balance(
        w,
        increase_steps(w, s, n).light,
        pos,
        direction,
    ) || is_pending(w, increase_steps(w, s, n), pos, direction) || is_awaited(
        w,
        increase_steps(w, s, n),
        pos,
        direction,
    ) by {
        assert(region.contains((pos, direction)));
    }
}

/// Increase work that covers every imbalance of a region, and never writes less
/// light than there is, leaves the region in balance.
pub proof fn increase_reaches_balance_in(
    w: LightWorld<'_>,
    before: EngineState,
    after: EngineState,
    region: Set<(BlockPos, LightAxisDirection)>,
)
    requires
        encodes(w, region),
        world_plain(w),
        state_valid(w, before),
        all_honest(w, before),
        balanced_or_pending_in(w, before, region),
        writes_raise(w, before),
        increase_done(w, before, after),
    ensures
        balanced_in(w, after.light, region),
{
    let n = choose|n: nat|
        #[trigger] increase_steps(w, before, n) == after && after.queues.increase.len() == 0;
    lemma_increase_steps_balance_in(w, before, n, region);
    assert forall|pos: BlockPos, direction: LightAxisDirection|
        region.contains((pos, direction)) implies #[trigger] in_balance(w, after.light, pos, direction) by {
        assert(!is_pending(w, after, pos, direction));
        assert(!is_awaited(w, after, pos, direction));
    }
}

/// Increase work that covers every imbalance, and never writes less light than
/// there is, ends in balance: afterwards no block of the queue window could
/// brighten a neighbor any more.
pub proof fn increase_reaches_balance(w: LightWorld<'_>, before: EngineState, after: EngineState)
    requires
        world_plain(w),
        state_valid(w, before),
        all_honest(w, before),
        balanced_or_pending(w, before),
        writes_raise(w, before),
        increase_done(w, before, after),
    ensures
        balanced(w, after.light),
{
    let n = choose|n: nat|
        #[trigger] increase_steps(w, before, n) == after && after.queues.increase.len() == 0;
    lemma_increase_steps_balance(w, before, n);
    assert forall|pos: BlockPos, direction: LightAxisDirection|
        w.layout.can_encode(pos) implies #[trigger] in_balance(
        w,
        after.light,
        pos,
        direction,
    ) by {
        assert(!is_pending(w, after, pos, direction));
        assert(!is_awaited(w, after, pos, direction));
    }
}

} // verus!
