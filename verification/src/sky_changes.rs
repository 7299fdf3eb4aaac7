//! Sky light after block changes: what was supported and in balance is supported
//! and in balance again.
use vstd::prelude::*;

use crate::balance::{
    balanced, covers, in_balance, is_pending, lemma_all_directions, lemma_can_encode_has_block,
    lemma_onward_has, lemma_relative_back, lemma_set_block_levels, level_at, queue_window,
    world_plain,
};
use crate::block_state::BlockStateId;
use crate::cache::LightCacheLayout;
use crate::engine::lemma_window_has_neighbors;
use crate::engine_measure::{lemma_cached_block, lemma_onward, lemma_set_block, state_valid};
use crate::engine_model::{
    after_relight, entry_for, entry_source, level_of, onward, open_neighbor, queue_decrease,
    queue_increase, set_block, EngineState, LightWorld,
};
use crate::equilibrium::{changes_in_center, differ_at};
use crate::light_cache::{section_view, slot_valid, SlotView};
use crate::packed_queue::{
    LightAxisDirection, LightDirectionSet, PackedLightQueueEntry, PackedQueuesView,
};
use crate::position::{local_coord, section_coord, BlockPos, ChunkPos, SectionPos};
use crate::propagation::{idle_state, no_flags};
use crate::relight::{
    faces_regular, is_excused, is_quiet, leads_back, lemma_queued_entry, lemma_unlit_is_dark,
    sources_quiet,
};
use crate::sky_model::{
    any_lit_near, change_columns, changed_heights, changes_propagated, check_null, chunk_near,
    chunk_section, column_chunk, descend, enter_column, extruded_level, fresh_pass, highest_change,
    in_chunk, init_around, init_heights, init_level, init_section, not_up, remove_below,
    remove_column, section_near, sided_flags, sky_block_checked, sky_blocks_checked, sky_stops,
    write_delayed, SkyState, SkyWorld,
};
use crate::sky_runs::{published, start_state};
use crate::sky_support::{
    all_sky_supported, is_full_entry, keeps_full, lemma_same_slots_trans, lemma_set_same_slots,
    same_slots, sky_given, sky_relight_settles, sky_supported, sky_work, slot_like,
};
use crate::support::{beyond, decreases_near, dooms, is_doomed, is_near, is_supported_from, lit_at};

verus! {

/// The light of a section near the active chunk.
pub open spec fn near_section(sw: SkyWorld<'_>, light: Seq<SlotView>, y: int, i: int) -> SlotView {
    section_view(sw.layout(), light, chunk_section(chunk_near(sw.layout().center, i), y))
}

/// At each height the sections around the active chunk either all have light, as
/// far as they take part, or none has, so that none has to come into being.
pub open spec fn heights_even(sw: SkyWorld<'_>, light: Seq<SlotView>) -> bool {
    forall|y: int, i: int, j: int|
        0 <= i < 9 && 0 <= j < 9 && sw.layout().section_range.contains(y) && (
        #[trigger] near_section(sw, light, y, i)).is_lit() ==> (#[trigger] near_section(
            sw,
            light,
            y,
            j,
        )).is_lit() || near_section(sw, light, y, j) is Absent
}

/// A section that has light, or does not take part, is left as it is.
proof fn lemma_init_idle(
    sw: SkyWorld<'_>,
    light: Seq<SlotView>,
    pos: SectionPos,
    extrude: bool,
    init_removed: bool,
)
    requires
        section_view(sw.layout(), light, pos).is_lit() || section_view(
            sw.layout(),
            light,
            pos,
        ) is Absent,
    ensures
        init_section(sw, light, pos, extrude, init_removed) == light,
{
}

proof fn lemma_init_level_idle(
    sw: SkyWorld<'_>,
    light: Seq<SlotView>,
    y: int,
    extrude_center: bool,
    n: int,
)
    requires
        0 <= n <= 9,
        forall|i: int|
            0 <= i < 9 ==> (#[trigger] near_section(sw, light, y, i)).is_lit() || near_section(
                sw,
                light,
                y,
                i,
            ) is Absent,
    ensures
        init_level(sw, light, sw.layout().center, y, extrude_center, n) == light,
    decreases n,
{
    if n > 0 {
        lemma_init_level_idle(sw, light, y, extrude_center, n - 1);
        assert(near_section(sw, light, y, n - 1).is_lit() || near_section(
            sw,
            light,
            y,
            n - 1,
        ) is Absent);
        lemma_init_idle(
            sw,
            light,
            chunk_section(chunk_near(sw.layout().center, n - 1), y),
            n - 1 != 4 || extrude_center,
            true,
        );
    }
}

/// Looking at a height brings nothing into being where all heights are even.
pub proof fn lemma_check_idle(sw: SkyWorld<'_>, s: SkyState, y: int, extrude_center: bool)
    requires
        heights_even(sw, s.engine.light),
    ensures
        check_null(sw, s, sw.layout().center, y, extrude_center).engine == s.engine,
{
    let light = s.engine.light;
    let center = sw.layout().center;
    if sw.layout().section_range.contains(y) && any_lit_near(sw, light, center, y) {
        let i = choose|i: int|
            0 <= i < 9 && section_view(
                sw.layout(),
                light,
                chunk_section(#[trigger] chunk_near(center, i), y),
            ).is_lit();
        assert(near_section(sw, light, y, i).is_lit());
        assert forall|j: int| 0 <= j < 9 implies (#[trigger] near_section(
            sw,
            light,
            y,
            j,
        )).is_lit() || near_section(sw, light, y, j) is Absent by {}
        lemma_init_level_idle(sw, light, y, extrude_center, 9);
    }
}

/// The entry of a block that sky light comes down to.
pub open spec fn risen(w: LightWorld<'_>, pos: BlockPos) -> PackedLightQueueEntry {
    entry_for(w.layout, pos, 15, not_up(), w.shape_flags(w.state(w.layout.cached(pos))))
}

/// The entry of a block that loses its sky light.
pub open spec fn fallen(w: LightWorld<'_>, pos: BlockPos) -> PackedLightQueueEntry {
    entry_for(w.layout, pos, 15, not_up(), no_flags())
}

/// The block of a column at a height.
pub open spec fn column_block(x: i32, y: int, z: i32) -> BlockPos {
    BlockPos { x, y: y as i32, z }
}

/// Whether the column belongs to the active chunk.
pub open spec fn in_center(layout: LightCacheLayout, x: i32, z: i32) -> bool {
    section_coord(x as int) == layout.center.x && section_coord(z as int) == layout.center.z
}

/// A block of the active chunk has a place in the queues.
pub proof fn lemma_center_block(layout: LightCacheLayout, x: i32, y: int, z: i32)
    requires
        layout.wf(),
        layout.in_world(),
        in_center(layout, x, z),
        layout.section_range.min_y() * 16 <= y,
        layout.has_height(section_coord(y)),
    ensures
        i32::MIN < y < i32::MAX,
        column_block(x, y, z).y == y,
        layout.can_encode(column_block(x, y, z)),
        layout.has_block(column_block(x, y, z)),
        column_chunk(x, z) == layout.center,
{
}

/// What a descent leaves of a column whose levels are written later: the light
/// is as it was, and from every lit block down to where it stopped full light is
/// queued to spread.
proof fn lemma_descend(
    sw: SkyWorld<'_>,
    s: SkyState,
    delayed: Seq<PackedLightQueueEntry>,
    x: i32,
    z: i32,
    above: BlockStateId,
    y: int,
)
    requires
        world_plain(sw.base),
        heights_even(sw, s.engine.light),
        in_center(sw.layout(), x, z),
        y >= sw.layout().section_range.min_y() * 16 ==> sw.layout().has_height(section_coord(y)),
        s.engine.queues.increase == delayed,
    ensures
        ({
            let d = descend(sw, s, delayed, x, z, true, true, above, y);
            let light = s.engine.light;
            &&& d.state.engine.light == light
            &&& d.state.engine.queues.decrease == s.engine.queues.decrease
            &&& d.state.engine.queues.increase == d.delayed
            &&& d.y <= y
            &&& d.y >= sw.layout().section_range.min_y() * 16 - 1 || d.y == y
            &&& d.delayed.len() >= delayed.len()
            &&& forall|k: int| 0 <= k < delayed.len() ==> #[trigger] d.delayed[k] == delayed[k]
            &&& forall|k: int|
                delayed.len() <= k < d.delayed.len() ==> column_entry(
                    sw,
                    light,
                    x,
                    z,
                    d.y,
                    y,
                    true,
                    #[trigger] d.delayed[k],
                )
            &&& forall|b: int|
                #![trigger column_block(x, b, z)]
                d.y < b <= y && b >= sw.layout().section_range.min_y() * 16 && lit_at(
                    sw.base,
                    light,
                    column_block(x, b, z),
                ) ==> d.delayed.contains(risen(sw.base, column_block(x, b, z)))
        }),
    decreases y - sw.layout().section_range.min_y() * 16 + 1,
{
    let layout = sw.layout();
    let light = s.engine.light;
    let d = descend(sw, s, delayed, x, z, true, true, above, y);
    if y >= layout.section_range.min_y() * 16 {
        let pos = column_block(x, y, z);
        lemma_center_block(layout, x, y, z);
        lemma_cached_block(layout, pos);
        lemma_check_idle(sw, s, section_coord(y), true);
        let looked = if y % 16 == 15 {
            check_null(sw, s, column_chunk(x, z), section_coord(y), true)
        } else {
            s
        };
        assert(looked.engine == s.engine);
        let current = sw.block_state(pos);
        if sky_stops(sw, above, current) {
        } else if !section_view(layout, light, SectionPos::of_block(pos)).is_lit() {
            let next = section_coord(y) * 16 - 1;
            assert(section_coord(next) == section_coord(y) - 1);
            lemma_descend(sw, looked, delayed, x, z, sw.base.table.spec_air(), next);
            assert forall|b: int|
                #![trigger column_block(x, b, z)]
                d.y < b <= y && b >= layout.section_range.min_y() * 16 && lit_at(
                    sw.base,
                    light,
                    column_block(x, b, z),
                ) implies d.delayed.contains(risen(sw.base, column_block(x, b, z))) by {
                if b > next {
                    assert(section_coord(b) == section_coord(y));
                    lemma_center_block(layout, x, b, z);
                    assert(SectionPos::of_block(column_block(x, b, z)) == SectionPos::of_block(pos));
                    lemma_cached_block(layout, column_block(x, b, z));
                }
            }
        } else {
            let entry = risen(sw.base, pos);
            let waiting = delayed.push(entry);
            let queued = SkyState {
                engine: queue_increase(
                    layout,
                    looked.engine,
                    pos,
                    15,
                    not_up(),
                    sw.base.shape_flags(current),
                ),
                ..looked
            };
            assert(queued.engine.queues.increase == waiting);
            lemma_not_up();
            lemma_queued_entry(
                sw.base,
                pos,
                15,
                not_up(),
                sw.base.shape_flags(current),
            );
            lemma_descend(sw, queued, waiting, x, z, current, y - 1);
            assert(d.delayed[delayed.len() as int] == entry) by {
                assert(waiting[delayed.len() as int] == entry);
            }
            assert forall|k: int| 0 <= k < delayed.len() implies #[trigger] d.delayed[k]
                == delayed[k] by {
                assert(waiting[k] == delayed[k]);
            }
            assert forall|k: int| delayed.len() <= k < d.delayed.len() implies column_entry(
                sw,
                light,
                x,
                z,
                d.y,
                y,
                true,
                #[trigger] d.delayed[k],
            ) by {
                if k == delayed.len() {
                    assert(column_entry(sw, light, x, z, d.y, y, true, entry));
                } else {
                    assert(column_entry(sw, light, x, z, d.y, y - 1, true, d.delayed[k]));
                }
            }
        }
    }
}

/// An entry of a column's block between two heights, of light that comes down or
/// is lost.
pub open spec fn column_entry(
    sw: SkyWorld<'_>,
    light: Seq<SlotView>,
    x: i32,
    z: i32,
    low: int,
    high: int,
    rises: bool,
    entry: PackedLightQueueEntry,
) -> bool {
    entry_source(sw.layout(), entry) matches Some(block) && {
        let pos = block.block_pos;
        &&& block == sw.layout().cached(pos)
        &&& pos.x == x && pos.z == z && low < pos.y <= high
        &&& sw.layout().section_range.min_y() * 16 <= pos.y
        &&& sw.layout().can_encode(pos)
        &&& lit_at(sw.base, light, pos)
        &&& if rises {
            entry == risen(sw.base, pos)
        } else {
            entry == fallen(sw.base, pos) && level_at(sw.base, light, pos) == 15
        }
    }
}

/// The directions but the one upwards have all the others.
pub proof fn lemma_not_up()
    ensures
        not_up().0 < 64,
        forall|direction: LightAxisDirection|
            direction != LightAxisDirection::PositiveY ==> #[trigger] not_up().has(direction),
{
    lemma_onward(LightAxisDirection::NegativeY);
    assert(not_up() == onward(LightAxisDirection::NegativeY));
    assert forall|direction: LightAxisDirection|
        direction != LightAxisDirection::PositiveY implies #[trigger] not_up().has(direction) by {
        lemma_onward_has(LightAxisDirection::NegativeY, direction);
    }
}

/// What a removal leaves of a column: the light is as it was, and every fully
/// lit block down to where it stopped is queued to become dark.
proof fn lemma_remove(
    sw: SkyWorld<'_>,
    s: SkyState,
    delayed: Seq<PackedLightQueueEntry>,
    x: i32,
    z: i32,
    y: int,
)
    requires
        world_plain(sw.base),
        heights_even(sw, s.engine.light),
        in_center(sw.layout(), x, z),
        y >= sw.layout().section_range.min_y() * 16 ==> sw.layout().has_height(section_coord(y)),
        s.engine.queues.decrease == delayed,
    ensures
        ({
            let d = remove_below(sw, s, delayed, x, z, y);
            let light = s.engine.light;
            &&& d.state.engine.light == light
            &&& d.state.engine.queues.increase == s.engine.queues.increase
            &&& d.state.engine.queues.decrease == d.delayed
            &&& d.y <= y
            &&& d.y >= sw.layout().section_range.min_y() * 16 ==> level_at(
                sw.base,
                light,
                column_block(x, d.y, z),
            ) != 15
            &&& d.delayed.len() >= delayed.len()
            &&& forall|k: int| 0 <= k < delayed.len() ==> #[trigger] d.delayed[k] == delayed[k]
            &&& forall|k: int|
                delayed.len() <= k < d.delayed.len() ==> column_entry(
                    sw,
                    light,
                    x,
                    z,
                    d.y,
                    y,
                    false,
                    #[trigger] d.delayed[k],
                )
            &&& forall|b: int|
                #![trigger column_block(x, b, z)]
                d.y < b <= y && b >= sw.layout().section_range.min_y() * 16 && lit_at(
                    sw.base,
                    light,
                    column_block(x, b, z),
                ) ==> d.delayed.contains(fallen(sw.base, column_block(x, b, z)))
        }),
    decreases y - sw.layout().section_range.min_y() * 16 + 1,
{
    let layout = sw.layout();
    let light = s.engine.light;
    let d = remove_below(sw, s, delayed, x, z, y);
    if y >= layout.section_range.min_y() * 16 {
        let pos = column_block(x, y, z);
        lemma_center_block(layout, x, y, z);
        lemma_cached_block(layout, pos);
        lemma_check_idle(sw, s, section_coord(y), true);
        let looked = if y % 16 == 15 {
            check_null(sw, s, column_chunk(x, z), section_coord(y), true)
        } else {
            s
        };
        assert(looked.engine == s.engine);
        if !section_view(layout, light, SectionPos::of_block(pos)).is_lit() {
            let next = section_coord(y) * 16 - 1;
            assert(section_coord(next) == section_coord(y) - 1);
            lemma_remove(sw, looked, delayed, x, z, next);
            assert forall|b: int|
                #![trigger column_block(x, b, z)]
                d.y < b <= y && b >= layout.section_range.min_y() * 16 && lit_at(
                    sw.base,
                    light,
                    column_block(x, b, z),
                ) implies d.delayed.contains(fallen(sw.base, column_block(x, b, z))) by {
                if b > next {
                    assert(section_coord(b) == section_coord(y));
                    lemma_center_block(layout, x, b, z);
                    assert(SectionPos::of_block(column_block(x, b, z)) == SectionPos::of_block(pos));
                    lemma_cached_block(layout, column_block(x, b, z));
                }
            }
        } else if level_at(sw.base, light, pos) == 15 {
            let entry = fallen(sw.base, pos);
            let waiting = delayed.push(entry);
            let queued = SkyState {
                engine: queue_decrease(
                    layout,
                    looked.engine,
                    pos,
                    15,
                    not_up(),
                    no_flags(),
                ),
                ..looked
            };
            assert(queued.engine.queues.decrease == waiting);
            lemma_not_up();
            lemma_queued_entry(sw.base, pos, 15, not_up(), no_flags());
            lemma_remove(sw, queued, waiting, x, z, y - 1);
            assert(d.delayed[delayed.len() as int] == entry) by {
                assert(waiting[delayed.len() as int] == entry);
            }
            assert forall|k: int| 0 <= k < delayed.len() implies #[trigger] d.delayed[k]
                == delayed[k] by {
                assert(waiting[k] == delayed[k]);
            }
            assert forall|k: int| delayed.len() <= k < d.delayed.len() implies column_entry(
                sw,
                light,
                x,
                z,
                d.y,
                y,
                false,
                #[trigger] d.delayed[k],
            ) by {
                if k == delayed.len() {
                    assert(column_entry(sw, light, x, z, d.y, y, false, entry));
                } else {
                    assert(column_entry(sw, light, x, z, d.y, y - 1, false, d.delayed[k]));
                }
            }
        }
    }
}

/// Full light comes down to a block of the queue.
pub open spec fn rises(
    w: LightWorld<'_>,
    increases: Seq<PackedLightQueueEntry>,
    pos: BlockPos,
) -> bool {
    w.layout.can_encode(pos) && increases.contains(risen(w, pos))
}

/// A block of the queue loses its full light.
pub open spec fn falls(
    w: LightWorld<'_>,
    removals: Seq<PackedLightQueueEntry>,
    pos: BlockPos,
) -> bool {
    w.layout.can_encode(pos) && removals.contains(fallen(w, pos))
}

/// The block above a block.
pub open spec fn block_above(pos: BlockPos) -> BlockPos {
    pos.spec_relative(LightAxisDirection::PositiveY.spec_direction())
}

/// The block above a block takes part and has light.
pub open spec fn open_above(w: LightWorld<'_>, light: Seq<SlotView>, pos: BlockPos) -> bool {
    w.layout.has_block(block_above(pos)) && lit_at(w, light, block_above(pos))
}

/// A block of one of the first `n` columns of the active chunk.
pub open spec fn in_columns(layout: LightCacheLayout, pos: BlockPos, n: int) -> bool {
    in_chunk(layout.center, pos) && local_coord(pos.x as int) + local_coord(pos.z as int) * 16 < n
}

/// An entry names a block of the first `n` columns that full light comes down
/// to.
pub open spec fn names_risen(
    w: LightWorld<'_>,
    light: Seq<SlotView>,
    entry: PackedLightQueueEntry,
    n: int,
) -> bool {
    entry_source(w.layout, entry) matches Some(block) && {
        &&& block == w.layout.cached(block.block_pos)
        &&& w.layout.can_encode(block.block_pos)
        &&& in_columns(w.layout, block.block_pos, n)
        &&& lit_at(w, light, block.block_pos)
        &&& entry == risen(w, block.block_pos)
    }
}

/// An entry names a block of the first `n` columns that loses its full light.
pub open spec fn names_fallen(
    w: LightWorld<'_>,
    light: Seq<SlotView>,
    entry: PackedLightQueueEntry,
    n: int,
) -> bool {
    entry_source(w.layout, entry) matches Some(block) && {
        &&& block == w.layout.cached(block.block_pos)
        &&& w.layout.can_encode(block.block_pos)
        &&& in_columns(w.layout, block.block_pos, n)
        &&& lit_at(w, light, block.block_pos)
        &&& level_at(w, light, block.block_pos) == 15
        &&& w.layout.section_range.min_y() * 16 <= block.block_pos.y
        &&& entry == fallen(w, block.block_pos)
    }
}

/// Above a block that full light comes down to there is full light, or nothing
/// is lit.
pub open spec fn risen_below_light(
    w: LightWorld<'_>,
    light: Seq<SlotView>,
    positions: Seq<BlockPos>,
    increases: Seq<PackedLightQueueEntry>,
    removals: Seq<PackedLightQueueEntry>,
    pos: BlockPos,
) -> bool {
    let above = block_above(pos);
    ||| !open_above(w, light, pos)
    ||| rises(w, increases, above)
    ||| level_at(w, light, above) == 15 && !falls(w, removals, above) && !positions.contains(above)
}

/// Above a block that loses its full light there is another such block or one
/// that full light comes down to, or nothing is lit, unless the block itself
/// changed.
pub open spec fn fallen_below_work(
    w: LightWorld<'_>,
    light: Seq<SlotView>,
    positions: Seq<BlockPos>,
    increases: Seq<PackedLightQueueEntry>,
    removals: Seq<PackedLightQueueEntry>,
    pos: BlockPos,
) -> bool {
    let above = block_above(pos);
    ||| !open_above(w, light, pos)
    ||| rises(w, increases, above)
    ||| falls(w, removals, above)
    ||| positions.contains(pos)
}

/// Below a block that loses its full light there is no full light that stays.
pub open spec fn fallen_below(
    w: LightWorld<'_>,
    light: Seq<SlotView>,
    removals: Seq<PackedLightQueueEntry>,
    pos: BlockPos,
) -> bool {
    let below = pos.spec_relative(LightAxisDirection::NegativeY.spec_direction());
    w.layout.section_range.min_y() * 16 <= below.y && lit_at(w, light, below) && level_at(
        w,
        light,
        below,
    ) == 15 ==> falls(w, removals, below)
}

/// What the first `n` changed columns leave.
pub open spec fn columns_passed(
    w: LightWorld<'_>,
    light: Seq<SlotView>,
    positions: Seq<BlockPos>,
    increases: Seq<PackedLightQueueEntry>,
    removals: Seq<PackedLightQueueEntry>,
    n: int,
) -> bool {
    &&& forall|k: int|
        0 <= k < increases.len() ==> names_risen(w, light, #[trigger] increases[k], n)
    &&& forall|k: int|
        0 <= k < removals.len() ==> names_fallen(w, light, #[trigger] removals[k], n)
    &&& forall|pos: BlockPos|
        #[trigger] rises(w, increases, pos) ==> !falls(w, removals, pos) && risen_below_light(
            w,
            light,
            positions,
            increases,
            removals,
            pos,
        )
    &&& forall|pos: BlockPos|
        #[trigger] falls(w, removals, pos) ==> fallen_below_work(
            w,
            light,
            positions,
            increases,
            removals,
            pos,
        ) && fallen_below(w, light, removals, pos)
}

proof fn lemma_rises_named(
    w: LightWorld<'_>,
    light: Seq<SlotView>,
    increases: Seq<PackedLightQueueEntry>,
    pos: BlockPos,
    n: int,
)
    requires
        world_plain(w),
        rises(w, increases, pos),
        forall|k: int|
            0 <= k < increases.len() ==> names_risen(w, light, #[trigger] increases[k], n),
    ensures
        in_columns(w.layout, pos, n),
        lit_at(w, light, pos),
        w.layout.has_block(pos),
{
    let k = choose|k: int| 0 <= k < increases.len() && increases[k] == risen(w, pos);
    assert(names_risen(w, light, increases[k], n));
    lemma_not_up();
    lemma_queued_entry(w, pos, 15, not_up(), w.shape_flags(w.state(w.layout.cached(pos))));
}

proof fn lemma_falls_named(
    w: LightWorld<'_>,
    light: Seq<SlotView>,
    removals: Seq<PackedLightQueueEntry>,
    pos: BlockPos,
    n: int,
)
    requires
        world_plain(w),
        falls(w, removals, pos),
        forall|k: int|
            0 <= k < removals.len() ==> names_fallen(w, light, #[trigger] removals[k], n),
    ensures
        in_columns(w.layout, pos, n),
        lit_at(w, light, pos),
        level_at(w, light, pos) == 15,
        w.layout.section_range.min_y() * 16 <= pos.y,
        w.layout.has_block(pos),
{
    let k = choose|k: int| 0 <= k < removals.len() && removals[k] == fallen(w, pos);
    assert(names_fallen(w, light, removals[k], n));
    lemma_not_up();
    lemma_queued_entry(w, pos, 15, not_up(), no_flags());
}

/// The highest change of a column is one of the changes, and none is higher.
proof fn lemma_highest_change(
    chunk_pos: ChunkPos,
    positions: Seq<BlockPos>,
    column: int,
    n: int,
)
    requires
        0 <= n <= positions.len(),
    ensures
        ({
            let high = highest_change(chunk_pos, positions, column, n);
            &&& high != i32::MIN ==> exists|i: int|
                0 <= i < n && is_change_of(chunk_pos, #[trigger] positions[i], column)
                    && positions[i].y == high
            &&& forall|i: int|
                0 <= i < n && is_change_of(chunk_pos, #[trigger] positions[i], column)
                    ==> positions[i].y <= high
        }),
    decreases n,
{
    if n > 0 {
        lemma_highest_change(chunk_pos, positions, column, n - 1);
        let before = highest_change(chunk_pos, positions, column, n - 1);
        let pos = positions[n - 1];
        if is_change_of(chunk_pos, pos, column) && pos.y > before {
            assert(positions[n - 1].y == highest_change(chunk_pos, positions, column, n));
        }
    }
}

/// A change lies in a column of a chunk.
pub open spec fn is_change_of(chunk_pos: ChunkPos, pos: BlockPos, column: int) -> bool {
    in_chunk(chunk_pos, pos) && local_coord(pos.x as int) + local_coord(pos.z as int) * 16
        == column
}

/// A column of the active chunk by its number.
pub proof fn lemma_column(layout: LightCacheLayout, n: int)
    requires
        layout.in_world(),
        0 <= n < 256,
    ensures
        ({
            let x = (layout.center.x * 16 + n % 16) as i32;
            let z = (layout.center.z * 16 + n / 16) as i32;
            &&& in_center(layout, x, z)
            &&& forall|pos: BlockPos| #[trigger]
                is_change_of(layout.center, pos, n) <==> pos.x == x && pos.z == z
        }),
{
    let x = layout.center.x * 16 + n % 16;
    let z = layout.center.z * 16 + n / 16;
    assert(section_coord(x) == layout.center.x);
    assert(section_coord(z) == layout.center.z);
    assert(local_coord(x) == n % 16 && local_coord(z) == n / 16);
    assert forall|pos: BlockPos| #[trigger]
        is_change_of(layout.center, pos, n) implies pos.x == x && pos.z == z by {
        let (a, b) = (local_coord(pos.x as int), local_coord(pos.z as int));
        assert(pos.x == section_coord(pos.x as int) * 16 + a && 0 <= a < 16);
        assert(pos.z == section_coord(pos.z as int) * 16 + b && 0 <= b < 16);
        assert(n % 16 == a && n / 16 == b);
    }
}

/// A lit block has full light where the light from above is full.
proof fn lemma_extruded(layout: LightCacheLayout, light: Seq<SlotView>, pos: BlockPos)
    requires
        layout.wf(),
        layout.has_block(pos),
        light[layout.cached(pos).section_slot as int].is_lit(),
    ensures
        extruded_level(layout, light, pos) == level_of(light, layout.cached(pos)),
{
    lemma_cached_block(layout, pos);
}

/// What one changed column adds: full light comes down from one height to
/// another, and is lost from there down to a third.
spec fn column_worked(
    sw: SkyWorld<'_>,
    light: Seq<SlotView>,
    x: i32,
    z: i32,
    top: int,
    mid: int,
    low: int,
    increases: Seq<PackedLightQueueEntry>,
    incs: Seq<PackedLightQueueEntry>,
    removals: Seq<PackedLightQueueEntry>,
    rems: Seq<PackedLightQueueEntry>,
) -> bool {
    let bottom = sw.layout().section_range.min_y() * 16;
    &&& mid <= top
    &&& mid >= bottom - 1 || mid == top
    &&& incs.len() >= increases.len()
    &&& rems.len() >= removals.len()
    &&& forall|k: int| 0 <= k < increases.len() ==> #[trigger] incs[k] == increases[k]
    &&& forall|k: int| 0 <= k < removals.len() ==> #[trigger] rems[k] == removals[k]
    &&& forall|k: int|
        increases.len() <= k < incs.len() ==> column_entry(
            sw,
            light,
            x,
            z,
            mid,
            top,
            true,
            #[trigger] incs[k],
        ) && extruded_level(sw.layout(), light, column_block(x, top + 1, z)) == 15
    &&& forall|k: int|
        removals.len() <= k < rems.len() ==> column_entry(
            sw,
            light,
            x,
            z,
            low,
            mid,
            false,
            #[trigger] rems[k],
        )
    &&& forall|b: int|
        #![trigger column_block(x, b, z)]
        mid < b <= top && b >= bottom && lit_at(sw.base, light, column_block(x, b, z))
            ==> incs.contains(risen(sw.base, column_block(x, b, z)))
    &&& forall|b: int|
        #![trigger column_block(x, b, z)]
        low < b <= mid && b >= bottom && lit_at(sw.base, light, column_block(x, b, z))
            ==> rems.contains(fallen(sw.base, column_block(x, b, z)))
    &&& low >= bottom && lit_at(sw.base, light, column_block(x, low, z)) ==> level_at(
        sw.base,
        light,
        column_block(x, low, z),
    ) != 15
}

proof fn lemma_column_worked(
    sw: SkyWorld<'_>,
    s: SkyState,
    increases: Seq<PackedLightQueueEntry>,
    removals: Seq<PackedLightQueueEntry>,
    x: i32,
    z: i32,
    top: int,
)
    requires
        world_plain(sw.base),
        heights_even(sw, s.engine.light),
        s.engine.queues.increase == increases,
        s.engine.queues.decrease == removals,
        in_center(sw.layout(), x, z),
        sw.layout().has_height(section_coord(top)),
    ensures
        ({
            let entered = enter_column(sw, s, increases, x, z, true, true, top);
            let removed = remove_column(sw, entered.state, removals, x, z, entered.y);
            &&& removed.state.engine.light == s.engine.light
            &&& removed.state.engine.queues.increase == entered.delayed
            &&& removed.state.engine.queues.decrease == removed.delayed
            &&& column_worked(
                sw,
                s.engine.light,
                x,
                z,
                top,
                entered.y,
                removed.y,
                increases,
                entered.delayed,
                removals,
                removed.delayed,
            )
        }),
{
    let layout = sw.layout();
    let light = s.engine.light;
    assert(column_chunk(x, z) == layout.center);
    let above = column_block(x, top + 1, z);
    let looked = check_null(sw, s, column_chunk(x, z), section_coord(top), true);
    lemma_check_idle(sw, s, section_coord(top), true);
    let d = enter_column(sw, s, increases, x, z, true, true, top);
    if extruded_level(layout, light, above) == 15 {
        lemma_descend(sw, looked, increases, x, z, sw.block_state(above), top);
    }
    if extruded_level(layout, light, column_block(x, d.y, z)) == 15 {
        lemma_remove(sw, d.state, removals, x, z, d.y);
    } else if d.y >= layout.section_range.min_y() * 16 && lit_at(
        sw.base,
        light,
        column_block(x, d.y, z),
    ) {
        lemma_center_block(layout, x, d.y, z);
        lemma_extruded(layout, light, column_block(x, d.y, z));
    }
}

/// What one changed column adds to the blocks that full light comes down to.
proof fn lemma_worked_rises(
    sw: SkyWorld<'_>,
    light: Seq<SlotView>,
    n: int,
    top: int,
    mid: int,
    low: int,
    increases: Seq<PackedLightQueueEntry>,
    incs: Seq<PackedLightQueueEntry>,
    removals: Seq<PackedLightQueueEntry>,
    rems: Seq<PackedLightQueueEntry>,
    pos: BlockPos,
)
    requires
        world_plain(sw.base),
        0 < n <= 256,
        column_worked(
            sw,
            light,
            (sw.layout().center.x * 16 + (n - 1) % 16) as i32,
            (sw.layout().center.z * 16 + (n - 1) / 16) as i32,
            top,
            mid,
            low,
            increases,
            incs,
            removals,
            rems,
        ),
        forall|k: int|
            0 <= k < increases.len() ==> names_risen(
                sw.base,
                light,
                #[trigger] increases[k],
                n - 1,
            ),
        forall|k: int|
            0 <= k < removals.len() ==> names_fallen(
                sw.base,
                light,
                #[trigger] removals[k],
                n - 1,
            ),
    ensures
        rises(sw.base, increases, pos) ==> rises(sw.base, incs, pos) && !is_change_of(
            sw.layout().center,
            pos,
            n - 1,
        ),
        falls(sw.base, removals, pos) ==> falls(sw.base, rems, pos) && !is_change_of(
            sw.layout().center,
            pos,
            n - 1,
        ),
        rises(sw.base, incs, pos) && !rises(sw.base, increases, pos) ==> {
            &&& is_change_of(sw.layout().center, pos, n - 1)
            &&& mid < pos.y <= top
            &&& sw.layout().section_range.min_y() * 16 <= pos.y
            &&& extruded_level(
                sw.layout(),
                light,
                column_block(pos.x, top + 1, pos.z),
            ) == 15
        },
        falls(sw.base, rems, pos) && !falls(sw.base, removals, pos) ==> {
            &&& is_change_of(sw.layout().center, pos, n - 1)
            &&& low < pos.y <= mid
            &&& sw.layout().section_range.min_y() * 16 <= pos.y
        },
{
    let layout = sw.layout();
    let w = sw.base;
    let x = (layout.center.x * 16 + (n - 1) % 16) as i32;
    let z = (layout.center.z * 16 + (n - 1) / 16) as i32;
    lemma_column(layout, n - 1);
    lemma_not_up();
    if rises(w, increases, pos) {
        lemma_rises_named(w, light, increases, pos, n - 1);
        let k = choose|k: int| 0 <= k < increases.len() && increases[k] == risen(w, pos);
        assert(incs[k] == risen(w, pos));
    } else if rises(w, incs, pos) {
        let k = choose|k: int| 0 <= k < incs.len() && incs[k] == risen(w, pos);
        if k < increases.len() {
            assert(increases[k] == risen(w, pos));
        }
        assert(column_entry(sw, light, x, z, mid, top, true, incs[k]));
        lemma_queued_entry(w, pos, 15, not_up(), w.shape_flags(w.state(layout.cached(pos))));
    }
    if falls(w, removals, pos) {
        lemma_falls_named(w, light, removals, pos, n - 1);
        let k = choose|k: int| 0 <= k < removals.len() && removals[k] == fallen(w, pos);
        assert(rems[k] == fallen(w, pos));
    } else if falls(w, rems, pos) {
        let k = choose|k: int| 0 <= k < rems.len() && rems[k] == fallen(w, pos);
        if k < removals.len() {
            assert(removals[k] == fallen(w, pos));
        }
        assert(column_entry(sw, light, x, z, low, mid, false, rems[k]));
        lemma_queued_entry(w, pos, 15, not_up(), no_flags());
    }
}

/// What the first columns left stays so with one more column.
proof fn lemma_columns_join(
    sw: SkyWorld<'_>,
    light: Seq<SlotView>,
    positions: Seq<BlockPos>,
    n: int,
    top: int,
    mid: int,
    low: int,
    increases: Seq<PackedLightQueueEntry>,
    incs: Seq<PackedLightQueueEntry>,
    removals: Seq<PackedLightQueueEntry>,
    rems: Seq<PackedLightQueueEntry>,
)
    requires
        world_plain(sw.base),
        0 < n <= 256,
        sw.layout().has_height(section_coord(top)),
        top == highest_change(sw.layout().center, positions, n - 1, positions.len() as int),
        top != i32::MIN,
        columns_passed(sw.base, light, positions, increases, removals, n - 1),
        column_worked(
            sw,
            light,
            (sw.layout().center.x * 16 + (n - 1) % 16) as i32,
            (sw.layout().center.z * 16 + (n - 1) / 16) as i32,
            top,
            mid,
            low,
            increases,
            incs,
            removals,
            rems,
        ),
    ensures
        columns_passed(sw.base, light, positions, incs, rems, n),
{
    let layout = sw.layout();
    let w = sw.base;
    let x = (layout.center.x * 16 + (n - 1) % 16) as i32;
    let z = (layout.center.z * 16 + (n - 1) / 16) as i32;
    lemma_column(layout, n - 1);
    assert forall|k: int| 0 <= k < incs.len() implies names_risen(
        w,
        light,
        #[trigger] incs[k],
        n,
    ) by {
        if k < increases.len() {
            assert(names_risen(w, light, increases[k], n - 1));
        } else {
            assert(column_entry(sw, light, x, z, mid, top, true, incs[k]));
            let pos = entry_source(layout, incs[k])->0.block_pos;
            assert(is_change_of(layout.center, pos, n - 1));
        }
    }
    assert forall|k: int| 0 <= k < rems.len() implies names_fallen(
        w,
        light,
        #[trigger] rems[k],
        n,
    ) by {
        if k < removals.len() {
            assert(names_fallen(w, light, removals[k], n - 1));
        } else {
            assert(column_entry(sw, light, x, z, low, mid, false, rems[k]));
            let pos = entry_source(layout, rems[k])->0.block_pos;
            assert(is_change_of(layout.center, pos, n - 1));
        }
    }
    assert forall|pos: BlockPos| #[trigger] rises(w, incs, pos) implies !falls(w, rems, pos)
        && risen_below_light(w, light, positions, incs, rems, pos) by {
        lemma_rises_named(w, light, incs, pos, n);
        lemma_joined_rises(
            sw,
            light,
            positions,
            n,
            top,
            mid,
            low,
            increases,
            incs,
            removals,
            rems,
            pos,
        );
    }
    assert forall|pos: BlockPos| #[trigger] falls(w, rems, pos) implies fallen_below_work(
        w,
        light,
        positions,
        incs,
        rems,
        pos,
    ) && fallen_below(w, light, rems, pos) by {
        lemma_falls_named(w, light, rems, pos, n);
        lemma_joined_falls(
            sw,
            light,
            positions,
            n,
            top,
            mid,
            low,
            increases,
            incs,
            removals,
            rems,
            pos,
        );
        lemma_joined_below(
            sw,
            light,
            positions,
            n,
            top,
            mid,
            low,
            increases,
            incs,
            removals,
            rems,
            pos,
        );
    }
}

proof fn lemma_joined_rises(
    sw: SkyWorld<'_>,
    light: Seq<SlotView>,
    positions: Seq<BlockPos>,
    n: int,
    top: int,
    mid: int,
    low: int,
    increases: Seq<PackedLightQueueEntry>,
    incs: Seq<PackedLightQueueEntry>,
    removals: Seq<PackedLightQueueEntry>,
    rems: Seq<PackedLightQueueEntry>,
    pos: BlockPos,
)
    requires
        world_plain(sw.base),
        0 < n <= 256,
        sw.layout().has_height(section_coord(top)),
        top == highest_change(sw.layout().center, positions, n - 1, positions.len() as int),
        top != i32::MIN,
        columns_passed(sw.base, light, positions, increases, removals, n - 1),
        column_worked(
            sw,
            light,
            (sw.layout().center.x * 16 + (n - 1) % 16) as i32,
            (sw.layout().center.z * 16 + (n - 1) / 16) as i32,
            top,
            mid,
            low,
            increases,
            incs,
            removals,
            rems,
        ),
        rises(sw.base, incs, pos),
        sw.layout().has_block(pos),
    ensures
        !falls(sw.base, rems, pos),
        risen_below_light(sw.base, light, positions, incs, rems, pos),
{
    let layout = sw.layout();
    let w = sw.base;
    let x = (layout.center.x * 16 + (n - 1) % 16) as i32;
    let z = (layout.center.z * 16 + (n - 1) / 16) as i32;
    lemma_column(layout, n - 1);
    let over = block_above(pos);
    lemma_window_has_neighbors(layout, pos);
    lemma_worked_rises(
        sw,
        light,
        n,
        top,
        mid,
        low,
        increases,
        incs,
        removals,
        rems,
        pos,
    );
    lemma_worked_rises(
        sw,
        light,
        n,
        top,
        mid,
        low,
        increases,
        incs,
        removals,
        rems,
        over,
    );
    assert(is_change_of(layout.center, over, n - 1) == is_change_of(layout.center, pos, n - 1));
    if rises(w, increases, pos) {
        assert(risen_below_light(w, light, positions, increases, removals, pos));
    } else if open_above(w, light, pos) {
        if pos.y < top {
            lemma_center_block(layout, x, pos.y + 1, z);
            assert(over == column_block(x, pos.y + 1, z));
        } else {
            lemma_highest_change(layout.center, positions, n - 1, positions.len() as int);
            assert(over == column_block(x, top + 1, z));
            lemma_extruded(layout, light, over);
            if positions.contains(over) {
                let j = choose|j: int| 0 <= j < positions.len() && positions[j] == over;
                assert(is_change_of(layout.center, positions[j], n - 1));
            }
        }
    }
}

proof fn lemma_joined_falls(
    sw: SkyWorld<'_>,
    light: Seq<SlotView>,
    positions: Seq<BlockPos>,
    n: int,
    top: int,
    mid: int,
    low: int,
    increases: Seq<PackedLightQueueEntry>,
    incs: Seq<PackedLightQueueEntry>,
    removals: Seq<PackedLightQueueEntry>,
    rems: Seq<PackedLightQueueEntry>,
    pos: BlockPos,
)
    requires
        world_plain(sw.base),
        0 < n <= 256,
        sw.layout().has_height(section_coord(top)),
        top == highest_change(sw.layout().center, positions, n - 1, positions.len() as int),
        top != i32::MIN,
        columns_passed(sw.base, light, positions, increases, removals, n - 1),
        column_worked(
            sw,
            light,
            (sw.layout().center.x * 16 + (n - 1) % 16) as i32,
            (sw.layout().center.z * 16 + (n - 1) / 16) as i32,
            top,
            mid,
            low,
            increases,
            incs,
            removals,
            rems,
        ),
        falls(sw.base, rems, pos),
        sw.layout().has_block(pos),
    ensures
        fallen_below_work(sw.base, light, positions, incs, rems, pos),
{
    let layout = sw.layout();
    let w = sw.base;
    let x = (layout.center.x * 16 + (n - 1) % 16) as i32;
    let z = (layout.center.z * 16 + (n - 1) / 16) as i32;
    lemma_column(layout, n - 1);
    let over = block_above(pos);
    lemma_window_has_neighbors(layout, pos);
    lemma_worked_rises(
        sw,
        light,
        n,
        top,
        mid,
        low,
        increases,
        incs,
        removals,
        rems,
        pos,
    );
    lemma_worked_rises(
        sw,
        light,
        n,
        top,
        mid,
        low,
        increases,
        incs,
        removals,
        rems,
        over,
    );
    if falls(w, removals, pos) {
        assert(fallen_below_work(w, light, positions, increases, removals, pos));
    } else if open_above(w, light, pos) {
        if pos.y < top {
            lemma_center_block(layout, x, pos.y + 1, z);
            assert(over == column_block(x, pos.y + 1, z));
        } else {
            lemma_highest_change(layout.center, positions, n - 1, positions.len() as int);
            let i = choose|i: int|
                0 <= i < positions.len() && is_change_of(
                    layout.center,
                    #[trigger] positions[i],
                    n - 1,
                ) && positions[i].y == top;
            assert(pos == positions[i]);
        }
    }
}

proof fn lemma_joined_below(
    sw: SkyWorld<'_>,
    light: Seq<SlotView>,
    positions: Seq<BlockPos>,
    n: int,
    top: int,
    mid: int,
    low: int,
    increases: Seq<PackedLightQueueEntry>,
    incs: Seq<PackedLightQueueEntry>,
    removals: Seq<PackedLightQueueEntry>,
    rems: Seq<PackedLightQueueEntry>,
    pos: BlockPos,
)
    requires
        world_plain(sw.base),
        0 < n <= 256,
        sw.layout().has_height(section_coord(top)),
        top == highest_change(sw.layout().center, positions, n - 1, positions.len() as int),
        top != i32::MIN,
        columns_passed(sw.base, light, positions, increases, removals, n - 1),
        column_worked(
            sw,
            light,
            (sw.layout().center.x * 16 + (n - 1) % 16) as i32,
            (sw.layout().center.z * 16 + (n - 1) / 16) as i32,
            top,
            mid,
            low,
            increases,
            incs,
            removals,
            rems,
        ),
        falls(sw.base, rems, pos),
        sw.layout().has_block(pos),
    ensures
        fallen_below(sw.base, light, rems, pos),
{
    let layout = sw.layout();
    let w = sw.base;
    let x = (layout.center.x * 16 + (n - 1) % 16) as i32;
    let z = (layout.center.z * 16 + (n - 1) / 16) as i32;
    lemma_column(layout, n - 1);
    lemma_window_has_neighbors(layout, pos);
    lemma_worked_rises(
        sw,
        light,
        n,
        top,
        mid,
        low,
        increases,
        incs,
        removals,
        rems,
        pos,
    );
    let below = pos.spec_relative(LightAxisDirection::NegativeY.spec_direction());
    lemma_worked_rises(
        sw,
        light,
        n,
        top,
        mid,
        low,
        increases,
        incs,
        removals,
        rems,
        below,
    );
    if falls(w, removals, pos) {
        assert(fallen_below(w, light, removals, pos));
    } else if layout.section_range.min_y() * 16 <= below.y {
        lemma_center_block(layout, x, pos.y - 1, z);
        assert(below == column_block(x, pos.y - 1, z));
    }
}

/// What the first `n` columns leave.
proof fn lemma_change_columns(sw: SkyWorld<'_>, s: SkyState, positions: Seq<BlockPos>, n: int)
    requires
        world_plain(sw.base),
        heights_even(sw, s.engine.light),
        s.engine.queues.increase.len() == 0,
        s.engine.queues.decrease.len() == 0,
        0 <= n <= 256,
        forall|i: int|
            0 <= i < positions.len() ==> sw.layout().has_block(#[trigger] positions[i]),
    ensures
        ({
            let pass = change_columns(sw, s, positions, n);
            &&& pass.state.engine.light == s.engine.light
            &&& pass.state.engine.queues.increase == pass.increases
            &&& pass.state.engine.queues.decrease == pass.removals
            &&& columns_passed(
                sw.base,
                s.engine.light,
                positions,
                pass.increases,
                pass.removals,
                n,
            )
        }),
    decreases n,
{
    if n > 0 {
        lemma_change_columns(sw, s, positions, n - 1);
        let before = change_columns(sw, s, positions, n - 1);
        let center = sw.layout().center;
        let high = highest_change(center, positions, n - 1, positions.len() as int);
        if high != i32::MIN {
            lemma_highest_change(center, positions, n - 1, positions.len() as int);
            lemma_column(sw.layout(), n - 1);
            let x = (center.x * 16 + (n - 1) % 16) as i32;
            let z = (center.z * 16 + (n - 1) / 16) as i32;
            lemma_column_worked(
                sw,
                before.state,
                before.increases,
                before.removals,
                x,
                z,
                high as int,
            );
            let entered = enter_column(
                sw,
                before.state,
                before.increases,
                x,
                z,
                true,
                true,
                high as int,
            );
            let removed = remove_column(sw, entered.state, before.removals, x, z, entered.y);
            lemma_columns_join(
                sw,
                s.engine.light,
                positions,
                n,
                high as int,
                entered.y,
                removed.y,
                before.increases,
                entered.delayed,
                before.removals,
                removed.delayed,
            );
        } else {
            let (incs, rems) = (before.increases, before.removals);
            assert forall|k: int| 0 <= k < incs.len() implies names_risen(
                sw.base,
                s.engine.light,
                #[trigger] incs[k],
                n,
            ) by {
                assert(names_risen(sw.base, s.engine.light, incs[k], n - 1));
            }
            assert forall|k: int| 0 <= k < rems.len() implies names_fallen(
                sw.base,
                s.engine.light,
                #[trigger] rems[k],
                n,
            ) by {
                assert(names_fallen(sw.base, s.engine.light, rems[k], n - 1));
            }
        }
    }
}

/// One of the first `n` entries starts from a block.
spec fn is_named(
    layout: LightCacheLayout,
    entries: Seq<PackedLightQueueEntry>,
    n: int,
    pos: BlockPos,
) -> bool {
    exists|k: int|
        0 <= k < n && entry_source(layout, #[trigger] entries[k]) == Some(layout.cached(pos))
}

/// Writing delayed entries sets the blocks that they start from, and leaves the
/// others.
proof fn lemma_write_delayed(
    w: LightWorld<'_>,
    light: Seq<SlotView>,
    entries: Seq<PackedLightQueueEntry>,
    dark: bool,
    n: int,
)
    requires
        world_plain(w),
        state_valid(w, idle_state(light)),
        0 <= n <= entries.len(),
        forall|k: int|
            0 <= k < entries.len() ==> (entry_source(
                w.layout,
                #[trigger] entries[k],
            ) matches Some(block) && block == w.layout.cached(block.block_pos)
                && w.layout.has_block(block.block_pos) && lit_at(w, light, block.block_pos)
                && entries[k].spec_level() == 15),
    ensures
        ({
            let after = write_delayed(w.layout, light, entries, dark, n);
            &&& state_valid(w, idle_state(after))
            &&& same_slots(light, after)
            &&& forall|pos: BlockPos|
                w.layout.has_block(pos) ==> #[trigger] level_at(w, after, pos) == if is_named(
                    w.layout,
                    entries,
                    n,
                    pos,
                ) {
                    if dark {
                        0
                    } else {
                        15
                    }
                } else {
                    level_at(w, light, pos)
                } && lit_at(w, after, pos) == lit_at(w, light, pos)
        }),
    decreases n,
{
    if n > 0 {
        lemma_write_delayed(w, light, entries, dark, n - 1);
        let before = write_delayed(w.layout, light, entries, dark, n - 1);
        let after = write_delayed(w.layout, light, entries, dark, n);
        let at = entry_source(w.layout, entries[n - 1])->0.block_pos;
        let value: u8 = if dark {
            0
        } else {
            15
        };
        lemma_cached_block(w.layout, at);
        lemma_set_block(before, w.layout.cached(at), value);
        lemma_set_block_levels(w, before, at, value, at);
        assert(lit_at(w, before, at) == lit_at(w, light, at)) by {
            assert(level_at(w, before, at) == level_at(w, before, at));
        }
        lemma_set_same_slots(w, before, at, value);
        lemma_same_slots_trans(light, before, after);
        assert forall|pos: BlockPos| w.layout.has_block(pos) implies #[trigger] level_at(
            w,
            after,
            pos,
        ) == if is_named(w.layout, entries, n, pos) {
            if dark {
                0
            } else {
                15
            }
        } else {
            level_at(w, light, pos)
        } && lit_at(w, after, pos) == lit_at(w, light, pos) by {
            lemma_set_block_levels(w, before, at, value, pos);
            assert(level_at(w, before, pos) == level_at(w, before, pos));
            if is_named(w.layout, entries, n - 1, pos) {
                let k = choose|k: int|
                    0 <= k < n - 1 && entry_source(w.layout, #[trigger] entries[k]) == Some(
                        w.layout.cached(pos),
                    );
                assert(entry_source(w.layout, entries[k]) == Some(w.layout.cached(pos)));
            }
            if pos == at {
                assert(entry_source(w.layout, entries[n - 1]) == Some(w.layout.cached(pos)));
            } else if is_named(w.layout, entries, n, pos) {
                let k = choose|k: int|
                    0 <= k < n && entry_source(w.layout, #[trigger] entries[k]) == Some(
                        w.layout.cached(pos),
                    );
                assert(k < n - 1);
            }
        }
    } else {
        assert forall|pos: BlockPos| !is_named(w.layout, entries, 0, pos) by {}
    }
}

/// The level of a block after the changed columns were written.
pub open spec fn column_level(
    w: LightWorld<'_>,
    light: Seq<SlotView>,
    increases: Seq<PackedLightQueueEntry>,
    removals: Seq<PackedLightQueueEntry>,
    pos: BlockPos,
) -> u8 {
    if falls(w, removals, pos) {
        0
    } else if rises(w, increases, pos) {
        15
    } else {
        level_at(w, light, pos)
    }
}

/// Writing what the columns left sets the levels that it names.
proof fn lemma_columns_written(
    w: LightWorld<'_>,
    light: Seq<SlotView>,
    positions: Seq<BlockPos>,
    increases: Seq<PackedLightQueueEntry>,
    removals: Seq<PackedLightQueueEntry>,
)
    requires
        world_plain(w),
        state_valid(w, idle_state(light)),
        columns_passed(w, light, positions, increases, removals, 256),
    ensures
        ({
            let brightened = write_delayed(
                w.layout,
                light,
                increases,
                false,
                increases.len() as int,
            );
            let after = write_delayed(
                w.layout,
                brightened,
                removals,
                true,
                removals.len() as int,
            );
            &&& state_valid(w, idle_state(after))
            &&& same_slots(light, after)
            &&& forall|pos: BlockPos|
                w.layout.has_block(pos) ==> #[trigger] level_at(w, after, pos) == column_level(
                    w,
                    light,
                    increases,
                    removals,
                    pos,
                ) && lit_at(w, after, pos) == lit_at(w, light, pos)
        }),
{
    let brightened = write_delayed(w.layout, light, increases, false, increases.len() as int);
    let after = write_delayed(w.layout, brightened, removals, true, removals.len() as int);
    lemma_not_up();
    assert forall|k: int| 0 <= k < increases.len() implies (entry_source(
        w.layout,
        #[trigger] increases[k],
    ) matches Some(block) && block == w.layout.cached(block.block_pos) && w.layout.has_block(
        block.block_pos,
    ) && lit_at(w, light, block.block_pos) && increases[k].spec_level() == 15) by {
        assert(names_risen(w, light, increases[k], 256));
        let pos = entry_source(w.layout, increases[k])->0.block_pos;
        lemma_can_encode_has_block(w.layout, pos);
        lemma_queued_entry(w, pos, 15, not_up(), w.shape_flags(w.state(w.layout.cached(pos))));
    }
    lemma_write_delayed(w, light, increases, false, increases.len() as int);
    assert forall|k: int| 0 <= k < removals.len() implies (entry_source(
        w.layout,
        #[trigger] removals[k],
    ) matches Some(block) && block == w.layout.cached(block.block_pos) && w.layout.has_block(
        block.block_pos,
    ) && lit_at(w, brightened, block.block_pos) && removals[k].spec_level() == 15) by {
        assert(names_fallen(w, light, removals[k], 256));
        let pos = entry_source(w.layout, removals[k])->0.block_pos;
        lemma_can_encode_has_block(w.layout, pos);
        assert(level_at(w, brightened, pos) == level_at(w, brightened, pos));
        lemma_queued_entry(w, pos, 15, not_up(), no_flags());
    }
    lemma_write_delayed(w, brightened, removals, true, removals.len() as int);
    lemma_same_slots_trans(light, brightened, after);
    assert forall|pos: BlockPos| w.layout.has_block(pos) implies #[trigger] level_at(
        w,
        after,
        pos,
    ) == column_level(w, light, increases, removals, pos) && lit_at(w, after, pos) == lit_at(
        w,
        light,
        pos,
    ) by {
        assert(level_at(w, brightened, pos) == level_at(w, brightened, pos));
        lemma_named_rises(w, light, increases, pos);
        lemma_named_falls(w, light, removals, pos);
    }
}

proof fn lemma_named_rises(
    w: LightWorld<'_>,
    light: Seq<SlotView>,
    increases: Seq<PackedLightQueueEntry>,
    pos: BlockPos,
)
    requires
        world_plain(w),
        forall|k: int|
            0 <= k < increases.len() ==> names_risen(w, light, #[trigger] increases[k], 256),
    ensures
        is_named(w.layout, increases, increases.len() as int, pos) == rises(w, increases, pos),
{
    lemma_not_up();
    if rises(w, increases, pos) {
        let k = choose|k: int| 0 <= k < increases.len() && increases[k] == risen(w, pos);
        lemma_queued_entry(w, pos, 15, not_up(), w.shape_flags(w.state(w.layout.cached(pos))));
        assert(entry_source(w.layout, increases[k]) == Some(w.layout.cached(pos)));
    }
    if is_named(w.layout, increases, increases.len() as int, pos) {
        let k = choose|k: int|
            0 <= k < increases.len() && entry_source(w.layout, #[trigger] increases[k]) == Some(
                w.layout.cached(pos),
            );
        assert(names_risen(w, light, increases[k], 256));
    }
}

proof fn lemma_named_falls(
    w: LightWorld<'_>,
    light: Seq<SlotView>,
    removals: Seq<PackedLightQueueEntry>,
    pos: BlockPos,
)
    requires
        world_plain(w),
        forall|k: int|
            0 <= k < removals.len() ==> names_fallen(w, light, #[trigger] removals[k], 256),
    ensures
        is_named(w.layout, removals, removals.len() as int, pos) == falls(w, removals, pos),
{
    lemma_not_up();
    if falls(w, removals, pos) {
        let k = choose|k: int| 0 <= k < removals.len() && removals[k] == fallen(w, pos);
        lemma_queued_entry(w, pos, 15, not_up(), no_flags());
        assert(entry_source(w.layout, removals[k]) == Some(w.layout.cached(pos)));
    }
    if is_named(w.layout, removals, removals.len() as int, pos) {
        let k = choose|k: int|
            0 <= k < removals.len() && entry_source(w.layout, #[trigger] removals[k]) == Some(
                w.layout.cached(pos),
            );
        assert(names_fallen(w, light, removals[k], 256));
    }
}

/// One of the first `n` changes is at a block.
spec fn is_noted(positions: Seq<BlockPos>, n: int, pos: BlockPos) -> bool {
    exists|i: int| 0 <= i < n && #[trigger] positions[i] == pos
}

/// The entry of a changed block that is fully lit.
pub open spec fn full_entry(w: LightWorld<'_>, pos: BlockPos) -> PackedLightQueueEntry {
    entry_for(w.layout, pos, 15, LightDirectionSet(63), sided_flags())
}

/// The entry that takes back the light of a changed block.
pub open spec fn taken_entry(w: LightWorld<'_>, pos: BlockPos, level: u8) -> PackedLightQueueEntry {
    entry_for(w.layout, pos, level, LightDirectionSet(63), no_flags())
}

/// An increase entry of a changed block.
spec fn is_change_increase(
    w: LightWorld<'_>,
    light: Seq<SlotView>,
    positions: Seq<BlockPos>,
    entry: PackedLightQueueEntry,
) -> bool {
    entry_source(w.layout, entry) matches Some(block) && {
        &&& block == w.layout.cached(block.block_pos)
        &&& positions.contains(block.block_pos)
        &&& level_at(w, light, block.block_pos) == 15
        &&& entry == full_entry(w, block.block_pos)
    }
}

/// A decrease entry of a changed block.
spec fn is_change_decrease(
    w: LightWorld<'_>,
    positions: Seq<BlockPos>,
    entry: PackedLightQueueEntry,
) -> bool {
    entry_source(w.layout, entry) matches Some(block) && {
        &&& block == w.layout.cached(block.block_pos)
        &&& positions.contains(block.block_pos)
    }
}

/// What noting the first `n` changes leaves of some light and queued work.
spec fn sky_noted(
    w: LightWorld<'_>,
    start: EngineState,
    positions: Seq<BlockPos>,
    n: int,
    s: EngineState,
) -> bool {
    &&& state_valid(w, s)
    &&& same_slots(start.light, s.light)
    &&& forall|pos: BlockPos|
        w.layout.has_block(pos) ==> #[trigger] level_at(w, s.light, pos) == if is_noted(
            positions,
            n,
            pos,
        ) && level_at(w, start.light, pos) != 15 {
            0
        } else {
            level_at(w, start.light, pos)
        } && lit_at(w, s.light, pos) == lit_at(w, start.light, pos)
    &&& s.queues.increase.len() >= start.queues.increase.len()
    &&& s.queues.decrease.len() >= start.queues.decrease.len()
    &&& forall|k: int|
        0 <= k < start.queues.increase.len() ==> #[trigger] s.queues.increase[k]
            == start.queues.increase[k]
    &&& forall|k: int|
        0 <= k < start.queues.decrease.len() ==> #[trigger] s.queues.decrease[k]
            == start.queues.decrease[k]
    &&& forall|k: int|
        start.queues.increase.len() <= k < s.queues.increase.len() ==> is_change_increase(
            w,
            start.light,
            positions,
            #[trigger] s.queues.increase[k],
        )
    &&& forall|k: int|
        start.queues.decrease.len() <= k < s.queues.decrease.len() ==> is_change_decrease(
            w,
            positions,
            #[trigger] s.queues.decrease[k],
        )
    &&& forall|i: int|
        0 <= i < n && level_at(w, start.light, #[trigger] positions[i]) == 15
            ==> s.queues.increase.contains(full_entry(w, positions[i]))
    &&& forall|i: int|
        0 <= i < n ==> s.queues.decrease.contains(
            taken_entry(
                w,
                #[trigger] positions[i],
                level_at(w, start.light, positions[i]),
            ),
        )
}

proof fn lemma_push_contains(
    queue: Seq<PackedLightQueueEntry>,
    entry: PackedLightQueueEntry,
    other: PackedLightQueueEntry,
)
    ensures
        queue.contains(other) ==> queue.push(entry).contains(other),
        queue.push(entry).contains(entry),
{
    if queue.contains(other) {
        let k = choose|k: int| 0 <= k < queue.len() && queue[k] == other;
        assert(queue.push(entry)[k] == other);
    }
    assert(queue.push(entry)[queue.len() as int] == entry);
}

/// Noting one more change.
#[verifier::rlimit(40)]
proof fn lemma_sky_noted_next(
    w: LightWorld<'_>,
    start: EngineState,
    positions: Seq<BlockPos>,
    n: int,
    s: EngineState,
)
    requires
        world_plain(w),
        state_valid(w, start),
        changes_in_center(w, start.light, positions),
        0 < n <= positions.len(),
        sky_noted(w, start, positions, n - 1, s),
    ensures
        sky_noted(w, start, positions, n, sky_block_checked(w, s, positions[n - 1])),
{
    let at = positions[n - 1];
    let after = sky_block_checked(w, s, at);
    let was = level_at(w, start.light, at);
    let current = level_at(w, s.light, at);
    lemma_center_encodes(w.layout, at);
    lemma_cached_block(w.layout, at);
    lemma_set_block(s.light, w.layout.cached(at), 0);
    lemma_set_block_levels(w, s.light, at, 0, at);
    lemma_set_same_slots(w, s.light, at, 0);
    assert(positions.contains(at));
    lemma_queued_entry(w, at, 15, LightDirectionSet(63), sided_flags());
    lemma_queued_entry(w, at, current, LightDirectionSet(63), no_flags());
    if was == 15 {
        assert(after.light == s.light);
    } else {
        assert(current != 15);
        assert(after.light == set_block(s.light, w.layout.cached(at), 0));
        lemma_same_slots_trans(start.light, s.light, after.light);
    }
    assert forall|pos: BlockPos| w.layout.has_block(pos) implies #[trigger] level_at(
        w,
        after.light,
        pos,
    ) == if is_noted(positions, n, pos) && level_at(w, start.light, pos) != 15 {
        0
    } else {
        level_at(w, start.light, pos)
    } && lit_at(w, after.light, pos) == lit_at(w, start.light, pos) by {
        lemma_set_block_levels(w, s.light, at, 0, pos);
        assert(level_at(w, s.light, pos) == level_at(w, s.light, pos));
        assert(is_noted(positions, n, pos) == (is_noted(positions, n - 1, pos) || pos == at)) by {
            if is_noted(positions, n - 1, pos) {
                let i = choose|i: int| 0 <= i < n - 1 && #[trigger] positions[i] == pos;
                assert(positions[i] == pos);
            }
            if is_noted(positions, n, pos) {
                let i = choose|i: int| 0 <= i < n && #[trigger] positions[i] == pos;
                assert(i == n - 1 || is_noted(positions, n - 1, pos));
            }
            if pos == at {
                assert(positions[n - 1] == pos);
            }
        }
    }
    assert forall|k: int|
        start.queues.increase.len() <= k < after.queues.increase.len() implies is_change_increase(
        w,
        start.light,
        positions,
        #[trigger] after.queues.increase[k],
    ) by {
        if k < s.queues.increase.len() {
            assert(after.queues.increase[k] == s.queues.increase[k]);
        }
    }
    assert forall|k: int|
        start.queues.decrease.len() <= k < after.queues.decrease.len() implies is_change_decrease(
        w,
        positions,
        #[trigger] after.queues.decrease[k],
    ) by {
        if k < s.queues.decrease.len() {
            assert(after.queues.decrease[k] == s.queues.decrease[k]);
        }
    }
    assert forall|i: int|
        0 <= i < n && level_at(w, start.light, #[trigger] positions[i])
            == 15 implies after.queues.increase.contains(full_entry(w, positions[i])) by {
        lemma_push_contains(
            s.queues.increase,
            full_entry(w, at),
            full_entry(w, positions[i]),
        );
    }
    assert forall|i: int| 0 <= i < n implies after.queues.decrease.contains(
        taken_entry(w, #[trigger] positions[i], level_at(w, start.light, positions[i])),
    ) by {
        lemma_push_contains(
            s.queues.decrease,
            taken_entry(w, at, current),
            taken_entry(w, positions[i], level_at(w, start.light, positions[i])),
        );
        if i == n - 1 && current != was {
            assert(is_noted(positions, n - 1, at));
            let j = choose|j: int| 0 <= j < n - 1 && #[trigger] positions[j] == at;
            assert(s.queues.decrease.contains(
                taken_entry(w, positions[j], level_at(w, start.light, positions[j])),
            ));
        }
    }
}

/// A block of the active chunk has a place in the queues.
proof fn lemma_center_encodes(layout: LightCacheLayout, pos: BlockPos)
    requires
        layout.wf(),
        layout.in_world(),
        ChunkPos::of_block(pos) == layout.center,
        layout.has_block(pos),
    ensures
        layout.can_encode(pos),
        beyond(pos.x as int, layout.center.x as int) == 0,
        beyond(pos.z as int, layout.center.z as int) == 0,
{
}

proof fn lemma_sky_noted(
    w: LightWorld<'_>,
    start: EngineState,
    positions: Seq<BlockPos>,
    n: int,
)
    requires
        world_plain(w),
        state_valid(w, start),
        changes_in_center(w, start.light, positions),
        0 <= n <= positions.len(),
    ensures
        sky_noted(w, start, positions, n, sky_blocks_checked(w, start, positions, n)),
    decreases n,
{
    if n > 0 {
        lemma_sky_noted(w, start, positions, n - 1);
        lemma_sky_noted_next(
            w,
            start,
            positions,
            n,
            sky_blocks_checked(w, start, positions, n - 1),
        );
    }
}

/// Above a fully lit block there is full light, or nothing is lit.
pub open spec fn is_full_below(w: LightWorld<'_>, light: Seq<SlotView>, pos: BlockPos) -> bool {
    level_at(w, light, pos) == 15 && open_above(w, light, pos) ==> level_at(
        w,
        light,
        block_above(pos),
    ) == 15
}

/// Full light comes from above.
pub open spec fn full_from_above(w: LightWorld<'_>, light: Seq<SlotView>) -> bool {
    forall|pos: BlockPos|
        w.layout.can_encode(pos) && w.layout.section_range.min_y() * 16 <= pos.y
            ==> #[trigger] is_full_below(w, light, pos)
}

/// Sky light is in equilibrium: no block could brighten a neighbor, every level
/// but full light comes from a neighbor, and full light comes from above.
pub open spec fn in_sky_equilibrium(w: LightWorld<'_>, light: Seq<SlotView>) -> bool {
    balanced(w, light) && all_sky_supported(w, light) && full_from_above(w, light)
}

/// The light and queued work once the columns were written.
spec fn columns_state(
    w: LightWorld<'_>,
    light: Seq<SlotView>,
    increases: Seq<PackedLightQueueEntry>,
    removals: Seq<PackedLightQueueEntry>,
) -> EngineState {
    EngineState {
        light: write_delayed(
            w.layout,
            write_delayed(w.layout, light, increases, false, increases.len() as int),
            removals,
            true,
            removals.len() as int,
        ),
        queues: PackedQueuesView { increase: increases, decrease: removals },
    }
}

/// Changes were noted after the columns were written.
#[verifier::opaque]
spec fn changes_ready(
    w: LightWorld<'_>,
    light: Seq<SlotView>,
    positions: Seq<BlockPos>,
    increases: Seq<PackedLightQueueEntry>,
    removals: Seq<PackedLightQueueEntry>,
    s: EngineState,
) -> bool {
    &&& world_plain(w)
    &&& faces_regular(w)
    &&& state_valid(w, idle_state(light))
    &&& changes_in_center(w, light, positions)
    &&& columns_passed(w, light, positions, increases, removals, 256)
    &&& sky_noted(
        w,
        columns_state(w, light, increases, removals),
        positions,
        positions.len() as int,
        s,
    )
}

proof fn lemma_ready_base(
    w: LightWorld<'_>,
    light: Seq<SlotView>,
    positions: Seq<BlockPos>,
    increases: Seq<PackedLightQueueEntry>,
    removals: Seq<PackedLightQueueEntry>,
    s: EngineState,
)
    requires
        changes_ready(w, light, positions, increases, removals, s),
    ensures
        world_plain(w),
        faces_regular(w),
        state_valid(w, idle_state(light)),
        state_valid(w, s),
{
    reveal(changes_ready);
}

/// The level of a block when the changes were noted.
proof fn lemma_ready_level(
    w: LightWorld<'_>,
    light: Seq<SlotView>,
    positions: Seq<BlockPos>,
    increases: Seq<PackedLightQueueEntry>,
    removals: Seq<PackedLightQueueEntry>,
    s: EngineState,
    pos: BlockPos,
)
    requires
        changes_ready(w, light, positions, increases, removals, s),
        w.layout.has_block(pos),
    ensures
        ({
            let level = column_level(w, light, increases, removals, pos);
            &&& level_at(w, s.light, pos) == if positions.contains(pos) && level != 15 {
                0
            } else {
                level
            }
            &&& lit_at(w, s.light, pos) == lit_at(w, light, pos)
            &&& level_at(w, columns_state(w, light, increases, removals).light, pos) == level
        }),
{
    reveal(changes_ready);
    lemma_columns_written(w, light, positions, increases, removals);
    let start = columns_state(w, light, increases, removals);
    assert(level_at(w, start.light, pos) == level_at(w, start.light, pos));
    assert(level_at(w, s.light, pos) == level_at(w, s.light, pos));
    if positions.contains(pos) {
        let i = choose|i: int| 0 <= i < positions.len() && positions[i] == pos;
        assert(positions[i] == pos);
        assert(is_noted(positions, positions.len() as int, pos));
    }
}

/// Full light that came down to a block is about to spread from it.
proof fn lemma_ready_risen(
    w: LightWorld<'_>,
    light: Seq<SlotView>,
    positions: Seq<BlockPos>,
    increases: Seq<PackedLightQueueEntry>,
    removals: Seq<PackedLightQueueEntry>,
    s: EngineState,
    pos: BlockPos,
    direction: LightAxisDirection,
)
    requires
        changes_ready(w, light, positions, increases, removals, s),
        rises(w, increases, pos),
        direction != LightAxisDirection::PositiveY,
    ensures
        is_pending(w, s, pos, direction),
        level_at(w, s.light, pos) == 15,
{
    reveal(changes_ready);
    lemma_can_encode_has_block(w.layout, pos);
    lemma_ready_level(w, light, positions, increases, removals, s, pos);
    assert(!falls(w, removals, pos));
    let k = choose|k: int| 0 <= k < increases.len() && increases[k] == risen(w, pos);
    let start = columns_state(w, light, increases, removals);
    assert(start.queues.increase[k] == s.queues.increase[k]);
    lemma_not_up();
    lemma_queued_entry(w, pos, 15, not_up(), w.shape_flags(w.state(w.layout.cached(pos))));
    assert(covers(w, s.light, s.queues.increase[k], pos, direction));
}

/// A changed block that is fully lit is about to spread its light everywhere.
proof fn lemma_ready_full(
    w: LightWorld<'_>,
    light: Seq<SlotView>,
    positions: Seq<BlockPos>,
    increases: Seq<PackedLightQueueEntry>,
    removals: Seq<PackedLightQueueEntry>,
    s: EngineState,
    pos: BlockPos,
    direction: LightAxisDirection,
)
    requires
        changes_ready(w, light, positions, increases, removals, s),
        positions.contains(pos),
        w.layout.can_encode(pos),
        level_at(w, s.light, pos) == 15,
    ensures
        is_pending(w, s, pos, direction),
{
    reveal(changes_ready);
    lemma_can_encode_has_block(w.layout, pos);
    lemma_ready_level(w, light, positions, increases, removals, s, pos);
    let i = choose|i: int| 0 <= i < positions.len() && positions[i] == pos;
    assert(s.queues.increase.contains(full_entry(w, positions[i])));
    let k = choose|k: int|
        0 <= k < s.queues.increase.len() && s.queues.increase[k] == full_entry(w, pos);
    lemma_queued_entry(w, pos, 15, LightDirectionSet(63), sided_flags());
    lemma_all_directions(direction);
    assert(covers(w, s.light, s.queues.increase[k], pos, direction));
}

/// The decrease entry of a changed block.
proof fn lemma_ready_taken(
    w: LightWorld<'_>,
    light: Seq<SlotView>,
    positions: Seq<BlockPos>,
    increases: Seq<PackedLightQueueEntry>,
    removals: Seq<PackedLightQueueEntry>,
    s: EngineState,
    pos: BlockPos,
) -> (k: int)
    requires
        changes_ready(w, light, positions, increases, removals, s),
        positions.contains(pos),
    ensures
        0 <= k < s.queues.decrease.len(),
        entry_source(w.layout, s.queues.decrease[k]) == Some(w.layout.cached(pos)),
        s.queues.decrease[k].spec_level() == column_level(w, light, increases, removals, pos),
        s.queues.decrease[k].spec_directions() == LightDirectionSet(63),
        !s.queues.decrease[k].flags().has_sided_transparent_blocks,
{
    reveal(changes_ready);
    let i = choose|i: int| 0 <= i < positions.len() && positions[i] == pos;
    lemma_center_encodes(w.layout, positions[i]);
    lemma_ready_level(w, light, positions, increases, removals, s, pos);
    let start = columns_state(w, light, increases, removals);
    let level = level_at(w, start.light, pos);
    assert(s.queues.decrease.contains(taken_entry(w, positions[i], level)));
    let k = choose|k: int|
        0 <= k < s.queues.decrease.len() && s.queues.decrease[k] == taken_entry(w, pos, level);
    lemma_columns_written(w, light, positions, increases, removals);
    lemma_cached_block(w.layout, pos);
    lemma_set_block(start.light, w.layout.cached(pos), 0);
    lemma_queued_entry(w, pos, level, LightDirectionSet(63), no_flags());
    k
}

/// The decrease entry of a block that lost its full light.
proof fn lemma_ready_fallen(
    w: LightWorld<'_>,
    light: Seq<SlotView>,
    positions: Seq<BlockPos>,
    increases: Seq<PackedLightQueueEntry>,
    removals: Seq<PackedLightQueueEntry>,
    s: EngineState,
    pos: BlockPos,
) -> (k: int)
    requires
        changes_ready(w, light, positions, increases, removals, s),
        falls(w, removals, pos),
    ensures
        0 <= k < s.queues.decrease.len(),
        entry_source(w.layout, s.queues.decrease[k]) == Some(w.layout.cached(pos)),
        s.queues.decrease[k].spec_level() == 15,
        s.queues.decrease[k].spec_directions() == not_up(),
        !s.queues.decrease[k].flags().has_sided_transparent_blocks,
        level_at(w, light, pos) == 15,
        w.layout.section_range.min_y() * 16 <= pos.y,
{
    reveal(changes_ready);
    lemma_falls_named(w, light, removals, pos, 256);
    let k = choose|k: int| 0 <= k < removals.len() && removals[k] == fallen(w, pos);
    let start = columns_state(w, light, increases, removals);
    assert(start.queues.decrease[k] == s.queues.decrease[k]);
    lemma_not_up();
    lemma_queued_entry(w, pos, 15, not_up(), no_flags());
    k
}

/// What is queued once the changes were noted is work on sky light, and starts
/// from dark blocks or such as spread their light everywhere.
proof fn lemma_ready_work(
    w: LightWorld<'_>,
    light: Seq<SlotView>,
    positions: Seq<BlockPos>,
    increases: Seq<PackedLightQueueEntry>,
    removals: Seq<PackedLightQueueEntry>,
    s: EngineState,
)
    requires
        changes_ready(w, light, positions, increases, removals, s),
    ensures
        sky_work(w, s),
        decreases_near(w, s),
        sources_quiet(w, s),
{
    reveal(changes_ready);
    let start = columns_state(w, light, increases, removals);
    lemma_not_up();
    assert forall|k: int| 0 <= k < s.queues.increase.len() implies is_full_entry(
        w,
        s.light,
        #[trigger] s.queues.increase[k],
    ) by {
        let entry = s.queues.increase[k];
        if k < increases.len() {
            assert(start.queues.increase[k] == entry);
            assert(names_risen(w, light, increases[k], 256));
            let pos = entry_source(w.layout, entry)->0.block_pos;
            assert(increases[k] == risen(w, pos));
            assert(increases.contains(risen(w, pos)));
            lemma_ready_risen(
                w,
                light,
                positions,
                increases,
                removals,
                s,
                pos,
                LightAxisDirection::NegativeY,
            );
            lemma_queued_entry(w, pos, 15, not_up(), w.shape_flags(w.state(w.layout.cached(pos))));
        } else {
            assert(is_change_increase(w, start.light, positions, entry));
            let pos = entry_source(w.layout, entry)->0.block_pos;
            let i = choose|i: int| 0 <= i < positions.len() && positions[i] == pos;
            lemma_center_encodes(w.layout, positions[i]);
            lemma_ready_level(w, light, positions, increases, removals, s, pos);
            lemma_queued_entry(w, pos, 15, LightDirectionSet(63), sided_flags());
        }
    }
    assert forall|k: int| 0 <= k < s.queues.decrease.len() implies (entry_source(
        w.layout,
        #[trigger] s.queues.decrease[k],
    ) matches Some(block) && is_quiet(w, s, block.block_pos) && (level_at(
        w,
        s.light,
        block.block_pos,
    ) == 0 || level_at(w, s.light, block.block_pos) == 15) && is_near(
        w.layout,
        block.block_pos,
        15,
    )) by {
        let entry = s.queues.decrease[k];
        if k < removals.len() {
            assert(start.queues.decrease[k] == entry);
            assert(names_fallen(w, light, removals[k], 256));
            let pos = entry_source(w.layout, entry)->0.block_pos;
            assert(removals[k] == fallen(w, pos));
            assert(removals.contains(fallen(w, pos)));
            lemma_can_encode_has_block(w.layout, pos);
            lemma_ready_level(w, light, positions, increases, removals, s, pos);
        } else {
            assert(is_change_decrease(w, positions, entry));
            let pos = entry_source(w.layout, entry)->0.block_pos;
            let i = choose|i: int| 0 <= i < positions.len() && positions[i] == pos;
            lemma_center_encodes(w.layout, positions[i]);
            lemma_ready_level(w, light, positions, increases, removals, s, pos);
            if level_at(w, s.light, pos) == 15 {
                assert forall|direction: LightAxisDirection| #[trigger]
                    is_pending(w, s, pos, direction) by {
                    lemma_ready_full(
                        w,
                        light,
                        positions,
                        increases,
                        removals,
                        s,
                        pos,
                        direction,
                    );
                }
            }
        }
    }
    assert forall|k: int| 0 <= k < s.queues.decrease.len() implies (entry_source(
        w.layout,
        #[trigger] s.queues.decrease[k],
    ) matches Some(source) ==> is_near(
        w.layout,
        source.block_pos,
        s.queues.decrease[k].spec_level() as int,
    )) by {
        s.queues.decrease[k].level_is_nibble();
    }
}

/// Every imbalance is covered once the changes were noted.
proof fn lemma_ready_covered(
    old_world: LightWorld<'_>,
    w: LightWorld<'_>,
    light: Seq<SlotView>,
    positions: Seq<BlockPos>,
    increases: Seq<PackedLightQueueEntry>,
    removals: Seq<PackedLightQueueEntry>,
    s: EngineState,
    pos: BlockPos,
    direction: LightAxisDirection,
)
    requires
        changes_ready(w, light, positions, increases, removals, s),
        differ_at(old_world, w, positions),
        balanced(old_world, light),
        w.layout.can_encode(pos),
    ensures
        in_balance(w, s.light, pos, direction) || is_pending(w, s, pos, direction) || is_excused(
            w,
            s,
            pos,
            direction,
        ),
{
    reveal(changes_ready);
    let near = pos.spec_relative(direction.spec_direction());
    lemma_can_encode_has_block(w.layout, pos);
    lemma_window_has_neighbors(w.layout, pos);
    lemma_relative_back(pos, direction);
    lemma_ready_level(w, light, positions, increases, removals, s, pos);
    if open_neighbor(w, s.light, pos, direction) is None || level_at(w, s.light, pos) == 0 {
    } else if positions.contains(pos) {
        lemma_ready_full(w, light, positions, increases, removals, s, pos, direction);
    } else if positions.contains(near) {
        let k = lemma_ready_taken(w, light, positions, increases, removals, s, near);
        lemma_all_directions(direction.spec_opposite());
        assert(leads_back(w, s.queues.decrease[k], pos, direction));
    } else if rises(w, increases, pos) && direction != LightAxisDirection::PositiveY {
        lemma_ready_risen(w, light, positions, increases, removals, s, pos, direction);
    } else {
        lemma_ready_level(w, light, positions, increases, removals, s, near);
        if rises(w, increases, pos) {
            assert(near == block_above(pos));
            assert(risen_below_light(w, light, positions, increases, removals, pos));
            if rises(w, increases, near) {
                assert(!falls(w, removals, near));
            }
        } else if falls(w, removals, near) {
            if direction == LightAxisDirection::NegativeY {
                assert(fallen_below_work(w, light, positions, increases, removals, near));
                assert(block_above(near) == pos);
                if !lit_at(w, s.light, pos) {
                    lemma_unlit_is_dark(w, s, pos);
                }
                assert(false);
            } else {
                let k = lemma_ready_fallen(w, light, positions, increases, removals, s, near);
                lemma_not_up();
                assert(direction.spec_opposite() != LightAxisDirection::PositiveY);
                assert(leads_back(w, s.queues.decrease[k], pos, direction));
            }
        } else {
            assert(in_balance(old_world, light, pos, direction));
            assert(old_world.state(w.layout.cached(pos)) == w.state(w.layout.cached(pos)));
            assert(old_world.state(w.layout.cached(near)) == w.state(w.layout.cached(near)));
            lemma_cached_block(w.layout, near);
            lemma_set_block(light, w.layout.cached(pos), 0);
            lemma_cached_block(w.layout, pos);
        }
    }
}

/// A decrease entry at a block that gave its neighbor light makes it dark.
proof fn lemma_taken_dooms(
    old_world: LightWorld<'_>,
    w: LightWorld<'_>,
    light: Seq<SlotView>,
    s: EngineState,
    pos: BlockPos,
    direction: LightAxisDirection,
    k: int,
)
    requires
        world_plain(w),
        faces_regular(w),
        old_world.layout == w.layout,
        old_world.table == w.table,
        old_world.state(w.layout.cached(pos)) == w.state(w.layout.cached(pos)),
        is_supported_from(old_world, light, pos, direction),
        level_at(w, s.light, pos) == level_at(w, light, pos),
        0 <= k < s.queues.decrease.len(),
        entry_source(w.layout, s.queues.decrease[k]) == Some(
            w.layout.cached(pos.spec_relative(direction.spec_direction())),
        ),
        s.queues.decrease[k].spec_level() >= level_at(
            w,
            light,
            pos.spec_relative(direction.spec_direction()),
        ),
        s.queues.decrease[k].spec_directions().has(direction.spec_opposite()),
        !s.queues.decrease[k].flags().has_sided_transparent_blocks,
    ensures
        is_doomed(w, s, pos),
{
    let neighbor = pos.spec_relative(direction.spec_direction());
    let back = direction.spec_opposite();
    let entry = s.queues.decrease[k];
    let to = w.state(w.layout.cached(pos));
    let was = old_world.state(w.layout.cached(neighbor));
    assert(w.loss(was, to, back) != 16 && level_at(w, light, neighbor) >= level_at(w, light, pos)
        + w.loss(was, to, back)) by {
        reveal(is_supported_from);
    }
    assert(w.loss(w.table.spec_air(), to, back) != 16) by {
        reveal(faces_regular);
    }
    assert(w.loss(w.table.spec_air(), to, back) == w.loss(was, to, back));
    assert(dooms(w, s.light, entry, pos, direction)) by {
        reveal(dooms);
    }
}

/// Every block is supported or doomed once the changes were noted.
proof fn lemma_ready_supported(
    old_world: LightWorld<'_>,
    w: LightWorld<'_>,
    light: Seq<SlotView>,
    positions: Seq<BlockPos>,
    increases: Seq<PackedLightQueueEntry>,
    removals: Seq<PackedLightQueueEntry>,
    s: EngineState,
    pos: BlockPos,
)
    requires
        changes_ready(w, light, positions, increases, removals, s),
        differ_at(old_world, w, positions),
        all_sky_supported(old_world, light),
        full_from_above(old_world, light),
        w.layout.can_encode(pos),
    ensures
        sky_supported(w, s.light, pos) || is_doomed(w, s, pos),
{
    lemma_ready_base(w, light, positions, increases, removals, s);
    lemma_can_encode_has_block(w.layout, pos);
    lemma_window_has_neighbors(w.layout, pos);
    lemma_ready_level(w, light, positions, increases, removals, s, pos);
    if level_at(w, s.light, pos) != 0 && level_at(w, s.light, pos) != 15 {
        assert(sky_supported(old_world, light, pos));
        let direction = choose|direction: LightAxisDirection|
            #[trigger] sky_given(old_world, light, pos, direction);
        let near = pos.spec_relative(direction.spec_direction());
        let back = direction.spec_opposite();
        lemma_relative_back(pos, direction);
        if w.layout.has_block(near) {
            lemma_ready_level(w, light, positions, increases, removals, s, near);
        }
        if open_neighbor(old_world, light, pos, direction) is None {
            assert(sky_given(w, s.light, pos, direction));
        } else if falls(w, removals, near) {
            let k = lemma_ready_fallen(w, light, positions, increases, removals, s, near);
            if direction == LightAxisDirection::NegativeY {
                assert(is_full_below(old_world, light, near));
                assert(block_above(near) == pos);
                if !lit_at(w, s.light, pos) {
                    lemma_unlit_is_dark(w, s, pos);
                }
                assert(false);
            }
            lemma_not_up();
            assert(back != LightAxisDirection::PositiveY);
            lemma_cached_block(w.layout, near);
            lemma_set_block(light, w.layout.cached(near), 0);
            lemma_taken_dooms(old_world, w, light, s, pos, direction, k);
        } else if positions.contains(near) {
            let k = lemma_ready_taken(w, light, positions, increases, removals, s, near);
            lemma_all_directions(back);
            lemma_cached_block(w.layout, near);
            lemma_set_block(light, w.layout.cached(near), 0);
            lemma_taken_dooms(old_world, w, light, s, pos, direction, k);
        } else {
            lemma_cached_block(w.layout, near);
            lemma_set_block(light, w.layout.cached(near), 0);
            assert(old_world.state(w.layout.cached(near)) == w.state(w.layout.cached(near)));
            assert(is_supported_from(w, s.light, pos, direction)) by {
                reveal(is_supported_from);
            }
            assert(sky_given(w, s.light, pos, direction));
        }
    }
}

/// Full light comes from above once the changes were noted.
proof fn lemma_ready_above(
    w: LightWorld<'_>,
    light: Seq<SlotView>,
    positions: Seq<BlockPos>,
    increases: Seq<PackedLightQueueEntry>,
    removals: Seq<PackedLightQueueEntry>,
    s: EngineState,
    pos: BlockPos,
)
    requires
        changes_ready(w, light, positions, increases, removals, s),
        is_full_below(w, light, pos),
        w.layout.can_encode(pos),
        w.layout.section_range.min_y() * 16 <= pos.y,
    ensures
        is_full_below(w, s.light, pos),
{
    reveal(changes_ready);
    lemma_can_encode_has_block(w.layout, pos);
    lemma_window_has_neighbors(w.layout, pos);
    lemma_relative_back(pos, LightAxisDirection::PositiveY);
    lemma_ready_level(w, light, positions, increases, removals, s, pos);
    let over = block_above(pos);
    if level_at(w, s.light, pos) == 15 && open_above(w, s.light, pos) {
        lemma_ready_level(w, light, positions, increases, removals, s, over);
        if rises(w, increases, pos) {
            assert(risen_below_light(w, light, positions, increases, removals, pos));
            if rises(w, increases, over) {
                assert(!falls(w, removals, over));
            }
        } else if falls(w, removals, over) {
            assert(fallen_below(w, light, removals, over));
            if !lit_at(w, s.light, pos) {
                lemma_unlit_is_dark(w, s, pos);
            }
            assert(false);
        }
    }
}

/// Two lights have the same levels, and light in the same sections.
pub open spec fn same_levels(w: LightWorld<'_>, a: Seq<SlotView>, b: Seq<SlotView>) -> bool {
    forall|pos: BlockPos|
        w.layout.has_block(pos) ==> #[trigger] level_at(w, b, pos) == level_at(w, a, pos)
            && lit_at(w, b, pos) == lit_at(w, a, pos)
}

/// Equilibrium is a matter of levels and of which sections have light.
proof fn lemma_same_equilibrium(w: LightWorld<'_>, a: Seq<SlotView>, b: Seq<SlotView>)
    requires
        same_levels(w, a, b),
        in_sky_equilibrium(w, a),
    ensures
        in_sky_equilibrium(w, b),
{
    assert forall|pos: BlockPos, direction: LightAxisDirection|
        w.layout.can_encode(pos) implies #[trigger] in_balance(w, b, pos, direction) by {
        let near = pos.spec_relative(direction.spec_direction());
        assert(in_balance(w, a, pos, direction));
        lemma_can_encode_has_block(w.layout, pos);
        assert(level_at(w, b, pos) == level_at(w, a, pos));
        if w.layout.has_block(near) {
            assert(level_at(w, b, near) == level_at(w, a, near));
        }
    }
    assert forall|pos: BlockPos| w.layout.can_encode(pos) implies #[trigger] sky_supported(
        w,
        b,
        pos,
    ) by {
        assert(sky_supported(w, a, pos));
        lemma_can_encode_has_block(w.layout, pos);
        assert(level_at(w, b, pos) == level_at(w, a, pos));
        if level_at(w, a, pos) != 0 && level_at(w, a, pos) != 15 {
            let direction = choose|direction: LightAxisDirection|
                #[trigger] sky_given(w, a, pos, direction);
            let near = pos.spec_relative(direction.spec_direction());
            if w.layout.has_block(near) {
                assert(level_at(w, b, near) == level_at(w, a, near));
            }
            assert(sky_given(w, b, pos, direction)) by {
                reveal(is_supported_from);
            }
        }
    }
    assert forall|pos: BlockPos|
        w.layout.can_encode(pos) && w.layout.section_range.min_y() * 16
            <= pos.y implies #[trigger] is_full_below(w, b, pos) by {
        assert(is_full_below(w, a, pos));
        lemma_can_encode_has_block(w.layout, pos);
        assert(level_at(w, b, pos) == level_at(w, a, pos));
        if w.layout.has_block(block_above(pos)) {
            assert(level_at(w, b, block_above(pos)) == level_at(w, a, block_above(pos)));
        }
    }
}

/// The light at the start of a pass.
pub open spec fn fresh_light(light: Seq<SlotView>) -> Seq<SlotView> {
    light.map_values(|slot: SlotView| slot.rewritten())
}

/// The light between passes: every section that takes part is there, and none
/// stands in for another one.
pub open spec fn at_rest(light: Seq<SlotView>) -> bool {
    forall|slot: int|
        0 <= slot < light.len() ==> #[trigger] light[slot] is Absent || (
        light[slot] matches SlotView::Cached(_, kept) && kept is None)
}

/// A pass starts with the same levels, and without null sections.
pub proof fn lemma_fresh_light(sw: SkyWorld<'_>, light: Seq<SlotView>)
    requires
        world_plain(sw.base),
        state_valid(sw.base, idle_state(light)),
        at_rest(light),
    ensures
        state_valid(sw.base, idle_state(fresh_light(light))),
        same_levels(sw.base, light, fresh_light(light)),
        heights_even(sw, light) ==> heights_even(sw, fresh_light(light)),
        forall|slot: int|
            0 <= slot < light.len() ==> !(#[trigger] fresh_light(light)[slot]).is_null(),
{
    let layout = sw.layout();
    let fresh = fresh_light(light);
    assert forall|slot: int| 0 <= slot < light.len() implies slot_valid(#[trigger] fresh[slot])
        && !fresh[slot].is_null() && fresh[slot].is_lit() == light[slot].is_lit() && (
    fresh[slot] is Absent) == (light[slot] is Absent) && (forall|index: int|
        0 <= index < 4096 ==> #[trigger] fresh[slot].level(index) == light[slot].level(
            index,
        )) by {
        assert(slot_valid(light[slot]));
        assert(light[slot] is Absent || light[slot] is Cached);
        assert(fresh[slot] == light[slot].rewritten());
    }
    assert forall|pos: BlockPos| layout.has_block(pos) implies #[trigger] level_at(
        sw.base,
        fresh,
        pos,
    ) == level_at(sw.base, light, pos) && lit_at(sw.base, fresh, pos) == lit_at(
        sw.base,
        light,
        pos,
    ) by {
        lemma_cached_block(layout, pos);
        let slot = layout.cached(pos).section_slot as int;
        assert(fresh[slot].is_lit() == light[slot].is_lit());
        assert(fresh[slot].level(layout.cached(pos).local_index as int) == light[slot].level(
            layout.cached(pos).local_index as int,
        ));
    }
    assert forall|y: int, i: int|
        0 <= i < 9 && #[trigger] layout.section_range.contains(y) implies (
    #[trigger] near_section(sw, fresh, y, i)).is_lit() == near_section(sw, light, y, i).is_lit()
        && (near_section(sw, fresh, y, i) is Absent) == (near_section(sw, light, y, i) is Absent) by {
        let pos = chunk_section(chunk_near(layout.center, i), y);
        layout.slot_round_trip(pos, 0);
        if layout.has_section(pos) {
            assert(fresh[layout.slot_at(pos)].is_lit() == light[layout.slot_at(pos)].is_lit());
        }
    }
}

/// Publishing light that came of light at rest, without sections coming into
/// being, keeps its levels, and leaves it at rest.
proof fn lemma_published(sw: SkyWorld<'_>, light: Seq<SlotView>, after: Seq<SlotView>)
    requires
        world_plain(sw.base),
        state_valid(sw.base, idle_state(light)),
        at_rest(light),
        state_valid(sw.base, idle_state(after)),
        same_slots(fresh_light(light), after),
    ensures
        state_valid(sw.base, idle_state(published(after))),
        same_levels(sw.base, after, published(after)),
        at_rest(published(after)),
        heights_even(sw, light) ==> heights_even(sw, published(after)),
{
    let layout = sw.layout();
    let fresh = fresh_light(light);
    let shown = published(after);
    assert forall|slot: int| 0 <= slot < light.len() implies slot_valid(#[trigger] shown[slot])
        && (shown[slot] is Absent || (shown[slot] matches SlotView::Cached(_, kept)
        && kept is None)) && shown[slot].is_lit() == light[slot].is_lit() && shown[slot].is_lit()
        == after[slot].is_lit() && (shown[slot] is Absent) == (light[slot] is Absent) && (forall|
        index: int,
    |
        0 <= index < 4096 ==> #[trigger] shown[slot].level(index) == after[slot].level(index)) by {
        assert(slot_valid(light[slot]) && slot_valid(after[slot]));
        assert(light[slot] is Absent || light[slot] is Cached);
        assert(fresh[slot] == light[slot].rewritten());
        assert(slot_like(fresh[slot], after[slot]));
        assert(shown[slot] == after[slot].published());
    }
    assert forall|pos: BlockPos| layout.has_block(pos) implies #[trigger] level_at(
        sw.base,
        shown,
        pos,
    ) == level_at(sw.base, after, pos) && lit_at(sw.base, shown, pos) == lit_at(
        sw.base,
        after,
        pos,
    ) by {
        lemma_cached_block(layout, pos);
        let slot = layout.cached(pos).section_slot as int;
        assert(shown[slot].is_lit() == after[slot].is_lit());
        assert(shown[slot].level(layout.cached(pos).local_index as int) == after[slot].level(
            layout.cached(pos).local_index as int,
        ));
    }
    assert forall|y: int, i: int|
        0 <= i < 9 && #[trigger] layout.section_range.contains(y) implies (
    #[trigger] near_section(sw, shown, y, i)).is_lit() == near_section(sw, light, y, i).is_lit()
        && (near_section(sw, shown, y, i) is Absent) == (near_section(sw, light, y, i) is Absent) by {
        let pos = chunk_section(chunk_near(layout.center, i), y);
        layout.slot_round_trip(pos, 0);
        if layout.has_section(pos) {
            assert(shown[layout.slot_at(pos)].is_lit() == light[layout.slot_at(pos)].is_lit());
        }
    }
}

proof fn lemma_init_around_idle(
    sw: SkyWorld<'_>,
    light: Seq<SlotView>,
    chunk_pos: ChunkPos,
    y: int,
    center_extrudes: bool,
    n: int,
)
    requires
        sw.layout().wf(),
        light.len() == sw.layout().slots(),
        forall|slot: int| 0 <= slot < light.len() ==> !(#[trigger] light[slot]).is_null(),
    ensures
        init_around(sw, light, chunk_pos, y, center_extrudes, n) == light,
    decreases n,
{
    if n > 0 {
        lemma_init_around_idle(sw, light, chunk_pos, y, center_extrudes, n - 1);
        let i = n - 1;
        let (dx, dy, dz) = ((i / 3) % 3 - 1, 1 - i % 3, i / 9 - 1);
        let pos = section_near(chunk_pos, dx, y + dy, dz);
        sw.layout().slot_round_trip(pos, 0);
        if sw.layout().has_section(pos) {
            assert(!light[sw.layout().slot_at(pos)].is_null());
        }
    }
}

proof fn lemma_init_heights_idle(
    sw: SkyWorld<'_>,
    light: Seq<SlotView>,
    chunk_pos: ChunkPos,
    heights: Seq<i32>,
    n: int,
)
    requires
        sw.layout().wf(),
        light.len() == sw.layout().slots(),
        forall|slot: int| 0 <= slot < light.len() ==> !(#[trigger] light[slot]).is_null(),
    ensures
        init_heights(sw, light, chunk_pos, heights, n) == light,
    decreases n,
{
    if n > 0 {
        lemma_init_heights_idle(sw, light, chunk_pos, heights, n - 1);
        lemma_init_around_idle(sw, light, chunk_pos, heights[n - 1] as int, true, 27);
    }
}

/// Sky light that was in equilibrium is in equilibrium again after changes in
/// the active chunk were worked off and published, where no section has to come
/// into being on the way: no block could brighten a neighbor, every level below
/// full light is at most what some neighbor leaves it, and full light comes from
/// above. The light is then ready for the next changes.
pub proof fn sky_changes_reach_equilibrium(
    old_world: LightWorld<'_>,
    sw: SkyWorld<'_>,
    light: Seq<SlotView>,
    positions: Seq<BlockPos>,
)
    requires
        world_plain(sw.base),
        faces_regular(sw.base),
        differ_at(old_world, sw.base, positions),
        state_valid(sw.base, idle_state(light)),
        at_rest(light),
        changes_in_center(sw.base, light, positions),
        heights_even(sw, light),
        in_sky_equilibrium(old_world, light),
    ensures
        ({
            let after = published(
                changes_propagated(sw, start_state(sw.layout(), light), positions).engine.light,
            );
            &&& state_valid(sw.base, idle_state(after))
            &&& at_rest(after)
            &&& heights_even(sw, after)
            &&& in_sky_equilibrium(sw.base, after)
        }),
{
    let w = sw.base;
    let center = sw.layout().center;
    let s = start_state(sw.layout(), light);
    let fresh = fresh_light(light);
    let started = fresh_pass(s);
    lemma_fresh_light(sw, light);
    assert(started.engine.light == fresh);
    lemma_same_equilibrium(old_world, light, fresh);
    let heights = changed_heights(center, positions, positions.len() as int);
    lemma_init_heights_idle(sw, fresh, center, heights, heights.len() as int);
    assert(changes_in_center(w, fresh, positions)) by {
        assert forall|i: int| 0 <= i < positions.len() implies ChunkPos::of_block(
            #[trigger] positions[i],
        ) == w.layout.center && w.layout.has_block(positions[i]) && lit_at(
            w,
            fresh,
            positions[i],
        ) by {
            assert(level_at(w, fresh, positions[i]) == level_at(w, light, positions[i]));
        }
    }
    lemma_change_columns(sw, started, positions, 256);
    let pass = change_columns(sw, started, positions, 256);
    let start = columns_state(w, fresh, pass.increases, pass.removals);
    lemma_columns_written(w, fresh, positions, pass.increases, pass.removals);
    assert(changes_in_center(w, start.light, positions)) by {
        assert forall|i: int| 0 <= i < positions.len() implies ChunkPos::of_block(
            #[trigger] positions[i],
        ) == w.layout.center && w.layout.has_block(positions[i]) && lit_at(
            w,
            start.light,
            positions[i],
        ) by {
            assert(level_at(w, start.light, positions[i]) == level_at(
                w,
                start.light,
                positions[i],
            ));
        }
    }
    lemma_sky_noted(w, start, positions, positions.len() as int);
    let noted = sky_blocks_checked(w, start, positions, positions.len() as int);
    assert(EngineState { light: start.light, ..pass.state.engine } == start);
    assert(changes_propagated(sw, s, positions).engine == after_relight(w, false, noted));
    assert(changes_ready(w, fresh, positions, pass.increases, pass.removals, noted)) by {
        reveal(changes_ready);
    }
    lemma_changes_settle(old_world, w, fresh, positions, pass.increases, pass.removals, noted);
    let after = after_relight(w, false, noted).light;
    lemma_published(sw, light, after);
    lemma_same_equilibrium(w, after, published(after));
}

/// Changes that were noted are worked off to equilibrium.
proof fn lemma_changes_settle(
    old_world: LightWorld<'_>,
    w: LightWorld<'_>,
    light: Seq<SlotView>,
    positions: Seq<BlockPos>,
    increases: Seq<PackedLightQueueEntry>,
    removals: Seq<PackedLightQueueEntry>,
    s: EngineState,
)
    requires
        changes_ready(w, light, positions, increases, removals, s),
        differ_at(old_world, w, positions),
        in_sky_equilibrium(old_world, light),
    ensures
        in_sky_equilibrium(w, after_relight(w, false, s).light),
        state_valid(w, after_relight(w, false, s)),
        same_slots(light, after_relight(w, false, s).light),
{
    let region = queue_window(w);
    let after = after_relight(w, false, s);
    lemma_ready_base(w, light, positions, increases, removals, s);
    lemma_ready_work(w, light, positions, increases, removals, s);
    assert forall|pos: BlockPos, direction: LightAxisDirection|
        region.contains((pos, direction)) implies #[trigger] in_balance(w, s.light, pos, direction)
        || is_pending(w, s, pos, direction) || is_excused(w, s, pos, direction) by {
        lemma_ready_covered(
            old_world,
            w,
            light,
            positions,
            increases,
            removals,
            s,
            pos,
            direction,
        );
    }
    assert forall|pos: BlockPos| w.layout.can_encode(pos) implies #[trigger] sky_supported(
        w,
        s.light,
        pos,
    ) || is_doomed(w, s, pos) by {
        lemma_ready_supported(old_world, w, light, positions, increases, removals, s, pos);
    }
    sky_relight_settles(w, s, region);
    assert(same_slots(light, s.light)) by {
        reveal(changes_ready);
        lemma_columns_written(w, light, positions, increases, removals);
        lemma_same_slots_trans(
            light,
            columns_state(w, light, increases, removals).light,
            s.light,
        );
    }
    lemma_same_slots_trans(light, s.light, after.light);
    assert forall|pos: BlockPos, direction: LightAxisDirection|
        w.layout.can_encode(pos) implies #[trigger] in_balance(
        w,
        after.light,
        pos,
        direction,
    ) by {
        assert(region.contains((pos, direction)));
    }
    assert forall|pos: BlockPos|
        w.layout.can_encode(pos) && w.layout.section_range.min_y() * 16
            <= pos.y implies #[trigger] is_full_below(w, after.light, pos) by {
        assert(is_full_below(old_world, light, pos));
        assert(is_full_below(w, light, pos));
        lemma_ready_above(w, light, positions, increases, removals, s, pos);
        lemma_can_encode_has_block(w.layout, pos);
        lemma_keeps_full_at(w, s.light, after.light, pos);
        if w.layout.has_block(block_above(pos)) {
            lemma_keeps_full_at(w, s.light, after.light, block_above(pos));
        }
    }
}

/// Where full light was kept, a block is fully lit as before, and so is its
/// section.
pub proof fn lemma_keeps_full_at(
    w: LightWorld<'_>,
    a: Seq<SlotView>,
    b: Seq<SlotView>,
    pos: BlockPos,
)
    requires
        w.layout.wf(),
        a.len() == w.layout.slots(),
        keeps_full(w, a, b),
        w.layout.has_block(pos),
    ensures
        level_at(w, b, pos) == 15 <==> level_at(w, a, pos) == 15,
        lit_at(w, b, pos) == lit_at(w, a, pos),
{
    lemma_cached_block(w.layout, pos);
    let slot = w.layout.cached(pos).section_slot as int;
    assert(slot_like(a[slot], b[slot]));
    assert(level_at(w, b, pos) == 15 <==> level_at(w, a, pos) == 15);
}

/// In equilibrium a block below full light is dark when all its neighbors are
/// dark or let no light through to it.
pub proof fn surrounded_blocks_are_dark(w: LightWorld<'_>, light: Seq<SlotView>, pos: BlockPos)
    requires
        world_plain(w),
        state_valid(w, idle_state(light)),
        in_sky_equilibrium(w, light),
        w.layout.can_encode(pos),
        level_at(w, light, pos) < 15,
        forall|direction: LightAxisDirection|
            (#[trigger] open_neighbor(w, light, pos, direction)) matches Some(neighbor) && (
            level_of(light, neighbor) == 0 || w.loss(
                w.state(neighbor),
                w.state(w.layout.cached(pos)),
                direction.spec_opposite(),
            ) == 16),
    ensures
        level_at(w, light, pos) == 0,
{
    assert(sky_supported(w, light, pos));
    if level_at(w, light, pos) != 0 {
        let direction = choose|direction: LightAxisDirection|
            #[trigger] sky_given(w, light, pos, direction);
        assert(open_neighbor(w, light, pos, direction) is Some);
        reveal(is_supported_from);
    }
}

} // verus!
