//! Sky light of a chunk that was lit anew is in balance.
use vstd::prelude::*;

use crate::balance::{
    all_honest, balanced_in, balanced_or_pending_in, covers, encodes, in_balance, is_awaited,
    is_honest, is_pending, is_promised, lemma_promise_stays, lemma_set_block_levels, level_at,
    queue_grew, world_plain,
};
use crate::block_state::{BlockStateId, BlockStateTable};
use crate::cache::LightCacheLayout;
use crate::engine::lemma_window_has_neighbors;
use crate::engine_laws::no_writes;
use crate::engine_measure::{lemma_cached_block, lemma_set_block, state_valid};
use crate::engine_model::{
    after_increase, entry_for, entry_source, level_of, open_neighbor, queue_increase, set_block,
    EngineState, LightWorld,
};
use crate::light_cache::{
    first_lit_above, reset_chunk, section_view, slot_valid, slots_valid, SlotView,
};
use crate::nibble::LightNibbleState;
use crate::packed::uniform;
use crate::packed_queue::{
    axis_bit, LightAxisDirection, LightDirectionSet, LightQueueFlags, PackedLightQueueEntry,
};
use crate::position::{local_coord, section_coord, BlockPos, ChunkPos, Direction, SectionPos};
use crate::propagation::{idle_state, no_flags};
use crate::relight::lemma_queued_entry;
use crate::sky_changes::{
    at_rest, block_above, column_block, fresh_light, heights_even, in_center, lemma_center_block,
    lemma_check_idle, lemma_column, lemma_keeps_full_at, lemma_not_up, near_section, open_above,
    risen,
};
use crate::sky_model::{
    across_edge, any_lit_near, check_null, check_nulls, chunk_lit_from_above, chunk_near,
    chunk_section, column_chunk, descend, edge_block, enter_columns, extruded_level, fresh_pass,
    highest_filled, in_chunk, init_around, init_chunk, init_level, init_section, level_above,
    light_empty_top, not_up, only, pull_edge, pull_edges, pull_levels, section_across,
    section_near, settle_around, settle_chunk, settle_section, sided_flags, sky_stops, spread_edge,
    spread_edges, top_filled, SkyState, SkyWorld,
};
use crate::sky_runs::{center_lit, published, start_state};
use crate::sky_support::{
    full_work, is_full_entry, lemma_full_honest, lemma_set_same_slots, same_slots,
    sky_increase_settles, slot_like,
};
use crate::support::lit_at;

verus! {

/// A section all of whose levels are full or dark, if it has light.
pub open spec fn is_uniform(slot: SlotView, full: bool) -> bool {
    slot.is_lit() ==> forall|index: int|
        0 <= index < 4096 ==> #[trigger] slot.level(index) == if full {
            15u8
        } else {
            0u8
        }
}

/// What is kept or was taken out of a slot is null.
pub open spec fn keeps_null(slot: SlotView) -> bool {
    match slot {
        SlotView::Absent => true,
        SlotView::Removed(nibble) => nibble.updating.state == LightNibbleState::Null
            && nibble.updating.levels == uniform(0),
        SlotView::Cached(_, kept) => kept matches Some(nibble) ==> nibble.updating.state
            == LightNibbleState::Null && nibble.updating.levels == uniform(0),
    }
}

/// The slot belongs to the active chunk.
pub open spec fn is_center_slot(layout: LightCacheLayout, slot: int) -> bool {
    layout.section_at(slot).x == layout.center.x && layout.section_at(slot).z == layout.center.z
}

/// Light before it comes down into the active chunk: the chunk's sections above
/// a height are full, and the others dark.
pub open spec fn is_opened(sw: SkyWorld<'_>, light: Seq<SlotView>, top: int) -> bool {
    &&& light.len() == sw.layout().slots()
    &&& slots_valid(light)
    &&& forall|slot: int|
        0 <= slot < light.len() ==> keeps_null(#[trigger] light[slot]) && (is_center_slot(
            sw.layout(),
            slot,
        ) ==> is_uniform(light[slot], sw.layout().section_at(slot).y > top))
}

/// The highest filled section of the active chunk.
pub open spec fn center_top(sw: SkyWorld<'_>) -> int {
    highest_filled(sw, chunk_section(sw.layout().center, 0), sw.max_chunk_y() - 1)
}

proof fn lemma_highest_filled(sw: SkyWorld<'_>, a: SectionPos, b: SectionPos, y: int)
    requires
        a.x == b.x && a.z == b.z,
    ensures
        highest_filled(sw, a, y) == highest_filled(sw, b, y),
    decreases y - sw.min_chunk_y() + 1,
{
    if y >= sw.min_chunk_y() {
        lemma_highest_filled(sw, a, b, y - 1);
    }
}

/// Section slots changed only where nothing was lit, at one height.
pub open spec fn comes_into_being(
    layout: LightCacheLayout,
    before: Seq<SlotView>,
    after: Seq<SlotView>,
    y: int,
) -> bool {
    &&& after.len() == before.len()
    &&& forall|slot: int|
        0 <= slot < before.len() ==> #[trigger] after[slot] == before[slot] || (
        layout.section_at(slot).y == y && !before[slot].is_lit() && !(before[slot] is Absent)
            && !(after[slot] is Absent))
}

/// Bringing a section into being.
proof fn lemma_init_section(
    sw: SkyWorld<'_>,
    light: Seq<SlotView>,
    pos: SectionPos,
    extrude: bool,
    init_removed: bool,
)
    requires
        sw.layout().wf(),
        sw.layout().in_world(),
        is_opened(sw, light, center_top(sw)),
        extrude ==> !(pos.x == sw.layout().center.x && pos.z == sw.layout().center.z),
    ensures
        ({
            let after = init_section(sw, light, pos, extrude, init_removed);
            &&& is_opened(sw, after, center_top(sw))
            &&& comes_into_being(sw.layout(), light, after, pos.y as int)
            &&& init_removed && !extrude && sw.layout().has_section(pos) && !(section_view(
                sw.layout(),
                light,
                pos,
            ) is Absent) ==> section_view(sw.layout(), after, pos).is_lit()
        }),
{
    let layout = sw.layout();
    let after = init_section(sw, light, pos, extrude, init_removed);
    layout.slot_round_trip(pos, 0);
    let top = center_top(sw);
    if pos.x == layout.center.x && pos.z == layout.center.z {
        lemma_highest_filled(sw, pos, chunk_section(layout.center, 0), sw.max_chunk_y() - 1);
    }
    if layout.has_section(pos) {
        let slot = layout.slot_at(pos);
        assert(slot_valid(light[slot]) && keeps_null(light[slot]));
        lemma_init_slot(sw, light, pos, extrude, init_removed);
        assert forall|other: int| 0 <= other < light.len() implies slot_valid(
            #[trigger] after[other],
        ) && keeps_null(after[other]) && (is_center_slot(layout, other) ==> is_uniform(
            after[other],
            layout.section_at(other).y > top,
        )) by {
            assert(slot_valid(light[other]) && keeps_null(light[other]));
        }
    }
}

/// What bringing a section into being does to its slot.
proof fn lemma_init_slot(
    sw: SkyWorld<'_>,
    light: Seq<SlotView>,
    pos: SectionPos,
    extrude: bool,
    init_removed: bool,
)
    requires
        sw.layout().wf(),
        light.len() == sw.layout().slots(),
        slots_valid(light),
        forall|slot: int| 0 <= slot < light.len() ==> keeps_null(#[trigger] light[slot]),
        sw.layout().has_section(pos),
    ensures
        ({
            let slot = sw.layout().slot_at(pos);
            let after = init_section(sw, light, pos, extrude, init_removed);
            &&& after.len() == light.len()
            &&& forall|other: int|
                0 <= other < light.len() && other != slot ==> #[trigger] after[other]
                    == light[other]
            &&& slot_valid(after[slot])
            &&& keeps_null(after[slot])
            &&& light[slot].is_lit() || light[slot] is Absent ==> after[slot] == light[slot]
            &&& !(light[slot] is Absent) ==> !(after[slot] is Absent)
            &&& !light[slot].is_lit() && !extrude ==> is_uniform(
                after[slot],
                pos.y > highest_filled(sw, pos, sw.max_chunk_y() - 1),
            )
            &&& init_removed && !extrude && !(light[slot] is Absent) ==> after[slot].is_lit()
        }),
{
    let layout = sw.layout();
    let slot = layout.slot_at(pos);
    layout.slot_round_trip(pos, 0);
    let held = section_view(layout, light, pos);
    assert(slot_valid(light[slot]) && keeps_null(light[slot]));
    if held is Cached || (init_removed && held is Removed) {
        let present = if held is Cached {
            light
        } else {
            light.update(slot, held.materialized())
        };
        let current = present[slot];
        assert(slot_valid(current) && keeps_null(current));
        if current.is_null() && extrude && !(pos.y > highest_filled(
            sw,
            pos,
            sw.max_chunk_y() - 1,
        )) {
            let above = first_lit_above(layout, present, pos, pos.y + 1);
            lemma_first_lit_above(layout, present, pos, pos.y + 1);
            if above < layout.min_y() + layout.depth() {
                let source = SectionPos { x: pos.x, y: above as i32, z: pos.z };
                layout.slot_round_trip(source, 0);
                assert(slot_valid(present[layout.slot_at(source)]));
                lemma_extruded_valid(current.non_null(), present[layout.slot_at(source)]);
            }
        }
    }
}

proof fn lemma_first_lit_above(
    layout: LightCacheLayout,
    slots: Seq<SlotView>,
    pos: SectionPos,
    y: int,
)
    ensures
        y <= layout.min_y() + layout.depth() ==> y <= first_lit_above(layout, slots, pos, y)
            <= layout.min_y() + layout.depth(),
    decreases layout.min_y() + layout.depth() - y,
{
    if y < layout.min_y() + layout.depth() && !slots[layout.slot_at(
        SectionPos { x: pos.x, y: y as i32, z: pos.z },
    )].is_lit() {
        lemma_first_lit_above(layout, slots, pos, y + 1);
    }
}

proof fn lemma_extruded_valid(slot: SlotView, above: SlotView)
    requires
        slot_valid(slot),
        keeps_null(slot),
        slot is Cached,
        slot_valid(above),
    ensures
        slot_valid(slot.extruded(above)),
        keeps_null(slot.extruded(above)),
{
    if let SlotView::Cached(source, _) = above {
        let levels = crate::nibble::repeat_bottom_row(source.updating.levels);
        assert forall|index: int| 0 <= index < 4096 implies #[trigger] levels[index] < 16 by {
            assert(source.updating.levels[index % 256] < 16);
        }
    }
}

/// The chunks of the same sections take part.
pub open spec fn same_absent(a: Seq<SlotView>, b: Seq<SlotView>) -> bool {
    &&& a.len() == b.len()
    &&& forall|slot: int|
        0 <= slot < a.len() ==> (#[trigger] b[slot] is Absent) == (a[slot] is Absent)
}

/// The window and its light are such as a pass starts from.
pub open spec fn may_open(sw: SkyWorld<'_>, light: Seq<SlotView>) -> bool {
    &&& sw.layout().wf()
    &&& sw.layout().in_world()
    &&& is_opened(sw, light, center_top(sw))
}

proof fn lemma_init_around(
    sw: SkyWorld<'_>,
    light: Seq<SlotView>,
    y: int,
    n: int,
)
    requires
        may_open(sw, light),
        0 <= n <= 27,
    ensures
        ({
            let after = init_around(sw, light, sw.layout().center, y, false, n);
            may_open(sw, after) && same_absent(light, after)
        }),
    decreases n,
{
    if n > 0 {
        lemma_init_around(sw, light, y, n - 1);
        let before = init_around(sw, light, sw.layout().center, y, false, n - 1);
        let i = n - 1;
        let (dx, dy, dz) = ((i / 3) % 3 - 1, 1 - i % 3, i / 9 - 1);
        assert(-1 <= dx <= 1 && -1 <= dz <= 1);
        lemma_init_section(
            sw,
            before,
            section_near(sw.layout().center, dx, y + dy, dz),
            dx != 0 || dz != 0 || false,
            false,
        );
    }
}

proof fn lemma_init_chunk(sw: SkyWorld<'_>, light: Seq<SlotView>, y: int)
    requires
        may_open(sw, light),
    ensures
        ({
            let after = init_chunk(sw, light, sw.layout().center, true, y);
            may_open(sw, after) && same_absent(light, after)
        }),
    decreases y - sw.min_chunk_y() + 1,
{
    if y >= sw.min_chunk_y() {
        let center = sw.layout().center;
        let next = if sw.is_filled(chunk_section(center, y)) {
            init_around(sw, light, center, y, !true, 27)
        } else {
            light
        };
        lemma_init_around(sw, light, y, 27);
        lemma_init_chunk(sw, next, y - 1);
    }
}

proof fn lemma_settle_section(
    sw: SkyWorld<'_>,
    light: Seq<SlotView>,
    chunk_pos: ChunkPos,
    y: int,
    extrude: bool,
)
    requires
        may_open(sw, light),
        extrude ==> chunk_pos != sw.layout().center,
    ensures
        ({
            let after = settle_section(sw, light, chunk_pos, y, extrude);
            may_open(sw, after) && same_absent(light, after)
        }),
{
    let layout = sw.layout();
    let pos = chunk_section(chunk_pos, y);
    layout.slot_round_trip(pos, 0);
    lemma_init_section(sw, light, pos, extrude, false);
    if layout.has_section(pos) {
        let slot = layout.slot_at(pos);
        assert(slot_valid(light[slot]) && keeps_null(light[slot]));
        let nulled = light.update(slot, light[slot].nulled());
        assert forall|other: int| 0 <= other < light.len() implies slot_valid(
            #[trigger] nulled[other],
        ) && keeps_null(nulled[other]) && (is_center_slot(layout, other) ==> is_uniform(
            nulled[other],
            layout.section_at(other).y > center_top(sw),
        )) by {
            assert(slot_valid(light[other]) && keeps_null(light[other]));
        }
    }
}

proof fn lemma_settle_chunk(
    sw: SkyWorld<'_>,
    light: Seq<SlotView>,
    chunk_pos: ChunkPos,
    extrude: bool,
    y: int,
)
    requires
        may_open(sw, light),
        extrude ==> chunk_pos != sw.layout().center,
    ensures
        ({
            let after = settle_chunk(sw, light, chunk_pos, extrude, y);
            may_open(sw, after) && same_absent(light, after)
        }),
    decreases y - sw.layout().section_range.min_y() + 1,
{
    if y >= sw.layout().section_range.min_y() {
        lemma_settle_section(sw, light, chunk_pos, y, extrude);
        lemma_settle_chunk(
            sw,
            settle_section(sw, light, chunk_pos, y, extrude),
            chunk_pos,
            extrude,
            y - 1,
        );
    }
}

proof fn lemma_settle_around(sw: SkyWorld<'_>, light: Seq<SlotView>, n: int)
    requires
        may_open(sw, light),
        0 <= n <= 9,
    ensures
        ({
            let after = settle_around(sw, light, sw.layout().center, true, n);
            may_open(sw, after) && same_absent(light, after)
        }),
    decreases n,
{
    if n > 0 {
        let center = sw.layout().center;
        lemma_settle_around(sw, light, n - 1);
        assert(n - 1 != 4 ==> chunk_near(center, n - 1) != center);
        lemma_settle_chunk(
            sw,
            settle_around(sw, light, center, true, n - 1),
            chunk_near(center, n - 1),
            n - 1 != 4 || !true,
            sw.layout().section_range.max_y() - 1,
        );
    }
}

/// The light that the active chunk is lit from.
pub open spec fn opened_light(sw: SkyWorld<'_>, light: Seq<SlotView>) -> Seq<SlotView> {
    let center = sw.layout().center;
    settle_around(
        sw,
        init_chunk(
            sw,
            reset_chunk(sw.layout(), light, center),
            center,
            true,
            sw.max_chunk_y() - 1,
        ),
        center,
        true,
        9,
    )
}

/// Light is opened when the chunk's sections were reset and brought into being.
proof fn lemma_opened_light(sw: SkyWorld<'_>, light: Seq<SlotView>)
    requires
        sw.layout().wf(),
        sw.layout().in_world(),
        light.len() == sw.layout().slots(),
        slots_valid(light),
        at_rest(light),
    ensures
        may_open(sw, opened_light(sw, light)),
        same_absent(light, opened_light(sw, light)),
{
    let layout = sw.layout();
    let reset = reset_chunk(layout, light, layout.center);
    assert forall|slot: int| 0 <= slot < light.len() implies slot_valid(#[trigger] reset[slot])
        && keeps_null(reset[slot]) && (is_center_slot(layout, slot) ==> is_uniform(
        reset[slot],
        layout.section_at(slot).y > center_top(sw),
    )) && (reset[slot] is Absent) == (light[slot] is Absent) by {
        assert(slot_valid(light[slot]));
        assert(light[slot] is Absent || light[slot] is Cached);
    }
    lemma_init_chunk(sw, reset, sw.max_chunk_y() - 1);
    let begun = init_chunk(sw, reset, layout.center, true, sw.max_chunk_y() - 1);
    lemma_settle_around(sw, begun, 9);
}

/// A pass takes null sections out, and leaves the light opened.
proof fn lemma_fresh_opened(sw: SkyWorld<'_>, light: Seq<SlotView>)
    requires
        may_open(sw, light),
    ensures
        may_open(sw, fresh_light(light)),
        same_absent(light, fresh_light(light)),
        forall|slot: int|
            0 <= slot < light.len() ==> !(#[trigger] fresh_light(light)[slot]).is_null(),
{
    let layout = sw.layout();
    let fresh = fresh_light(light);
    assert forall|slot: int| 0 <= slot < light.len() implies slot_valid(#[trigger] fresh[slot])
        && keeps_null(fresh[slot]) && (is_center_slot(layout, slot) ==> is_uniform(
        fresh[slot],
        layout.section_at(slot).y > center_top(sw),
    )) && (fresh[slot] is Absent) == (light[slot] is Absent) && !fresh[slot].is_null() by {
        assert(slot_valid(light[slot]) && keeps_null(light[slot]));
        assert(fresh[slot] == light[slot].rewritten());
        if fresh[slot].is_lit() {
            assert(fresh[slot] == light[slot]);
        }
    }
}

/// In the active chunk the highest section that is cached and filled is the
/// highest filled one, as far as all of its sections are known.
proof fn lemma_top_filled(sw: SkyWorld<'_>, y: int)
    requires
        center_known(sw),
        sw.min_chunk_y() - 1 <= y < sw.max_chunk_y(),
    ensures
        top_filled(sw, sw.layout().center, y) == highest_filled(
            sw,
            chunk_section(sw.layout().center, 0),
            y,
        ),
        sw.min_chunk_y() - 2 <= top_filled(sw, sw.layout().center, y) <= y,
        top_filled(sw, sw.layout().center, y) != sw.min_chunk_y() - 1,
    decreases y - sw.min_chunk_y() + 2,
{
    let center = sw.layout().center;
    let pos = chunk_section(center, y);
    assert(pos == SectionPos { x: center.x, y: y as i32, z: center.z });
    if y >= sw.min_chunk_y() {
        assert((sw.section_emptiness)(pos) is Some);
        if !sw.is_cached_filled(pos) {
            lemma_top_filled(sw, y - 1);
        }
    } else {
        assert(top_filled(sw, center, y - 1) == y - 1);
    }
}

/// Whether each section of the active chunk is empty is known, and there is
/// nothing above and below them.
pub open spec fn center_known(sw: SkyWorld<'_>) -> bool {
    forall|y: int|
        sw.layout().section_range.contains(y) ==> if sw.min_chunk_y() <= y < sw.max_chunk_y() {
            (sw.section_emptiness)(#[trigger] chunk_section(sw.layout().center, y)) is Some
        } else {
            !sw.is_cached_filled(chunk_section(sw.layout().center, y))
        }
}

/// Blocks of sections that are not filled are air, and air stops no light.
pub open spec fn air_is_clear(sw: SkyWorld<'_>) -> bool {
    &&& sw.base.table.info(sw.base.table.spec_air()).light_dampening == 0
    &&& forall|pos: BlockPos|
        sw.layout().has_block(pos) && !sw.is_cached_filled(SectionPos::of_block(pos))
            ==> sw.base.state(#[trigger] sw.layout().cached(pos)) == sw.base.table.spec_air()
}

/// Sections are valid, and what is kept or was taken out is null.
pub open spec fn is_sound(sw: SkyWorld<'_>, light: Seq<SlotView>) -> bool {
    &&& light.len() == sw.layout().slots()
    &&& slots_valid(light)
    &&& forall|slot: int| 0 <= slot < light.len() ==> keeps_null(#[trigger] light[slot])
}

/// The active chunk's section at a height.
pub open spec fn center_section(sw: SkyWorld<'_>, light: Seq<SlotView>, y: int) -> SlotView {
    section_view(sw.layout(), light, chunk_section(sw.layout().center, y))
}

/// Where a section around the active chunk has light, the chunk's own has.
pub open spec fn is_center_even(sw: SkyWorld<'_>, light: Seq<SlotView>, y: int) -> bool {
    forall|i: int|
        0 <= i < 9 && (#[trigger] near_section(sw, light, y, i)).is_lit() ==> center_section(
            sw,
            light,
            y,
        ).is_lit()
}

/// A height was looked at.
pub open spec fn was_checked(sw: SkyWorld<'_>, s: SkyState, y: int) -> bool {
    sw.layout().section_range.contains(y) && s.checked[y - sw.layout().section_range.min_y()]
}

/// Above a block there is full light, or nothing is lit and will not be.
pub open spec fn is_below_full(sw: SkyWorld<'_>, s: SkyState, pos: BlockPos) -> bool {
    if open_above(sw.base, s.engine.light, pos) {
        level_at(sw.base, s.engine.light, block_above(pos)) == 15
    } else {
        was_checked(sw, s, section_coord(block_above(pos).y as int))
    }
}

/// A block of the active chunk has light as far as it came down: it is fully lit
/// above the filled sections. In them it is dark, or full light came down to it.
pub open spec fn is_lit_from_above(
    sw: SkyWorld<'_>,
    s: SkyState,
    top: int,
    pos: BlockPos,
) -> bool {
    lit_at(sw.base, s.engine.light, pos) ==> if section_coord(pos.y as int) > top {
        level_at(sw.base, s.engine.light, pos) == 15
    } else {
        level_at(sw.base, s.engine.light, pos) == 0 || (level_at(sw.base, s.engine.light, pos)
            == 15 && s.engine.queues.increase.contains(risen(sw.base, pos)) && is_below_full(
            sw,
            s,
            pos,
        ) && sky_enters(sw, s.engine.light, pos.x, pos.z, pos.y as int))
    }
}

/// A block of the active chunk in one of the light sections.
pub open spec fn in_center_light(sw: SkyWorld<'_>, pos: BlockPos) -> bool {
    in_chunk(sw.layout().center, pos) && sw.layout().section_range.contains(
        section_coord(pos.y as int),
    )
}

/// Light is coming down into the active chunk.
pub open spec fn is_descending(sw: SkyWorld<'_>, s: SkyState) -> bool {
    &&& world_plain(sw.base)
    &&& center_top(sw) < sw.max_chunk_y()
    &&& is_sound(sw, s.engine.light)
    &&& s.checked.len() == sw.layout().section_range.count()
    &&& full_work(sw.base, s.engine)
    &&& forall|y: int| sw.layout().section_range.contains(y) ==> !(#[trigger] center_section(sw, s.engine.light, y) is Absent)
    &&& forall|y: int| #[trigger] was_checked(sw, s, y) ==> is_center_even(sw, s.engine.light, y)
    &&& forall|pos: BlockPos| in_center_light(sw, pos) ==> #[trigger] is_lit_from_above(sw, s, center_top(sw), pos)
}

/// What was queued and looked at stays so, and heights that were looked at keep
/// the sections that have light.
pub open spec fn goes_on(sw: SkyWorld<'_>, a: SkyState, b: SkyState) -> bool {
    &&& queue_grew(a.engine, b.engine)
    &&& b.engine.queues.decrease == a.engine.queues.decrease
    &&& b.engine.light.len() == a.engine.light.len()
    &&& forall|y: int| #[trigger] was_checked(sw, a, y) ==> was_checked(sw, b, y)
    &&& forall|slot: int|
        0 <= slot < a.engine.light.len() && was_checked(
            sw,
            a,
            sw.layout().section_at(slot).y as int,
        ) ==> (#[trigger] b.engine.light[slot]).is_lit() == a.engine.light[slot].is_lit()
    &&& heights_even(sw, a.engine.light) ==> same_lit(a.engine.light, b.engine.light)
    &&& stays_full(sw, a.engine.light, b.engine.light)
}

/// Fully lit blocks stay fully lit.
pub open spec fn stays_full(sw: SkyWorld<'_>, a: Seq<SlotView>, b: Seq<SlotView>) -> bool {
    forall|pos: BlockPos|
        sw.layout().has_block(pos) && #[trigger] level_at(sw.base, a, pos) == 15 ==> level_at(
            sw.base,
            b,
            pos,
        ) == 15
}

/// The same sections have light, are null and take part.
pub open spec fn same_lit(a: Seq<SlotView>, b: Seq<SlotView>) -> bool {
    &&& a.len() == b.len()
    &&& forall|slot: int|
        0 <= slot < a.len() ==> (#[trigger] b[slot]).is_lit() == a[slot].is_lit() && (
        b[slot] is Absent) == (a[slot] is Absent) && b[slot].is_null() == a[slot].is_null()
}

/// Heights are even by which sections have light and take part.
pub proof fn lemma_even_stays(sw: SkyWorld<'_>, a: Seq<SlotView>, b: Seq<SlotView>)
    requires
        sw.layout().wf(),
        a.len() == sw.layout().slots(),
        same_lit(a, b),
        heights_even(sw, a),
    ensures
        heights_even(sw, b),
{
    let layout = sw.layout();
    assert forall|y: int, i: int| 0 <= i < 9 implies (#[trigger] near_section(
        sw,
        b,
        y,
        i,
    )).is_lit() == near_section(sw, a, y, i).is_lit() && (near_section(sw, b, y, i) is Absent)
        == (near_section(sw, a, y, i) is Absent) by {
        let pos = chunk_section(chunk_near(layout.center, i), y);
        layout.slot_round_trip(pos, 0);
        if layout.has_section(pos) {
            assert(b[layout.slot_at(pos)].is_lit() == a[layout.slot_at(pos)].is_lit());
        }
    }
    assert forall|y: int, i: int, j: int|
        0 <= i < 9 && 0 <= j < 9 && layout.section_range.contains(y) && (#[trigger] near_section(
            sw,
            b,
            y,
            i,
        )).is_lit() implies (#[trigger] near_section(sw, b, y, j)).is_lit() || near_section(
        sw,
        b,
        y,
        j,
    ) is Absent by {
        assert(near_section(sw, a, y, i).is_lit());
        assert(near_section(sw, a, y, j).is_lit() || near_section(sw, a, y, j) is Absent);
    }
}

proof fn lemma_goes_on(sw: SkyWorld<'_>, a: SkyState, b: SkyState, c: SkyState)
    requires
        sw.layout().wf(),
        a.engine.light.len() == sw.layout().slots(),
        goes_on(sw, a, b),
        goes_on(sw, b, c),
    ensures
        goes_on(sw, a, c),
{
    if heights_even(sw, a.engine.light) {
        lemma_even_stays(sw, a.engine.light, b.engine.light);
        assert forall|slot: int| 0 <= slot < a.engine.light.len() implies (
        #[trigger] c.engine.light[slot]).is_lit() == a.engine.light[slot].is_lit() && (
        c.engine.light[slot] is Absent) == (a.engine.light[slot] is Absent)
            && c.engine.light[slot].is_null() == a.engine.light[slot].is_null() by {
            assert(b.engine.light[slot].is_lit() == a.engine.light[slot].is_lit());
        }
    }
    assert forall|k: int| 0 <= k < a.engine.queues.increase.len() implies
        #[trigger] c.engine.queues.increase[k] == a.engine.queues.increase[k] by {
        assert(b.engine.queues.increase[k] == a.engine.queues.increase[k]);
    }
    assert forall|slot: int|
        0 <= slot < a.engine.light.len() && was_checked(
            sw,
            a,
            sw.layout().section_at(slot).y as int,
        ) implies (#[trigger] c.engine.light[slot]).is_lit() == a.engine.light[slot].is_lit() by {
        assert(b.engine.light[slot].is_lit() == a.engine.light[slot].is_lit());
    }
    assert forall|y: int| #[trigger] was_checked(sw, a, y) implies was_checked(sw, c, y) by {
        assert(was_checked(sw, b, y));
    }
    assert forall|pos: BlockPos|
        sw.layout().has_block(pos) && #[trigger] level_at(sw.base, a.engine.light, pos)
            == 15 implies level_at(sw.base, c.engine.light, pos) == 15 by {
        assert(level_at(sw.base, b.engine.light, pos) == 15);
    }
}

/// What is queued stays queued.
proof fn lemma_still_queued(sw: SkyWorld<'_>, a: SkyState, b: SkyState, entry: PackedLightQueueEntry)
    requires
        goes_on(sw, a, b),
        a.engine.queues.increase.contains(entry),
    ensures
        b.engine.queues.increase.contains(entry),
{
    let k = choose|k: int|
        0 <= k < a.engine.queues.increase.len() && a.engine.queues.increase[k] == entry;
    assert(b.engine.queues.increase[k] == entry);
}

pub proof fn lemma_init_level(sw: SkyWorld<'_>, light: Seq<SlotView>, y: int, n: int)
    requires
        sw.layout().wf(),
        sw.layout().in_world(),
        is_sound(sw, light),
        sw.layout().section_range.contains(y),
        0 <= n <= 9,
    ensures
        ({
            let after = init_level(sw, light, sw.layout().center, y, false, n);
            let slot = sw.layout().slot_at(chunk_section(sw.layout().center, y));
            &&& is_sound(sw, after)
            &&& comes_into_being(sw.layout(), light, after, y)
            &&& !light[slot].is_lit() ==> is_uniform(after[slot], y > center_top(sw))
            &&& n > 4 && !(light[slot] is Absent) ==> after[slot].is_lit()
        }),
    decreases n,
{
    let layout = sw.layout();
    let mine = chunk_section(layout.center, y);
    let slot = layout.slot_at(mine);
    layout.slot_round_trip(mine, 0);
    if n > 0 {
        lemma_init_level(sw, light, y, n - 1);
        let before = init_level(sw, light, layout.center, y, false, n - 1);
        let after = init_level(sw, light, layout.center, y, false, n);
        let pos = chunk_section(chunk_near(layout.center, n - 1), y);
        layout.slot_round_trip(pos, 0);
        assert(layout.has_section(pos));
        assert(n - 1 == 4 ==> pos == mine);
        assert(n - 1 != 4 ==> pos != mine);
        lemma_highest_filled(sw, mine, chunk_section(layout.center, 0), sw.max_chunk_y() - 1);
        lemma_init_slot(sw, before, pos, n - 1 != 4 || false, true);
        assert forall|other: int| 0 <= other < light.len() implies slot_valid(
            #[trigger] after[other],
        ) && keeps_null(after[other]) by {
            assert(slot_valid(before[other]) && keeps_null(before[other]));
        }
        assert forall|other: int| 0 <= other < light.len() implies #[trigger] after[other]
            == light[other] || (layout.section_at(other).y == y && !light[other].is_lit() && !(
        light[other] is Absent) && !(after[other] is Absent)) by {
            assert(before[other] == light[other] || !(before[other] is Absent));
        }
    }
}

/// Looking at a height while light comes down.
#[verifier::rlimit(30)]
proof fn lemma_check_descending(sw: SkyWorld<'_>, s: SkyState, y: int)
    requires
        is_descending(sw, s),
    ensures
        ({
            let after = check_null(sw, s, sw.layout().center, y, false);
            &&& is_descending(sw, after)
            &&& goes_on(sw, s, after)
            &&& after.engine.queues == s.engine.queues
            &&& sw.layout().section_range.contains(y) ==> was_checked(sw, after, y)
            &&& forall|pos: BlockPos|
                sw.layout().has_block(pos) && #[trigger] is_below_full(sw, s, pos)
                    ==> is_below_full(sw, after, pos)
        }),
{
    let layout = sw.layout();
    let w = sw.base;
    let range = layout.section_range;
    let after = check_null(sw, s, layout.center, y, false);
    if range.contains(y) && !was_checked(sw, s, y) {
        let light = s.engine.light;
        let next = after.engine.light;
        lemma_init_level(sw, light, y, 9);
        assert(is_sound(sw, next) && comes_into_being(layout, light, next, y));
        if heights_even(sw, light) {
            lemma_check_idle(sw, s, y, false);
        }
        assert(stays_full(sw, light, next)) by {
            assert forall|pos: BlockPos|
                layout.has_block(pos) && #[trigger] level_at(w, light, pos)
                    == 15 implies level_at(w, next, pos) == 15 by {
                lemma_check_level(sw, light, next, y, pos);
            }
        }
        assert forall|k: int| #[trigger] was_checked(sw, s, k) implies was_checked(sw, after, k) by {}
        assert forall|pos: BlockPos| layout.has_block(pos) && #[trigger] is_below_full(
            sw,
            s,
            pos,
        ) implies is_below_full(sw, after, pos) by {
            lemma_check_below(sw, s, after, y, pos);
        }
        assert forall|k: int| 0 <= k < after.engine.queues.increase.len() implies is_full_entry(
            w,
            next,
            #[trigger] after.engine.queues.increase[k],
        ) by {
            let entry = s.engine.queues.increase[k];
            assert(is_full_entry(w, light, entry));
            if let Some(block) = entry_source(layout, entry) {
                lemma_check_level(sw, light, next, y, block.block_pos);
            }
        }
        assert forall|k: int| range.contains(k) implies !(#[trigger] center_section(
            sw,
            next,
            k,
        ) is Absent) by {
            assert(!(center_section(sw, light, k) is Absent));
            layout.slot_round_trip(chunk_section(layout.center, k), 0);
        }
        assert forall|k: int| #[trigger] was_checked(sw, after, k) implies is_center_even(
            sw,
            next,
            k,
        ) by {
            lemma_check_even(sw, s, after, y, k);
        }
        assert forall|pos: BlockPos|
            in_center_light(sw, pos) implies #[trigger] is_lit_from_above(
            sw,
            after,
            center_top(sw),
            pos,
        ) by {
            assert(is_lit_from_above(sw, s, center_top(sw), pos));
            lemma_check_block(sw, s, after, y, pos);
        }
    }
}

/// Levels that are not dark stay when sections come into being.
proof fn lemma_check_level(
    sw: SkyWorld<'_>,
    light: Seq<SlotView>,
    next: Seq<SlotView>,
    y: int,
    pos: BlockPos,
)
    requires
        world_plain(sw.base),
        is_sound(sw, light),
        comes_into_being(sw.layout(), light, next, y),
        sw.layout().has_block(pos),
    ensures
        lit_at(sw.base, light, pos) ==> lit_at(sw.base, next, pos) && level_at(sw.base, next, pos)
            == level_at(sw.base, light, pos),
        !lit_at(sw.base, light, pos) ==> level_at(sw.base, light, pos) == 0,
        lit_at(sw.base, next, pos) && !lit_at(sw.base, light, pos) ==> section_coord(pos.y as int)
            == y,
{
    let layout = sw.layout();
    lemma_cached_block(layout, pos);
    layout.slot_round_trip(SectionPos::of_block(pos), 0);
    let slot = layout.cached(pos).section_slot as int;
    assert(next[slot] == light[slot] || (layout.section_at(slot).y == y
        && !light[slot].is_lit()));
    assert(slot_valid(light[slot]));
}

proof fn lemma_check_below(
    sw: SkyWorld<'_>,
    s: SkyState,
    after: SkyState,
    y: int,
    pos: BlockPos,
)
    requires
        world_plain(sw.base),
        is_sound(sw, s.engine.light),
        comes_into_being(sw.layout(), s.engine.light, after.engine.light, y),
        !was_checked(sw, s, y),
        forall|k: int| #[trigger] was_checked(sw, s, k) ==> was_checked(sw, after, k),
        sw.layout().has_block(pos),
        is_below_full(sw, s, pos),
    ensures
        is_below_full(sw, after, pos),
{
    let over = block_above(pos);
    if sw.layout().has_block(over) {
        lemma_check_level(sw, s.engine.light, after.engine.light, y, over);
    }
}

proof fn lemma_check_even(sw: SkyWorld<'_>, s: SkyState, after: SkyState, y: int, k: int)
    requires
        is_descending(sw, s),
        sw.layout().section_range.contains(y),
        !was_checked(sw, s, y),
        after == check_null(sw, s, sw.layout().center, y, false),
        comes_into_being(sw.layout(), s.engine.light, after.engine.light, y),
        was_checked(sw, after, k),
    ensures
        is_center_even(sw, after.engine.light, k),
{
    let layout = sw.layout();
    let light = s.engine.light;
    let next = after.engine.light;
    let mine = chunk_section(layout.center, k);
    layout.slot_round_trip(mine, 0);
    assert(!(center_section(sw, light, k) is Absent));
    lemma_init_level(sw, light, y, 9);
    assert forall|i: int| 0 <= i < 9 && (#[trigger] near_section(
        sw,
        next,
        k,
        i,
    )).is_lit() implies center_section(sw, next, k).is_lit() by {
        let pos = chunk_section(chunk_near(layout.center, i), k);
        layout.slot_round_trip(pos, 0);
        if k != y {
            assert(was_checked(sw, s, k));
            assert(near_section(sw, light, k, i).is_lit());
            assert(center_section(sw, light, k).is_lit());
        } else if !any_lit_near(sw, light, layout.center, y) {
            assert(section_view(
                layout,
                light,
                chunk_section(chunk_near(layout.center, i), y),
            ).is_lit());
        }
    }
}

proof fn lemma_check_block(
    sw: SkyWorld<'_>,
    s: SkyState,
    after: SkyState,
    y: int,
    pos: BlockPos,
)
    requires
        is_descending(sw, s),
        sw.layout().section_range.contains(y),
        !was_checked(sw, s, y),
        after == check_null(sw, s, sw.layout().center, y, false),
        comes_into_being(sw.layout(), s.engine.light, after.engine.light, y),
        forall|k: int| #[trigger] was_checked(sw, s, k) ==> was_checked(sw, after, k),
        in_center_light(sw, pos),
        is_lit_from_above(sw, s, center_top(sw), pos),
    ensures
        is_lit_from_above(sw, after, center_top(sw), pos),
{
    let layout = sw.layout();
    let light = s.engine.light;
    let next = after.engine.light;
    assert(layout.has_block(pos));
    lemma_check_level(sw, light, next, y, pos);
    if lit_at(sw.base, light, pos) {
        if is_below_full(sw, s, pos) {
            lemma_check_below(sw, s, after, y, pos);
            lemma_over(sw, pos);
            if layout.has_block(block_above(pos)) {
                lemma_check_level(sw, light, next, y, block_above(pos));
            }
        }
    } else if lit_at(sw.base, next, pos) {
        lemma_init_level(sw, light, y, 9);
        lemma_cached_block(layout, pos);
        let mine = chunk_section(layout.center, y);
        assert(SectionPos::of_block(pos) == mine);
        let slot = layout.slot_at(mine);
        assert(is_uniform(next[slot], y > center_top(sw)));
        assert(next[slot].level(layout.cached(pos).local_index as int) == level_at(
            sw.base,
            next,
            pos,
        ));
    }
}

/// The state after full light came down to a block.
spec fn block_filled(sw: SkyWorld<'_>, s: SkyState, pos: BlockPos) -> SkyState {
    let queued = queue_increase(
        sw.layout(),
        s.engine,
        pos,
        15,
        not_up(),
        sw.base.shape_flags(sw.block_state(pos)),
    );
    SkyState {
        engine: EngineState {
            light: set_block(queued.light, sw.layout().cached(pos), 15),
            ..queued
        },
        ..s
    }
}

/// Slots that are alike have light, take part and keep alike.
pub proof fn lemma_alike_sections(
    sw: SkyWorld<'_>,
    a: Seq<SlotView>,
    b: Seq<SlotView>,
)
    requires
        sw.layout().wf(),
        a.len() == sw.layout().slots(),
        same_slots(a, b),
    ensures
        forall|slot: int|
            0 <= slot < a.len() ==> (#[trigger] b[slot]).is_lit() == a[slot].is_lit() && (
            b[slot] is Absent) == (a[slot] is Absent) && b[slot].is_null() == a[slot].is_null()
                && (keeps_null(a[slot]) ==> keeps_null(b[slot])),
        forall|y: int, i: int|
            0 <= i < 9 ==> (#[trigger] near_section(sw, b, y, i)).is_lit() == near_section(
                sw,
                a,
                y,
                i,
            ).is_lit(),
        forall|y: int|
            (#[trigger] center_section(sw, b, y)).is_lit() == center_section(sw, a, y).is_lit()
                && (center_section(sw, b, y) is Absent) == (center_section(sw, a, y) is Absent),
{
    let layout = sw.layout();
    assert forall|slot: int| 0 <= slot < a.len() implies (#[trigger] b[slot]).is_lit()
        == a[slot].is_lit() && (b[slot] is Absent) == (a[slot] is Absent) && b[slot].is_null()
        == a[slot].is_null() && (keeps_null(a[slot]) ==> keeps_null(b[slot])) by {
        assert(slot_like(a[slot], b[slot]));
    }
    assert forall|y: int, i: int| 0 <= i < 9 implies (#[trigger] near_section(
        sw,
        b,
        y,
        i,
    )).is_lit() == near_section(sw, a, y, i).is_lit() by {
        let pos = chunk_section(chunk_near(layout.center, i), y);
        layout.slot_round_trip(pos, 0);
        if layout.has_section(pos) {
            assert(b[layout.slot_at(pos)].is_lit() == a[layout.slot_at(pos)].is_lit());
        }
    }
    assert forall|y: int|
        (#[trigger] center_section(sw, b, y)).is_lit() == center_section(sw, a, y).is_lit() && (
        center_section(sw, b, y) is Absent) == (center_section(sw, a, y) is Absent) by {
        let pos = chunk_section(layout.center, y);
        layout.slot_round_trip(pos, 0);
        if layout.has_section(pos) {
            assert(b[layout.slot_at(pos)].is_lit() == a[layout.slot_at(pos)].is_lit());
        }
    }
}

/// The block above a block of the filled sections takes part.
proof fn lemma_over(sw: SkyWorld<'_>, pos: BlockPos)
    requires
        world_plain(sw.base),
        in_center_light(sw, pos),
    ensures
        block_above(pos) == column_block(pos.x, pos.y + 1, pos.z),
        section_coord(pos.y as int) < sw.layout().section_range.max_y() - 1
            ==> sw.layout().has_block(block_above(pos)),
{
    let layout = sw.layout();
    assert(layout.has_block(pos));
    lemma_window_has_neighbors(layout, pos);
}

/// Full light comes down to one more block.
#[verifier::rlimit(30)]
proof fn lemma_block_filled(sw: SkyWorld<'_>, s: SkyState, pos: BlockPos)
    requires
        is_descending(sw, s),
        in_center_light(sw, pos),
        lit_at(sw.base, s.engine.light, pos),
        is_below_full(sw, s, pos),
        sky_enters(sw, s.engine.light, pos.x, pos.z, pos.y as int),
        sw.layout().has_block(block_above(pos)),
    ensures
        ({
            let after = block_filled(sw, s, pos);
            &&& is_descending(sw, after)
            &&& goes_on(sw, s, after)
            &&& after.engine.queues.increase.contains(risen(sw.base, pos))
            &&& level_at(sw.base, after.engine.light, pos) == 15
            &&& lit_at(sw.base, after.engine.light, pos)
            &&& after.checked == s.checked
        }),
{
    let layout = sw.layout();
    let w = sw.base;
    let light = s.engine.light;
    let after = block_filled(sw, s, pos);
    let next = after.engine.light;
    let entry = risen(w, pos);
    assert(layout.has_block(pos) && layout.can_encode(pos));
    assert(sw.block_state(pos) == w.state(layout.cached(pos)));
    lemma_cached_block(layout, pos);
    lemma_set_block(light, layout.cached(pos), 15);
    lemma_set_block_levels(w, light, pos, 15, pos);
    lemma_set_same_slots(w, light, pos, 15);
    lemma_alike_sections(sw, light, next);
    lemma_not_up();
    lemma_queued_entry(w, pos, 15, not_up(), w.shape_flags(w.state(layout.cached(pos))));
    assert(after.engine.queues.increase == s.engine.queues.increase.push(entry));
    assert(after.engine.queues.increase[s.engine.queues.increase.len() as int] == entry);
    assert(goes_on(sw, s, after)) by {
        assert forall|y: int| #[trigger] was_checked(sw, s, y) implies was_checked(sw, after, y) by {}
        assert forall|other: BlockPos|
            layout.has_block(other) && #[trigger] level_at(w, light, other)
                == 15 implies level_at(w, next, other) == 15 by {
            lemma_set_block_levels(w, light, pos, 15, other);
        }
    }
    assert forall|k: int| 0 <= k < after.engine.queues.increase.len() implies is_full_entry(
        w,
        next,
        #[trigger] after.engine.queues.increase[k],
    ) by {
        if k < s.engine.queues.increase.len() {
            let old_entry = s.engine.queues.increase[k];
            assert(is_full_entry(w, light, old_entry));
            if let Some(block) = entry_source(layout, old_entry) {
                lemma_set_block_levels(w, light, pos, 15, block.block_pos);
            }
        }
    }
    assert forall|y: int| #[trigger] was_checked(sw, after, y) implies is_center_even(
        sw,
        next,
        y,
    ) by {
        assert(was_checked(sw, s, y));
        assert(is_center_even(sw, light, y));
        assert forall|i: int| 0 <= i < 9 && (#[trigger] near_section(
            sw,
            next,
            y,
            i,
        )).is_lit() implies center_section(sw, next, y).is_lit() by {
            assert(near_section(sw, light, y, i).is_lit());
        }
    }
    assert forall|other: BlockPos| in_center_light(sw, other) implies #[trigger] is_lit_from_above(
        sw,
        after,
        center_top(sw),
        other,
    ) by {
        assert(is_lit_from_above(sw, s, center_top(sw), other));
        assert(layout.has_block(other));
        lemma_set_block_levels(w, light, pos, 15, other);
        let over = block_above(other);
        if layout.has_block(over) {
            lemma_set_block_levels(w, light, pos, 15, over);
        }
        lemma_over(sw, other);
        lemma_over(sw, pos);
        if s.engine.queues.increase.contains(risen(w, other)) {
            lemma_still_queued(sw, s, after, risen(w, other));
        }
    }
}

/// Sky light passes from one state into another below it: the second dampens
/// nothing, and no faces between them stop the light.
pub open spec fn sky_passes(table: &BlockStateTable, above: BlockStateId, below: BlockStateId) -> bool {
    &&& table.info(below).light_dampening == 0
    &&& (table.light_shape(above) != 0 || table.light_shape(below) != 0) ==> !table.merged(
        table.light_shape(above),
        table.light_shape(below),
        Direction::Down,
    )
}

/// The state that sky light comes from into a block: that of the block above, or
/// air where the section above has no light.
pub open spec fn state_over(
    sw: SkyWorld<'_>,
    light: Seq<SlotView>,
    x: i32,
    y: int,
    z: i32,
) -> BlockStateId {
    if lit_at(sw.base, light, column_block(x, y + 1, z)) {
        sw.block_state(column_block(x, y + 1, z))
    } else {
        sw.base.table.spec_air()
    }
}

/// Sky light passes into the block of a column at a height.
pub open spec fn sky_enters(
    sw: SkyWorld<'_>,
    light: Seq<SlotView>,
    x: i32,
    z: i32,
    y: int,
) -> bool {
    sky_passes(
        sw.base.table,
        state_over(sw, light, x, y, z),
        sw.block_state(column_block(x, y, z)),
    )
}

/// Light came down a column from one height to above another, where something
/// stops it.
spec fn is_reached(sw: SkyWorld<'_>, s: SkyState, x: i32, z: i32, y: int, stop: int) -> bool {
    let bottom = sw.layout().section_range.min_y() * 16;
    &&& stop <= y
    &&& stop >= bottom ==> !sky_enters(sw, s.engine.light, x, z, stop) && was_checked(
        sw,
        s,
        section_coord(stop + 1),
    )
    &&& forall|b: int|
        stop < b <= y && bottom <= b ==> #[trigger] is_reached_at(sw, s, x, z, b)
}

/// The block of a column at a height that was looked at is fully lit, if its
/// section has light.
spec fn is_reached_at(sw: SkyWorld<'_>, s: SkyState, x: i32, z: i32, y: int) -> bool {
    was_checked(sw, s, section_coord(y)) && (lit_at(
        sw.base,
        s.engine.light,
        column_block(x, y, z),
    ) ==> level_at(sw.base, s.engine.light, column_block(x, y, z)) == 15)
}

/// The block of a column keeps its section's light where the height was looked
/// at.
proof fn lemma_column_lit(sw: SkyWorld<'_>, a: SkyState, b: SkyState, x: i32, z: i32, y: int)
    requires
        sw.layout().wf(),
        sw.layout().in_world(),
        a.engine.light.len() == sw.layout().slots(),
        goes_on(sw, a, b),
        in_center(sw.layout(), x, z),
        was_checked(sw, a, section_coord(y)),
    ensures
        lit_at(sw.base, b.engine.light, column_block(x, y, z)) == lit_at(
            sw.base,
            a.engine.light,
            column_block(x, y, z),
        ),
        sw.layout().has_block(column_block(x, y, z)),
{
    let layout = sw.layout();
    lemma_center_block(layout, x, y, z);
    let pos = column_block(x, y, z);
    lemma_cached_block(layout, pos);
    layout.slot_round_trip(SectionPos::of_block(pos), 0);
    let slot = layout.cached(pos).section_slot as int;
    assert(b.engine.light[slot].is_lit() == a.engine.light[slot].is_lit());
}

/// How far light came down stays so.
proof fn lemma_reached_stays(
    sw: SkyWorld<'_>,
    a: SkyState,
    b: SkyState,
    x: i32,
    z: i32,
    y: int,
    stop: int,
)
    requires
        sw.layout().wf(),
        sw.layout().in_world(),
        a.engine.light.len() == sw.layout().slots(),
        goes_on(sw, a, b),
        in_center(sw.layout(), x, z),
        is_reached(sw, a, x, z, y, stop),
    ensures
        is_reached(sw, b, x, z, y, stop),
{
    let bottom = sw.layout().section_range.min_y() * 16;
    if stop >= bottom {
        lemma_column_lit(sw, a, b, x, z, stop + 1);
    }
    assert forall|c: int| stop < c <= y && bottom <= c implies #[trigger] is_reached_at(
        sw,
        b,
        x,
        z,
        c,
    ) by {
        assert(is_reached_at(sw, a, x, z, c));
        lemma_column_lit(sw, a, b, x, z, c);
        assert(level_at(sw.base, a.engine.light, column_block(x, c, z)) == 15 ==> level_at(
            sw.base,
            b.engine.light,
            column_block(x, c, z),
        ) == 15);
    }
}

/// Light that comes down a column of the active chunk.
#[verifier::rlimit(30)]
proof fn lemma_descend_full(
    sw: SkyWorld<'_>,
    s: SkyState,
    x: i32,
    z: i32,
    above: BlockStateId,
    y: int,
)
    requires
        is_descending(sw, s),
        in_center(sw.layout(), x, z),
        y < sw.layout().section_range.max_y() * 16,
        y >= sw.layout().section_range.min_y() * 16 ==> is_below_full(sw, s, column_block(x, y, z))
            && (y % 16 == 15 || was_checked(sw, s, section_coord(y))) && was_checked(
            sw,
            s,
            section_coord(y + 1),
        ) && above == state_over(sw, s.engine.light, x, y, z),
    ensures
        ({
            let d = descend(sw, s, Seq::empty(), x, z, false, false, above, y);
            let after = d.state;
            &&& is_descending(sw, after)
            &&& goes_on(sw, s, after)
            &&& is_reached(sw, after, x, z, y, d.y)
            &&& y >= sw.layout().section_range.min_y() * 16 && was_checked(
                sw,
                s,
                section_coord(y),
            ) && lit_at(sw.base, s.engine.light, column_block(x, y, z)) && !sky_stops(
                sw,
                above,
                sw.block_state(column_block(x, y, z)),
            ) ==> after.engine.queues.increase.contains(risen(sw.base, column_block(x, y, z)))
        }),
    decreases y - sw.layout().section_range.min_y() * 16 + 1,
{
    let layout = sw.layout();
    let w = sw.base;
    let range = layout.section_range;
    let d = descend(sw, s, Seq::empty(), x, z, false, false, above, y);
    let after = d.state;
    assert(goes_on(sw, s, s));
    if y >= range.min_y() * 16 {
        let pos = column_block(x, y, z);
        lemma_center_block(layout, x, y, z);
        lemma_cached_block(layout, pos);
        lemma_window_has_neighbors(layout, pos);
        lemma_check_descending(sw, s, section_coord(y));
        let looked = if y % 16 == 15 {
            check_null(sw, s, column_chunk(x, z), section_coord(y), false)
        } else {
            s
        };
        assert(is_descending(sw, looked) && goes_on(sw, s, looked));
        assert(was_checked(sw, looked, section_coord(y)));
        assert(is_below_full(sw, looked, pos));
        let current = sw.block_state(pos);
        layout.slot_round_trip(SectionPos::of_block(pos), 0);
        if was_checked(sw, s, section_coord(y)) {
            lemma_column_lit(sw, s, looked, x, z, y);
        }
        lemma_column_lit(sw, s, looked, x, z, y + 1);
        assert(state_over(sw, looked.engine.light, x, y, z) == above);
        if sky_stops(sw, above, current) {
        } else if !section_view(
            layout,
            looked.engine.light,
            SectionPos::of_block(pos),
        ).is_lit() {
            let next = section_coord(y) * 16 - 1;
            assert(section_coord(next + 1) == section_coord(y));
            lemma_center_block(layout, x, next + 1, z);
            lemma_cached_block(layout, column_block(x, next + 1, z));
            assert(SectionPos::of_block(column_block(x, next + 1, z)) == SectionPos::of_block(
                pos,
            ));
            assert(!lit_at(w, looked.engine.light, column_block(x, next + 1, z)));
            if next >= range.min_y() * 16 {
                lemma_center_block(layout, x, next, z);
                let under = column_block(x, next, z);
                assert(block_above(under) == column_block(x, next + 1, z));
                assert(is_below_full(sw, looked, under));
            }
            lemma_descend_full(sw, looked, x, z, w.table.spec_air(), next);
            lemma_goes_on(sw, s, looked, after);
            assert forall|b: int| d.y < b <= y && range.min_y() * 16 <= b implies #[trigger]
                is_reached_at(sw, after, x, z, b) by {
                if b > next {
                    assert(section_coord(b) == section_coord(y));
                    lemma_center_block(layout, x, b, z);
                    lemma_cached_block(layout, column_block(x, b, z));
                    assert(SectionPos::of_block(column_block(x, b, z)) == SectionPos::of_block(
                        pos,
                    ));
                    lemma_column_lit(sw, looked, after, x, z, b);
                }
            }
        } else {
            lemma_block_filled(sw, looked, pos);
            let filled = block_filled(sw, looked, pos);
            assert(state_over(sw, filled.engine.light, x, y - 1, z) == current);
            if y - 1 >= range.min_y() * 16 {
                lemma_center_block(layout, x, y - 1, z);
                assert(block_above(column_block(x, y - 1, z)) == pos);
                assert(is_below_full(sw, filled, column_block(x, y - 1, z)));
                if (y - 1) % 16 != 15 {
                    assert(section_coord(y - 1) == section_coord(y));
                }
            }
            assert(was_checked(sw, filled, section_coord(y)));
            lemma_descend_full(sw, filled, x, z, current, y - 1);
            lemma_goes_on(sw, s, looked, filled);
            lemma_goes_on(sw, s, filled, after);
            lemma_still_queued(sw, filled, after, risen(w, pos));
            assert(level_at(w, filled.engine.light, pos) == 15);
            assert(level_at(w, after.engine.light, pos) == 15);
            assert(was_checked(sw, after, section_coord(y)));
            assert forall|b: int| d.y < b <= y && range.min_y() * 16 <= b implies #[trigger]
                is_reached_at(sw, after, x, z, b) by {
                if b == y {
                    assert(column_block(x, b, z) == pos);
                }
            }
        }
    }
}

/// Above the highest filled section no section is filled.
proof fn lemma_above_top(sw: SkyWorld<'_>, from: int, y: int)
    requires
        center_known(sw),
        sw.layout().wf(),
        sw.min_chunk_y() - 1 <= from < sw.max_chunk_y(),
        top_filled(sw, sw.layout().center, from) < y <= from,
        sw.layout().section_range.contains(y),
    ensures
        !sw.is_cached_filled(chunk_section(sw.layout().center, y)),
    decreases from - sw.min_chunk_y() + 2,
{
    let center = sw.layout().center;
    if from > y {
        assert(top_filled(sw, center, from) == top_filled(sw, center, from - 1));
        lemma_above_top(sw, from - 1, y);
    } else {
        assert(chunk_section(center, y) == chunk_section(center, y));
    }
}

/// A block of the active chunk above its filled sections is air.
proof fn lemma_air_above_top(sw: SkyWorld<'_>, pos: BlockPos)
    requires
        center_known(sw),
        air_is_clear(sw),
        sw.layout().wf(),
        in_center_light(sw, pos),
        section_coord(pos.y as int) > center_top(sw),
    ensures
        sw.base.state(sw.layout().cached(pos)) == sw.base.table.spec_air(),
        sw.layout().has_block(pos),
{
    let y = section_coord(pos.y as int);
    let section = chunk_section(sw.layout().center, y);
    lemma_top_filled(sw, sw.max_chunk_y() - 1);
    assert(SectionPos::of_block(pos) == section);
    if y < sw.max_chunk_y() {
        lemma_above_top(sw, sw.max_chunk_y() - 1, y);
    }
    assert(!sw.is_cached_filled(section));
}

/// The entry that spreads full light across an edge.
pub open spec fn edge_entry(sw: SkyWorld<'_>, y: int, d: int, j: int) -> PackedLightQueueEntry {
    let direction = LightAxisDirection::at(d);
    entry_for(
        sw.layout(),
        edge_block(sw.layout().center, y, direction, j),
        15,
        only(direction),
        no_flags(),
    )
}

/// Full light is queued to spread across the first `n` edges of a section,
/// where a section behind them has light.
pub open spec fn edges_queued(sw: SkyWorld<'_>, s: SkyState, y: int, n: int) -> bool {
    &&& was_checked(sw, s, y)
    &&& forall|d: int, j: int|
        0 <= d < n && 0 <= j < 256 && section_view(
            sw.layout(),
            s.engine.light,
            section_across(sw.layout().center, y, LightAxisDirection::at(d)),
        ).is_lit() ==> s.engine.queues.increase.contains(#[trigger] edge_entry(sw, y, d, j))
}

/// One direction alone.
pub proof fn lemma_only(direction: LightAxisDirection)
    ensures
        only(direction).0 < 64,
        only(direction).has(direction),
{
    let bit = axis_bit(direction);
    assert(bit == 1 || bit == 2 || bit == 4 || bit == 8 || bit == 16 || bit == 32);
    assert(bit & bit == bit) by (bit_vector);
}

/// The block of an edge lies in the chunk, and the block across it in the
/// section across it.
pub proof fn lemma_edge_block(sw: SkyWorld<'_>, y: int, d: int, j: int)
    requires
        sw.layout().wf(),
        sw.layout().in_world(),
        sw.layout().section_range.contains(y),
        0 <= d < 4,
        0 <= j < 256,
    ensures
        ({
            let center = sw.layout().center;
            let direction = LightAxisDirection::at(d);
            let pos = edge_block(center, y, direction, j);
            &&& in_center_light(sw, pos)
            &&& section_coord(pos.y as int) == y
            &&& sw.layout().can_encode(pos)
            &&& sw.layout().has_block(pos)
            &&& SectionPos::of_block(pos) == chunk_section(center, y)
        }),
{
    let center = sw.layout().center;
    assert(0 <= j / 16 < 16 && 0 <= j % 16 < 16);
    assert((center.x * 16 + 15) / 16 == center.x && (center.x * 16) / 16 == center.x && (center.x
        * 16 + j % 16) / 16 == center.x);
    assert((center.z * 16 + 15) / 16 == center.z && (center.z * 16) / 16 == center.z && (center.z
        * 16 + j % 16) / 16 == center.z);
    assert((y * 16 + j / 16) / 16 == y);
}

/// Sections across the edges are sections near the chunk.
proof fn lemma_across(sw: SkyWorld<'_>, light: Seq<SlotView>, y: int, d: int)
    requires
        sw.layout().in_world(),
        0 <= d < 4,
        is_center_even(sw, light, y),
        section_view(
            sw.layout(),
            light,
            section_across(sw.layout().center, y, LightAxisDirection::at(d)),
        ).is_lit(),
    ensures
        center_section(sw, light, y).is_lit(),
{
    let i: int = if d == 0 {
        5
    } else if d == 1 {
        3
    } else if d == 2 {
        7
    } else {
        1
    };
    assert(near_section(sw, light, y, i).is_lit());
}

/// Full light of one edge block is queued.
proof fn lemma_edge_queued(sw: SkyWorld<'_>, s: SkyState, y: int, d: int, j: int)
    requires
        is_descending(sw, s),
        center_known(sw),
        air_is_clear(sw),
        sw.layout().section_range.contains(y),
        y > center_top(sw),
        center_section(sw, s.engine.light, y).is_lit(),
        0 <= d < 4,
        0 <= j < 256,
    ensures
        ({
            let direction = LightAxisDirection::at(d);
            let after = SkyState {
                engine: queue_increase(
                    sw.layout(),
                    s.engine,
                    edge_block(sw.layout().center, y, direction, j),
                    15,
                    only(direction),
                    no_flags(),
                ),
                ..s
            };
            &&& is_descending(sw, after)
            &&& goes_on(sw, s, after)
            &&& after.engine.light == s.engine.light
            &&& after.engine.queues.increase.contains(edge_entry(sw, y, d, j))
        }),
{
    let layout = sw.layout();
    let w = sw.base;
    let direction = LightAxisDirection::at(d);
    let pos = edge_block(layout.center, y, direction, j);
    let entry = edge_entry(sw, y, d, j);
    let after = SkyState {
        engine: queue_increase(layout, s.engine, pos, 15, only(direction), no_flags()),
        ..s
    };
    lemma_edge_block(sw, y, d, j);
    lemma_cached_block(layout, pos);
    lemma_air_above_top(sw, pos);
    lemma_only(direction);
    lemma_queued_entry(w, pos, 15, only(direction), no_flags());
    assert(is_lit_from_above(sw, s, center_top(sw), pos));
    assert(lit_at(w, s.engine.light, pos));
    assert(after.engine.queues.increase == s.engine.queues.increase.push(entry));
    assert(after.engine.queues.increase[s.engine.queues.increase.len() as int] == entry);
    assert(goes_on(sw, s, after)) by {
        assert forall|k: int| #[trigger] was_checked(sw, s, k) implies was_checked(sw, after, k) by {}
    }
    assert forall|k: int| 0 <= k < after.engine.queues.increase.len() implies is_full_entry(
        w,
        after.engine.light,
        #[trigger] after.engine.queues.increase[k],
    ) by {
        if k < s.engine.queues.increase.len() {
            assert(is_full_entry(w, s.engine.light, s.engine.queues.increase[k]));
        }
    }
    assert forall|k: int| #[trigger] was_checked(sw, after, k) implies is_center_even(
        sw,
        after.engine.light,
        k,
    ) by {
        assert(was_checked(sw, s, k));
    }
    assert forall|other: BlockPos| in_center_light(sw, other) implies #[trigger] is_lit_from_above(
        sw,
        after,
        center_top(sw),
        other,
    ) by {
        assert(is_lit_from_above(sw, s, center_top(sw), other));
        if s.engine.queues.increase.contains(risen(w, other)) {
            lemma_still_queued(sw, s, after, risen(w, other));
        }
    }
}

proof fn lemma_spread_edge(sw: SkyWorld<'_>, s: SkyState, y: int, d: int, n: int)
    requires
        is_descending(sw, s),
        center_known(sw),
        air_is_clear(sw),
        sw.layout().section_range.contains(y),
        y > center_top(sw),
        center_section(sw, s.engine.light, y).is_lit(),
        0 <= d < 4,
        0 <= n <= 256,
    ensures
        ({
            let after = SkyState {
                engine: spread_edge(
                    sw,
                    s.engine,
                    sw.layout().center,
                    y,
                    LightAxisDirection::at(d),
                    n,
                ),
                ..s
            };
            &&& is_descending(sw, after)
            &&& goes_on(sw, s, after)
            &&& after.engine.light == s.engine.light
            &&& forall|j: int|
                0 <= j < n ==> after.engine.queues.increase.contains(
                    #[trigger] edge_entry(sw, y, d, j),
                )
        }),
    decreases n,
{
    let direction = LightAxisDirection::at(d);
    let after = SkyState {
        engine: spread_edge(sw, s.engine, sw.layout().center, y, direction, n),
        ..s
    };
    if n > 0 {
        lemma_spread_edge(sw, s, y, d, n - 1);
        let before = SkyState {
            engine: spread_edge(sw, s.engine, sw.layout().center, y, direction, n - 1),
            ..s
        };
        lemma_edge_queued(sw, before, y, d, n - 1);
        lemma_goes_on(sw, s, before, after);
        assert forall|j: int| 0 <= j < n implies after.engine.queues.increase.contains(
            #[trigger] edge_entry(sw, y, d, j),
        ) by {
            if j < n - 1 {
                lemma_still_queued(sw, before, after, edge_entry(sw, y, d, j));
            }
        }
    } else {
        assert(after == s);
        assert(goes_on(sw, s, s));
    }
}

proof fn lemma_spread_edges(sw: SkyWorld<'_>, s: SkyState, y: int, n: int)
    requires
        is_descending(sw, s),
        center_known(sw),
        air_is_clear(sw),
        was_checked(sw, s, y),
        y > center_top(sw),
        0 <= n <= 4,
    ensures
        ({
            let after = SkyState {
                engine: spread_edges(sw, s.engine, sw.layout().center, y, n),
                ..s
            };
            &&& is_descending(sw, after)
            &&& goes_on(sw, s, after)
            &&& after.engine.light == s.engine.light
            &&& edges_queued(sw, after, y, n)
        }),
    decreases n,
{
    let center = sw.layout().center;
    let after = SkyState { engine: spread_edges(sw, s.engine, center, y, n), ..s };
    if n > 0 {
        lemma_spread_edges(sw, s, y, n - 1);
        let before = SkyState { engine: spread_edges(sw, s.engine, center, y, n - 1), ..s };
        let direction = LightAxisDirection::at(n - 1);
        if section_view(
            sw.layout(),
            before.engine.light,
            section_across(center, y, direction),
        ).is_lit() {
            assert(is_center_even(sw, before.engine.light, y));
            lemma_across(sw, before.engine.light, y, n - 1);
            lemma_spread_edge(sw, before, y, n - 1, 256);
            lemma_goes_on(sw, s, before, after);
            assert forall|d: int, j: int|
                0 <= d < n && 0 <= j < 256 && section_view(
                    sw.layout(),
                    after.engine.light,
                    section_across(center, y, LightAxisDirection::at(d)),
                ).is_lit() implies after.engine.queues.increase.contains(
                #[trigger] edge_entry(sw, y, d, j),
            ) by {
                if d < n - 1 {
                    lemma_still_queued(sw, before, after, edge_entry(sw, y, d, j));
                }
            }
        } else {
            assert(after == before);
        }
    } else {
        assert(after == s);
        assert(goes_on(sw, s, s));
    }
}

/// What is queued across a section's edges stays so.
proof fn lemma_edges_stay(sw: SkyWorld<'_>, a: SkyState, b: SkyState, y: int)
    requires
        sw.layout().wf(),
        a.engine.light.len() == sw.layout().slots(),
        edges_queued(sw, a, y, 4),
        goes_on(sw, a, b),
    ensures
        edges_queued(sw, b, y, 4),
{
    let layout = sw.layout();
    assert forall|d: int, j: int|
        0 <= d < 4 && 0 <= j < 256 && section_view(
            layout,
            b.engine.light,
            section_across(layout.center, y, LightAxisDirection::at(d)),
        ).is_lit() implies b.engine.queues.increase.contains(
        #[trigger] edge_entry(sw, y, d, j),
    ) by {
        let pos = section_across(layout.center, y, LightAxisDirection::at(d));
        layout.slot_round_trip(pos, 0);
        assert(b.engine.light[layout.slot_at(pos)].is_lit()
            == a.engine.light[layout.slot_at(pos)].is_lit());
        assert(a.engine.queues.increase.contains(edge_entry(sw, y, d, j)));
        lemma_still_queued(sw, a, b, edge_entry(sw, y, d, j));
    }
}

/// The empty sections at the top of the active chunk spread their light to the
/// sides.
proof fn lemma_light_empty_top(sw: SkyWorld<'_>, s: SkyState, y: int)
    requires
        is_descending(sw, s),
        center_known(sw),
        air_is_clear(sw),
        sw.min_chunk_y() - 2 <= y < sw.max_chunk_y(),
        top_filled(sw, sw.layout().center, y) == center_top(sw),
        sw.min_chunk_y() - 2 <= center_top(sw) <= y,
        forall|k: int| y < k < sw.max_chunk_y() ==> #[trigger] edges_queued(sw, s, k, 4),
    ensures
        ({
            let after = light_empty_top(sw, s, sw.layout().center, y);
            &&& is_descending(sw, after)
            &&& goes_on(sw, s, after)
            &&& forall|k: int|
                center_top(sw) < k < sw.max_chunk_y() ==> #[trigger] edges_queued(
                    sw,
                    after,
                    k,
                    4,
                )
        }),
    decreases y - sw.min_chunk_y() + 2,
{
    let center = sw.layout().center;
    assert(goes_on(sw, s, s));
    if y < sw.min_chunk_y() - 1 || (y != sw.min_chunk_y() - 1 && sw.is_cached_filled(
        chunk_section(center, y),
    )) {
    } else {
        let top = center_top(sw);
        assert(top_filled(sw, center, y) == top_filled(sw, center, y - 1));
        if y >= sw.min_chunk_y() {
            lemma_top_filled(sw, y - 1);
        }
        assert(top < y);
        let looked = check_null(sw, s, center, y, false);
        lemma_check_descending(sw, s, y);
        lemma_spread_edges(sw, looked, y, 4);
        let spread = SkyState { engine: spread_edges(sw, looked.engine, center, y, 4), ..looked };
        lemma_goes_on(sw, s, looked, spread);
        assert forall|k: int| y - 1 < k < sw.max_chunk_y() implies #[trigger] edges_queued(
            sw,
            spread,
            k,
            4,
        ) by {
            if k > y {
                assert(edges_queued(sw, s, k, 4));
                lemma_edges_stay(sw, s, spread, k);
            }
        }
        lemma_light_empty_top(sw, spread, y - 1);
        lemma_goes_on(sw, s, spread, light_empty_top(sw, spread, center, y - 1));
    }
}

/// Above the filled sections of the active chunk the light from above is full.
proof fn lemma_level_above(sw: SkyWorld<'_>, s: SkyState, pos: BlockPos, y: int)
    requires
        is_descending(sw, s),
        in_chunk(sw.layout().center, pos),
        y > center_top(sw),
        y >= sw.layout().section_range.min_y(),
    ensures
        level_above(sw.layout(), s.engine.light, pos, y) == 15,
    decreases sw.layout().section_range.max_y() - y,
{
    let layout = sw.layout();
    if y < layout.section_range.max_y() {
        let above = BlockPos { x: pos.x, y: (y * 16) as i32, z: pos.z };
        assert(section_coord(y * 16) == y);
        assert(in_center_light(sw, above));
        assert(layout.has_block(above));
        lemma_cached_block(layout, above);
        assert(is_lit_from_above(sw, s, center_top(sw), above));
        lemma_level_above(sw, s, pos, y + 1);
    }
}

/// The first blocks that light enters a column by.
spec fn entrance(sw: SkyWorld<'_>, c: int) -> BlockPos {
    column_block(
        (sw.layout().center.x * 16 + c % 16) as i32,
        center_top(sw) * 16 + 16,
        (sw.layout().center.z * 16 + c / 16) as i32,
    )
}

/// Light entered the first `n` columns.
spec fn columns_entered(sw: SkyWorld<'_>, s: SkyState, n: int) -> bool {
    forall|c: int| 0 <= c < n ==> #[trigger] is_entered(sw, s, c)
}

/// Light entered a column and came down to where something stops it.
spec fn is_entered(sw: SkyWorld<'_>, s: SkyState, c: int) -> bool {
    let pos = entrance(sw, c);
    &&& lit_at(sw.base, s.engine.light, pos) ==> s.engine.queues.increase.contains(
        risen(sw.base, pos),
    )
    &&& exists|stop: int| #[trigger]
        is_reached(sw, s, pos.x, pos.z, center_top(sw) * 16 + 16, stop)
}

/// A column stays entered.
proof fn lemma_entered_stays(sw: SkyWorld<'_>, a: SkyState, b: SkyState, c: int)
    requires
        is_descending(sw, a),
        center_known(sw),
        goes_on(sw, a, b),
        sw.min_chunk_y() <= center_top(sw) < sw.max_chunk_y(),
        was_checked(sw, a, center_top(sw) + 1),
        0 <= c < 256,
        is_entered(sw, a, c),
    ensures
        is_entered(sw, b, c),
{
    let at = entrance(sw, c);
    let y = center_top(sw) * 16 + 16;
    lemma_entrance(sw, c);
    lemma_column_lit(sw, a, b, at.x, at.z, y);
    assert(column_block(at.x, y, at.z) == at);
    if a.engine.queues.increase.contains(risen(sw.base, at)) {
        lemma_still_queued(sw, a, b, risen(sw.base, at));
    }
    let stop = choose|stop: int| #[trigger] is_reached(sw, a, at.x, at.z, y, stop);
    lemma_reached_stays(sw, a, b, at.x, at.z, y, stop);
}

proof fn lemma_entrance(sw: SkyWorld<'_>, c: int)
    requires
        sw.layout().wf(),
        sw.layout().in_world(),
        center_known(sw),
        sw.min_chunk_y() <= center_top(sw) < sw.max_chunk_y(),
        0 <= c < 256,
    ensures
        ({
            let pos = entrance(sw, c);
            &&& in_center_light(sw, pos)
            &&& section_coord(pos.y as int) == center_top(sw) + 1
            &&& sw.layout().can_encode(pos)
            &&& sw.layout().has_block(pos)
            &&& sw.layout().has_block(block_above(pos))
            &&& in_center_light(sw, block_above(pos))
            &&& section_coord(block_above(pos).y as int) == center_top(sw) + 1
            &&& in_center(sw.layout(), pos.x, pos.z)
            &&& pos.y == center_top(sw) * 16 + 16
            &&& column_chunk(pos.x, pos.z) == sw.layout().center
        }),
{
    let layout = sw.layout();
    let top = center_top(sw);
    lemma_column(layout, c);
    let pos = entrance(sw, c);
    assert(section_coord(top * 16 + 16) == top + 1);
    assert(section_coord(top * 16 + 17) == top + 1);
    lemma_center_block(layout, pos.x, top * 16 + 16, pos.z);
    lemma_center_block(layout, pos.x, top * 16 + 17, pos.z);
    assert(block_above(pos) == column_block(pos.x, top * 16 + 17, pos.z));
}

/// Light enters the columns of the active chunk.
proof fn lemma_enter_columns(sw: SkyWorld<'_>, s: SkyState, n: int)
    requires
        is_descending(sw, s),
        center_known(sw),
        air_is_clear(sw),
        sw.min_chunk_y() <= center_top(sw) < sw.max_chunk_y(),
        0 <= n <= 256,
    ensures
        ({
            let after = enter_columns(sw, s, sw.layout().center, center_top(sw) * 16 + 16, n);
            &&& is_descending(sw, after)
            &&& goes_on(sw, s, after)
            &&& columns_entered(sw, after, n)
            &&& n > 0 ==> was_checked(sw, after, center_top(sw) + 1)
        }),
    decreases n,
{
    let layout = sw.layout();
    let w = sw.base;
    let top = center_top(sw);
    let y = top * 16 + 16;
    assert(goes_on(sw, s, s));
    if n > 0 {
        lemma_enter_columns(sw, s, n - 1);
        let before = enter_columns(sw, s, layout.center, y, n - 1);
        let after = enter_columns(sw, s, layout.center, y, n);
        let pos = entrance(sw, n - 1);
        lemma_entrance(sw, n - 1);
        lemma_cached_block(layout, pos);
        lemma_cached_block(layout, block_above(pos));
        let over = block_above(pos);
        assert(over == BlockPos { x: pos.x, y: (y + 1) as i32, z: pos.z });
        assert(is_lit_from_above(sw, before, top, over));
        lemma_level_above(sw, before, over, top + 2);
        assert(extruded_level(layout, before.engine.light, over) == 15);
        lemma_check_descending(sw, before, top + 1);
        let looked = check_null(sw, before, column_chunk(pos.x, pos.z), section_coord(y), false);
        assert(is_lit_from_above(sw, looked, top, over));
        assert(is_below_full(sw, looked, pos));
        lemma_air_above_top(sw, pos);
        lemma_air_above_top(sw, over);
        let air = w.table.spec_air();
        assert(sw.block_state(over) == air && sw.block_state(pos) == air);
        assert(!sky_stops(sw, air, air));
        assert(column_block(pos.x, y + 1, pos.z) == over);
        assert(section_coord(y + 1) == top + 1);
        lemma_descend_full(sw, looked, pos.x, pos.z, air, y);
        assert(after == descend(
            sw,
            looked,
            Seq::empty(),
            pos.x,
            pos.z,
            false,
            false,
            air,
            y,
        ).state);
        lemma_goes_on(sw, s, before, looked);
        lemma_goes_on(sw, s, looked, after);
        lemma_goes_on(sw, before, looked, after);
        assert forall|c: int| 0 <= c < n implies #[trigger] is_entered(sw, after, c) by {
            if c < n - 1 {
                lemma_entered_stays(sw, before, after, c);
            } else {
                let d = descend(sw, looked, Seq::empty(), pos.x, pos.z, false, false, air, y);
                lemma_column_lit(sw, looked, after, pos.x, pos.z, y);
                assert(column_block(pos.x, y, pos.z) == pos);
                assert(is_reached(sw, after, pos.x, pos.z, y, d.y));
            }
        }
    }
}

/// Heights of the active chunk are looked at.
pub proof fn lemma_check_nulls(sw: SkyWorld<'_>, s: SkyState, from: int, y: int)
    requires
        is_descending(sw, s),
    ensures
        ({
            let after = check_nulls(sw, s, sw.layout().center, false, from, y);
            &&& is_descending(sw, after)
            &&& goes_on(sw, s, after)
        }),
    decreases y - from + 1,
{
    assert(goes_on(sw, s, s));
    if y >= from {
        let center = sw.layout().center;
        let looked = check_null(sw, s, center, y, false);
        lemma_check_descending(sw, s, y);
        lemma_check_nulls(sw, looked, from, y - 1);
        lemma_goes_on(
            sw,
            s,
            looked,
            check_nulls(sw, looked, center, false, from, y - 1),
        );
    }
}

/// Light came down into the whole active chunk.
pub closed spec fn has_come_down(sw: SkyWorld<'_>, s: SkyState) -> bool {
    &&& is_descending(sw, s)
    &&& forall|k: int|
        center_top(sw) < k < sw.max_chunk_y() ==> #[trigger] edges_queued(sw, s, k, 4)
    &&& center_top(sw) >= sw.min_chunk_y() ==> columns_entered(sw, s, 256) && was_checked(
        sw,
        s,
        center_top(sw) + 1,
    )
}

pub proof fn lemma_come_down_stays(sw: SkyWorld<'_>, a: SkyState, b: SkyState)
    requires
        center_known(sw),
        has_come_down(sw, a),
        is_descending(sw, b),
        goes_on(sw, a, b),
    ensures
        has_come_down(sw, b),
{
    let layout = sw.layout();
    assert forall|k: int| center_top(sw) < k < sw.max_chunk_y() implies #[trigger] edges_queued(
        sw,
        b,
        k,
        4,
    ) by {
        assert(edges_queued(sw, a, k, 4));
        lemma_edges_stay(sw, a, b, k);
    }
    if center_top(sw) >= sw.min_chunk_y() {
        lemma_top_filled(sw, sw.max_chunk_y() - 1);
        assert forall|c: int| 0 <= c < 256 implies #[trigger] is_entered(sw, b, c) by {
            assert(is_entered(sw, a, c));
            lemma_entered_stays(sw, a, b, c);
        }
    }
}

/// Light comes down into the active chunk.
proof fn lemma_comes_down(sw: SkyWorld<'_>, s: SkyState)
    requires
        world_plain(sw.base),
        center_known(sw),
        air_is_clear(sw),
        may_open(sw, s.engine.light),
        s.checked.len() == sw.layout().section_range.count(),
        s.engine.queues.increase.len() == 0,
        forall|y: int|
            sw.layout().section_range.contains(y) ==> !(#[trigger] center_section(
                sw,
                s.engine.light,
                y,
            ) is Absent),
    ensures
        has_come_down(sw, chunk_lit_from_above(sw, s, sw.layout().center)),
        goes_on(sw, fresh_pass(s), chunk_lit_from_above(sw, s, sw.layout().center)),
        center_top(sw) == top_filled(sw, sw.layout().center, sw.max_chunk_y() - 1),
{
    let layout = sw.layout();
    let w = sw.base;
    let center = layout.center;
    let started = fresh_pass(s);
    let fresh = fresh_light(s.engine.light);
    assert(started.engine.light == fresh);
    lemma_fresh_opened(sw, s.engine.light);
    lemma_top_filled(sw, sw.max_chunk_y() - 1);
    assert(is_descending(sw, started)) by {
        assert forall|y: int| layout.section_range.contains(y) implies !(#[trigger] center_section(
            sw,
            fresh,
            y,
        ) is Absent) by {
            assert(!(center_section(sw, s.engine.light, y) is Absent));
            layout.slot_round_trip(chunk_section(center, y), 0);
            let slot = layout.slot_at(chunk_section(center, y));
            assert((fresh[slot] is Absent) == (s.engine.light[slot] is Absent));
        }
        assert forall|pos: BlockPos|
            in_center_light(sw, pos) implies #[trigger] is_lit_from_above(
            sw,
            started,
            center_top(sw),
            pos,
        ) by {
            assert(layout.has_block(pos));
            lemma_cached_block(layout, pos);
            layout.slot_round_trip(SectionPos::of_block(pos), 0);
            let slot = layout.cached(pos).section_slot as int;
            assert(is_center_slot(layout, slot));
            assert(is_uniform(fresh[slot], layout.section_at(slot).y > center_top(sw)));
            assert(fresh[slot].level(layout.cached(pos).local_index as int) == level_at(
                w,
                fresh,
                pos,
            ));
        }
    }
    let opened = light_empty_top(sw, started, center, sw.max_chunk_y() - 1);
    lemma_light_empty_top(sw, started, sw.max_chunk_y() - 1);
    let top = center_top(sw);
    if top >= sw.min_chunk_y() {
        lemma_enter_columns(sw, opened, 256);
        let entered = enter_columns(sw, opened, center, top * 16 + 16, 256);
        lemma_goes_on(sw, started, opened, entered);
        assert forall|k: int| top < k < sw.max_chunk_y() implies #[trigger] edges_queued(
            sw,
            entered,
            k,
            4,
        ) by {
            assert(edges_queued(sw, opened, k, 4));
            lemma_edges_stay(sw, opened, entered, k);
        }
    }
}

/// The blocks of the active chunk, with all directions.
pub open spec fn center_blocks(sw: SkyWorld<'_>) -> Set<(BlockPos, LightAxisDirection)> {
    Set::new(
        |pair: (BlockPos, LightAxisDirection)|
            in_chunk(sw.layout().center, pair.0) && sw.min_chunk_y() <= section_coord(
                pair.0.y as int,
            ) < sw.max_chunk_y(),
    )
}

pub proof fn lemma_center_blocks(sw: SkyWorld<'_>)
    requires
        world_plain(sw.base),
    ensures
        encodes(sw.base, center_blocks(sw)),
        forall|pos: BlockPos, direction: LightAxisDirection| #[trigger]
            center_blocks(sw).contains((pos, direction)) ==> in_center_light(sw, pos)
                && sw.layout().has_block(pos),
{
}

/// Queued full light covers a direction.
proof fn lemma_entry_pending(
    sw: SkyWorld<'_>,
    s: EngineState,
    pos: BlockPos,
    directions: LightDirectionSet,
    flags: LightQueueFlags,
    direction: LightAxisDirection,
)
    requires
        world_plain(sw.base),
        sw.layout().can_encode(pos),
        directions.0 < 64,
        directions.has(direction),
        level_at(sw.base, s.light, pos) == 15,
        s.queues.increase.contains(entry_for(sw.layout(), pos, 15, directions, flags)),
    ensures
        is_pending(sw.base, s, pos, direction),
{
    let entry = entry_for(sw.layout(), pos, 15, directions, flags);
    let k = choose|k: int| 0 <= k < s.queues.increase.len() && s.queues.increase[k] == entry;
    lemma_queued_entry(sw.base, pos, 15, directions, flags);
    assert(covers(sw.base, s.light, s.queues.increase[k], pos, direction));
}

/// The block of a chunk's edge by its place.
pub proof fn lemma_on_edge(sw: SkyWorld<'_>, pos: BlockPos, d: int) -> (j: int)
    requires
        sw.layout().wf(),
        sw.layout().in_world(),
        in_center_light(sw, pos),
        0 <= d < 4,
        !in_chunk(
            sw.layout().center,
            pos.spec_relative(LightAxisDirection::at(d).spec_direction()),
        ),
    ensures
        0 <= j < 256,
        edge_block(
            sw.layout().center,
            section_coord(pos.y as int),
            LightAxisDirection::at(d),
            j,
        ) == pos,
        SectionPos::of_block(pos.spec_relative(LightAxisDirection::at(d).spec_direction()))
            == section_across(
            sw.layout().center,
            section_coord(pos.y as int),
            LightAxisDirection::at(d),
        ),
{
    let center = sw.layout().center;
    let (lx, ly, lz) = (pos.x as int % 16, pos.y as int % 16, pos.z as int % 16);
    assert(pos.x == center.x * 16 + lx && 0 <= lx < 16);
    assert(pos.z == center.z * 16 + lz && 0 <= lz < 16);
    assert(pos.y == section_coord(pos.y as int) * 16 + ly && 0 <= ly < 16);
    let j = if d < 2 {
        ly * 16 + lz
    } else {
        ly * 16 + lx
    };
    assert(j / 16 == ly);
    assert(j % 16 == if d < 2 {
        lz
    } else {
        lx
    });
    if d == 0 {
        assert((pos.x + 1) / 16 == center.x || lx == 15);
    } else if d == 1 {
        assert((pos.x - 1) / 16 == center.x || lx == 0);
    } else if d == 2 {
        assert((pos.z + 1) / 16 == center.z || lz == 15);
    } else {
        assert((pos.z - 1) / 16 == center.z || lz == 0);
    }
    j
}

/// Once light came down, every block of the active chunk is in balance, or its
/// light is about to spread.
proof fn lemma_come_down_covered(
    sw: SkyWorld<'_>,
    s: SkyState,
    pos: BlockPos,
    direction: LightAxisDirection,
)
    requires
        center_known(sw),
        has_come_down(sw, s),
        center_blocks(sw).contains((pos, direction)),
    ensures
        in_balance(sw.base, s.engine.light, pos, direction) || is_pending(
            sw.base,
            s.engine,
            pos,
            direction,
        ),
{
    let layout = sw.layout();
    let w = sw.base;
    let light = s.engine.light;
    let top = center_top(sw);
    let near = pos.spec_relative(direction.spec_direction());
    let y = section_coord(pos.y as int);
    lemma_center_blocks(sw);
    lemma_cached_block(layout, pos);
    lemma_window_has_neighbors(layout, pos);
    lemma_top_filled(sw, sw.max_chunk_y() - 1);
    assert(layout.can_encode(pos));
    assert(is_lit_from_above(sw, s, top, pos));
    lemma_not_up();
    let flags = w.shape_flags(w.state(layout.cached(pos)));
    if !lit_at(w, light, pos) {
        assert(slot_valid(light[layout.cached(pos).section_slot as int]));
        assert(level_at(w, light, pos) == 0);
    } else if level_at(w, light, pos) != 0 && open_neighbor(w, light, pos, direction) is Some {
        if y <= top {
            if direction != LightAxisDirection::PositiveY {
                lemma_entry_pending(sw, s.engine, pos, not_up(), flags, direction);
            } else {
                assert(near == block_above(pos));
            }
        } else if in_chunk(layout.center, near) {
            let near_y = section_coord(near.y as int);
            assert(near_y == y || near_y == y - 1 || near_y == y + 1);
            if near_y > top {
                assert(in_center_light(sw, near));
                assert(is_lit_from_above(sw, s, top, near));
            } else {
                assert(near_y == top && y == top + 1);
                assert(direction == LightAxisDirection::NegativeY);
                assert(pos.y == top * 16 + 16);
                let c = local_coord(pos.x as int) + local_coord(pos.z as int) * 16;
                assert(c % 16 == local_coord(pos.x as int) && c / 16 == local_coord(pos.z as int));
                assert(is_entered(sw, s, c));
                assert(entrance(sw, c) == pos);
                lemma_entry_pending(sw, s.engine, pos, not_up(), flags, direction);
            }
        } else {
            let d = direction.place();
            assert(direction == LightAxisDirection::at(d));
            assert(0 <= d < 4);
            let j = lemma_on_edge(sw, pos, d);
            assert(edges_queued(sw, s, y, 4));
            lemma_cached_block(layout, near);
            assert(section_view(layout, light, section_across(layout.center, y, direction)).is_lit());
            assert(s.engine.queues.increase.contains(edge_entry(sw, y, d, j)));
            lemma_only(direction);
            lemma_entry_pending(sw, s.engine, pos, only(direction), no_flags(), direction);
        }
    }
}

/// Work on some light was only added to, and stayed honest.
pub open spec fn only_adds(w: LightWorld<'_>, a: EngineState, b: EngineState) -> bool {
    &&& b.light == a.light
    &&& queue_grew(a, b)
    &&& all_honest(w, b)
    &&& no_writes(b.queues.increase)
}

/// A block's own level is queued to spread.
pub proof fn lemma_pull_one(
    w: LightWorld<'_>,
    a: EngineState,
    s: EngineState,
    pos: BlockPos,
    directions: LightDirectionSet,
)
    requires
        world_plain(w),
        state_valid(w, s),
        only_adds(w, a, s),
        w.layout.has_block(pos),
        directions.0 < 64,
    ensures
        only_adds(
            w,
            a,
            queue_increase(
                w.layout,
                s,
                pos,
                level_of(s.light, w.layout.cached(pos)),
                directions,
                sided_flags(),
            ),
        ),
{
    let level = level_of(s.light, w.layout.cached(pos));
    let after = queue_increase(w.layout, s, pos, level, directions, sided_flags());
    if w.layout.can_encode(pos) {
        lemma_cached_block(w.layout, pos);
        lemma_set_block(s.light, w.layout.cached(pos), 0);
        lemma_queued_entry(w, pos, level, directions, sided_flags());
        assert(queue_grew(s, after));
        assert forall|k: int| 0 <= k < a.queues.increase.len() implies
            #[trigger] after.queues.increase[k] == a.queues.increase[k] by {
            assert(s.queues.increase[k] == a.queues.increase[k]);
        }
        assert forall|k: int| 0 <= k < after.queues.increase.len() implies is_honest(
            w,
            after,
            #[trigger] after.queues.increase[k],
        ) && !after.queues.increase[k].flags().write_level by {
            if k < s.queues.increase.len() {
                let entry = s.queues.increase[k];
                assert(is_honest(w, s, entry) && !entry.flags().write_level);
                if let Some(source) = entry_source(w.layout, entry) {
                    if is_promised(w, s, source.block_pos, entry.spec_level() as int) {
                        lemma_promise_stays(
                            w,
                            s,
                            after,
                            source.block_pos,
                            entry.spec_level() as int,
                        );
                    }
                }
            }
        }
    }
}

pub proof fn lemma_pull_edge(
    sw: SkyWorld<'_>,
    a: EngineState,
    s: EngineState,
    y: int,
    direction: LightAxisDirection,
    n: int,
)
    requires
        world_plain(sw.base),
        state_valid(sw.base, s),
        only_adds(sw.base, a, s),
    ensures
        only_adds(sw.base, a, pull_edge(sw, s, sw.layout().center, y, direction, n)),
        pull_edge(sw, s, sw.layout().center, y, direction, n).light == s.light,
    decreases n,
{
    if n > 0 {
        lemma_pull_edge(sw, a, s, y, direction, n - 1);
        let before = pull_edge(sw, s, sw.layout().center, y, direction, n - 1);
        let pos = across_edge(sw.layout().center, y, direction, n - 1);
        lemma_only(direction.spec_opposite());
        if sw.layout().has_block(pos) {
            lemma_pull_one(sw.base, a, before, pos, only(direction.spec_opposite()));
        }
    }
}

pub proof fn lemma_pull_edges(sw: SkyWorld<'_>, a: EngineState, s: EngineState, y: int, n: int)
    requires
        world_plain(sw.base),
        state_valid(sw.base, s),
        only_adds(sw.base, a, s),
    ensures
        only_adds(sw.base, a, pull_edges(sw, s, sw.layout().center, y, n)),
        pull_edges(sw, s, sw.layout().center, y, n).light == s.light,
    decreases n,
{
    if n > 0 {
        lemma_pull_edges(sw, a, s, y, n - 1);
        let before = pull_edges(sw, s, sw.layout().center, y, n - 1);
        lemma_pull_edge(sw, a, before, y, LightAxisDirection::at(n - 1), 256);
    }
}

/// Pulling neighbor levels in only adds honest work.
pub proof fn lemma_pull_levels(sw: SkyWorld<'_>, a: EngineState, s: EngineState, from: int, y: int)
    requires
        world_plain(sw.base),
        state_valid(sw.base, s),
        only_adds(sw.base, a, s),
    ensures
        only_adds(sw.base, a, pull_levels(sw, s, sw.layout().center, from, y)),
    decreases y - from + 1,
{
    if y >= from {
        lemma_pull_edges(sw, a, s, y, 4);
        let next = if section_view(
            sw.layout(),
            s.light,
            chunk_section(sw.layout().center, y),
        ).is_lit() {
            pull_edges(sw, s, sw.layout().center, y, 4)
        } else {
            s
        };
        lemma_pull_levels(sw, a, next, from, y - 1);
    }
}

/// Work that covers a region still covers it when more is queued.
pub proof fn lemma_still_covered(sw: SkyWorld<'_>, a: SkyState, b: EngineState)
    requires
        world_plain(sw.base),
        center_known(sw),
        has_come_down(sw, a),
        b.light == a.engine.light,
        queue_grew(a.engine, b),
    ensures
        balanced_or_pending_in(sw.base, b, center_blocks(sw)),
{
    let w = sw.base;
    assert forall|pos: BlockPos, direction: LightAxisDirection|
        center_blocks(sw).contains((pos, direction)) implies #[trigger] in_balance(w, b.light, pos, direction)
        || is_pending(w, b, pos, direction) || is_awaited(w, b, pos, direction) by {
        lemma_come_down_covered(sw, a, pos, direction);
        if is_pending(w, a.engine, pos, direction) {
            let k = choose|k: int|
                0 <= k < a.engine.queues.increase.len() && covers(
                    w,
                    a.engine.light,
                    #[trigger] a.engine.queues.increase[k],
                    pos,
                    direction,
                );
            assert(b.queues.increase[k] == a.engine.queues.increase[k]);
            assert(covers(w, b.light, b.queues.increase[k], pos, direction));
        }
    }
}

/// What lighting the active chunk needs: the window lies in the world, the
/// chunk takes part with all its light sections, and it is known which of its
/// sections are filled.
pub open spec fn may_be_lit(sw: SkyWorld<'_>, light: Seq<SlotView>) -> bool {
    &&& world_plain(sw.base)
    &&& center_known(sw)
    &&& air_is_clear(sw)
    &&& state_valid(sw.base, idle_state(light))
    &&& at_rest(light)
    &&& forall|y: int|
        sw.layout().section_range.contains(y) ==> !(#[trigger] center_section(
            sw,
            light,
            y,
        ) is Absent)
}

/// The state that light comes down from.
pub open spec fn opened_state(sw: SkyWorld<'_>, light: Seq<SlotView>) -> SkyState {
    let s = start_state(sw.layout(), light);
    SkyState { engine: EngineState { light: opened_light(sw, light), ..s.engine }, ..s }
}

pub proof fn lemma_opened_comes_down(sw: SkyWorld<'_>, light: Seq<SlotView>)
    requires
        may_be_lit(sw, light),
    ensures
        ({
            let s = opened_state(sw, light);
            let lit = chunk_lit_from_above(sw, s, sw.layout().center);
            &&& has_come_down(sw, lit)
            &&& is_descending(sw, lit)
            &&& goes_on(sw, fresh_pass(s), lit)
            &&& fresh_pass(s).engine.light == fresh_light(opened_light(sw, light))
            &&& lit.engine.queues.decrease.len() == 0
            &&& center_top(sw) == top_filled(sw, sw.layout().center, sw.max_chunk_y() - 1)
            &&& center_top(sw) < sw.max_chunk_y()
            &&& heights_even(sw, fresh_light(opened_light(sw, light))) ==> heights_even(
                sw,
                lit.engine.light,
            ) && forall|slot: int|
                0 <= slot < lit.engine.light.len() ==> !(
                #[trigger] lit.engine.light[slot]).is_null()
        }),
{
    let layout = sw.layout();
    let s = opened_state(sw, light);
    lemma_opened_light(sw, light);
    lemma_fresh_opened(sw, opened_light(sw, light));
    assert forall|y: int| layout.section_range.contains(y) implies !(#[trigger] center_section(
        sw,
        s.engine.light,
        y,
    ) is Absent) by {
        assert(!(center_section(sw, light, y) is Absent));
        layout.slot_round_trip(chunk_section(layout.center, y), 0);
        let slot = layout.slot_at(chunk_section(layout.center, y));
        assert((s.engine.light[slot] is Absent) == (light[slot] is Absent));
    }
    lemma_comes_down(sw, s);
    lemma_top_filled(sw, sw.max_chunk_y() - 1);
    let fresh = fresh_light(opened_light(sw, light));
    let lit = chunk_lit_from_above(sw, s, layout.center);
    assert(fresh_pass(s).engine.light == fresh);
    if heights_even(sw, fresh) {
        lemma_even_stays(sw, fresh, lit.engine.light);
        assert forall|slot: int| 0 <= slot < lit.engine.light.len() implies !(
        #[trigger] lit.engine.light[slot]).is_null() by {
            assert(!fresh[slot].is_null());
        }
    }
}

/// Every slot is as it was, or has no light any more.
pub open spec fn only_nulls(a: Seq<SlotView>, b: Seq<SlotView>) -> bool {
    &&& a.len() == b.len()
    &&& forall|slot: int|
        0 <= slot < a.len() ==> (b[slot].is_lit() == a[slot].is_lit() && forall|index: int|
            0 <= index < 4096 ==> #[trigger] b[slot].level(index) == a[slot].level(index)) || (
        !(#[trigger] b[slot]).is_lit() && forall|index: int|
            0 <= index < 4096 ==> #[trigger] b[slot].level(index) == 0)
}

/// Balance outlasts sections that lose their light.
pub proof fn lemma_nulls_balanced(
    w: LightWorld<'_>,
    a: Seq<SlotView>,
    b: Seq<SlotView>,
    region: Set<(BlockPos, LightAxisDirection)>,
)
    requires
        world_plain(w),
        encodes(w, region),
        a.len() == w.layout.slots(),
        only_nulls(a, b),
        balanced_in(w, a, region),
    ensures
        balanced_in(w, b, region),
{
    assert forall|pos: BlockPos, direction: LightAxisDirection|
        region.contains((pos, direction)) implies #[trigger] in_balance(w, b, pos, direction) by {
        let near = pos.spec_relative(direction.spec_direction());
        assert(in_balance(w, a, pos, direction));
        assert(w.layout.has_block(pos));
        lemma_cached_block(w.layout, pos);
        let slot = w.layout.cached(pos).section_slot as int;
        assert(b[slot].level(w.layout.cached(pos).local_index as int) == level_at(w, b, pos));
        if w.layout.has_block(near) {
            lemma_cached_block(w.layout, near);
            let other = w.layout.cached(near).section_slot as int;
            assert(b[other].level(w.layout.cached(near).local_index as int) == level_at(
                w,
                b,
                near,
            ));
        }
    }
}

/// Publishing shows the light as it is, or takes back what only stood in for a
/// null section.
pub proof fn lemma_published_nulls(light: Seq<SlotView>)
    requires
        forall|slot: int| 0 <= slot < light.len() ==> keeps_null(#[trigger] light[slot]),
    ensures
        only_nulls(light, published(light)),
{
    let shown = published(light);
    assert forall|slot: int| 0 <= slot < light.len() implies (shown[slot].is_lit()
        == light[slot].is_lit() && forall|index: int|
        0 <= index < 4096 ==> #[trigger] shown[slot].level(index) == light[slot].level(index)) || (
    !(#[trigger] shown[slot]).is_lit() && forall|index: int|
        0 <= index < 4096 ==> #[trigger] shown[slot].level(index) == 0) by {
        assert(keeps_null(light[slot]));
        assert(shown[slot] == light[slot].published());
    }
}

/// Sky light of a chunk that was lit anew and took in its neighbors' levels is
/// in balance: no block of the chunk could brighten a neighbor.
pub proof fn lit_chunk_is_balanced(sw: SkyWorld<'_>, light: Seq<SlotView>)
    requires
        may_be_lit(sw, light),
    ensures
        balanced_in(
            sw.base,
            center_lit(sw, start_state(sw.layout(), light), false).engine.light,
            center_blocks(sw),
        ),
        balanced_in(
            sw.base,
            published(center_lit(sw, start_state(sw.layout(), light), false).engine.light),
            center_blocks(sw),
        ),
{
    let layout = sw.layout();
    let w = sw.base;
    let s = opened_state(sw, light);
    let lit = chunk_lit_from_above(sw, s, layout.center);
    let bottom = layout.section_range.min_y();
    let top = center_top(sw);
    lemma_opened_comes_down(sw, light);
    lemma_check_nulls(sw, lit, bottom, top);
    let looked = check_nulls(sw, lit, layout.center, false, bottom, top);
    lemma_come_down_stays(sw, lit, looked);
    lemma_full_honest(w, looked.engine);
    lemma_pull_levels(sw, looked.engine, looked.engine, bottom, top);
    let pulled = pull_levels(sw, looked.engine, layout.center, bottom, top);
    lemma_still_covered(sw, looked, pulled);
    lemma_center_blocks(sw);
    sky_increase_settles(w, pulled, center_blocks(sw));
    let after = after_increase(w, pulled).light;
    assert(center_lit(sw, start_state(layout, light), false).engine.light == after);
    lemma_alike_sections(sw, pulled.light, after);
    assert forall|slot: int| 0 <= slot < after.len() implies keeps_null(#[trigger] after[slot]) by {
        assert(keeps_null(pulled.light[slot]));
    }
    lemma_published_nulls(after);
    lemma_nulls_balanced(w, after, published(after), center_blocks(sw));
}

/// In a chunk that was lit anew, a block is fully lit when nothing above it
/// stops the sky: every block of its column from the highest filled section down
/// to it dampens no light and has no faces in the way. Above the filled sections
/// all blocks are fully lit.
pub proof fn open_sky_is_full(sw: SkyWorld<'_>, light: Seq<SlotView>, pos: BlockPos)
    requires
        may_be_lit(sw, light),
        in_center_light(sw, pos),
        lit_at(
            sw.base,
            center_lit(sw, start_state(sw.layout(), light), false).engine.light,
            pos,
        ),
        forall|y: int|
            pos.y <= y <= center_top(sw) * 16 + 16 ==> #[trigger] sky_enters(
                sw,
                center_lit(sw, start_state(sw.layout(), light), false).engine.light,
                pos.x,
                pos.z,
                y,
            ),
    ensures
        level_at(
            sw.base,
            center_lit(sw, start_state(sw.layout(), light), false).engine.light,
            pos,
        ) == 15,
{
    let layout = sw.layout();
    let w = sw.base;
    let lit = chunk_lit_from_above(sw, opened_state(sw, light), layout.center);
    let bottom = layout.section_range.min_y();
    let top = center_top(sw);
    lemma_opened_comes_down(sw, light);
    lemma_check_nulls(sw, lit, bottom, top);
    let looked = check_nulls(sw, lit, layout.center, false, bottom, top);
    lemma_come_down_stays(sw, lit, looked);
    lemma_full_honest(w, looked.engine);
    lemma_pull_levels(sw, looked.engine, looked.engine, bottom, top);
    let pulled = pull_levels(sw, looked.engine, layout.center, bottom, top);
    lemma_still_covered(sw, looked, pulled);
    lemma_center_blocks(sw);
    sky_increase_settles(w, pulled, center_blocks(sw));
    let after = after_increase(w, pulled).light;
    assert(center_lit(sw, start_state(layout, light), false).engine.light == after);
    assert(layout.has_block(pos));
    lemma_keeps_full_at(w, pulled.light, after, pos);
    assert(is_lit_from_above(sw, looked, top, pos));
    if section_coord(pos.y as int) <= top {
        lemma_top_filled(sw, sw.max_chunk_y() - 1);
        let y = top * 16 + 16;
        let c = local_coord(pos.x as int) + local_coord(pos.z as int) * 16;
        assert(c % 16 == local_coord(pos.x as int) && c / 16 == local_coord(pos.z as int));
        assert(is_entered(sw, looked, c));
        lemma_entrance(sw, c);
        let at = entrance(sw, c);
        assert(at.x == pos.x && at.z == pos.z);
        let stop = choose|stop: int| #[trigger] is_reached(sw, looked, at.x, at.z, y, stop);
        assert(pos == column_block(pos.x, pos.y as int, pos.z));
        if stop >= pos.y {
            assert(sky_enters(sw, after, pos.x, pos.z, stop));
            lemma_center_block(layout, pos.x, stop + 1, pos.z);
            lemma_keeps_full_at(w, pulled.light, after, column_block(pos.x, stop + 1, pos.z));
            assert(false);
        } else {
            assert(is_reached_at(sw, looked, pos.x, pos.z, pos.y as int));
        }
    }
}

/// In a chunk that was lit anew, a block of the sections up to the highest filled
/// one is fully lit only where the sky reaches: nothing stops light on its way
/// into the block, and what is above is fully lit too, as far as it has light.
pub proof fn full_light_is_open_sky(sw: SkyWorld<'_>, light: Seq<SlotView>, pos: BlockPos)
    requires
        may_be_lit(sw, light),
        in_center_light(sw, pos),
        section_coord(pos.y as int) <= center_top(sw),
        level_at(
            sw.base,
            center_lit(sw, start_state(sw.layout(), light), false).engine.light,
            pos,
        ) == 15,
    ensures
        ({
            let after = center_lit(sw, start_state(sw.layout(), light), false).engine.light;
            &&& sky_enters(sw, after, pos.x, pos.z, pos.y as int)
            &&& open_above(sw.base, after, pos) ==> level_at(sw.base, after, block_above(pos))
                == 15
        }),
{
    let layout = sw.layout();
    let w = sw.base;
    let lit = chunk_lit_from_above(sw, opened_state(sw, light), layout.center);
    let bottom = layout.section_range.min_y();
    let top = center_top(sw);
    lemma_opened_comes_down(sw, light);
    lemma_check_nulls(sw, lit, bottom, top);
    let looked = check_nulls(sw, lit, layout.center, false, bottom, top);
    lemma_come_down_stays(sw, lit, looked);
    lemma_full_honest(w, looked.engine);
    lemma_pull_levels(sw, looked.engine, looked.engine, bottom, top);
    let pulled = pull_levels(sw, looked.engine, layout.center, bottom, top);
    lemma_still_covered(sw, looked, pulled);
    lemma_center_blocks(sw);
    sky_increase_settles(w, pulled, center_blocks(sw));
    let after = after_increase(w, pulled).light;
    assert(center_lit(sw, start_state(layout, light), false).engine.light == after);
    assert(layout.has_block(pos));
    lemma_over(sw, pos);
    lemma_keeps_full_at(w, pulled.light, after, pos);
    lemma_keeps_full_at(w, pulled.light, after, block_above(pos));
    assert(is_lit_from_above(sw, looked, top, pos));
    lemma_cached_block(layout, pos);
    assert(slot_valid(pulled.light[layout.cached(pos).section_slot as int]));
}

/// In balance, air beside air is at most one level darker: beside a fully lit
/// block of air it has at least fourteen.
pub proof fn air_dims_by_one(
    sw: SkyWorld<'_>,
    light: Seq<SlotView>,
    region: Set<(BlockPos, LightAxisDirection)>,
    pos: BlockPos,
    direction: LightAxisDirection,
)
    requires
        world_plain(sw.base),
        air_is_clear(sw),
        balanced_in(sw.base, light, region),
        region.contains((pos, direction)),
        sw.base.state(sw.layout().cached(pos)) == sw.base.table.spec_air(),
        open_neighbor(sw.base, light, pos, direction) is Some,
        sw.base.state(open_neighbor(sw.base, light, pos, direction)->0)
            == sw.base.table.spec_air(),
    ensures
        level_of(light, open_neighbor(sw.base, light, pos, direction)->0) + 1 >= level_at(
            sw.base,
            light,
            pos,
        ),
{
    assert(in_balance(sw.base, light, pos, direction));
}

} // verus!
