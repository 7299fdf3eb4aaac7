//! Sky light of a chunk whose edges were checked is in balance.
use vstd::prelude::*;

use crate::balance::{
    balanced_in, encodes, in_balance, is_pending, lemma_all_directions, lemma_set_block_levels,
    level_at, world_plain,
};
use crate::engine_measure::{lemma_cached_block, lemma_increase_step, lemma_set_block, state_valid};
use crate::engine_model::{
    after_increase, after_relight, entry_for, entry_source, increase_steps, set_block, EngineState,
    LightWorld,
};
use crate::equilibrium::{calculated_sky_level_is_exact, is_most_given, is_some_given};
use crate::light_cache::{section_view, SlotView};
use crate::packed_queue::{LightAxisDirection, LightDirectionSet, PackedLightQueueEntry};
use crate::position::{BlockPos, ChunkPos, SectionPos};
use crate::propagation::{idle_state, no_flags};
use crate::relight::{
    faces_regular, is_excused, is_quiet, leads_back, lemma_queued_entry, sources_quiet,
};
use crate::sky_changes::{fresh_light, heights_even, lemma_check_idle};
use crate::sky_lighting::{
    center_blocks, center_section, center_top, keeps_null, lemma_alike_sections,
    lemma_center_blocks, lemma_edge_block, lemma_even_stays, lemma_nulls_balanced, lemma_on_edge,
    lemma_opened_comes_down, lemma_published_nulls, lemma_still_covered, may_be_lit, opened_light,
    opened_state,
};
use crate::sky_model::{
    across_edge, blocks_checked_in_turn, calculated_sky_level, check_null, check_nulls,
    chunk_lit_from_above, chunk_near, chunk_section, edge_block, edges_checked, in_chunk,
    init_section, section_across, sections_checked, settle_around, settle_chunk, settle_section,
    sky_block_checked, sky_block_wrong, surroundings_known, wrong_blocks, SkyState, SkyWorld,
};
use crate::sky_runs::{center_lit, published, start_state};
use crate::sky_support::{
    increase_is_done, lemma_full_honest, lemma_same_slots_trans, lemma_set_same_slots, same_slots,
    sky_increase_settles, sky_relight_settles, sky_work, slot_like,
};
use crate::support::{beyond, decreases_near, is_near, lit_at};

verus! {

/// A block became dark, and takes its light back from everywhere.
spec fn is_taken(w: LightWorld<'_>, s: EngineState, pos: BlockPos) -> bool {
    exists|k: int|
        0 <= k < s.queues.decrease.len() && takes_all(w, #[trigger] s.queues.decrease[k], pos)
}

spec fn takes_all(w: LightWorld<'_>, entry: PackedLightQueueEntry, pos: BlockPos) -> bool {
    &&& entry_source(w.layout, entry) == Some(w.layout.cached(pos))
    &&& entry.spec_directions() == LightDirectionSet(63)
}

/// A decrease entry starts from a dark block near the active chunk.
spec fn is_edge_entry(
    w: LightWorld<'_>,
    light: Seq<SlotView>,
    entry: PackedLightQueueEntry,
) -> bool {
    entry_source(w.layout, entry) matches Some(source) ==> {
        &&& is_near(w.layout, source.block_pos, entry.spec_level() as int)
        &&& level_at(w, light, source.block_pos) == 0
    }
}

/// Some blocks of the edges became dark and take their light back.
spec fn edges_noted(w: LightWorld<'_>, base: Seq<SlotView>, s: EngineState) -> bool {
    &&& state_valid(w, s)
    &&& same_slots(base, s.light)
    &&& s.queues.increase.len() == 0
    &&& forall|pos: BlockPos|
        w.layout.has_block(pos) ==> #[trigger] level_at(w, s.light, pos) == level_at(w, base, pos)
            || (level_at(w, s.light, pos) == 0 && is_taken(w, s, pos))
    &&& forall|k: int|
        0 <= k < s.queues.decrease.len() ==> is_edge_entry(
            w,
            s.light,
            #[trigger] s.queues.decrease[k],
        )
}

/// Same slots, same light.
proof fn lemma_slots_lit(w: LightWorld<'_>, a: Seq<SlotView>, b: Seq<SlotView>, pos: BlockPos)
    requires
        w.layout.wf(),
        a.len() == w.layout.slots(),
        same_slots(a, b),
        w.layout.has_block(pos),
    ensures
        lit_at(w, b, pos) == lit_at(w, a, pos),
{
    lemma_cached_block(w.layout, pos);
    let slot = w.layout.cached(pos).section_slot as int;
    assert(slot_like(a[slot], b[slot]));
}

/// A block of an edge that may be noted.
spec fn may_note(w: LightWorld<'_>, light: Seq<SlotView>, pos: BlockPos) -> bool {
    &&& w.layout.has_block(pos)
    &&& lit_at(w, light, pos)
    &&& level_at(w, light, pos) < 15
    &&& beyond(pos.x as int, w.layout.center.x as int) <= 1
    &&& beyond(pos.z as int, w.layout.center.z as int) <= 1
}

/// Levels stayed or became dark, in the same sections.
spec fn only_dims(w: LightWorld<'_>, a: Seq<SlotView>, b: Seq<SlotView>) -> bool {
    forall|pos: BlockPos|
        w.layout.has_block(pos) ==> (#[trigger] level_at(w, b, pos) == level_at(w, a, pos)
            || level_at(w, b, pos) == 0) && lit_at(w, b, pos) == lit_at(w, a, pos)
}

proof fn lemma_block_noted(
    w: LightWorld<'_>,
    base: Seq<SlotView>,
    s: EngineState,
    at: BlockPos,
)
    requires
        world_plain(w),
        base.len() == w.layout.slots(),
        edges_noted(w, base, s),
        may_note(w, s.light, at),
    ensures
        edges_noted(w, base, sky_block_checked(w, s, at)),
        only_dims(w, s.light, sky_block_checked(w, s, at).light),
{
    let after = sky_block_checked(w, s, at);
    let current = level_at(w, s.light, at);
    assert(w.layout.can_encode(at));
    lemma_cached_block(w.layout, at);
    lemma_set_block(s.light, w.layout.cached(at), 0);
    lemma_set_block_levels(w, s.light, at, 0, at);
    lemma_set_same_slots(w, s.light, at, 0);
    lemma_same_slots_trans(base, s.light, after.light);
    lemma_queued_entry(w, at, current, LightDirectionSet(63), no_flags());
    let entry = entry_for(w.layout, at, current, LightDirectionSet(63), no_flags());
    let last = s.queues.decrease.len() as int;
    assert(after.queues.decrease == s.queues.decrease.push(entry));
    assert(after.queues.decrease[last] == entry);
    assert(takes_all(w, after.queues.decrease[last], at));
    assert(after.light == set_block(s.light, w.layout.cached(at), 0));
    assert forall|pos: BlockPos| w.layout.has_block(pos) implies (#[trigger] level_at(
        w,
        after.light,
        pos,
    ) == level_at(w, s.light, pos) || level_at(w, after.light, pos) == 0) && lit_at(
        w,
        after.light,
        pos,
    ) == lit_at(w, s.light, pos) by {
        lemma_set_block_levels(w, s.light, at, 0, pos);
    }
    assert forall|pos: BlockPos| w.layout.has_block(pos) implies #[trigger] level_at(
        w,
        after.light,
        pos,
    ) == level_at(w, base, pos) || (level_at(w, after.light, pos) == 0 && is_taken(
        w,
        after,
        pos,
    )) by {
        lemma_set_block_levels(w, s.light, at, 0, pos);
        assert(level_at(w, s.light, pos) == level_at(w, base, pos) || is_taken(w, s, pos));
        if is_taken(w, s, pos) {
            let k = choose|k: int|
                0 <= k < s.queues.decrease.len() && takes_all(
                    w,
                    #[trigger] s.queues.decrease[k],
                    pos,
                );
            assert(takes_all(w, after.queues.decrease[k], pos));
        }
    }
    assert forall|k: int| 0 <= k < after.queues.decrease.len() implies is_edge_entry(
        w,
        after.light,
        #[trigger] after.queues.decrease[k],
    ) by {
        if k < last {
            assert(after.queues.decrease[k] == s.queues.decrease[k]);
            assert(is_edge_entry(w, s.light, s.queues.decrease[k]));
            if let Some(source) = entry_source(w.layout, s.queues.decrease[k]) {
                lemma_set_block_levels(w, s.light, at, 0, source.block_pos);
            }
        }
    }
}

/// What may be noted may still be noted when others were.
proof fn lemma_may_still_note(
    w: LightWorld<'_>,
    a: Seq<SlotView>,
    b: Seq<SlotView>,
    pos: BlockPos,
)
    requires
        only_dims(w, a, b),
        may_note(w, a, pos),
    ensures
        may_note(w, b, pos),
{
    assert(level_at(w, b, pos) == level_at(w, a, pos) || level_at(w, b, pos) == 0);
}

proof fn lemma_dims_on(w: LightWorld<'_>, a: Seq<SlotView>, b: Seq<SlotView>, c: Seq<SlotView>)
    requires
        only_dims(w, a, b),
        only_dims(w, b, c),
    ensures
        only_dims(w, a, c),
{
    assert forall|pos: BlockPos| w.layout.has_block(pos) implies (#[trigger] level_at(w, c, pos)
        == level_at(w, a, pos) || level_at(w, c, pos) == 0) && lit_at(w, c, pos) == lit_at(
        w,
        a,
        pos,
    ) by {
        assert(level_at(w, b, pos) == level_at(w, a, pos) || level_at(w, b, pos) == 0);
        assert(level_at(w, c, pos) == level_at(w, b, pos) || level_at(w, c, pos) == 0);
    }
}

proof fn lemma_turns_noted(
    w: LightWorld<'_>,
    base: Seq<SlotView>,
    s: EngineState,
    here: Seq<BlockPos>,
    there: Seq<BlockPos>,
    n: int,
)
    requires
        world_plain(w),
        base.len() == w.layout.slots(),
        edges_noted(w, base, s),
        forall|i: int| 0 <= i < here.len() ==> may_note(w, s.light, #[trigger] here[i]),
        forall|i: int| 0 <= i < there.len() ==> may_note(w, s.light, #[trigger] there[i]),
    ensures
        edges_noted(w, base, blocks_checked_in_turn(w, s, here, there, n)),
        only_dims(w, s.light, blocks_checked_in_turn(w, s, here, there, n).light),
    decreases n,
{
    if n > 0 {
        lemma_turns_noted(w, base, s, here, there, n - 1);
        let before = blocks_checked_in_turn(w, s, here, there, n - 1);
        let first = if n - 1 < here.len() {
            sky_block_checked(w, before, here[n - 1])
        } else {
            before
        };
        if n - 1 < here.len() {
            lemma_may_still_note(w, s.light, before.light, here[n - 1]);
            lemma_block_noted(w, base, before, here[n - 1]);
            lemma_dims_on(w, s.light, before.light, first.light);
        }
        if n - 1 < there.len() {
            lemma_may_still_note(w, s.light, first.light, there[n - 1]);
            lemma_block_noted(w, base, first, there[n - 1]);
            lemma_dims_on(
                w,
                s.light,
                first.light,
                sky_block_checked(w, first, there[n - 1]).light,
            );
        }
    }
}

/// The blocks on both sides of an edge lie next to the active chunk or in it.
pub proof fn lemma_edge_sides(sw: SkyWorld<'_>, y: int, d: int, j: int)
    requires
        sw.layout().wf(),
        sw.layout().in_world(),
        sw.layout().section_range.contains(y),
        0 <= d < 4,
        0 <= j < 256,
    ensures
        ({
            let center = sw.layout().center;
            let direction = LightAxisDirection::at(d);
            let here = edge_block(center, y, direction, j);
            let there = across_edge(center, y, direction, j);
            &&& SectionPos::of_block(here) == chunk_section(center, y)
            &&& SectionPos::of_block(there) == section_across(center, y, direction)
            &&& beyond(here.x as int, center.x as int) == 0
            &&& beyond(here.z as int, center.z as int) == 0
            &&& beyond(there.x as int, center.x as int) <= 1
            &&& beyond(there.z as int, center.z as int) <= 1
        }),
{
    let center = sw.layout().center;
    let direction = LightAxisDirection::at(d);
    let here = edge_block(center, y, direction, j);
    let there = across_edge(center, y, direction, j);
    lemma_edge_block(sw, y, d, j);
    assert((center.x * 16 + 16) / 16 == center.x + 1);
    assert((center.x * 16 - 1) / 16 == center.x - 1);
    assert((center.z * 16 + 16) / 16 == center.z + 1);
    assert((center.z * 16 - 1) / 16 == center.z - 1);
    assert(!in_chunk(center, there));
    let k = lemma_on_edge(sw, here, d);
}

proof fn lemma_wrong_blocks(
    sw: SkyWorld<'_>,
    light: Seq<SlotView>,
    y: int,
    d: int,
    across: bool,
    n: int,
)
    requires
        world_plain(sw.base),
        state_valid(sw.base, idle_state(light)),
        sw.layout().section_range.contains(y),
        0 <= d < 4,
        0 <= n <= 256,
        center_section(sw, light, y).is_lit(),
        section_view(
            sw.layout(),
            light,
            section_across(sw.layout().center, y, LightAxisDirection::at(d)),
        ).is_lit(),
    ensures
        ({
            let found = wrong_blocks(
                sw,
                light,
                sw.layout().center,
                y,
                LightAxisDirection::at(d),
                across,
                n,
            );
            forall|i: int| 0 <= i < found.len() ==> may_note(sw.base, light, #[trigger] found[i])
        }),
    decreases n,
{
    if n > 0 {
        let center = sw.layout().center;
        let direction = LightAxisDirection::at(d);
        lemma_wrong_blocks(sw, light, y, d, across, n - 1);
        let before = wrong_blocks(sw, light, center, y, direction, across, n - 1);
        let here = edge_block(center, y, direction, n - 1);
        let there = across_edge(center, y, direction, n - 1);
        let pos = if across {
            there
        } else {
            here
        };
        if sw.layout().has_block(here) && sw.layout().has_block(there) && sky_block_wrong(
            sw.base,
            light,
            pos,
        ) {
            lemma_edge_sides(sw, y, d, n - 1);
            lemma_cached_block(sw.layout(), pos);
            lemma_set_block(light, sw.layout().cached(pos), 0);
            assert(may_note(sw.base, light, pos));
            let found = before.push(pos);
            assert forall|i: int| 0 <= i < found.len() implies may_note(
                sw.base,
                light,
                #[trigger] found[i],
            ) by {
                if i < before.len() {
                    assert(may_note(sw.base, light, before[i]));
                }
            }
        }
    }
}

proof fn lemma_edges_checked(
    sw: SkyWorld<'_>,
    base: Seq<SlotView>,
    s: EngineState,
    y: int,
    n: int,
)
    requires
        world_plain(sw.base),
        base.len() == sw.layout().slots(),
        edges_noted(sw.base, base, s),
        sw.layout().section_range.contains(y),
        center_section(sw, s.light, y).is_lit(),
        0 <= n <= 4,
    ensures
        edges_noted(sw.base, base, edges_checked(sw, s, sw.layout().center, y, n)),
    decreases n,
{
    if n > 0 {
        let w = sw.base;
        let center = sw.layout().center;
        lemma_edges_checked(sw, base, s, y, n - 1);
        let before = edges_checked(sw, s, center, y, n - 1);
        let direction = LightAxisDirection::at(n - 1);
        let there = section_view(
            sw.layout(),
            before.light,
            section_across(center, y, direction),
        );
        lemma_alike_sections(sw, base, s.light);
        lemma_alike_sections(sw, base, before.light);
        assert(center_section(sw, base, y).is_lit() == center_section(sw, s.light, y).is_lit());
        assert(center_section(sw, before.light, y).is_lit());
        if there.is_lit() {
            lemma_wrong_blocks(sw, before.light, y, n - 1, false, 256);
            lemma_wrong_blocks(sw, before.light, y, n - 1, true, 256);
            let a = wrong_blocks(sw, before.light, center, y, direction, false, 256);
            let b = wrong_blocks(sw, before.light, center, y, direction, true, 256);
            lemma_turns_noted(
                w,
                base,
                before,
                a,
                b,
                if a.len() < b.len() {
                    b.len() as int
                } else {
                    a.len() as int
                },
            );
        }
    }
}

/// Checking the edges of a chunk's sections notes what is wrong there.
proof fn lemma_sections_checked(
    sw: SkyWorld<'_>,
    base: Seq<SlotView>,
    s: EngineState,
    from: int,
    y: int,
)
    requires
        world_plain(sw.base),
        base.len() == sw.layout().slots(),
        edges_noted(sw.base, base, s),
        sw.layout().section_range.min_y() <= from,
        y < sw.layout().section_range.max_y(),
    ensures
        edges_noted(sw.base, base, sections_checked(sw, s, sw.layout().center, from, y)),
    decreases y - from + 1,
{
    if y >= from {
        let center = sw.layout().center;
        let next = if section_view(sw.layout(), s.light, chunk_section(center, y)).is_lit() {
            edges_checked(sw, s, center, y, 4)
        } else {
            s
        };
        if section_view(sw.layout(), s.light, chunk_section(center, y)).is_lit() {
            lemma_edges_checked(sw, base, s, y, 4);
        }
        lemma_sections_checked(sw, base, next, from, y - 1);
    }
}

/// What was noted at the edges is worked off to balance.
proof fn lemma_edges_settle(
    sw: SkyWorld<'_>,
    base: Seq<SlotView>,
    s: EngineState,
    region: Set<(BlockPos, LightAxisDirection)>,
)
    requires
        world_plain(sw.base),
        faces_regular(sw.base),
        encodes(sw.base, region),
        base.len() == sw.layout().slots(),
        edges_noted(sw.base, base, s),
        balanced_in(sw.base, base, region),
    ensures
        balanced_in(sw.base, after_relight(sw.base, false, s).light, region),
        same_slots(base, after_relight(sw.base, false, s).light),
        state_valid(sw.base, after_relight(sw.base, false, s)),
{
    let w = sw.base;
    assert forall|pos: BlockPos, direction: LightAxisDirection|
        region.contains((pos, direction)) implies #[trigger] in_balance(w, s.light, pos, direction)
        || is_pending(w, s, pos, direction) || is_excused(w, s, pos, direction) by {
        let near = pos.spec_relative(direction.spec_direction());
        assert(in_balance(w, base, pos, direction));
        assert(w.layout.has_block(pos));
        assert(level_at(w, s.light, pos) == level_at(w, base, pos) || level_at(w, s.light, pos)
            == 0);
        if w.layout.has_block(near) {
            lemma_slots_lit(w, base, s.light, near);
            if level_at(w, s.light, near) != level_at(w, base, near) {
                assert(is_taken(w, s, near));
                let k = choose|k: int|
                    0 <= k < s.queues.decrease.len() && takes_all(
                        w,
                        #[trigger] s.queues.decrease[k],
                        near,
                    );
                lemma_all_directions(direction.spec_opposite());
                assert(leads_back(w, s.queues.decrease[k], pos, direction));
            }
        }
    }
    assert(sources_quiet(w, s)) by {
        assert forall|k: int| 0 <= k < s.queues.decrease.len() implies (entry_source(
            w.layout,
            #[trigger] s.queues.decrease[k],
        ) matches Some(source) ==> is_quiet(w, s, source.block_pos)) by {
            assert(is_edge_entry(w, s.light, s.queues.decrease[k]));
        }
    }
    assert(sky_work(w, s) && decreases_near(w, s)) by {
        assert forall|k: int| 0 <= k < s.queues.decrease.len() implies is_edge_entry(
            w,
            s.light,
            #[trigger] s.queues.decrease[k],
        ) by {}
    }
    sky_relight_settles(w, s, region);
    lemma_same_slots_trans(base, s.light, after_relight(w, false, s).light);
}

/// A section is made null by its surroundings.
spec fn is_settled_null(sw: SkyWorld<'_>, pos: SectionPos) -> bool {
    surroundings_known(sw, ChunkPos { x: pos.x, z: pos.z }, pos.y as int, 0) == Some(true)
}

/// Sections are as they were, or were made null by their surroundings.
spec fn nulls_settled(sw: SkyWorld<'_>, a: Seq<SlotView>, b: Seq<SlotView>) -> bool {
    &&& a.len() == b.len()
    &&& forall|slot: int|
        0 <= slot < a.len() ==> #[trigger] b[slot] == a[slot] || (b[slot] == a[slot].nulled()
            && is_settled_null(sw, sw.layout().section_at(slot)))
}

proof fn lemma_settle_nulls(
    sw: SkyWorld<'_>,
    a: Seq<SlotView>,
    b: Seq<SlotView>,
    chunk_pos: ChunkPos,
    y: int,
    extrude: bool,
)
    requires
        sw.layout().wf(),
        a.len() == sw.layout().slots(),
        forall|slot: int| 0 <= slot < a.len() ==> !(#[trigger] a[slot]).is_null(),
        nulls_settled(sw, a, b),
        i32::MIN <= y <= i32::MAX,
    ensures
        nulls_settled(sw, a, settle_section(sw, b, chunk_pos, y, extrude)),
{
    let layout = sw.layout();
    let pos = chunk_section(chunk_pos, y);
    layout.slot_round_trip(pos, 0);
    assert(ChunkPos { x: pos.x, z: pos.z } == chunk_pos);
    if layout.has_section(pos) {
        let slot = layout.slot_at(pos);
        assert(b[slot] == a[slot] || (b[slot] == a[slot].nulled() && is_settled_null(sw, pos)));
        assert(!a[slot].is_null());
        let after = settle_section(sw, b, chunk_pos, y, extrude);
        if surroundings_known(sw, chunk_pos, y, 0) == Some(true) {
            assert(a[slot].nulled().nulled() == a[slot].nulled());
            assert forall|other: int| 0 <= other < a.len() implies #[trigger] after[other]
                == a[other] || (after[other] == a[other].nulled() && is_settled_null(
                sw,
                layout.section_at(other),
            )) by {
                assert(b[other] == a[other] || (b[other] == a[other].nulled() && is_settled_null(
                    sw,
                    layout.section_at(other),
                )));
            }
        } else {
            assert(b[slot] == a[slot]);
            assert(init_section(sw, b, pos, extrude, false) == b);
        }
    }
}

proof fn lemma_settle_chunk_nulls(
    sw: SkyWorld<'_>,
    a: Seq<SlotView>,
    b: Seq<SlotView>,
    chunk_pos: ChunkPos,
    extrude: bool,
    y: int,
)
    requires
        sw.layout().wf(),
        a.len() == sw.layout().slots(),
        forall|slot: int| 0 <= slot < a.len() ==> !(#[trigger] a[slot]).is_null(),
        nulls_settled(sw, a, b),
        y < sw.layout().section_range.max_y(),
    ensures
        nulls_settled(sw, a, settle_chunk(sw, b, chunk_pos, extrude, y)),
    decreases y - sw.layout().section_range.min_y() + 1,
{
    if y >= sw.layout().section_range.min_y() {
        lemma_settle_nulls(sw, a, b, chunk_pos, y, extrude);
        lemma_settle_chunk_nulls(
            sw,
            a,
            settle_section(sw, b, chunk_pos, y, extrude),
            chunk_pos,
            extrude,
            y - 1,
        );
    }
}

/// Settling light without null sections only makes sections null.
proof fn lemma_settle_around_nulls(sw: SkyWorld<'_>, a: Seq<SlotView>, n: int)
    requires
        sw.layout().wf(),
        a.len() == sw.layout().slots(),
        forall|slot: int| 0 <= slot < a.len() ==> !(#[trigger] a[slot]).is_null(),
    ensures
        nulls_settled(sw, a, settle_around(sw, a, sw.layout().center, true, n)),
    decreases n,
{
    if n > 0 {
        let center = sw.layout().center;
        lemma_settle_around_nulls(sw, a, n - 1);
        lemma_settle_chunk_nulls(
            sw,
            a,
            settle_around(sw, a, center, true, n - 1),
            chunk_near(center, n - 1),
            n - 1 != 4 || !true,
            sw.layout().section_range.max_y() - 1,
        );
    }
}

proof fn lemma_check_nulls_idle(sw: SkyWorld<'_>, s: SkyState, from: int, y: int)
    requires
        heights_even(sw, s.engine.light),
    ensures
        check_nulls(sw, s, sw.layout().center, false, from, y).engine == s.engine,
    decreases y - from + 1,
{
    if y >= from {
        lemma_check_idle(sw, s, y, false);
        lemma_check_nulls_idle(
            sw,
            check_null(sw, s, sw.layout().center, y, false),
            from,
            y - 1,
        );
    }
}

/// Increase work leaves the decrease queue alone.
proof fn lemma_increase_keeps_decreases(w: LightWorld<'_>, s: EngineState, n: nat)
    requires
        state_valid(w, s),
    ensures
        state_valid(w, increase_steps(w, s, n)),
        increase_steps(w, s, n).queues.decrease == s.queues.decrease,
    decreases n,
{
    if n > 0 {
        lemma_increase_keeps_decreases(w, s, (n - 1) as nat);
        let before = increase_steps(w, s, (n - 1) as nat);
        if before.queues.increase.len() > 0 {
            lemma_increase_step(w, before);
        }
    }
}

/// Sky light of a chunk that was lit anew and whose edges were checked is in
/// balance, where no section around it has to come into being once its light
/// has spread: no block of the chunk could brighten a neighbor.
pub proof fn checked_chunk_is_balanced(sw: SkyWorld<'_>, light: Seq<SlotView>)
    requires
        may_be_lit(sw, light),
        faces_regular(sw.base),
        heights_even(sw, fresh_light(opened_light(sw, light))),
    ensures
        balanced_in(
            sw.base,
            center_lit(sw, start_state(sw.layout(), light), true).engine.light,
            center_blocks(sw),
        ),
        balanced_in(
            sw.base,
            published(center_lit(sw, start_state(sw.layout(), light), true).engine.light),
            center_blocks(sw),
        ),
{
    let layout = sw.layout();
    let w = sw.base;
    let region = center_blocks(sw);
    let s = opened_state(sw, light);
    let lit = chunk_lit_from_above(sw, s, layout.center);
    let bottom = layout.section_range.min_y();
    let top = center_top(sw);
    lemma_opened_comes_down(sw, light);
    lemma_center_blocks(sw);
    lemma_full_honest(w, lit.engine);
    lemma_still_covered(sw, lit, lit.engine);
    sky_increase_settles(w, lit.engine, region);
    let spread = SkyState { engine: after_increase(w, lit.engine), ..lit };
    let base = spread.engine.light;
    assert(spread.engine.queues.decrease.len() == 0) by {
        increase_is_done(w, lit.engine);
        let n = choose|n: nat|
            #[trigger] increase_steps(w, lit.engine, n) == spread.engine
                && spread.engine.queues.increase.len() == 0;
        lemma_increase_keeps_decreases(w, lit.engine, n);
    }
    lemma_alike_sections(sw, lit.engine.light, base);
    lemma_even_stays(sw, lit.engine.light, base);
    lemma_check_nulls_idle(sw, spread, bottom, top);
    let looked = check_nulls(sw, spread, layout.center, false, bottom, top);
    assert(edges_noted(w, base, looked.engine)) by {
        assert forall|slot: int| 0 <= slot < base.len() implies slot_like(
            base[slot],
            #[trigger] base[slot],
        ) by {}
    }
    lemma_sections_checked(sw, base, looked.engine, bottom, top);
    let noted = sections_checked(sw, looked.engine, layout.center, bottom, top);
    lemma_edges_settle(sw, base, noted, region);
    let after = after_relight(w, false, noted).light;
    lemma_alike_sections(sw, base, after);
    assert forall|slot: int| 0 <= slot < after.len() implies !(#[trigger] after[slot]).is_null()
        && keeps_null(after[slot]) by {
        assert(base[slot].is_null() == lit.engine.light[slot].is_null());
        assert(!lit.engine.light[slot].is_null() && keeps_null(lit.engine.light[slot]));
    }
    lemma_settle_around_nulls(sw, after, 9);
    let settled = settle_around(sw, after, layout.center, true, 9);
    assert forall|slot: int| 0 <= slot < after.len() implies ((settled[slot].is_lit()
        == after[slot].is_lit() && forall|index: int|
        0 <= index < 4096 ==> #[trigger] settled[slot].level(index) == after[slot].level(index)) || (
    !(#[trigger] settled[slot]).is_lit() && forall|index: int|
        0 <= index < 4096 ==> #[trigger] settled[slot].level(index) == 0)) && keeps_null(
        settled[slot],
    ) by {
        assert(settled[slot] == after[slot] || settled[slot] == after[slot].nulled());
        assert(keeps_null(after[slot]));
    }
    lemma_nulls_balanced(w, after, settled, region);
    lemma_published_nulls(settled);
    lemma_nulls_balanced(w, settled, published(settled), region);
    assert(center_lit(sw, start_state(layout, light), true).engine.light == settled);
}

/// Checking an edge finds exactly the blocks of it below full light whose level
/// is not the most that a neighbor leaves them.
pub proof fn wrong_edge_blocks_are_found(
    sw: SkyWorld<'_>,
    light: Seq<SlotView>,
    y: int,
    direction: LightAxisDirection,
    across: bool,
    n: int,
    j: int,
)
    requires
        world_plain(sw.base),
        state_valid(sw.base, idle_state(light)),
        0 <= j < n,
        sw.layout().has_block(edge_block(sw.layout().center, y, direction, j)),
        sw.layout().has_block(across_edge(sw.layout().center, y, direction, j)),
    ensures
        ({
            let center = sw.layout().center;
            let found = wrong_blocks(sw, light, center, y, direction, across, n);
            let pos = if across {
                across_edge(center, y, direction, j)
            } else {
                edge_block(center, y, direction, j)
            };
            found.contains(pos) <==> is_wrong(sw.base, light, pos)
        }),
{
    let center = sw.layout().center;
    let pos = if across {
        across_edge(center, y, direction, j)
    } else {
        edge_block(center, y, direction, j)
    };
    lemma_is_wrong(sw.base, light, pos);
    let found = wrong_blocks(sw, light, center, y, direction, across, n);
    assert(pos == checked_block(sw, y, direction, across, j));
    if found.contains(pos) {
        let k = choose|k: int| 0 <= k < found.len() && found[k] == pos;
        lemma_found_wrong(sw, light, y, direction, across, n, k);
    }
    if sky_block_wrong(sw.base, light, pos) {
        let k = lemma_wrong_found(sw, light, y, direction, across, n, j);
        assert(found[k] == pos);
    }
}

/// A block below full light does not have the most that a neighbor leaves it.
pub open spec fn is_wrong(w: LightWorld<'_>, light: Seq<SlotView>, pos: BlockPos) -> bool {
    level_at(w, light, pos) != 15 && !is_most_given(w, light, pos, 0, level_at(w, light, pos))
}

proof fn lemma_is_wrong(w: LightWorld<'_>, light: Seq<SlotView>, pos: BlockPos)
    requires
        world_plain(w),
        state_valid(w, idle_state(light)),
        w.layout.has_block(pos),
    ensures
        sky_block_wrong(w, light, pos) <==> is_wrong(w, light, pos),
{
    let level = level_at(w, light, pos);
    lemma_cached_block(w.layout, pos);
    lemma_set_block(light, w.layout.cached(pos), 0);
    calculated_sky_level_is_exact(w, light, pos, level);
    let right = calculated_sky_level(w, light, pos, level)->0;
    if level != 15 && is_most_given(w, light, pos, 0, level) {
        if right > level {
            assert(is_some_given(w, light, pos, 0, right));
            assert(false);
        } else {
            assert(is_most_given(w, light, pos, 0, right));
        }
    }
}

/// The block of an edge that is checked, by its place.
spec fn checked_block(
    sw: SkyWorld<'_>,
    y: int,
    direction: LightAxisDirection,
    across: bool,
    j: int,
) -> BlockPos {
    if across {
        across_edge(sw.layout().center, y, direction, j)
    } else {
        edge_block(sw.layout().center, y, direction, j)
    }
}

proof fn lemma_found_wrong(
    sw: SkyWorld<'_>,
    light: Seq<SlotView>,
    y: int,
    direction: LightAxisDirection,
    across: bool,
    n: int,
    k: int,
)
    requires
        0 <= k < wrong_blocks(sw, light, sw.layout().center, y, direction, across, n).len(),
    ensures
        sky_block_wrong(
            sw.base,
            light,
            wrong_blocks(sw, light, sw.layout().center, y, direction, across, n)[k],
        ),
    decreases n,
{
    let before = wrong_blocks(sw, light, sw.layout().center, y, direction, across, n - 1);
    if k < before.len() {
        lemma_found_wrong(sw, light, y, direction, across, n - 1, k);
    }
}

proof fn lemma_wrong_found(
    sw: SkyWorld<'_>,
    light: Seq<SlotView>,
    y: int,
    direction: LightAxisDirection,
    across: bool,
    n: int,
    j: int,
) -> (k: int)
    requires
        0 <= j < n,
        sw.layout().has_block(edge_block(sw.layout().center, y, direction, j)),
        sw.layout().has_block(across_edge(sw.layout().center, y, direction, j)),
        sky_block_wrong(sw.base, light, checked_block(sw, y, direction, across, j)),
    ensures
        ({
            let found = wrong_blocks(sw, light, sw.layout().center, y, direction, across, n);
            0 <= k < found.len() && found[k] == checked_block(sw, y, direction, across, j)
        }),
    decreases n,
{
    let before = wrong_blocks(sw, light, sw.layout().center, y, direction, across, n - 1);
    if j == n - 1 {
        before.len() as int
    } else {
        lemma_wrong_found(sw, light, y, direction, across, n - 1, j)
    }
}

} // verus!
