//! Sky light of neighboring chunks enters a chunk that is lit anew.
use vstd::prelude::*;

use crate::balance::{
    all_honest, balanced_in, covers, in_balance, is_awaited, is_pending,
    lemma_can_encode_has_block, level_at, queue_grew, world_plain,
};
use crate::engine_laws::no_writes;
use crate::engine_measure::{lemma_cached_block, lemma_set_block, state_valid};
use crate::engine_model::{after_increase, entry_for, open_neighbor, queue_increase, EngineState};
use crate::light_cache::{section_view, SlotView};
use crate::packed_queue::{LightAxisDirection, PackedLightQueueEntry};
use crate::position::BlockPos;
use crate::relight::lemma_queued_entry;
use crate::sky_edges::lemma_edge_sides;
use crate::sky_lighting::{
    center_section, center_top, lemma_check_nulls, lemma_only, lemma_opened_comes_down,
    lemma_pull_edges, lemma_pull_levels, may_be_lit, only_adds, opened_state,
};
use crate::sky_model::{
    across_edge, check_nulls, chunk_lit_from_above, only, pull_edge, pull_edges, pull_levels,
    section_across, sided_flags, SkyWorld,
};
use crate::sky_runs::{center_lit, start_state};
use crate::sky_support::{lemma_full_honest, sky_increase_settles};

verus! {

/// The block behind an edge of the active chunk, by section height, direction
/// and place.
pub open spec fn behind_edge(sw: SkyWorld<'_>, y: int, d: int, j: int) -> BlockPos {
    across_edge(sw.layout().center, y, LightAxisDirection::at(d), j)
}

/// The light of the section behind an edge.
pub open spec fn section_behind(
    sw: SkyWorld<'_>,
    light: Seq<SlotView>,
    y: int,
    d: int,
) -> SlotView {
    section_view(
        sw.layout(),
        light,
        section_across(sw.layout().center, y, LightAxisDirection::at(d)),
    )
}

/// Light may enter a section of the active chunk over an edge: the section has
/// light, and the one behind the edge is initialized.
pub open spec fn may_enter(
    sw: SkyWorld<'_>,
    light: Seq<SlotView>,
    from: int,
    to: int,
    y: int,
    d: int,
    j: int,
) -> bool {
    &&& from <= y <= to
    &&& 0 <= d < 4
    &&& 0 <= j < 256
    &&& center_section(sw, light, y).is_lit()
    &&& section_behind(sw, light, y, d).is_initialized()
}

/// The entry that spreads a block's level inwards.
spec fn entering(
    sw: SkyWorld<'_>,
    light: Seq<SlotView>,
    y: int,
    d: int,
    j: int,
) -> PackedLightQueueEntry {
    entry_for(
        sw.layout(),
        behind_edge(sw, y, d, j),
        level_at(sw.base, light, behind_edge(sw, y, d, j)),
        only(LightAxisDirection::at(d).spec_opposite()),
        sided_flags(),
    )
}

/// A block's level is about to spread inwards, or is too low for that.
spec fn will_enter(sw: SkyWorld<'_>, s: EngineState, y: int, d: int, j: int) -> bool {
    let pos = behind_edge(sw, y, d, j);
    sw.layout().can_encode(pos) && level_at(sw.base, s.light, pos) > 1
        ==> s.queues.increase.contains(entering(sw, s.light, y, d, j))
}

proof fn lemma_still_enters(
    sw: SkyWorld<'_>,
    a: EngineState,
    b: EngineState,
    y: int,
    d: int,
    j: int,
)
    requires
        b.light == a.light,
        queue_grew(a, b),
        will_enter(sw, a, y, d, j),
    ensures
        will_enter(sw, b, y, d, j),
{
    let entry = entering(sw, a.light, y, d, j);
    if a.queues.increase.contains(entry) {
        let k = choose|k: int| 0 <= k < a.queues.increase.len() && a.queues.increase[k] == entry;
        assert(b.queues.increase[k] == entry);
    }
}

proof fn lemma_edge_enters(sw: SkyWorld<'_>, s: EngineState, y: int, d: int, n: int)
    requires
        sw.layout().wf(),
        0 <= d < 4,
        0 <= n <= 256,
    ensures
        ({
            let after = pull_edge(
                sw,
                s,
                sw.layout().center,
                y,
                LightAxisDirection::at(d),
                n,
            );
            &&& after.light == s.light
            &&& queue_grew(s, after)
            &&& forall|j: int| 0 <= j < n ==> #[trigger] will_enter(sw, after, y, d, j)
        }),
    decreases n,
{
    let layout = sw.layout();
    let direction = LightAxisDirection::at(d);
    let after = pull_edge(sw, s, layout.center, y, direction, n);
    if n > 0 {
        lemma_edge_enters(sw, s, y, d, n - 1);
        let before = pull_edge(sw, s, layout.center, y, direction, n - 1);
        lemma_enters_next(sw, before, after, y, d, n - 1);
        assert(queue_grew(s, after)) by {
            assert forall|k: int| 0 <= k < s.queues.increase.len() implies
                #[trigger] after.queues.increase[k] == s.queues.increase[k] by {
                assert(before.queues.increase[k] == s.queues.increase[k]);
            }
        }
        assert forall|j: int| 0 <= j < n implies #[trigger] will_enter(sw, after, y, d, j) by {
            if j < n - 1 {
                lemma_still_enters(sw, before, after, y, d, j);
            }
        }
    }
}

/// One more block behind an edge was seen to.
proof fn lemma_enters_next(
    sw: SkyWorld<'_>,
    before: EngineState,
    after: EngineState,
    y: int,
    d: int,
    j: int,
)
    requires
        ({
            let pos = behind_edge(sw, y, d, j);
            after == if sw.layout().has_block(pos) && level_at(sw.base, before.light, pos) > 1 {
                queue_increase(
                    sw.layout(),
                    before,
                    pos,
                    level_at(sw.base, before.light, pos),
                    only(LightAxisDirection::at(d).spec_opposite()),
                    sided_flags(),
                )
            } else {
                before
            }
        }),
    ensures
        after.light == before.light,
        queue_grew(before, after),
        will_enter(sw, after, y, d, j),
{
    let pos = behind_edge(sw, y, d, j);
    if sw.layout().can_encode(pos) && level_at(sw.base, before.light, pos) > 1 {
        let entry = entering(sw, before.light, y, d, j);
        lemma_can_encode_has_block(sw.layout(), pos);
        assert(after.queues.increase == before.queues.increase.push(entry));
        assert(after.queues.increase[before.queues.increase.len() as int] == entry);
    }
}

proof fn lemma_section_enters(sw: SkyWorld<'_>, s: EngineState, y: int, n: int)
    requires
        world_plain(sw.base),
        state_valid(sw.base, s),
        all_honest(sw.base, s),
        no_writes(s.queues.increase),
        sw.layout().section_range.contains(y),
        0 <= n <= 4,
    ensures
        ({
            let after = pull_edges(sw, s, sw.layout().center, y, n);
            &&& only_adds(sw.base, s, after)
            &&& forall|d: int, j: int|
                0 <= d < n && 0 <= j < 256 && section_behind(sw, s.light, y, d).is_initialized()
                    ==> #[trigger] will_enter(sw, after, y, d, j)
        }),
    decreases n,
{
    let center = sw.layout().center;
    let after = pull_edges(sw, s, center, y, n);
    lemma_pull_edges(sw, s, s, y, n);
    if n > 0 {
        lemma_section_enters(sw, s, y, n - 1);
        let before = pull_edges(sw, s, center, y, n - 1);
        let behind = section_behind(sw, s.light, y, n - 1);
        if behind.is_initialized() {
            lemma_edge_enters(sw, before, y, n - 1, 256);
        }
        assert(queue_grew(before, after));
        assert forall|d: int, j: int|
            0 <= d < n && 0 <= j < 256 && section_behind(
                sw,
                s.light,
                y,
                d,
            ).is_initialized() implies #[trigger] will_enter(sw, after, y, d, j) by {
            if d < n - 1 {
                assert(will_enter(sw, before, y, d, j));
                lemma_still_enters(sw, before, after, y, d, j);
            }
        }
    }
}

proof fn lemma_levels_enter(sw: SkyWorld<'_>, s: EngineState, from: int, to: int)
    requires
        world_plain(sw.base),
        state_valid(sw.base, s),
        all_honest(sw.base, s),
        no_writes(s.queues.increase),
        sw.layout().section_range.min_y() <= from,
        to < sw.layout().section_range.max_y(),
    ensures
        ({
            let after = pull_levels(sw, s, sw.layout().center, from, to);
            &&& only_adds(sw.base, s, after)
            &&& forall|y: int, d: int, j: int| #[trigger]
                may_enter(sw, s.light, from, to, y, d, j) ==> will_enter(sw, after, y, d, j)
        }),
    decreases to - from + 1,
{
    let center = sw.layout().center;
    let after = pull_levels(sw, s, center, from, to);
    lemma_pull_levels(sw, s, s, from, to);
    if to >= from {
        let lit = center_section(sw, s.light, to).is_lit();
        let next = if lit {
            pull_edges(sw, s, center, to, 4)
        } else {
            s
        };
        if lit {
            lemma_section_enters(sw, s, to, 4);
        }
        lemma_levels_enter(sw, next, from, to - 1);
        assert(queue_grew(next, after));
        assert forall|y: int, d: int, j: int| #[trigger]
            may_enter(sw, s.light, from, to, y, d, j) implies will_enter(sw, after, y, d, j) by {
            if y < to {
                assert(may_enter(sw, next.light, from, to - 1, y, d, j));
            } else {
                assert(will_enter(sw, next, y, d, j));
                lemma_still_enters(sw, next, after, y, d, j);
            }
        }
    }
}

/// The blocks behind edges over which light may enter, with the direction
/// inwards.
pub open spec fn entering_blocks(
    sw: SkyWorld<'_>,
    light: Seq<SlotView>,
    from: int,
    to: int,
) -> Set<(BlockPos, LightAxisDirection)> {
    Set::new(
        |pair: (BlockPos, LightAxisDirection)|
            exists|y: int, d: int, j: int| #[trigger]
                may_enter(sw, light, from, to, y, d, j) && pair == (
                    behind_edge(sw, y, d, j),
                    LightAxisDirection::at(d).spec_opposite(),
                ),
    )
}

/// Light that is pulled in from neighboring chunks enters: no block behind an
/// edge could brighten the block on this side of it.
pub proof fn neighbor_light_enters(sw: SkyWorld<'_>, s: EngineState, from: int, to: int)
    requires
        world_plain(sw.base),
        state_valid(sw.base, s),
        all_honest(sw.base, s),
        no_writes(s.queues.increase),
        sw.layout().section_range.min_y() <= from,
        to < sw.layout().section_range.max_y(),
    ensures
        balanced_in(
            sw.base,
            after_increase(sw.base, pull_levels(sw, s, sw.layout().center, from, to)).light,
            entering_blocks(sw, s.light, from, to),
        ),
{
    let w = sw.base;
    let pulled = pull_levels(sw, s, sw.layout().center, from, to);
    let region = entering_blocks(sw, s.light, from, to);
    lemma_levels_enter(sw, s, from, to);
    assert forall|pos: BlockPos, direction: LightAxisDirection| #[trigger]
        region.contains((pos, direction)) implies w.layout.can_encode(pos) by {
        let (y, d, j) = choose|y: int, d: int, j: int| #[trigger]
            may_enter(sw, s.light, from, to, y, d, j) && (pos, direction) == (
                behind_edge(sw, y, d, j),
                LightAxisDirection::at(d).spec_opposite(),
            );
        lemma_edge_sides(sw, y, d, j);
    }
    assert forall|pos: BlockPos, direction: LightAxisDirection|
        region.contains((pos, direction)) implies #[trigger] in_balance(
        w,
        pulled.light,
        pos,
        direction,
    ) || is_pending(w, pulled, pos, direction) || is_awaited(w, pulled, pos, direction) by {
        let (y, d, j) = choose|y: int, d: int, j: int| #[trigger]
            may_enter(sw, s.light, from, to, y, d, j) && (pos, direction) == (
                behind_edge(sw, y, d, j),
                LightAxisDirection::at(d).spec_opposite(),
            );
        assert(w.layout.can_encode(pos));
        assert(will_enter(sw, pulled, y, d, j));
        let level = level_at(w, pulled.light, pos);
        lemma_only(direction);
        lemma_cached_block(w.layout, pos);
        lemma_set_block(pulled.light, w.layout.cached(pos), 0);
        if level > 1 {
            let entry = entering(sw, pulled.light, y, d, j);
            let k = choose|k: int|
                0 <= k < pulled.queues.increase.len() && pulled.queues.increase[k] == entry;
            lemma_queued_entry(w, pos, level, only(direction), sided_flags());
            assert(covers(w, pulled.light, pulled.queues.increase[k], pos, direction));
        } else if let Some(near) = open_neighbor(w, pulled.light, pos, direction) {
            assert(w.loss(w.state(w.layout.cached(pos)), w.state(near), direction) >= 1);
        }
    }
    sky_increase_settles(w, pulled, region);
}

/// The light that neighboring levels are pulled into when the active chunk is
/// lit anew.
pub open spec fn light_before_pull(sw: SkyWorld<'_>, light: Seq<SlotView>) -> Seq<SlotView> {
    check_nulls(
        sw,
        chunk_lit_from_above(sw, opened_state(sw, light), sw.layout().center),
        sw.layout().center,
        false,
        sw.layout().section_range.min_y(),
        center_top(sw),
    ).engine.light
}

/// A chunk that was lit anew without checking its edges took in the light behind
/// them: no block behind an edge of a section up to the highest filled one could
/// brighten the block on this side of it.
pub proof fn lit_chunk_takes_light_in(sw: SkyWorld<'_>, light: Seq<SlotView>)
    requires
        may_be_lit(sw, light),
    ensures
        balanced_in(
            sw.base,
            center_lit(sw, start_state(sw.layout(), light), false).engine.light,
            entering_blocks(
                sw,
                light_before_pull(sw, light),
                sw.layout().section_range.min_y(),
                center_top(sw),
            ),
        ),
{
    let layout = sw.layout();
    let w = sw.base;
    let lit = chunk_lit_from_above(sw, opened_state(sw, light), layout.center);
    let bottom = layout.section_range.min_y();
    let top = center_top(sw);
    lemma_opened_comes_down(sw, light);
    lemma_check_nulls(sw, lit, bottom, top);
    let looked = check_nulls(sw, lit, layout.center, false, bottom, top);
    lemma_full_honest(w, looked.engine);
    neighbor_light_enters(sw, looked.engine, bottom, top);
    assert(center_lit(sw, start_state(layout, light), false).engine == after_increase(
        w,
        pull_levels(sw, looked.engine, layout.center, bottom, top),
    ));
}

} // verus!
