//! What holds of propagation as a whole.
use vstd::prelude::*;

use crate::block_state::BlockStateId;
use crate::engine_measure::{
    lemma_cached_block, lemma_encoded_small, lemma_increase_into, lemma_onward, lemma_set_block,
    state_valid,
};
use crate::engine_model::{
    decrease_around, decrease_done, decrease_into, decrease_steps, entry_source, increase_around,
    increase_done, increase_into, increase_step, increase_steps, onward, open_neighbor,
    EngineState, LightWorld,
};
use crate::light_cache::SlotView;
use crate::packed_queue::{LightAxisDirection, PackedLightQueueEntry, PackedQueuesView};
use crate::position::BlockPos;

verus! {

/// No level is lower, and every section that was cached and not null still is.
pub open spec fn no_darker(before: Seq<SlotView>, after: Seq<SlotView>) -> bool {
    &&& after.len() == before.len()
    &&& forall|slot: int|
        #![trigger after[slot]]
        0 <= slot < before.len() ==> {
            &&& after[slot].is_lit() == before[slot].is_lit()
            &&& forall|index: int|
                0 <= index < 4096 ==> #[trigger] after[slot].level(index) >= before[slot].level(
                    index,
                )
        }
}

/// No level is higher, and every section that was cached and not null still is.
pub open spec fn no_brighter(before: Seq<SlotView>, after: Seq<SlotView>) -> bool {
    &&& after.len() == before.len()
    &&& forall|slot: int|
        #![trigger after[slot]]
        0 <= slot < before.len() ==> {
            &&& after[slot].is_lit() == before[slot].is_lit()
            &&& forall|index: int|
                0 <= index < 4096 ==> #[trigger] after[slot].level(index) <= before[slot].level(
                    index,
                )
        }
}

/// No entry of a queue writes its level.
pub open spec fn no_writes(queue: Seq<PackedLightQueueEntry>) -> bool {
    forall|k: int| 0 <= k < queue.len() ==> !(#[trigger] queue[k]).flags().write_level
}

proof fn lemma_no_darker_trans(a: Seq<SlotView>, b: Seq<SlotView>, c: Seq<SlotView>)
    requires
        no_darker(a, b),
        no_darker(b, c),
    ensures
        no_darker(a, c),
{
    assert forall|slot: int|
        #![trigger c[slot]]
        0 <= slot < a.len() implies {
        &&& c[slot].is_lit() == a[slot].is_lit()
        &&& forall|index: int|
            0 <= index < 4096 ==> #[trigger] c[slot].level(index) >= a[slot].level(index)
    } by {
        assert(b[slot].is_lit() == a[slot].is_lit());
        assert forall|index: int| 0 <= index < 4096 implies #[trigger] c[slot].level(index)
            >= a[slot].level(index) by {
            assert(b[slot].level(index) >= a[slot].level(index));
        }
    }
}

pub proof fn lemma_no_brighter_trans(a: Seq<SlotView>, b: Seq<SlotView>, c: Seq<SlotView>)
    requires
        no_brighter(a, b),
        no_brighter(b, c),
    ensures
        no_brighter(a, c),
{
    assert forall|slot: int|
        #![trigger c[slot]]
        0 <= slot < a.len() implies {
        &&& c[slot].is_lit() == a[slot].is_lit()
        &&& forall|index: int|
            0 <= index < 4096 ==> #[trigger] c[slot].level(index) <= a[slot].level(index)
    } by {
        assert(b[slot].is_lit() == a[slot].is_lit());
        assert forall|index: int| 0 <= index < 4096 implies #[trigger] c[slot].level(index)
            <= a[slot].level(index) by {
            assert(b[slot].level(index) <= a[slot].level(index));
        }
    }
}

proof fn lemma_increase_into_brightens(
    w: LightWorld<'_>,
    s: EngineState,
    level: u8,
    from: BlockStateId,
    pos: BlockPos,
    direction: LightAxisDirection,
)
    requires
        state_valid(w, s),
        level < 16,
        no_writes(s.queues.increase),
    ensures
        no_darker(s.light, increase_into(w, s, level, from, pos, direction).light),
        no_writes(increase_into(w, s, level, from, pos, direction).queues.increase),
{
    let after = increase_into(w, s, level, from, pos, direction);
    if after != s {
        let neighbor = open_neighbor(w, s.light, pos, direction)->0;
        lemma_cached_block(w.layout, neighbor.block_pos);
        let to = w.state(neighbor);
        let target = (level - w.loss(from, to, direction)) as u8;
        lemma_set_block(s.light, neighbor, target);
        lemma_onward(direction);
        if target > 1 && w.layout.can_encode(neighbor.block_pos) {
            lemma_encoded_small(w.layout, neighbor.block_pos);
            PackedLightQueueEntry::fields_round_trip(
                w.layout.encoded(neighbor.block_pos),
                target,
                onward(direction),
                w.shape_flags(to),
            );
        }
    }
}

proof fn lemma_increase_around_brightens(
    w: LightWorld<'_>,
    s: EngineState,
    entry: PackedLightQueueEntry,
    from: BlockStateId,
    pos: BlockPos,
    n: int,
)
    requires
        state_valid(w, s),
        no_writes(s.queues.increase),
    ensures
        state_valid(w, increase_around(w, s, entry, from, pos, n)),
        no_darker(s.light, increase_around(w, s, entry, from, pos, n).light),
        no_writes(increase_around(w, s, entry, from, pos, n).queues.increase),
    decreases n,
{
    if n > 0 {
        lemma_increase_around_brightens(w, s, entry, from, pos, n - 1);
        let before = increase_around(w, s, entry, from, pos, n - 1);
        entry.level_is_nibble();
        lemma_increase_into(
            w,
            before,
            entry.spec_level(),
            from,
            pos,
            LightAxisDirection::at(n - 1),
        );
        lemma_increase_into_brightens(
            w,
            before,
            entry.spec_level(),
            from,
            pos,
            LightAxisDirection::at(n - 1),
        );
        lemma_no_darker_trans(
            s.light,
            before.light,
            increase_around(w, s, entry, from, pos, n).light,
        );
    }
}

proof fn lemma_increase_step_brightens(w: LightWorld<'_>, s: EngineState)
    requires
        state_valid(w, s),
        no_writes(s.queues.increase),
    ensures
        state_valid(w, increase_step(w, s)),
        no_darker(s.light, increase_step(w, s).light),
        no_writes(increase_step(w, s).queues.increase),
{
    if s.queues.increase.len() > 0 {
        let entry = s.queues.increase[0];
        let popped = EngineState {
            queues: PackedQueuesView { increase: s.queues.increase.skip(1), ..s.queues },
            ..s
        };
        assert(!entry.flags().write_level);
        assert forall|k: int| 0 <= k < popped.queues.increase.len() implies !(
        #[trigger] popped.queues.increase[k]).flags().write_level by {
            assert(popped.queues.increase[k] == s.queues.increase[k + 1]);
        }
        if let Some(source) = entry_source(w.layout, entry) {
            lemma_increase_around_brightens(
                w,
                popped,
                entry,
                w.source_state(entry, source),
                source.block_pos,
                6,
            );
        }
    }
}

/// Runs of increase steps that write nothing never make a block darker.
pub proof fn lemma_increase_steps_brighten(w: LightWorld<'_>, s: EngineState, n: nat)
    requires
        state_valid(w, s),
        no_writes(s.queues.increase),
    ensures
        state_valid(w, increase_steps(w, s, n)),
        no_darker(s.light, increase_steps(w, s, n).light),
        no_writes(increase_steps(w, s, n).queues.increase),
    decreases n,
{
    if n > 0 {
        lemma_increase_steps_brighten(w, s, (n - 1) as nat);
        let before = increase_steps(w, s, (n - 1) as nat);
        lemma_increase_step_brightens(w, before);
        lemma_no_darker_trans(s.light, before.light, increase_steps(w, s, n).light);
    }
}

/// Increase work that writes no levels of its own never makes a block darker.
pub proof fn increase_never_darkens(w: LightWorld<'_>, before: EngineState, after: EngineState)
    requires
        state_valid(w, before),
        no_writes(before.queues.increase),
        increase_done(w, before, after),
    ensures
        no_darker(before.light, after.light),
{
    let n = choose|n: nat|
        #[trigger] increase_steps(w, before, n) == after && after.queues.increase.len() == 0;
    lemma_increase_steps_brighten(w, before, n);
}

pub proof fn lemma_decrease_into_darkens(
    w: LightWorld<'_>,
    emits: bool,
    s: EngineState,
    level: u8,
    from: BlockStateId,
    pos: BlockPos,
    direction: LightAxisDirection,
)
    requires
        state_valid(w, s),
        level < 16,
    ensures
        state_valid(w, decrease_into(w, emits, s, level, from, pos, direction)),
        no_brighter(s.light, decrease_into(w, emits, s, level, from, pos, direction).light),
{
    if let Some(neighbor) = open_neighbor(w, s.light, pos, direction) {
        lemma_cached_block(w.layout, neighbor.block_pos);
        lemma_set_block(s.light, neighbor, 0);
    }
}

pub proof fn lemma_decrease_around_darkens(
    w: LightWorld<'_>,
    emits: bool,
    s: EngineState,
    entry: PackedLightQueueEntry,
    from: BlockStateId,
    pos: BlockPos,
    n: int,
)
    requires
        state_valid(w, s),
    ensures
        state_valid(w, decrease_around(w, emits, s, entry, from, pos, n)),
        no_brighter(s.light, decrease_around(w, emits, s, entry, from, pos, n).light),
    decreases n,
{
    if n > 0 {
        lemma_decrease_around_darkens(w, emits, s, entry, from, pos, n - 1);
        let before = decrease_around(w, emits, s, entry, from, pos, n - 1);
        entry.level_is_nibble();
        lemma_decrease_into_darkens(
            w,
            emits,
            before,
            entry.spec_level(),
            from,
            pos,
            LightAxisDirection::at(n - 1),
        );
        lemma_no_brighter_trans(
            s.light,
            before.light,
            decrease_around(w, emits, s, entry, from, pos, n).light,
        );
    }
}

pub proof fn lemma_decrease_steps_darken(w: LightWorld<'_>, emits: bool, s: EngineState, n: nat)
    requires
        state_valid(w, s),
    ensures
        state_valid(w, decrease_steps(w, emits, s, n)),
        no_brighter(s.light, decrease_steps(w, emits, s, n).light),
    decreases n,
{
    if n > 0 {
        lemma_decrease_steps_darken(w, emits, s, (n - 1) as nat);
        let before = decrease_steps(w, emits, s, (n - 1) as nat);
        if before.queues.decrease.len() > 0 {
            let entry = before.queues.decrease[0];
            let popped = EngineState {
                queues: PackedQueuesView {
                    decrease: before.queues.decrease.skip(1),
                    ..before.queues
                },
                ..before
            };
            if let Some(source) = entry_source(w.layout, entry) {
                lemma_decrease_around_darkens(
                    w,
                    emits,
                    popped,
                    entry,
                    w.source_state(entry, source),
                    source.block_pos,
                    6,
                );
            }
            lemma_no_brighter_trans(
                s.light,
                before.light,
                decrease_steps(w, emits, s, n).light,
            );
        }
    }
}

/// Decrease work never makes a block brighter.
pub proof fn decrease_never_brightens(
    w: LightWorld<'_>,
    emits: bool,
    before: EngineState,
    after: EngineState,
)
    requires
        state_valid(w, before),
        decrease_done(w, emits, before, after),
    ensures
        no_brighter(before.light, after.light),
{
    let n = choose|n: nat|
        #[trigger] decrease_steps(w, emits, before, n) == after && after.queues.decrease.len()
            == 0;
    lemma_decrease_steps_darken(w, emits, before, n);
}

} // verus!
