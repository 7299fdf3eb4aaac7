//! Whole sky-light passes over the chunks of a workset.
use vstd::prelude::*;

use crate::block_state::BlockStateTable;
use crate::cache::LightCacheLayout;
use crate::engine::LightEngine;
use crate::engine_model::EngineState;
use crate::light_cache::{
    dirty_sections, reset_chunk, same_frame, set_known, LightLayerWriteCache,
    LightSectionReadCache, SlotView,
};
use crate::packed_queue::PackedLightPropagationQueues;
use crate::position::{BlockPos, ChunkPos, SectionPos};
use crate::propagation::idle_state;
use crate::sky_model::{
    changes_propagated, check_nulls, chunk_edges_checked, chunk_in_world, chunk_lit, fresh_pass,
    init_chunk, settle_around, SkyState, SkyWorld,
};
use crate::sky_propagation::{
    sky_world_of, SkyLightChunkEdgeChecks, SkyLightPropagationContext,
    SkyLightPropagationContextError, SkyLightUpdateResult,
};
use crate::workset::LightWorkset;
use crate::LightLayer;

verus! {

/// A section that became empty, or came to have blocks.
#[derive(Debug, Clone, Copy, PartialEq, Eq, Structural)]
pub struct LightSectionEmptinessChange {
    /// The section.
    pub section_pos: SectionPos,
    /// Whether it is empty now.
    pub empty: bool,
}

/// The state at the start of a pass over some light.
pub open spec fn start_state(layout: LightCacheLayout, light: Seq<SlotView>) -> SkyState {
    SkyState {
        engine: idle_state(light),
        checked: Seq::new(layout.section_range.count() as nat, |i: int| false),
    }
}

/// The light after its changes were published.
pub open spec fn published(light: Seq<SlotView>) -> Seq<SlotView> {
    light.map_values(|slot: SlotView| slot.published())
}

/// Why a pass cannot run: the active chunk does not take part, the light is not
/// sky light, or the caches have different windows.
pub open spec fn run_error(
    workset: &LightWorkset,
    sections: &LightSectionReadCache<'_>,
    light: &LightLayerWriteCache,
) -> Option<SkyLightPropagationContextError> {
    if !workset.has_center() {
        Some(
            SkyLightPropagationContextError::MissingCenterChunk {
                chunk_pos: workset.spec_layout().center,
            },
        )
    } else if light.spec_layer() != LightLayer::Sky {
        Some(SkyLightPropagationContextError::WrongLayer { layer: light.spec_layer() })
    } else if sections.spec_layout() != light.spec_layout() {
        Some(
            SkyLightPropagationContextError::LayoutMismatch {
                section_layout: sections.spec_layout(),
                light_layout: light.spec_layout(),
            },
        )
    } else {
        None
    }
}

/// The caches of a pass are well formed, and the workset has their window.
pub open spec fn run_ready(
    workset: &LightWorkset,
    table: &BlockStateTable,
    sections: &LightSectionReadCache<'_>,
    light: &LightLayerWriteCache,
) -> bool {
    &&& workset.wf()
    &&& table.wf()
    &&& sections.wf()
    &&& light.wf()
    &&& workset.spec_layout() == sections.spec_layout()
    &&& sections.spec_layout().in_world()
}

/// What a pass that ended with the given light leaves: the light is published,
/// and the changed sections are reported.
pub open spec fn pass_ended(
    layout: LightCacheLayout,
    light: Seq<SlotView>,
    after: &LightLayerWriteCache,
    update: SkyLightUpdateResult,
) -> bool {
    &&& after@ == published(light)
    &&& update.updated_sections@ == dirty_sections(layout, light, light.len() as int)
}

fn open_pass<'a>(
    workset: &LightWorkset,
    table: &'a BlockStateTable,
    sections: &'a LightSectionReadCache<'a>,
    light: &mut LightLayerWriteCache,
) -> (result: Result<SkyLightPropagationContext<'a>, SkyLightPropagationContextError>)
    requires
        run_ready(workset, table, sections, old(light)),
    ensures
        match result {
            Ok(context) => {
                &&& run_error(workset, sections, old(light)) is None
                &&& context.wf()
                &&& context.engine.table == table
                &&& context.engine.sections == sections
                &&& same_frame(&context.engine.light, old(light))
                &&& context@ == start_state(sections.spec_layout(), old(light)@)
                &&& final(light).wf()
            },
            Err(error) => run_error(workset, sections, old(light)) == Some(error) && *final(light)
                == *old(light),
        },
{
    let layout: LightCacheLayout = sections.layout();
    if !workset.has_center_chunk() {
        return Err(
            SkyLightPropagationContextError::MissingCenterChunk {
                chunk_pos: workset.layout().center_chunk(),
            },
        );
    }
    let layer: LightLayer = light.layer();
    if layer != LightLayer::Sky {
        return Err(SkyLightPropagationContextError::WrongLayer { layer });
    }
    if layout != light.layout() {
        return Err(
            SkyLightPropagationContextError::LayoutMismatch {
                section_layout: layout,
                light_layout: light.layout(),
            },
        );
    }
    let mut taken: LightLayerWriteCache = LightLayerWriteCache::new(layout, layer);
    std::mem::swap(light, &mut taken);
    let count: usize = layout.range().section_count();
    let context: SkyLightPropagationContext<'a> = SkyLightPropagationContext {
        engine: LightEngine {
            table,
            sections,
            light: taken,
            queues: PackedLightPropagationQueues::new(),
        },
        null_section_checked: vec![false; count],
    };
    assert(context@ =~= start_state(layout, old(light)@));
    Ok(context)
}

fn close_pass(context: SkyLightPropagationContext<'_>, light: &mut LightLayerWriteCache) -> (update:
    SkyLightUpdateResult)
    requires
        context.wf(),
    ensures
        final(light).wf(),
        same_frame(final(light), &context.engine.light),
        pass_ended(context.layout(), context@.engine.light, final(light), update),
{
    let mut context: SkyLightPropagationContext<'_> = context;
    let updated_sections: Vec<SectionPos> = context.engine.light.update_visible();
    std::mem::swap(light, &mut context.engine.light);
    SkyLightUpdateResult { updated_sections }
}

/// The state after the active chunk was lit anew.
pub open spec fn center_lit(sw: SkyWorld<'_>, s: SkyState, edge_checks: bool) -> SkyState {
    let center = sw.layout().center;
    let cleared = reset_chunk(sw.layout(), s.engine.light, center);
    let opened = settle_around(
        sw,
        init_chunk(sw, cleared, center, true, sw.max_chunk_y() - 1),
        center,
        true,
        9,
    );
    let lit = chunk_lit(
        sw,
        SkyState { engine: EngineState { light: opened, ..s.engine }, ..s },
        center,
        edge_checks,
    );
    if edge_checks {
        SkyState {
            engine: EngineState {
                light: settle_around(sw, lit.engine.light, center, true, 9),
                ..lit.engine
            },
            ..lit
        }
    } else {
        lit
    }
}

/// Seeds and propagates sky light for the center chunk of a workset.
///
/// Sky nibbles around non-empty sections are initialized, full skylight is
/// propagated downward, then the caller chooses between validating edge
/// consistency or pulling already-initialized neighbor levels inward. Changes
/// are published.
pub fn propagate_sky_light_chunk<'a>(
    workset: &LightWorkset,
    table: &'a BlockStateTable,
    sections: &'a LightSectionReadCache<'a>,
    light: &mut LightLayerWriteCache,
    edge_checks: SkyLightChunkEdgeChecks,
) -> (result: Result<SkyLightUpdateResult, SkyLightPropagationContextError>)
    requires
        run_ready(workset, table, sections, old(light)),
    ensures
        final(light).wf(),
        same_frame(final(light), old(light)),
        match result {
            Ok(update) => {
                &&& run_error(workset, sections, old(light)) is None
                &&& pass_ended(
                    sections.spec_layout(),
                    center_lit(
                        sky_world_of(table, sections, old(light).known()),
                        start_state(sections.spec_layout(), old(light)@),
                        edge_checks == SkyLightChunkEdgeChecks::Required,
                    ).engine.light,
                    final(light),
                    update,
                )
            },
            Err(error) => run_error(workset, sections, old(light)) == Some(error) && *final(light)
                == *old(light),
        },
{
    let mut context: SkyLightPropagationContext<'a> = match open_pass(
        workset,
        table,
        sections,
        light,
    ) {
        Ok(context) => context,
        Err(error) => {
            return Err(error);
        },
    };
    let center: ChunkPos = context.engine.sections.layout().center_chunk();
    context.reset_center_chunk_nibbles();
    context.handle_unlit_empty_section_changes(center);
    context.light_chunk(center, edge_checks);
    if edge_checks == SkyLightChunkEdgeChecks::Required {
        context.deinit_and_lazy_init_empty_sections(center, true);
    }
    Ok(close_pass(context, light))
}

/// Seeds and propagates sky light for the center chunk without edge checks.
///
/// This is the path used during ordered relighting: initialized neighbor levels
/// are pulled inward.
pub fn propagate_sky_light_chunk_without_edge_checks<'a>(
    workset: &LightWorkset,
    table: &'a BlockStateTable,
    sections: &'a LightSectionReadCache<'a>,
    light: &mut LightLayerWriteCache,
) -> (result: Result<SkyLightUpdateResult, SkyLightPropagationContextError>)
    requires
        run_ready(workset, table, sections, old(light)),
    ensures
        final(light).wf(),
        same_frame(final(light), old(light)),
        match result {
            Ok(update) => {
                &&& run_error(workset, sections, old(light)) is None
                &&& pass_ended(
                    sections.spec_layout(),
                    center_lit(
                        sky_world_of(table, sections, old(light).known()),
                        start_state(sections.spec_layout(), old(light)@),
                        false,
                    ).engine.light,
                    final(light),
                    update,
                )
            },
            Err(error) => run_error(workset, sections, old(light)) == Some(error) && *final(light)
                == *old(light),
        },
{
    propagate_sky_light_chunk(workset, table, sections, light, SkyLightChunkEdgeChecks::Skipped)
}

/// The light after a loaded chunk's null sections were brought in step with its
/// blocks.
pub open spec fn center_loaded(sw: SkyWorld<'_>, light: Seq<SlotView>) -> Seq<SlotView> {
    let center = sw.layout().center;
    settle_around(
        sw,
        init_chunk(sw, light, center, false, sw.max_chunk_y() - 1),
        center,
        false,
        9,
    )
}

/// Force-synchronizes sky-light nibbles for an already-lit loaded chunk.
///
/// Existing light data is kept, empty-section nibbles are synchronized, and
/// dirty visible nibbles are published before the later edge-check pass.
pub fn force_load_sky_light_chunk<'a>(
    workset: &LightWorkset,
    table: &'a BlockStateTable,
    sections: &'a LightSectionReadCache<'a>,
    light: &mut LightLayerWriteCache,
) -> (result: Result<SkyLightUpdateResult, SkyLightPropagationContextError>)
    requires
        run_ready(workset, table, sections, old(light)),
    ensures
        final(light).wf(),
        same_frame(final(light), old(light)),
        match result {
            Ok(update) => {
                &&& run_error(workset, sections, old(light)) is None
                &&& pass_ended(
                    sections.spec_layout(),
                    center_loaded(
                        sky_world_of(table, sections, old(light).known()),
                        old(light)@,
                    ),
                    final(light),
                    update,
                )
            },
            Err(error) => run_error(workset, sections, old(light)) == Some(error) && *final(light)
                == *old(light),
        },
{
    let mut context: SkyLightPropagationContext<'a> = match open_pass(
        workset,
        table,
        sections,
        light,
    ) {
        Ok(context) => context,
        Err(error) => {
            return Err(error);
        },
    };
    let center: ChunkPos = context.engine.sections.layout().center_chunk();
    context.handle_loaded_empty_section_changes(center);
    Ok(close_pass(context, light))
}

/// The state after the active chunk's edges were checked against its neighbors.
pub open spec fn center_edges_checked(sw: SkyWorld<'_>, s: SkyState) -> SkyState {
    let range = sw.layout().section_range;
    let center = sw.layout().center;
    let looked = check_nulls(
        sw,
        fresh_pass(s),
        center,
        true,
        range.min_y(),
        range.max_y() - 1,
    );
    SkyState {
        engine: chunk_edges_checked(sw, looked.engine, center, range.min_y(), range.max_y() - 1),
        ..looked
    }
}

/// Validates already-loaded sky-light chunk edges without resetting nibbles.
///
/// The force-load pass has already synchronized empty-section nibbles, so this
/// pass only checks horizontal consistency against loaded neighbors and
/// publishes its own dirty nibbles.
pub fn check_sky_light_chunk_edges<'a>(
    workset: &LightWorkset,
    table: &'a BlockStateTable,
    sections: &'a LightSectionReadCache<'a>,
    light: &mut LightLayerWriteCache,
) -> (result: Result<SkyLightUpdateResult, SkyLightPropagationContextError>)
    requires
        run_ready(workset, table, sections, old(light)),
    ensures
        final(light).wf(),
        same_frame(final(light), old(light)),
        match result {
            Ok(update) => {
                &&& run_error(workset, sections, old(light)) is None
                &&& pass_ended(
                    sections.spec_layout(),
                    center_edges_checked(
                        sky_world_of(table, sections, old(light).known()),
                        start_state(sections.spec_layout(), old(light)@),
                    ).engine.light,
                    final(light),
                    update,
                )
            },
            Err(error) => run_error(workset, sections, old(light)) == Some(error) && *final(light)
                == *old(light),
        },
{
    let mut context: SkyLightPropagationContext<'a> = match open_pass(
        workset,
        table,
        sections,
        light,
    ) {
        Ok(context) => context,
        Err(error) => {
            return Err(error);
        },
    };
    context.check_center_edges();
    Ok(close_pass(context, light))
}

/// Loads already-persisted sky light and validates chunk edges without resetting nibbles.
///
/// Empty-section state is synchronized first, then the edge-check pass runs.
/// The sections that the two passes changed are reported one after the other.
pub fn load_sky_light_chunk<'a>(
    workset: &LightWorkset,
    table: &'a BlockStateTable,
    sections: &'a LightSectionReadCache<'a>,
    light: &mut LightLayerWriteCache,
) -> (result: Result<SkyLightUpdateResult, SkyLightPropagationContextError>)
    requires
        run_ready(workset, table, sections, old(light)),
    ensures
        final(light).wf(),
        same_frame(final(light), old(light)),
        match result {
            Ok(update) => {
                let sw = sky_world_of(table, sections, old(light).known());
                let layout = sections.spec_layout();
                let loaded = center_loaded(sw, old(light)@);
                let checked = center_edges_checked(
                    sw,
                    start_state(layout, published(loaded)),
                ).engine.light;
                &&& run_error(workset, sections, old(light)) is None
                &&& final(light)@ == published(checked)
                &&& update.updated_sections@ == dirty_sections(
                    layout,
                    loaded,
                    loaded.len() as int,
                ) + dirty_sections(layout, checked, checked.len() as int)
            },
            Err(error) => run_error(workset, sections, old(light)) == Some(error) && *final(light)
                == *old(light),
        },
{
    let mut updated: Vec<SectionPos> = match force_load_sky_light_chunk(
        workset,
        table,
        sections,
        light,
    ) {
        Ok(update) => update.updated_sections,
        Err(error) => {
            return Err(error);
        },
    };
    let mut checked: Vec<SectionPos> = match check_sky_light_chunk_edges(
        workset,
        table,
        sections,
        light,
    ) {
        Ok(update) => update.updated_sections,
        Err(error) => {
            return Err(error);
        },
    };
    updated.append(&mut checked);
    Ok(SkyLightUpdateResult { updated_sections: updated })
}

/// What is known of emptiness after the first `n` changes.
pub open spec fn known_after(
    layout: LightCacheLayout,
    known: Seq<Option<Seq<bool>>>,
    changes: Seq<LightSectionEmptinessChange>,
    n: int,
) -> Seq<Option<Seq<bool>>>
    decreases n,
{
    if n <= 0 {
        known
    } else {
        let change = changes[n - 1];
        set_known(
            layout,
            known_after(layout, known, changes, n - 1),
            change.section_pos,
            change.empty,
        )
    }
}

/// The chunks of the first `n` changes, each once, in order of first mention.
pub open spec fn changed_chunks(changes: Seq<LightSectionEmptinessChange>, n: int) -> Seq<ChunkPos>
    decreases n,
{
    if n <= 0 {
        Seq::empty()
    } else {
        let before = changed_chunks(changes, n - 1);
        let chunk = ChunkPos { x: changes[n - 1].section_pos.x, z: changes[n - 1].section_pos.z };
        if before.contains(chunk) {
            before
        } else {
            before.push(chunk)
        }
    }
}

/// The light after the first `n` changed chunks were settled.
pub open spec fn chunks_settled(
    sw: SkyWorld<'_>,
    light: Seq<SlotView>,
    chunks: Seq<ChunkPos>,
    n: int,
) -> Seq<SlotView>
    decreases n,
{
    if n <= 0 {
        light
    } else {
        settle_around(sw, chunks_settled(sw, light, chunks, n - 1), chunks[n - 1], false, 9)
    }
}

/// The state after emptiness changes were applied and block changes propagated.
pub open spec fn center_changed(
    sw: SkyWorld<'_>,
    s: SkyState,
    positions: Seq<BlockPos>,
    changes: Seq<LightSectionEmptinessChange>,
) -> SkyState {
    let chunks = changed_chunks(changes, changes.len() as int);
    changes_propagated(
        sw,
        SkyState {
            engine: EngineState {
                light: chunks_settled(sw, s.engine.light, chunks, chunks.len() as int),
                ..s.engine
            },
            ..s
        },
        positions,
    )
}

/// Runs sky-light propagation for changed blocks.
pub fn propagate_sky_light_changes<'a>(
    workset: &LightWorkset,
    table: &'a BlockStateTable,
    sections: &'a LightSectionReadCache<'a>,
    light: &mut LightLayerWriteCache,
    positions: &[BlockPos],
) -> (result: Result<SkyLightUpdateResult, SkyLightPropagationContextError>)
    requires
        run_ready(workset, table, sections, old(light)),
        forall|i: int| 0 <= i < positions@.len() ==> (#[trigger] positions@[i]).y < i32::MAX,
    ensures
        final(light).wf(),
        same_frame(final(light), old(light)),
        match result {
            Ok(update) => {
                &&& run_error(workset, sections, old(light)) is None
                &&& pass_ended(
                    sections.spec_layout(),
                    changes_propagated(
                        sky_world_of(table, sections, old(light).known()),
                        start_state(sections.spec_layout(), old(light)@),
                        positions@,
                    ).engine.light,
                    final(light),
                    update,
                )
            },
            Err(error) => run_error(workset, sections, old(light)) == Some(error) && *final(light)
                == *old(light),
        },
{
    let mut context: SkyLightPropagationContext<'a> = match open_pass(
        workset,
        table,
        sections,
        light,
    ) {
        Ok(context) => context,
        Err(error) => {
            return Err(error);
        },
    };
    context.propagate_block_changes(positions);
    Ok(close_pass(context, light))
}

fn contains_chunk(chunks: &Vec<ChunkPos>, chunk_pos: ChunkPos) -> (result: bool)
    ensures
        result == chunks@.contains(chunk_pos),
{
    let mut i: usize = 0;
    while i < chunks.len()
        invariant
            i <= chunks@.len(),
            forall|j: int| 0 <= j < i ==> chunks@[j] != chunk_pos,
        decreases chunks@.len() - i,
    {
        if chunks[i] == chunk_pos {
            assert(chunks@[i as int] == chunk_pos);
            return true;
        }
        i += 1;
    }
    false
}

/// Runs sky-light propagation after applying real section emptiness transitions.
pub fn propagate_sky_light_changes_with_empty_sections<'a>(
    workset: &LightWorkset,
    table: &'a BlockStateTable,
    sections: &'a LightSectionReadCache<'a>,
    light: &mut LightLayerWriteCache,
    positions: &[BlockPos],
    empty_sections: &[LightSectionEmptinessChange],
) -> (result: Result<SkyLightUpdateResult, SkyLightPropagationContextError>)
    requires
        run_ready(workset, table, sections, old(light)),
        forall|i: int| 0 <= i < positions@.len() ==> (#[trigger] positions@[i]).y < i32::MAX,
        forall|i: int|
            0 <= i < empty_sections@.len() ==> {
                let pos = (#[trigger] empty_sections@[i]).section_pos;
                chunk_in_world(ChunkPos { x: pos.x, z: pos.z })
            },
    ensures
        final(light).wf(),
        final(light).spec_layout() == old(light).spec_layout(),
        final(light).spec_layer() == old(light).spec_layer(),
        match result {
            Ok(update) => {
                let known = known_after(
                    sections.spec_layout(),
                    old(light).known(),
                    empty_sections@,
                    empty_sections@.len() as int,
                );
                &&& run_error(workset, sections, old(light)) is None
                &&& final(light).known() == known
                &&& pass_ended(
                    sections.spec_layout(),
                    center_changed(
                        sky_world_of(table, sections, known),
                        start_state(sections.spec_layout(), old(light)@),
                        positions@,
                        empty_sections@,
                    ).engine.light,
                    final(light),
                    update,
                )
            },
            Err(error) => run_error(workset, sections, old(light)) == Some(error) && *final(light)
                == *old(light),
        },
{
    let mut context: SkyLightPropagationContext<'a> = match open_pass(
        workset,
        table,
        sections,
        light,
    ) {
        Ok(context) => context,
        Err(error) => {
            return Err(error);
        },
    };
    let ghost layout = sections.spec_layout();
    let ghost start = context@;
    let mut chunks: Vec<ChunkPos> = Vec::new();
    let mut i: usize = 0;
    while i < empty_sections.len()
        invariant
            i <= empty_sections@.len(),
            context.wf(),
            context@ == start,
            context.engine.table == table,
            context.engine.sections == sections,
            layout == sections.spec_layout(),
            context.engine.light.spec_layout() == old(light).spec_layout(),
            context.engine.light.spec_layer() == old(light).spec_layer(),
            old(light).spec_layout() == layout,
            context.engine.light.known() == known_after(
                layout,
                old(light).known(),
                empty_sections@,
                i as int,
            ),
            chunks@ == changed_chunks(empty_sections@, i as int),
            forall|j: int| 0 <= j < chunks@.len() ==> chunk_in_world(#[trigger] chunks@[j]),
            forall|j: int|
                0 <= j < empty_sections@.len() ==> {
                    let pos = (#[trigger] empty_sections@[j]).section_pos;
                    chunk_in_world(ChunkPos { x: pos.x, z: pos.z })
                },
        decreases empty_sections@.len() - i,
    {
        let change: LightSectionEmptinessChange = empty_sections[i];
        let chunk_pos: ChunkPos = ChunkPos::new(change.section_pos.x, change.section_pos.z);
        context.engine.light.set_section_empty(change.section_pos, change.empty);
        if !contains_chunk(&chunks, chunk_pos) {
            assert(chunk_in_world(chunk_pos)) by {
                let pos = empty_sections@[i as int].section_pos;
                assert(chunk_in_world(ChunkPos { x: pos.x, z: pos.z }));
            }
            chunks.push(chunk_pos);
        }
        i += 1;
    }
    let ghost sw = context.world();
    let mut i: usize = 0;
    while i < chunks.len()
        invariant
            i <= chunks@.len(),
            context.wf(),
            context.world() == sw,
            context.engine.table == table,
            context.engine.sections == sections,
            context.engine.light.spec_layout() == old(light).spec_layout(),
            context.engine.light.spec_layer() == old(light).spec_layer(),
            context.engine.light.known() == known_after(
                layout,
                old(light).known(),
                empty_sections@,
                empty_sections@.len() as int,
            ),
            forall|j: int| 0 <= j < chunks@.len() ==> chunk_in_world(#[trigger] chunks@[j]),
            context@ == (SkyState {
                engine: EngineState {
                    light: chunks_settled(sw, start.engine.light, chunks@, i as int),
                    ..start.engine
                },
                ..start
            }),
        decreases chunks@.len() - i,
    {
        context.deinit_and_lazy_init_empty_sections(chunks[i], false);
        i += 1;
    }
    context.propagate_block_changes(positions);
    Ok(close_pass(context, light))
}

} // verus!
