//! The light stage of chunk generation and loading.
use vstd::prelude::*;

use crate::block_state::BlockStateTable;
use crate::cache::LightCacheLayout;
use crate::engine::world_of;
use crate::engine_model::{relight_done, EngineState};
use crate::light_cache::{dirty_sections, same_frame, LightLayerWriteCache, LightSectionReadCache};
use crate::pending::{changes_sorted, PendingChunk, PendingChunkLightUpdates};
use crate::position::{BlockPos, ChunkPos, SectionPos};
use crate::propagation::{
    blocks_checked, idle_state, propagate_block_light_changes, BlockLightPropagationContextError,
};
use crate::sky_model::chunk_in_world;
use crate::sky_propagation::{
    sky_world_of, SkyLightChunkEdgeChecks, SkyLightPropagationContextError,
};
use crate::sky_runs::{
    center_changed, center_edges_checked, center_lit, center_loaded, known_after,
    load_sky_light_chunk, propagate_sky_light_changes_with_empty_sections,
    propagate_sky_light_chunk, published, run_error, run_ready, start_state,
    LightSectionEmptinessChange,
};
use crate::workset::LightWorkset;
use crate::LightLayer;

verus! {

/// What the light stage uses of a chunk in its window.
#[derive(Debug, Clone, Copy, PartialEq, Eq, Structural)]
pub struct StageAccess {
    /// Its blocks and which of its sections are empty.
    pub reads_sections: bool,
    /// Its light, which may then change.
    pub writes_light: bool,
}

/// Returns what the light stage uses of a chunk: everything of the active
/// chunk, the blocks of neighbors with light sources, and the light of
/// neighbors that are lit. The temporary light of others stays hidden.
#[must_use]
pub fn stage_access(is_center: bool, initialized: bool, lit: bool) -> (access: StageAccess)
    ensures
        access.reads_sections == (is_center || initialized),
        access.writes_light == (is_center || lit),
{
    StageAccess { reads_sections: is_center || initialized, writes_light: is_center || lit }
}

/// Lights the active chunk with sky light, where the world has it, and returns
/// the sections to publish.
pub fn run_sky_light_stage<'a>(
    has_skylight: bool,
    workset: &LightWorkset,
    table: &'a BlockStateTable,
    sections: &'a LightSectionReadCache<'a>,
    light: &mut LightLayerWriteCache,
) -> (result: Result<Vec<SectionPos>, SkyLightPropagationContextError>)
    requires
        run_ready(workset, table, sections, old(light)),
    ensures
        final(light).wf(),
        same_frame(final(light), old(light)),
        !has_skylight ==> result is Ok && result->Ok_0@.len() == 0 && *final(light) == *old(light),
        has_skylight ==> match result {
            Ok(updates) => {
                let layout = sections.spec_layout();
                let lit = center_lit(
                    sky_world_of(table, sections, old(light).known()),
                    start_state(layout, old(light)@),
                    true,
                ).engine.light;
                &&& run_error(workset, sections, old(light)) is None
                &&& final(light)@ == published(lit)
                &&& updates@ == dirty_sections(layout, lit, lit.len() as int)
            },
            Err(error) => run_error(workset, sections, old(light)) == Some(error) && *final(light)
                == *old(light),
        },
{
    if !has_skylight {
        return Ok(Vec::new());
    }
    match propagate_sky_light_chunk(
        workset,
        table,
        sections,
        light,
        SkyLightChunkEdgeChecks::Required,
    ) {
        Ok(update) => Ok(update.updated_sections),
        Err(error) => Err(error),
    }
}

/// Takes over the stored sky light of the active chunk, where the world has
/// it: empty sections are synchronized, then edges are checked. Returns the
/// sections to publish.
pub fn run_loaded_sky_light_stage<'a>(
    has_skylight: bool,
    workset: &LightWorkset,
    table: &'a BlockStateTable,
    sections: &'a LightSectionReadCache<'a>,
    light: &mut LightLayerWriteCache,
) -> (result: Result<Vec<SectionPos>, SkyLightPropagationContextError>)
    requires
        run_ready(workset, table, sections, old(light)),
    ensures
        final(light).wf(),
        same_frame(final(light), old(light)),
        !has_skylight ==> result is Ok && result->Ok_0@.len() == 0 && *final(light) == *old(light),
        has_skylight ==> match result {
            Ok(updates) => {
                let sw = sky_world_of(table, sections, old(light).known());
                let layout = sections.spec_layout();
                let loaded = center_loaded(sw, old(light)@);
                let checked = center_edges_checked(
                    sw,
                    start_state(layout, published(loaded)),
                ).engine.light;
                &&& run_error(workset, sections, old(light)) is None
                &&& final(light)@ == published(checked)
                &&& updates@ == dirty_sections(layout, loaded, loaded.len() as int)
                    + dirty_sections(layout, checked, checked.len() as int)
            },
            Err(error) => run_error(workset, sections, old(light)) == Some(error) && *final(light)
                == *old(light),
        },
{
    if !has_skylight {
        return Ok(Vec::new());
    }
    match load_sky_light_chunk(workset, table, sections, light) {
        Ok(update) => Ok(update.updated_sections),
        Err(error) => Err(error),
    }
}

/// Positions and changes list what waits in a chunk: every position once, in
/// any order, and the changes by x, then by z, then from the top down.
pub open spec fn lists_pending(
    pending: PendingChunk,
    positions: Seq<BlockPos>,
    changes: Seq<LightSectionEmptinessChange>,
) -> bool {
    &&& positions.no_duplicates()
    &&& forall|pos: BlockPos| #[trigger] positions.contains(pos) <==> pending.positions.contains(pos)
    &&& changes_sorted(changes)
    &&& forall|change: LightSectionEmptinessChange| #[trigger]
        changes.contains(change) <==> pending.sections.contains_key(change.section_pos)
            && pending.sections[change.section_pos] == change.empty
}

/// What a queued sky-light pass leaves.
pub open spec fn queued_pass_ended(
    table: &BlockStateTable,
    sections: &LightSectionReadCache<'_>,
    before: &LightLayerWriteCache,
    after: &LightLayerWriteCache,
    updates: Seq<SectionPos>,
    positions: Seq<BlockPos>,
    changes: Seq<LightSectionEmptinessChange>,
) -> bool {
    let layout = sections.spec_layout();
    let known = known_after(layout, before.known(), changes, changes.len() as int);
    let light = center_changed(
        sky_world_of(table, sections, known),
        start_state(layout, before@),
        positions,
        changes,
    ).engine.light;
    &&& after.known() == known
    &&& after@ == published(light)
    &&& updates == dirty_sections(layout, light, light.len() as int)
}

/// Everything that waits in a chunk lies in the world.
pub open spec fn pending_in_world(pending: PendingChunk) -> bool {
    &&& forall|pos: BlockPos| #[trigger] pending.positions.contains(pos) ==> pos.y < i32::MAX
    &&& forall|pos: SectionPos| #[trigger]
        pending.sections.contains_key(pos) ==> chunk_in_world(ChunkPos { x: pos.x, z: pos.z })
}

/// Returns whether everything that waits in a chunk lies in the world.
#[must_use]
pub fn lies_in_world(task: &PendingChunkLightUpdates) -> (result: bool)
    requires
        task.wf(),
    ensures
        result == pending_in_world(task@),
{
    let positions: Vec<BlockPos> = task.changed_positions();
    let mut i: usize = 0;
    while i < positions.len()
        invariant
            i <= positions@.len(),
            forall|pos: BlockPos| #[trigger]
                positions@.contains(pos) <==> task@.positions.contains(pos),
            forall|j: int| 0 <= j < i ==> (#[trigger] positions@[j]).y < i32::MAX,
        decreases positions@.len() - i,
    {
        if positions[i].y == i32::MAX {
            assert(positions@.contains(positions@[i as int]));
            assert(task@.positions.contains(positions@[i as int]));
            return false;
        }
        i += 1;
    }
    assert forall|pos: BlockPos| #[trigger] task@.positions.contains(pos) implies pos.y
        < i32::MAX by {
        assert(positions@.contains(pos));
    }
    let changes: Vec<LightSectionEmptinessChange> = task.empty_section_changes();
    let mut i: usize = 0;
    while i < changes.len()
        invariant
            i <= changes@.len(),
            forall|change: LightSectionEmptinessChange| #[trigger]
                changes@.contains(change) <==> task@.sections.contains_key(change.section_pos)
                    && task@.sections[change.section_pos] == change.empty,
            forall|j: int|
                0 <= j < i ==> {
                    let pos = (#[trigger] changes@[j]).section_pos;
                    chunk_in_world(ChunkPos { x: pos.x, z: pos.z })
                },
        decreases changes@.len() - i,
    {
        let pos: SectionPos = changes[i].section_pos;
        if pos.x < -134217720 || pos.x > 134217720 || pos.z < -134217720 || pos.z > 134217720 {
            assert(changes@.contains(changes@[i as int]));
            assert(task@.sections.contains_key(pos));
            return false;
        }
        i += 1;
    }
    assert forall|pos: SectionPos| #[trigger] task@.sections.contains_key(pos) implies
        chunk_in_world(ChunkPos { x: pos.x, z: pos.z }) by {
        let change = LightSectionEmptinessChange {
            section_pos: pos,
            empty: task@.sections[pos],
        };
        assert(changes@.contains(change));
        let j = choose|j: int| 0 <= j < changes@.len() && changes@[j] == change;
        assert(changes@[j].section_pos == pos);
    }
    true
}

/// Propagates the queued changes of a chunk through sky light, where the world
/// has it, and returns the sections to publish. The order of the changed
/// blocks is left open.
pub fn propagate_queued_sky_light<'a>(
    has_skylight: bool,
    workset: &LightWorkset,
    table: &'a BlockStateTable,
    sections: &'a LightSectionReadCache<'a>,
    light: &mut LightLayerWriteCache,
    task: &PendingChunkLightUpdates,
) -> (result: Result<Vec<SectionPos>, SkyLightPropagationContextError>)
    requires
        run_ready(workset, table, sections, old(light)),
        task.wf(),
        pending_in_world(task@),
    ensures
        final(light).wf(),
        final(light).spec_layout() == old(light).spec_layout(),
        final(light).spec_layer() == old(light).spec_layer(),
        !has_skylight ==> result is Ok && result->Ok_0@.len() == 0 && *final(light) == *old(light),
        has_skylight ==> match result {
            Ok(updates) => {
                &&& run_error(workset, sections, old(light)) is None
                &&& exists|positions: Seq<BlockPos>, changes: Seq<LightSectionEmptinessChange>|
                    {
                        &&& #[trigger] lists_pending(task@, positions, changes)
                        &&& queued_pass_ended(
                            table,
                            sections,
                            old(light),
                            final(light),
                            updates@,
                            positions,
                            changes,
                        )
                    }
            },
            Err(error) => run_error(workset, sections, old(light)) == Some(error) && *final(light)
                == *old(light),
        },
{
    if !has_skylight {
        return Ok(Vec::new());
    }
    let changes: Vec<LightSectionEmptinessChange> = task.empty_section_changes();
    let positions: Vec<BlockPos> = task.changed_positions();
    proof {
        assert forall|i: int| 0 <= i < positions@.len() implies (#[trigger] positions@[i]).y
            < i32::MAX by {
            assert(positions@.contains(positions@[i]));
            assert(task@.positions.contains(positions@[i]));
        }
        assert forall|i: int| 0 <= i < changes@.len() implies {
            let pos = (#[trigger] changes@[i]).section_pos;
            chunk_in_world(ChunkPos { x: pos.x, z: pos.z })
        } by {
            assert(changes@.contains(changes@[i]));
            assert(task@.sections.contains_key(changes@[i].section_pos));
        }
        assert(lists_pending(task@, positions@, changes@));
    }
    match propagate_sky_light_changes_with_empty_sections(
        workset,
        table,
        sections,
        light,
        positions.as_slice(),
        changes.as_slice(),
    ) {
        Ok(update) => {
            assert(queued_pass_ended(
                table,
                sections,
                old(light),
                light,
                update.updated_sections@,
                positions@,
                changes@,
            ));
            Ok(update.updated_sections)
        },
        Err(error) => Err(error),
    }
}

/// What a queued block-light pass leaves.
pub open spec fn queued_block_pass_ended(
    table: &BlockStateTable,
    sections: &LightSectionReadCache<'_>,
    before: &LightLayerWriteCache,
    after: &LightLayerWriteCache,
    updates: Seq<SectionPos>,
    positions: Seq<BlockPos>,
    changes: Seq<LightSectionEmptinessChange>,
) -> bool {
    let layout = sections.spec_layout();
    let w = world_of(table, sections);
    &&& after.known() == known_after(layout, before.known(), changes, changes.len() as int)
    &&& exists|relit: EngineState|
        {
            &&& #[trigger] relight_done(
                w,
                true,
                blocks_checked(w, idle_state(before@), positions, positions.len() as int),
                relit,
            )
            &&& after@ == published(relit.light)
            &&& updates == dirty_sections(layout, relit.light, relit.light.len() as int)
        }
}

/// Sets the emptiness of changed sections where it is known.
fn note_emptiness(light: &mut LightLayerWriteCache, changes: &[LightSectionEmptinessChange])
    requires
        old(light).wf(),
    ensures
        final(light).wf(),
        final(light).spec_layout() == old(light).spec_layout(),
        final(light).spec_layer() == old(light).spec_layer(),
        final(light)@ == old(light)@,
        final(light).known() == known_after(
            old(light).spec_layout(),
            old(light).known(),
            changes@,
            changes@.len() as int,
        ),
{
    let mut i: usize = 0;
    while i < changes.len()
        invariant
            i <= changes@.len(),
            light.wf(),
            light.spec_layout() == old(light).spec_layout(),
            light.spec_layer() == old(light).spec_layer(),
            light@ == old(light)@,
            light.known() == known_after(
                old(light).spec_layout(),
                old(light).known(),
                changes@,
                i as int,
            ),
        decreases changes@.len() - i,
    {
        let change: LightSectionEmptinessChange = changes[i];
        light.set_section_empty(change.section_pos, change.empty);
        i += 1;
    }
}

/// Propagates the queued changes of a chunk through block light, and returns
/// the sections to publish. The order of the changed blocks is left open.
pub fn propagate_queued_block_light<'a>(
    table: &'a BlockStateTable,
    sections: &'a LightSectionReadCache<'a>,
    light: &mut LightLayerWriteCache,
    task: &PendingChunkLightUpdates,
) -> (result: Result<Vec<SectionPos>, BlockLightPropagationContextError>)
    requires
        table.wf(),
        sections.wf(),
        old(light).wf(),
        sections.spec_layout().in_world(),
        task.wf(),
    ensures
        final(light).wf(),
        final(light).spec_layout() == old(light).spec_layout(),
        final(light).spec_layer() == old(light).spec_layer(),
        match result {
            Ok(updates) => {
                &&& old(light).spec_layer() == LightLayer::Block
                &&& old(light).spec_layout() == sections.spec_layout()
                &&& exists|positions: Seq<BlockPos>, changes: Seq<LightSectionEmptinessChange>|
                    {
                        &&& #[trigger] lists_pending(task@, positions, changes)
                        &&& queued_block_pass_ended(
                            table,
                            sections,
                            old(light),
                            final(light),
                            updates@,
                            positions,
                            changes,
                        )
                    }
            },
            Err(BlockLightPropagationContextError::WrongLayer { layer }) => {
                &&& old(light).spec_layer() != LightLayer::Block
                &&& layer == old(light).spec_layer()
                &&& *final(light) == *old(light)
            },
            Err(
                BlockLightPropagationContextError::LayoutMismatch { section_layout, light_layout },
            ) => {
                &&& old(light).spec_layer() == LightLayer::Block
                &&& section_layout == sections.spec_layout()
                &&& light_layout == old(light).spec_layout()
                &&& section_layout != light_layout
                &&& *final(light) == *old(light)
            },
        },
{
    let layer: LightLayer = light.layer();
    if layer != LightLayer::Block {
        return Err(BlockLightPropagationContextError::WrongLayer { layer });
    }
    let section_layout: LightCacheLayout = sections.layout();
    let light_layout: LightCacheLayout = light.layout();
    if section_layout != light_layout {
        return Err(
            BlockLightPropagationContextError::LayoutMismatch { section_layout, light_layout },
        );
    }
    let changes: Vec<LightSectionEmptinessChange> = task.empty_section_changes();
    let positions: Vec<BlockPos> = task.changed_positions();
    assert(lists_pending(task@, positions@, changes@));
    note_emptiness(light, changes.as_slice());
    match propagate_block_light_changes(table, sections, light, positions.as_slice()) {
        Ok(update) => {
            assert(queued_block_pass_ended(
                table,
                sections,
                old(light),
                light,
                update.updated_sections@,
                positions@,
                changes@,
            ));
            Ok(update.updated_sections)
        },
        Err(error) => Err(error),
    }
}

} // verus!
