//! Light through windows of chunks.
use steel_light::LightLayer;
use steel_light::block_state::{BlockStateId, BlockStateInfo, BlockStateTable};
use steel_light::cache::{LightCacheLayout, LightCacheSetupRadius};
use steel_light::chunk_light::{ChunkLightData, ChunkLightLayerStorage};
use steel_light::light_cache::{LightLayerWriteCache, LightSectionReadCache};
use steel_light::light_stage::{
    propagate_queued_block_light, propagate_queued_sky_light, stage_access, StageAccess,
};
use steel_light::nibble::LightNibbleArray;
use steel_light::packed_queue::PackedLightPropagationQueues;
use steel_light::pending::PendingChunkLightUpdates;
use steel_light::position::{BlockPos, ChunkPos, SectionPos};
use steel_light::propagation::{propagate_block_light_changes, BlockLightPropagationContextError};
use steel_light::section::{ChunkSection, Sections};
use steel_light::section_range::LightSectionRange;
use steel_light::sky_propagation::{SkyLightPropagationContext, SkyLightPropagationContextError};
use steel_light::sky_runs::LightSectionEmptinessChange;
use steel_light::workset::{ChunkAvailability, LightWorkset};

const PLAINS: u16 = 0;
const AIR: BlockStateId = BlockStateId(0);
const STONE: BlockStateId = BlockStateId(1);
const BOTTOM_SLAB: BlockStateId = BlockStateId(2);
const TOP_SLAB: BlockStateId = BlockStateId(3);
const LIGHT: BlockStateId = BlockStateId(4);
const DIM_LIGHT: BlockStateId = BlockStateId(5);
const WATER: BlockStateId = BlockStateId(6);
const ACACIA_LEAVES: BlockStateId = BlockStateId(7);
const FAINT_LIGHT: BlockStateId = BlockStateId(8);

/// Which halves of a face a shape covers: the lower one is bit 0, the upper
/// one bit 1. Shapes: empty, full block, bottom slab, top slab. Directions:
/// down, up, north, south, west, east.
const FACES: [[u8; 6]; 4] = [
    [0, 0, 0, 0, 0, 0],
    [3, 3, 3, 3, 3, 3],
    [3, 0, 1, 1, 1, 1],
    [0, 3, 2, 2, 2, 2],
];

fn table() -> BlockStateTable {
    let stone = BlockStateInfo {
        is_air: false,
        has_fluid: false,
        randomly_ticking: false,
        light_dampening: 15,
        light_emission: 0,
        can_occlude: true,
        use_shape_for_light_occlusion: false,
        occlusion_shape: 1,
    };
    let air = BlockStateInfo {
        is_air: true,
        light_dampening: 0,
        can_occlude: false,
        occlusion_shape: 0,
        ..stone
    };
    let slab = BlockStateInfo {
        light_dampening: 0,
        use_shape_for_light_occlusion: true,
        occlusion_shape: 2,
        ..stone
    };
    let light = BlockStateInfo { is_air: false, light_emission: 15, ..air };
    let mut states = vec![stone; 65536];
    states[AIR.0 as usize] = air;
    states[BOTTOM_SLAB.0 as usize] = slab;
    states[TOP_SLAB.0 as usize] = BlockStateInfo { occlusion_shape: 3, ..slab };
    states[LIGHT.0 as usize] = light;
    states[DIM_LIGHT.0 as usize] = BlockStateInfo { light_emission: 7, ..light };
    states[FAINT_LIGHT.0 as usize] = BlockStateInfo { light_emission: 3, ..light };
    states[WATER.0 as usize] = BlockStateInfo {
        is_air: false,
        has_fluid: true,
        light_dampening: 1,
        ..air
    };
    states[ACACIA_LEAVES.0 as usize] =
        BlockStateInfo { is_air: false, light_dampening: 1, randomly_ticking: true, ..air };
    let opposite = [1, 0, 3, 2, 5, 4];
    let mut occludes = Vec::new();
    for from in 0..4 {
        for to in 0..4 {
            for direction in 0..6 {
                occludes.push(FACES[from][direction] | FACES[to][opposite[direction]] == 3);
            }
        }
    }
    let Some(table) = BlockStateTable::new(states, 4, occludes.clone(), occludes, AIR) else {
        panic!("the parts of the table fit together");
    };
    table
}

fn range_of_height(height: i32) -> LightSectionRange {
    let Ok(range) = LightSectionRange::from_world_height(0, height) else {
        panic!("test height should create a valid light range");
    };
    range
}

fn range() -> LightSectionRange {
    range_of_height(16)
}

struct Chunk {
    sections: Sections,
    light: ChunkLightData,
}

impl Chunk {
    fn sky(&self, section_y: i32) -> &LightNibbleArray {
        let Some(nibble) = self.light.sky.nibble(section_y) else {
            panic!("test nibble should be inside light range");
        };
        nibble
    }

    fn block(&self, section_y: i32) -> &LightNibbleArray {
        let Some(nibble) = self.light.block.nibble(section_y) else {
            panic!("test nibble should be inside light range");
        };
        nibble
    }

    fn block_mut(&mut self, section_y: i32) -> &mut LightNibbleArray {
        let Some(nibble) = self.light.block.nibble_mut(section_y) else {
            panic!("test nibble should be inside light range");
        };
        nibble
    }
}

fn chunk_with_sections(sections: Vec<ChunkSection>) -> Chunk {
    let mut light = ChunkLightData::for_valid_world_height(0, (sections.len() * 16) as i32);
    let sections = Sections::from_owned(sections.into_boxed_slice());
    if let Err(error) = light.refresh_emptiness_maps_from_sections(&sections) {
        panic!("valid section count rejected: {error:?}");
    }
    Chunk { sections, light }
}

fn chunk_with_section(section: ChunkSection) -> Chunk {
    chunk_with_sections(vec![section])
}

fn empty_chunk_with_section_count(section_count: usize) -> Chunk {
    chunk_with_sections((0..section_count).map(|_| ChunkSection::new_empty(PLAINS)).collect())
}

fn chunk_at(chunks: &[(ChunkPos, Chunk)], pos: ChunkPos) -> &Chunk {
    let Some((_, chunk)) = chunks.iter().find(|(chunk_pos, _)| *chunk_pos == pos) else {
        panic!("test chunk should be available");
    };
    chunk
}

/// Runs lighting over the chunks that are there, and gives them their light
/// back. Only the light of writable chunks takes part.
fn light_window<R>(
    layout: LightCacheLayout,
    radius: LightCacheSetupRadius,
    layer: LightLayer,
    chunks: &mut [(ChunkPos, Chunk)],
    writable: impl Fn(ChunkPos) -> bool,
    run: impl FnOnce(&LightWorkset, &LightSectionReadCache<'_>, &mut LightLayerWriteCache) -> R,
) -> R {
    let center = layout.center_chunk();
    let mut found = Vec::new();
    for slot in 0..25 {
        let pos = ChunkPos::new(center.x - 2 + slot % 5, center.z - 2 + slot / 5);
        found.push(if chunks.iter().any(|(chunk_pos, _)| *chunk_pos == pos) {
            ChunkAvailability::Usable
        } else {
            ChunkAvailability::Missing
        });
    }
    let Ok(workset) = LightWorkset::setup(layout, radius, true, &found) else {
        panic!("relaxed setup should accept missing chunks");
    };
    let mut parts: Vec<(ChunkPos, &Sections, &mut ChunkLightData)> = chunks
        .iter_mut()
        .map(|(pos, chunk)| (*pos, &chunk.sections, &mut chunk.light))
        .filter(|(pos, _, _)| workset.has_chunk(*pos))
        .collect();
    let mut sections = LightSectionReadCache::new(layout);
    let mut light = LightLayerWriteCache::new(layout, layer);
    for (pos, chunk_sections, chunk_light) in &mut parts {
        sections.insert_chunk(*pos, *chunk_sections);
        if writable(*pos) {
            match layer {
                LightLayer::Sky => light.lend_chunk(*pos, &mut chunk_light.sky),
                LightLayer::Block => light.lend_chunk(*pos, &mut chunk_light.block),
            }
        }
    }
    let result = run(&workset, &sections, &mut light);
    for (pos, _, chunk_light) in &mut parts {
        if writable(*pos) {
            match layer {
                LightLayer::Sky => light.return_chunk(*pos, &mut chunk_light.sky),
                LightLayer::Block => light.return_chunk(*pos, &mut chunk_light.block),
            }
        }
    }
    result
}

#[test]
fn windows_give_light_back_unchanged() {
    let center = ChunkPos::new(0, 0);
    let layout = LightCacheLayout::new(center, range());
    let mut storage = ChunkLightLayerStorage::new(LightLayer::Sky, range(), 1);
    let Some(nibble) = storage.nibble_mut(0) else {
        panic!("test nibble should be inside light range");
    };
    nibble.set(1, 2, 3, 12);
    assert!(nibble.update_visible());
    assert_eq!(storage.set_emptiness_map(vec![false]), Ok(()));

    let mut window = LightLayerWriteCache::new(layout, LightLayer::Sky);
    window.lend_chunk(center, &mut storage);
    assert_eq!(storage.get_light_value(BlockPos::new(1, 2, 3)), 15);
    assert_eq!(window.section_empty(SectionPos::new(0, 0, 0)), Some(false));
    window.set_section_empty(SectionPos::new(0, 0, 0), true);
    window.return_chunk(center, &mut storage);
    assert_eq!(storage.get_light_value(BlockPos::new(1, 2, 3)), 12);
    assert_eq!(storage.section_empty(0), Some(true));

    window.lend_chunk(ChunkPos::new(9, 9), &mut storage);
    assert_eq!(storage.get_light_value(BlockPos::new(1, 2, 3)), 12);
}

#[test]
fn block_light_fades_and_balances() {
    let table = table();
    let center = ChunkPos::new(0, 0);
    let mut section = ChunkSection::new_empty(PLAINS);
    section.set_block_state(&table, 8, 8, 8, LIGHT);
    let mut chunk = chunk_with_section(section);
    chunk.block_mut(0).set_non_null();
    let mut chunks = vec![(center, chunk)];
    let layout = LightCacheLayout::new(center, range());
    let Ok(_) = light_window(
        layout,
        LightCacheSetupRadius::Inner,
        LightLayer::Block,
        &mut chunks,
        |_| true,
        |_, sections, light| {
            propagate_block_light_changes(&table, sections, light, &[BlockPos::new(8, 8, 8)])
        },
    ) else {
        panic!("matching block caches should run block light updates");
    };
    let nibble = chunk_at(&chunks, center).block(0);
    for y in 0..16i32 {
        for z in 0..16i32 {
            for x in 0..16i32 {
                let distance = (x - 8).abs() + (y - 8).abs() + (z - 8).abs();
                let level = nibble.get_visible(x as usize, y as usize, z as usize);
                assert_eq!(i32::from(level), (15 - distance).max(0));
            }
        }
    }

    chunks[0].1.sections.set_relative_block(&table, 8, 8, 8, AIR);
    let Ok(_) = light_window(
        layout,
        LightCacheSetupRadius::Inner,
        LightLayer::Block,
        &mut chunks,
        |_| true,
        |_, sections, light| {
            propagate_block_light_changes(&table, sections, light, &[BlockPos::new(8, 8, 8)])
        },
    ) else {
        panic!("matching block caches should run block light updates");
    };
    let nibble = chunk_at(&chunks, center).block(0);
    for index in 0..4096 {
        assert_eq!(nibble.get_visible_at_index(index), 0);
    }
}

#[test]
fn passes_reject_caches_of_other_windows() {
    let table = table();
    let first = LightCacheLayout::new(ChunkPos::new(0, 0), range());
    let second = LightCacheLayout::new(ChunkPos::new(1, 0), range());
    let sections = LightSectionReadCache::new(first);
    let mut light = LightLayerWriteCache::new(second, LightLayer::Block);
    assert_eq!(
        propagate_block_light_changes(&table, &sections, &mut light, &[]).err(),
        Some(BlockLightPropagationContextError::LayoutMismatch {
            section_layout: first,
            light_layout: second,
        })
    );
    let light = LightLayerWriteCache::new(second, LightLayer::Sky);
    let queues = PackedLightPropagationQueues::new();
    assert_eq!(
        SkyLightPropagationContext::new(&table, &sections, light, queues).err(),
        Some(SkyLightPropagationContextError::LayoutMismatch {
            section_layout: first,
            light_layout: second,
        })
    );
}

#[test]
fn queued_changes_reach_sky_light() {
    let table = table();
    let center = ChunkPos::new(0, 0);
    let mut chunks = vec![(center, empty_chunk_with_section_count(1))];
    chunks[0].1.sections.set_relative_block(&table, 1, 14, 1, STONE);
    let mut task = PendingChunkLightUpdates::new();
    task.add_position(BlockPos::new(1, 14, 1));
    task.add_section(LightSectionEmptinessChange {
        section_pos: SectionPos::new(0, 0, 0),
        empty: false,
    });
    let layout = LightCacheLayout::new(center, range());
    let dark = light_window(
        layout,
        LightCacheSetupRadius::Inner,
        LightLayer::Sky,
        &mut chunks,
        |_| true,
        |workset, sections, light| {
            propagate_queued_sky_light(false, workset, &table, sections, light, &task)
        },
    );
    assert_eq!(dark, Ok(vec![]));
    let Ok(updates) = light_window(
        layout,
        LightCacheSetupRadius::Inner,
        LightLayer::Sky,
        &mut chunks,
        |_| true,
        |workset, sections, light| {
            propagate_queued_sky_light(true, workset, &table, sections, light, &task)
        },
    ) else {
        panic!("matching sky caches should run sky block changes");
    };
    assert!(updates.contains(&SectionPos::new(0, 0, 0)));
    let nibble = chunk_at(&chunks, center).sky(0);
    assert_eq!(nibble.get_visible(1, 15, 1), 15);
    assert_eq!(nibble.get_visible(1, 14, 1), 0);
    assert_eq!(nibble.get_visible(1, 13, 1), 14);
}

#[test]
fn light_stage_hides_unlit_neighbors() {
    assert_eq!(
        stage_access(true, false, false),
        StageAccess { reads_sections: true, writes_light: true }
    );
    assert_eq!(
        stage_access(false, true, false),
        StageAccess { reads_sections: true, writes_light: false }
    );
    assert_eq!(
        stage_access(false, false, false),
        StageAccess { reads_sections: false, writes_light: false }
    );
}

#[test]
fn darkened_emitters_get_their_light_back() {
    let table = table();
    let center = ChunkPos::new(0, 0);
    let mut section = ChunkSection::new_empty(PLAINS);
    section.set_block_state(&table, 4, 8, 8, LIGHT);
    section.set_block_state(&table, 6, 8, 8, DIM_LIGHT);
    let mut chunk = chunk_with_section(section);
    chunk.block_mut(0).set_non_null();
    let mut chunks = vec![(center, chunk)];
    let layout = LightCacheLayout::new(center, range());
    let bright = BlockPos::new(4, 8, 8);
    let dim = BlockPos::new(6, 8, 8);
    for (positions, removes_bright) in [(vec![bright, dim], false), (vec![bright], true)] {
        if removes_bright {
            chunks[0].1.sections.set_relative_block(&table, 4, 8, 8, AIR);
        }
        let Ok(_) = light_window(
            layout,
            LightCacheSetupRadius::Inner,
            LightLayer::Block,
            &mut chunks,
            |_| true,
            |_, sections, light| propagate_block_light_changes(&table, sections, light, &positions),
        ) else {
            panic!("matching block caches should run block light updates");
        };
        let nibble = chunk_at(&chunks, center).block(0);
        for y in 0..16i32 {
            for z in 0..16i32 {
                for x in 0..16i32 {
                    let aside = (y - 8).abs() + (z - 8).abs();
                    let from_bright =
                        if removes_bright { 0 } else { 15 - (x - 4).abs() - aside };
                    let from_dim = 7 - (x - 6).abs() - aside;
                    let level = nibble.get_visible(x as usize, y as usize, z as usize);
                    assert_eq!(i32::from(level), from_bright.max(from_dim).max(0));
                }
            }
        }
    }
}

#[test]
fn changed_emitters_darkened_on_the_way_are_relit() {
    let table = table();
    let center = ChunkPos::new(0, 0);
    let mut section = ChunkSection::new_empty(PLAINS);
    section.set_block_state(&table, 4, 8, 8, LIGHT);
    let mut chunk = chunk_with_section(section);
    chunk.block_mut(0).set_non_null();
    let mut chunks = vec![(center, chunk)];
    let layout = LightCacheLayout::new(center, range());
    let bright = BlockPos::new(4, 8, 8);
    let dim = BlockPos::new(6, 8, 8);
    for (positions, lit) in [(vec![bright], true), (vec![dim, bright], false)] {
        if !lit {
            chunks[0].1.sections.set_relative_block(&table, 4, 8, 8, AIR);
            chunks[0].1.sections.set_relative_block(&table, 6, 8, 8, DIM_LIGHT);
        }
        let Ok(_) = light_window(
            layout,
            LightCacheSetupRadius::Inner,
            LightLayer::Block,
            &mut chunks,
            |_| true,
            |_, sections, light| propagate_block_light_changes(&table, sections, light, &positions),
        ) else {
            panic!("matching block caches should run block light updates");
        };
        let nibble = chunk_at(&chunks, center).block(0);
        for y in 0..16i32 {
            for z in 0..16i32 {
                for x in 0..16i32 {
                    let aside = (y - 8).abs() + (z - 8).abs();
                    let expected =
                        if lit { 15 - (x - 4).abs() - aside } else { 7 - (x - 6).abs() - aside };
                    let level = nibble.get_visible(x as usize, y as usize, z as usize);
                    assert_eq!(i32::from(level), expected.max(0));
                }
            }
        }
    }
}

#[test]
fn queued_changes_reach_block_light() {
    let table = table();
    let center = ChunkPos::new(0, 0);
    let mut section = ChunkSection::new_empty(PLAINS);
    section.set_block_state(&table, 8, 8, 8, LIGHT);
    let mut chunk = chunk_with_section(section);
    chunk.block_mut(0).set_non_null();
    assert_eq!(chunk.light.block.set_emptiness_map(vec![true]), Ok(()));
    let mut chunks = vec![(center, chunk)];
    let mut task = PendingChunkLightUpdates::new();
    task.add_position(BlockPos::new(8, 8, 8));
    task.add_section(LightSectionEmptinessChange {
        section_pos: SectionPos::new(0, 0, 0),
        empty: false,
    });
    let layout = LightCacheLayout::new(center, range());
    let Ok(updates) = light_window(
        layout,
        LightCacheSetupRadius::Inner,
        LightLayer::Block,
        &mut chunks,
        |_| true,
        |_, sections, light| propagate_queued_block_light(&table, sections, light, &task),
    ) else {
        panic!("matching block caches should run block light updates");
    };
    assert_eq!(updates, vec![SectionPos::new(0, 0, 0)]);
    let chunk = chunk_at(&chunks, center);
    assert_eq!(chunk.block(0).get_visible(8, 8, 8), 15);
    assert_eq!(chunk.block(0).get_visible(8, 10, 8), 13);
    assert_eq!(chunk.light.block.section_empty(0), Some(false));
}

#[test]
fn queued_block_changes_need_block_light_of_the_same_window() {
    let table = table();
    let first = LightCacheLayout::new(ChunkPos::new(0, 0), range());
    let second = LightCacheLayout::new(ChunkPos::new(1, 0), range());
    let sections = LightSectionReadCache::new(first);
    let task = PendingChunkLightUpdates::new();
    let mut light = LightLayerWriteCache::new(first, LightLayer::Sky);
    assert_eq!(
        propagate_queued_block_light(&table, &sections, &mut light, &task),
        Err(BlockLightPropagationContextError::WrongLayer { layer: LightLayer::Sky })
    );
    let mut light = LightLayerWriteCache::new(second, LightLayer::Block);
    assert_eq!(
        propagate_queued_block_light(&table, &sections, &mut light, &task),
        Err(BlockLightPropagationContextError::LayoutMismatch {
            section_layout: first,
            light_layout: second,
        })
    );
    let mut light = LightLayerWriteCache::new(first, LightLayer::Block);
    assert_eq!(propagate_queued_block_light(&table, &sections, &mut light, &task), Ok(vec![]));
}

#[test]
fn late_writes_dim_emitters_that_were_relit() {
    let table = table();
    let center = ChunkPos::new(0, 0);
    let mut section = ChunkSection::new_empty(PLAINS);
    section.set_block_state(&table, 6, 8, 8, LIGHT);
    section.set_block_state(&table, 7, 8, 8, DIM_LIGHT);
    section.set_block_state(&table, 8, 8, 8, FAINT_LIGHT);
    let mut chunk = chunk_with_section(section);
    chunk.block_mut(0).set_non_null();
    let mut chunks = vec![(center, chunk)];
    let layout = LightCacheLayout::new(center, range());
    let bright = BlockPos::new(6, 8, 8);
    for (levels, lit) in [([15, 14, 13, 12], true), ([6, 7, 3, 5], false)] {
        if !lit {
            chunks[0].1.sections.set_relative_block(&table, 6, 8, 8, AIR);
        }
        let Ok(_) = light_window(
            layout,
            LightCacheSetupRadius::Inner,
            LightLayer::Block,
            &mut chunks,
            |_| true,
            |_, sections, light| propagate_block_light_changes(&table, sections, light, &[bright]),
        ) else {
            panic!("matching block caches should run block light updates");
        };
        let nibble = chunk_at(&chunks, center).block(0);
        for (offset, level) in levels.into_iter().enumerate() {
            assert_eq!(nibble.get_visible(6 + offset, 8, 8), level);
        }
    }
}
