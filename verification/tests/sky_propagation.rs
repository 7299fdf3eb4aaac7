//! Sky light over windows of chunks.
use steel_light::block_state::{BlockStateId, BlockStateInfo, BlockStateTable};
use steel_light::cache::{LightCacheLayout, LightCacheSetupRadius};
use steel_light::chunk_light::ChunkLightData;
use steel_light::light_cache::{LightLayerWriteCache, LightSectionReadCache};
use steel_light::nibble::{LightNibbleArray, LightNibbleState};
use steel_light::packed_queue::PackedLightPropagationQueues;
use steel_light::position::{BlockPos, ChunkPos, SectionPos};
use steel_light::section::{ChunkSection, Sections};
use steel_light::section_range::LightSectionRange;
use steel_light::sky_propagation::{
    SkyLightChunkEdgeChecks, SkyLightPropagationContext, SkyLightPropagationContextError,
};
use steel_light::sky_runs::{
    propagate_sky_light_changes_with_empty_sections, propagate_sky_light_chunk,
    propagate_sky_light_chunk_without_edge_checks, LightSectionEmptinessChange,
};
use steel_light::workset::{ChunkAvailability, LightWorkset};
use steel_light::{LightLayer, MAX_LIGHT_LEVEL};

const PLAINS: u16 = 0;
const AIR: BlockStateId = BlockStateId(0);
const STONE: BlockStateId = BlockStateId(1);
const BOTTOM_SLAB: BlockStateId = BlockStateId(2);
const TOP_SLAB: BlockStateId = BlockStateId(3);
const LIGHT: BlockStateId = BlockStateId(4);
const DIM_LIGHT: BlockStateId = BlockStateId(5);
const WATER: BlockStateId = BlockStateId(6);
const ACACIA_LEAVES: BlockStateId = BlockStateId(7);

/// Which halves of a face a shape covers: the lower one is bit 0, the upper
/// one bit 1. Shapes: empty, full block, bottom slab, top slab. Directions:
/// down, up, north, south, west, east.
const FACES: [[u8; 6]; 4] = [
    [0, 0, 0, 0, 0, 0],
    [3, 3, 3, 3, 3, 3],
    [3, 0, 1, 1, 1, 1],
    [0, 3, 2, 2, 2, 2],
];

fn table() -> BlockStateTable {
    let stone = BlockStateInfo {
        is_air: false,
        has_fluid: false,
        randomly_ticking: false,
        light_dampening: 15,
        light_emission: 0,
        can_occlude: true,
        use_shape_for_light_occlusion: false,
        occlusion_shape: 1,
    };
    let air = BlockStateInfo {
        is_air: true,
        light_dampening: 0,
        can_occlude: false,
        occlusion_shape: 0,
        ..stone
    };
    let slab = BlockStateInfo {
        light_dampening: 0,
        use_shape_for_light_occlusion: true,
        occlusion_shape: 2,
        ..stone
    };
    let light = BlockStateInfo { is_air: false, light_emission: 15, ..air };
    let mut states = vec![stone; 65536];
    states[AIR.0 as usize] = air;
    states[BOTTOM_SLAB.0 as usize] = slab;
    states[TOP_SLAB.0 as usize] = BlockStateInfo { occlusion_shape: 3, ..slab };
    states[LIGHT.0 as usize] = light;
    states[DIM_LIGHT.0 as usize] = BlockStateInfo { light_emission: 7, ..light };
    states[WATER.0 as usize] = BlockStateInfo {
        is_air: false,
        has_fluid: true,
        light_dampening: 1,
        ..air
    };
    states[ACACIA_LEAVES.0 as usize] =
        BlockStateInfo { is_air: false, light_dampening: 1, randomly_ticking: true, ..air };
    let opposite = [1, 0, 3, 2, 5, 4];
    let mut occludes = Vec::new();
    for from in 0..4 {
        for to in 0..4 {
            for direction in 0..6 {
                occludes.push(FACES[from][direction] | FACES[to][opposite[direction]] == 3);
            }
        }
    }
    let Some(table) = BlockStateTable::new(states, 4, occludes.clone(), occludes, AIR) else {
        panic!("the parts of the table fit together");
    };
    table
}

fn range_of_height(height: i32) -> LightSectionRange {
    let Ok(range) = LightSectionRange::from_world_height(0, height) else {
        panic!("test height should create a valid light range");
    };
    range
}

fn range() -> LightSectionRange {
    range_of_height(16)
}

struct Chunk {
    sections: Sections,
    light: ChunkLightData,
}

impl Chunk {
    fn sky(&self, section_y: i32) -> &LightNibbleArray {
        let Some(nibble) = self.light.sky.nibble(section_y) else {
            panic!("test nibble should be inside light range");
        };
        nibble
    }

    fn sky_mut(&mut self, section_y: i32) -> &mut LightNibbleArray {
        let Some(nibble) = self.light.sky.nibble_mut(section_y) else {
            panic!("test nibble should be inside light range");
        };
        nibble
    }
}

fn chunk_with_sections(sections: Vec<ChunkSection>) -> Chunk {
    let mut light = ChunkLightData::for_valid_world_height(0, (sections.len() * 16) as i32);
    let sections = Sections::from_owned(sections.into_boxed_slice());
    if let Err(error) = light.refresh_emptiness_maps_from_sections(&sections) {
        panic!("valid section count rejected: {error:?}");
    }
    Chunk { sections, light }
}

fn chunk_with_section(section: ChunkSection) -> Chunk {
    chunk_with_sections(vec![section])
}

fn empty_chunk_with_section_count(section_count: usize) -> Chunk {
    chunk_with_sections((0..section_count).map(|_| ChunkSection::new_empty(PLAINS)).collect())
}

fn horizontal_empty_neighbors(center: ChunkPos, section_count: usize) -> Vec<(ChunkPos, Chunk)> {
    [
        ChunkPos::new(center.x, center.z - 1),
        ChunkPos::new(center.x, center.z + 1),
        ChunkPos::new(center.x - 1, center.z),
        ChunkPos::new(center.x + 1, center.z),
    ]
    .into_iter()
    .map(|pos| (pos, empty_chunk_with_section_count(section_count)))
    .collect()
}

fn roofed_chunk(
    table: &BlockStateTable,
    section_count: usize,
    roof_section_index: usize,
    roof_local_y: usize,
) -> Chunk {
    let mut sections: Vec<ChunkSection> =
        (0..section_count).map(|_| ChunkSection::new_empty(PLAINS)).collect();
    for z in 0..16 {
        for x in 0..16 {
            sections[roof_section_index].set_block_state(table, x, roof_local_y, z, STONE);
        }
    }
    chunk_with_sections(sections)
}

fn roofed_chunk_ring(
    table: &BlockStateTable,
    center: ChunkPos,
    section_count: usize,
    roof_section_index: usize,
    roof_local_y: usize,
) -> Vec<(ChunkPos, Chunk)> {
    let mut chunks = Vec::new();
    for z in -2..=2 {
        for x in -2..=2 {
            let pos = ChunkPos::new(center.x + x, center.z + z);
            if pos != center {
                let chunk = roofed_chunk(table, section_count, roof_section_index, roof_local_y);
                chunks.push((pos, chunk));
            }
        }
    }
    chunks
}

fn chunk_at(chunks: &[(ChunkPos, Chunk)], pos: ChunkPos) -> &Chunk {
    let Some((_, chunk)) = chunks.iter().find(|(chunk_pos, _)| *chunk_pos == pos) else {
        panic!("test chunk should be available");
    };
    chunk
}

fn chunk_at_mut(chunks: &mut [(ChunkPos, Chunk)], pos: ChunkPos) -> &mut Chunk {
    let Some((_, chunk)) = chunks.iter_mut().find(|(chunk_pos, _)| *chunk_pos == pos) else {
        panic!("test chunk should be available");
    };
    chunk
}

fn set_visible_sky_light(chunk: &mut Chunk, section_y: i32, x: usize, y: usize, z: usize, level: u8) {
    let nibble = chunk.sky_mut(section_y);
    nibble.set_non_null();
    nibble.set(x, y, z, level);
    assert!(nibble.update_visible());
}

/// Runs lighting over the chunks that are there, and gives them their light
/// back. Only the light of writable chunks takes part.
fn light_window<R>(
    layout: LightCacheLayout,
    radius: LightCacheSetupRadius,
    layer: LightLayer,
    chunks: &mut [(ChunkPos, Chunk)],
    writable: impl Fn(ChunkPos) -> bool,
    run: impl FnOnce(&LightWorkset, &LightSectionReadCache<'_>, &mut LightLayerWriteCache) -> R,
) -> R {
    let center = layout.center_chunk();
    let mut found = Vec::new();
    for slot in 0..25 {
        let pos = ChunkPos::new(center.x - 2 + slot % 5, center.z - 2 + slot / 5);
        found.push(if chunks.iter().any(|(chunk_pos, _)| *chunk_pos == pos) {
            ChunkAvailability::Usable
        } else {
            ChunkAvailability::Missing
        });
    }
    let Ok(workset) = LightWorkset::setup(layout, radius, true, &found) else {
        panic!("relaxed setup should accept missing chunks");
    };
    let mut parts: Vec<(ChunkPos, &Sections, &mut ChunkLightData)> = chunks
        .iter_mut()
        .map(|(pos, chunk)| (*pos, &chunk.sections, &mut chunk.light))
        .filter(|(pos, _, _)| workset.has_chunk(*pos))
        .collect();
    let mut sections = LightSectionReadCache::new(layout);
    let mut light = LightLayerWriteCache::new(layout, layer);
    for (pos, chunk_sections, chunk_light) in &mut parts {
        sections.insert_chunk(*pos, *chunk_sections);
        if writable(*pos) {
            match layer {
                LightLayer::Sky => light.lend_chunk(*pos, &mut chunk_light.sky),
                LightLayer::Block => light.lend_chunk(*pos, &mut chunk_light.block),
            }
        }
    }
    let result = run(&workset, &sections, &mut light);
    for (pos, _, chunk_light) in &mut parts {
        if writable(*pos) {
            match layer {
                LightLayer::Sky => light.return_chunk(*pos, &mut chunk_light.sky),
                LightLayer::Block => light.return_chunk(*pos, &mut chunk_light.block),
            }
        }
    }
    result
}

fn local_index(layout: LightCacheLayout, x: i32, y: i32, z: i32) -> usize {
    let Some(block) = layout.cached_block(BlockPos::new(x, y, z)) else {
        panic!("test block should be cached");
    };
    block.local_index
}

#[test]
fn context_requires_sky_layer() {
    let table = table();
    let center = ChunkPos::new(0, 0);
    let mut chunks = vec![(center, chunk_with_section(ChunkSection::new_empty(PLAINS)))];
    let layout = LightCacheLayout::new(center, range());

    light_window(
        layout,
        LightCacheSetupRadius::Inner,
        LightLayer::Block,
        &mut chunks,
        |_| true,
        |_, sections, light| {
            let taken = std::mem::replace(light, LightLayerWriteCache::new(layout, LightLayer::Block));
            let queues = PackedLightPropagationQueues::new();
            let result = SkyLightPropagationContext::new(&table, sections, taken, queues);

            assert_eq!(
                result.err(),
                Some(SkyLightPropagationContextError::WrongLayer { layer: LightLayer::Block })
            );
        },
    );
}

#[test]
fn sky_light_chunk_without_edge_checks_propagates_down_air_column() {
    let table = table();
    let center = ChunkPos::new(0, 0);
    let mut section = ChunkSection::new_empty(PLAINS);
    section.set_block_state(&table, 1, 0, 1, STONE);
    let mut chunks = horizontal_empty_neighbors(center, 1);
    chunks.push((center, chunk_with_section(section)));
    let layout = LightCacheLayout::new(center, range());

    let Ok(result) = light_window(
        layout,
        LightCacheSetupRadius::Inner,
        LightLayer::Sky,
        &mut chunks,
        |_| true,
        |workset, sections, light| {
            propagate_sky_light_chunk_without_edge_checks(workset, &table, sections, light)
        },
    ) else {
        panic!("matching sky caches should run sky chunk lighting");
    };

    assert!(result.updated_sections.contains(&SectionPos::new(0, 0, 0)));

    let nibble = chunk_at(&chunks, center).sky(0);
    assert_eq!(nibble.get_visible_at_index(local_index(layout, 1, 15, 1)), 15);
    assert_eq!(nibble.get_visible_at_index(local_index(layout, 1, 1, 1)), 15);
    assert_eq!(nibble.get_visible_at_index(local_index(layout, 1, 0, 1)), 0);
}

#[test]
fn sky_light_chunk_without_edge_checks_propagates_from_virtual_top_source() {
    let table = table();
    let center = ChunkPos::new(0, 0);
    let mut section = ChunkSection::new_empty(PLAINS);
    for z in 0..16 {
        for x in 0..16 {
            section.set_block_state(&table, x, 15, z, ACACIA_LEAVES);
        }
    }
    let mut chunks = horizontal_empty_neighbors(center, 1);
    chunks.push((center, chunk_with_section(section)));
    let layout = LightCacheLayout::new(center, range());

    let Ok(result) = light_window(
        layout,
        LightCacheSetupRadius::Inner,
        LightLayer::Sky,
        &mut chunks,
        |_| true,
        |workset, sections, light| {
            propagate_sky_light_chunk_without_edge_checks(workset, &table, sections, light)
        },
    ) else {
        panic!("matching sky caches should run sky chunk lighting");
    };

    assert!(result.updated_sections.contains(&SectionPos::new(0, 0, 0)));

    let nibble = chunk_at(&chunks, center).sky(0);
    assert_eq!(nibble.get_visible_at_index(local_index(layout, 8, 15, 8)), 14);
    assert_eq!(nibble.get_visible_at_index(local_index(layout, 8, 14, 8)), 13);
}

#[test]
fn sky_light_chunk_initializes_diagonal_only_null_section_sources() {
    let table = table();
    let center = ChunkPos::new(0, 0);
    let diagonal = ChunkPos::new(1, 1);
    let mut center_lower = ChunkSection::new_empty(PLAINS);
    center_lower.set_block_state(&table, 1, 0, 1, STONE);
    let mut center_sections = Some(vec![
        center_lower,
        ChunkSection::new_empty(PLAINS),
        ChunkSection::new_empty(PLAINS),
    ]);

    let mut chunks = Vec::new();
    for z in -1..=1 {
        for x in -1..=1 {
            let pos = ChunkPos::new(center.x + x, center.z + z);
            let chunk = match center_sections.take_if(|_| pos == center) {
                Some(sections) => chunk_with_sections(sections),
                None => empty_chunk_with_section_count(3),
            };
            chunks.push((pos, chunk));
        }
    }
    set_visible_sky_light(chunk_at_mut(&mut chunks, diagonal), 2, 0, 0, 0, 15);

    let layout = LightCacheLayout::new(center, range_of_height(48));
    let Ok(result) = light_window(
        layout,
        LightCacheSetupRadius::Full,
        LightLayer::Sky,
        &mut chunks,
        |_| true,
        |workset, sections, light| {
            propagate_sky_light_chunk_without_edge_checks(workset, &table, sections, light)
        },
    ) else {
        panic!("matching sky caches should run sky chunk lighting");
    };

    assert!(result.updated_sections.contains(&SectionPos::new(0, 1, 0)));

    let chunk = chunk_at(&chunks, center);
    assert_eq!(chunk.sky(1).visible_state(), LightNibbleState::Initialized);
    assert_eq!(chunk.sky(2).visible_state(), LightNibbleState::Null);
}

#[test]
fn sky_light_chunk_without_edge_checks_keeps_sealed_roof_dark() {
    let table = table();
    let center = ChunkPos::new(0, 0);
    let mut chunks = roofed_chunk_ring(&table, center, 1, 0, 15);
    chunks.push((center, roofed_chunk(&table, 1, 0, 15)));
    let layout = LightCacheLayout::new(center, range());

    let Ok(result) = light_window(
        layout,
        LightCacheSetupRadius::Full,
        LightLayer::Sky,
        &mut chunks,
        |pos| pos == center,
        |workset, sections, light| {
            propagate_sky_light_chunk_without_edge_checks(workset, &table, sections, light)
        },
    ) else {
        panic!("matching sky caches should run sky chunk lighting");
    };

    assert!(result.updated_sections.contains(&SectionPos::new(0, 0, 0)));

    let nibble = chunk_at(&chunks, center).sky(0);
    assert_eq!(nibble.get_visible_at_index(local_index(layout, 8, 14, 8)), 0);
    assert_eq!(nibble.get_visible_at_index(local_index(layout, 8, 15, 8)), 0);
}

#[test]
fn sky_light_chunk_resets_stale_center_nibbles_before_lighting() {
    let table = table();
    let center = ChunkPos::new(0, 0);
    let mut center_chunk = roofed_chunk(&table, 1, 0, 15);
    center_chunk.sky_mut(0).fill(MAX_LIGHT_LEVEL);
    assert!(center_chunk.sky_mut(0).update_visible());
    let mut chunks = roofed_chunk_ring(&table, center, 1, 0, 15);
    chunks.push((center, center_chunk));
    let layout = LightCacheLayout::new(center, range());

    let Ok(result) = light_window(
        layout,
        LightCacheSetupRadius::Full,
        LightLayer::Sky,
        &mut chunks,
        |pos| pos == center,
        |workset, sections, light| {
            let edge_checks = SkyLightChunkEdgeChecks::Required;
            propagate_sky_light_chunk(workset, &table, sections, light, edge_checks)
        },
    ) else {
        panic!("matching sky caches should run sky chunk lighting");
    };

    assert!(result.updated_sections.contains(&SectionPos::new(0, 0, 0)));

    let nibble = chunk_at(&chunks, center).sky(0);
    assert_eq!(nibble.get_visible_at_index(local_index(layout, 8, 14, 8)), 0);
    assert_eq!(nibble.get_visible_at_index(local_index(layout, 8, 15, 8)), 0);
}

#[test]
fn sky_light_chunk_deinitializes_loaded_empty_neighbor_sections() {
    let table = table();
    let center = ChunkPos::new(0, 0);
    let stale_neighbor = ChunkPos::new(1, 0);
    let mut chunks = Vec::new();
    for z in -2..=2 {
        for x in -2..=2 {
            chunks.push((ChunkPos::new(x, z), empty_chunk_with_section_count(1)));
        }
    }
    let stale_nibble = chunk_at_mut(&mut chunks, stale_neighbor).sky_mut(0);
    stale_nibble.fill(MAX_LIGHT_LEVEL);
    assert!(stale_nibble.update_visible());

    let layout = LightCacheLayout::new(center, range());
    let Ok(_) = light_window(
        layout,
        LightCacheSetupRadius::Full,
        LightLayer::Sky,
        &mut chunks,
        |_| true,
        |workset, sections, light| {
            let edge_checks = SkyLightChunkEdgeChecks::Required;
            propagate_sky_light_chunk(workset, &table, sections, light, edge_checks)
        },
    ) else {
        panic!("matching sky caches should run sky chunk lighting");
    };

    let nibble = chunk_at(&chunks, stale_neighbor).sky(0);
    assert_eq!(nibble.visible_state(), LightNibbleState::Null);
}

#[test]
fn sky_light_chunk_does_not_reinitialize_all_empty_section_above_neighbor_sources() {
    let table = table();
    let center = ChunkPos::new(0, 0);
    let stale_neighbor = ChunkPos::new(1, 0);
    let section_count = 6;
    let mut chunks = Vec::new();
    for z in -2..=2 {
        for x in -2..=2 {
            let pos = ChunkPos::new(x, z);
            let chunk = if pos == center {
                roofed_chunk(&table, section_count, 2, 0)
            } else if pos == stale_neighbor {
                roofed_chunk(&table, section_count, 3, 0)
            } else {
                empty_chunk_with_section_count(section_count)
            };
            chunks.push((pos, chunk));
        }
    }
    let stale_nibble = chunk_at_mut(&mut chunks, stale_neighbor).sky_mut(5);
    stale_nibble.fill(MAX_LIGHT_LEVEL);
    assert!(stale_nibble.update_visible());

    let layout = LightCacheLayout::new(center, range_of_height((section_count * 16) as i32));
    let Ok(_) = light_window(
        layout,
        LightCacheSetupRadius::Full,
        LightLayer::Sky,
        &mut chunks,
        |_| true,
        |workset, sections, light| {
            let edge_checks = SkyLightChunkEdgeChecks::Required;
            propagate_sky_light_chunk(workset, &table, sections, light, edge_checks)
        },
    ) else {
        panic!("matching sky caches should run sky chunk lighting");
    };

    let chunk = chunk_at(&chunks, center);
    assert_eq!(chunk.sky(4).visible_state(), LightNibbleState::Initialized);
    assert_eq!(chunk.sky(5).visible_state(), LightNibbleState::Null);
}

#[test]
fn sky_light_chunk_deinitializes_cached_empty_section_without_neighbor_light_maps() {
    let table = table();
    let center = ChunkPos::new(0, 0);
    let stale_neighbor = ChunkPos::new(1, 0);
    let section_count = 6;
    let mut chunks = Vec::new();
    for z in -2..=2 {
        for x in -2..=2 {
            let pos = ChunkPos::new(x, z);
            let chunk = if pos == center {
                roofed_chunk(&table, section_count, 2, 0)
            } else if pos == stale_neighbor {
                roofed_chunk(&table, section_count, 3, 0)
            } else {
                empty_chunk_with_section_count(section_count)
            };
            chunks.push((pos, chunk));
        }
    }
    let stale_nibble = chunk_at_mut(&mut chunks, stale_neighbor).sky_mut(5);
    stale_nibble.fill(MAX_LIGHT_LEVEL);
    assert!(stale_nibble.update_visible());

    let layout = LightCacheLayout::new(center, range_of_height((section_count * 16) as i32));
    let Ok(_) = light_window(
        layout,
        LightCacheSetupRadius::Full,
        LightLayer::Sky,
        &mut chunks,
        |pos| pos == center || pos == stale_neighbor,
        |workset, sections, light| {
            let edge_checks = SkyLightChunkEdgeChecks::Required;
            propagate_sky_light_chunk(workset, &table, sections, light, edge_checks)
        },
    ) else {
        panic!("matching sky caches should run sky chunk lighting");
    };

    let nibble = chunk_at(&chunks, stale_neighbor).sky(5);
    assert_eq!(nibble.visible_state(), LightNibbleState::Null);
}

#[test]
fn sky_light_chunk_edge_checks_do_not_extrude_center_null_sections() {
    let table = table();
    let center = ChunkPos::new(0, 0);
    let east = ChunkPos::new(1, 0);
    let layout = LightCacheLayout::new(center, range_of_height(48));
    let mut chunks = roofed_chunk_ring(&table, center, 3, 2, 0);
    chunks.push((center, roofed_chunk(&table, 3, 2, 0)));

    let middle = chunk_at_mut(&mut chunks, center).sky_mut(1);
    middle.set_non_null();
    for z in 0..16 {
        for x in 0..16 {
            middle.set(x, 0, z, MAX_LIGHT_LEVEL);
        }
    }
    assert!(middle.update_visible());
    let east_lower = chunk_at_mut(&mut chunks, east).sky_mut(0);
    east_lower.set_non_null();
    assert!(east_lower.update_visible());

    let Ok(_) = light_window(
        layout,
        LightCacheSetupRadius::Full,
        LightLayer::Sky,
        &mut chunks,
        |_| true,
        |workset, sections, light| {
            let edge_checks = SkyLightChunkEdgeChecks::Required;
            propagate_sky_light_chunk(workset, &table, sections, light, edge_checks)
        },
    ) else {
        panic!("matching sky caches should run sky chunk lighting");
    };

    let nibble = chunk_at(&chunks, center).sky(0);
    assert_eq!(nibble.visible_state(), LightNibbleState::Null);
    assert_eq!(nibble.get_visible_at_index(local_index(layout, 8, 8, 8)), 0);
}

#[test]
fn sky_neighbor_level_pull_skips_null_current_sections() {
    let table = table();
    let center = ChunkPos::new(0, 0);
    let east = ChunkPos::new(1, 0);
    let mut east_chunk = empty_chunk_with_section_count(1);
    set_visible_sky_light(&mut east_chunk, 0, 0, 0, 0, 7);
    let mut chunks = vec![(center, empty_chunk_with_section_count(1)), (east, east_chunk)];

    let layout = LightCacheLayout::new(center, range());
    light_window(
        layout,
        LightCacheSetupRadius::Full,
        LightLayer::Sky,
        &mut chunks,
        |_| true,
        |_, sections, light| {
            let taken = std::mem::replace(light, LightLayerWriteCache::new(layout, LightLayer::Sky));
            let queues = PackedLightPropagationQueues::new();
            let Ok(mut context) = SkyLightPropagationContext::new(&table, sections, taken, queues)
            else {
                panic!("sky propagation context should initialize");
            };
            context.propagate_neighbor_levels(center, 0, 0);

            assert!(!context.engine.queues.has_work());
        },
    );
}

#[test]
fn sky_light_changes_add_and_remove_air_column_shadow() {
    let table = table();
    let center = ChunkPos::new(0, 0);
    let changed_pos = BlockPos::new(1, 14, 1);
    let mut chunks = vec![(center, empty_chunk_with_section_count(1))];
    let layout = LightCacheLayout::new(center, range());
    chunks[0].1.sections.set_relative_block(&table, 1, 14, 1, STONE);
    assert_eq!(chunks[0].1.sections.get_relative_block(1, 14, 1), Some(STONE));

    let Ok(result) = light_window(
        layout,
        LightCacheSetupRadius::Inner,
        LightLayer::Sky,
        &mut chunks,
        |_| true,
        |workset, sections, light| {
            propagate_sky_light_changes_with_empty_sections(
                workset,
                &table,
                sections,
                light,
                &[changed_pos],
                &[LightSectionEmptinessChange {
                    section_pos: SectionPos::new(0, 0, 0),
                    empty: false,
                }],
            )
        },
    ) else {
        panic!("matching sky caches should run sky block changes");
    };

    assert!(result.updated_sections.contains(&SectionPos::new(0, 0, 0)));
    let above = local_index(layout, 1, 15, 1);
    let stone = local_index(layout, 1, 14, 1);
    let below = local_index(layout, 1, 13, 1);
    let nibble = chunk_at(&chunks, center).sky(0);
    assert_eq!(nibble.get_visible_at_index(above), 15);
    assert_eq!(nibble.get_visible_at_index(stone), 0);
    assert_eq!(nibble.get_visible_at_index(below), 14);

    chunks[0].1.sections.set_relative_block(&table, 1, 14, 1, AIR);
    assert_eq!(chunks[0].1.sections.get_relative_block(1, 14, 1), Some(AIR));
    let Ok(_) = light_window(
        layout,
        LightCacheSetupRadius::Inner,
        LightLayer::Sky,
        &mut chunks,
        |_| true,
        |workset, sections, light| {
            propagate_sky_light_changes_with_empty_sections(
                workset,
                &table,
                sections,
                light,
                &[changed_pos],
                &[LightSectionEmptinessChange {
                    section_pos: SectionPos::new(0, 0, 0),
                    empty: true,
                }],
            )
        },
    ) else {
        panic!("matching sky caches should run sky block changes");
    };

    assert!(result.updated_sections.contains(&SectionPos::new(0, 0, 0)));
    let chunk = chunk_at(&chunks, center);
    let nibble = chunk.sky(0);
    assert_eq!(nibble.get_visible_at_index(above), 15);
    assert_eq!(nibble.get_visible_at_index(stone), 15);
    assert_eq!(nibble.get_visible_at_index(below), 15);
    assert_eq!(chunk.light.sky.get_light_value(BlockPos::new(1, 15, 1)), 15);
    assert_eq!(chunk.light.sky.get_light_value(changed_pos), 15);
    assert_eq!(chunk.light.sky.get_light_value(BlockPos::new(1, 13, 1)), 15);
}

#[test]
fn sky_light_changes_apply_empty_section_transitions() {
    let table = table();
    let center = ChunkPos::new(0, 0);
    let removed_pos = BlockPos::new(1, 1, 1);
    let mut chunks = Vec::new();
    for z in -2..=2 {
        for x in -2..=2 {
            let pos = ChunkPos::new(x, z);
            let mut section = ChunkSection::new_empty(PLAINS);
            if pos == center {
                section.set_block_state(&table, 1, 1, 1, STONE);
            }
            chunks.push((pos, chunk_with_section(section)));
        }
    }
    let center_chunk = chunk_at_mut(&mut chunks, center);
    set_visible_sky_light(center_chunk, 0, 1, 1, 1, 15);
    assert_eq!(center_chunk.sections.get_relative_block(1, 1, 1), Some(STONE));
    center_chunk.sections.set_relative_block(&table, 1, 1, 1, AIR);

    let layout = LightCacheLayout::new(center, range());
    let Ok(_) = light_window(
        layout,
        LightCacheSetupRadius::Full,
        LightLayer::Sky,
        &mut chunks,
        |_| true,
        |workset, sections, light| {
            propagate_sky_light_changes_with_empty_sections(
                workset,
                &table,
                sections,
                light,
                &[removed_pos],
                &[LightSectionEmptinessChange {
                    section_pos: SectionPos::new(0, 0, 0),
                    empty: true,
                }],
            )
        },
    ) else {
        panic!("matching sky caches should run sky light updates");
    };

    let chunk = chunk_at(&chunks, center);
    assert_eq!(chunk.light.sky.section_empty(0), Some(true));
    assert_eq!(chunk.sky(0).visible_state(), LightNibbleState::Null);
}

#[test]
fn sky_light_chunk_edge_checks_pull_neighbor_under_ceiling() {
    let table = table();
    let center = ChunkPos::new(0, 0);
    let east = ChunkPos::new(1, 0);
    let mut chunks = horizontal_empty_neighbors(center, 1);
    chunks.push((center, roofed_chunk(&table, 1, 0, 15)));
    set_visible_sky_light(chunk_at_mut(&mut chunks, east), 0, 0, 14, 1, 15);
    let layout = LightCacheLayout::new(center, range());

    let Ok(result) = light_window(
        layout,
        LightCacheSetupRadius::Inner,
        LightLayer::Sky,
        &mut chunks,
        |_| true,
        |workset, sections, light| {
            let edge_checks = SkyLightChunkEdgeChecks::Required;
            propagate_sky_light_chunk(workset, &table, sections, light, edge_checks)
        },
    ) else {
        panic!("matching sky caches should run sky chunk lighting");
    };

    assert!(result.updated_sections.contains(&SectionPos::new(0, 0, 0)));

    let nibble = chunk_at(&chunks, center).sky(0);
    assert_eq!(nibble.get_visible_at_index(local_index(layout, 15, 14, 1)), 14);
    assert_eq!(nibble.get_visible_at_index(local_index(layout, 14, 14, 1)), 13);
    assert_eq!(nibble.get_visible_at_index(local_index(layout, 15, 15, 1)), 0);
}

#[test]
fn sky_light_chunk_requires_center_chunk() {
    let table = table();
    let center = ChunkPos::new(0, 0);
    let layout = LightCacheLayout::new(center, range());

    let result = light_window(
        layout,
        LightCacheSetupRadius::Inner,
        LightLayer::Sky,
        &mut [],
        |_| true,
        |workset, sections, light| {
            propagate_sky_light_chunk_without_edge_checks(workset, &table, sections, light)
        },
    );

    assert_eq!(
        result.err(),
        Some(SkyLightPropagationContextError::MissingCenterChunk { chunk_pos: center })
    );
}
