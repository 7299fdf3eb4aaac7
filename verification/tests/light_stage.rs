//! The light stage of chunk generation and loading.
use steel_light::LightLayer;
use steel_light::block_state::{BlockStateId, BlockStateInfo, BlockStateTable};
use steel_light::cache::{LightCacheLayout, LightCacheSetupRadius};
use steel_light::chunk_light::ChunkLightData;
use steel_light::light_cache::{LightLayerWriteCache, LightSectionReadCache};
use steel_light::light_stage::{run_loaded_sky_light_stage, run_sky_light_stage};
use steel_light::nibble::{LightNibbleArray, LightNibbleState};
use steel_light::position::{BlockPos, ChunkPos};
use steel_light::propagation::propagate_block_light_changes;
use steel_light::section::{ChunkSection, Sections};
use steel_light::section_range::LightSectionRange;
use steel_light::workset::{ChunkAvailability, LightWorkset};

const PLAINS: u16 = 0;
const AIR: BlockStateId = BlockStateId(0);
const STONE: BlockStateId = BlockStateId(1);
const BOTTOM_SLAB: BlockStateId = BlockStateId(2);
const TOP_SLAB: BlockStateId = BlockStateId(3);
const LIGHT: BlockStateId = BlockStateId(4);
const DIM_LIGHT: BlockStateId = BlockStateId(5);
const WATER: BlockStateId = BlockStateId(6);
const ACACIA_LEAVES: BlockStateId = BlockStateId(7);

/// Which halves of a face a shape covers: the lower one is bit 0, the upper
/// one bit 1. Shapes: empty, full block, bottom slab, top slab. Directions:
/// down, up, north, south, west, east.
const FACES: [[u8; 6]; 4] = [
    [0, 0, 0, 0, 0, 0],
    [3, 3, 3, 3, 3, 3],
    [3, 0, 1, 1, 1, 1],
    [0, 3, 2, 2, 2, 2],
];

fn table() -> BlockStateTable {
    let stone = BlockStateInfo {
        is_air: false,
        has_fluid: false,
        randomly_ticking: false,
        light_dampening: 15,
        light_emission: 0,
        can_occlude: true,
        use_shape_for_light_occlusion: false,
        occlusion_shape: 1,
    };
    let air = BlockStateInfo {
        is_air: true,
        light_dampening: 0,
        can_occlude: false,
        occlusion_shape: 0,
        ..stone
    };
    let slab = BlockStateInfo {
        light_dampening: 0,
        use_shape_for_light_occlusion: true,
        occlusion_shape: 2,
        ..stone
    };
    let light = BlockStateInfo { is_air: false, light_emission: 15, ..air };
    let mut states = vec![stone; 65536];
    states[AIR.0 as usize] = air;
    states[BOTTOM_SLAB.0 as usize] = slab;
    states[TOP_SLAB.0 as usize] = BlockStateInfo { occlusion_shape: 3, ..slab };
    states[LIGHT.0 as usize] = light;
    states[DIM_LIGHT.0 as usize] = BlockStateInfo { light_emission: 7, ..light };
    states[WATER.0 as usize] = BlockStateInfo {
        is_air: false,
        has_fluid: true,
        light_dampening: 1,
        ..air
    };
    states[ACACIA_LEAVES.0 as usize] =
        BlockStateInfo { is_air: false, light_dampening: 1, randomly_ticking: true, ..air };
    let opposite = [1, 0, 3, 2, 5, 4];
    let mut occludes = Vec::new();
    for from in 0..4 {
        for to in 0..4 {
            for direction in 0..6 {
                occludes.push(FACES[from][direction] | FACES[to][opposite[direction]] == 3);
            }
        }
    }
    let Some(table) = BlockStateTable::new(states, 4, occludes.clone(), occludes, AIR) else {
        panic!("the parts of the table fit together");
    };
    table
}

fn range_of_height(height: i32) -> LightSectionRange {
    let Ok(range) = LightSectionRange::from_world_height(0, height) else {
        panic!("test height should create a valid light range");
    };
    range
}

fn range() -> LightSectionRange {
    range_of_height(16)
}

struct Chunk {
    sections: Sections,
    light: ChunkLightData,
}

impl Chunk {
    fn sky(&self, section_y: i32) -> &LightNibbleArray {
        let Some(nibble) = self.light.sky.nibble(section_y) else {
            panic!("test nibble should be inside light range");
        };
        nibble
    }

    fn sky_mut(&mut self, section_y: i32) -> &mut LightNibbleArray {
        let Some(nibble) = self.light.sky.nibble_mut(section_y) else {
            panic!("test nibble should be inside light range");
        };
        nibble
    }

    fn block(&self, section_y: i32) -> &LightNibbleArray {
        let Some(nibble) = self.light.block.nibble(section_y) else {
            panic!("test nibble should be inside light range");
        };
        nibble
    }

    fn block_mut(&mut self, section_y: i32) -> &mut LightNibbleArray {
        let Some(nibble) = self.light.block.nibble_mut(section_y) else {
            panic!("test nibble should be inside light range");
        };
        nibble
    }
}

fn chunk_with_sections(sections: Vec<ChunkSection>) -> Chunk {
    let mut light = ChunkLightData::for_valid_world_height(0, (sections.len() * 16) as i32);
    let sections = Sections::from_owned(sections.into_boxed_slice());
    if let Err(error) = light.refresh_emptiness_maps_from_sections(&sections) {
        panic!("valid section count rejected: {error:?}");
    }
    Chunk { sections, light }
}

fn chunk_with_section(section: ChunkSection) -> Chunk {
    chunk_with_sections(vec![section])
}

fn chunk_at(chunks: &[(ChunkPos, Chunk)], pos: ChunkPos) -> &Chunk {
    let Some((_, chunk)) = chunks.iter().find(|(chunk_pos, _)| *chunk_pos == pos) else {
        panic!("test chunk should be available");
    };
    chunk
}

fn chunk_at_mut(chunks: &mut [(ChunkPos, Chunk)], pos: ChunkPos) -> &mut Chunk {
    let Some((_, chunk)) = chunks.iter_mut().find(|(chunk_pos, _)| *chunk_pos == pos) else {
        panic!("test chunk should be available");
    };
    chunk
}

fn set_visible_sky_light(chunk: &mut Chunk, section_y: i32, x: usize, y: usize, z: usize, level: u8) {
    let nibble = chunk.sky_mut(section_y);
    nibble.set_non_null();
    nibble.set(x, y, z, level);
    assert!(nibble.update_visible());
}

/// Runs lighting over the chunks that are there, and gives them their light
/// back. Only the light of writable chunks takes part.
fn light_window<R>(
    layout: LightCacheLayout,
    radius: LightCacheSetupRadius,
    layer: LightLayer,
    chunks: &mut [(ChunkPos, Chunk)],
    writable: impl Fn(ChunkPos) -> bool,
    run: impl FnOnce(&LightWorkset, &LightSectionReadCache<'_>, &mut LightLayerWriteCache) -> R,
) -> R {
    let center = layout.center_chunk();
    let mut found = Vec::new();
    for slot in 0..25 {
        let pos = ChunkPos::new(center.x - 2 + slot % 5, center.z - 2 + slot / 5);
        found.push(if chunks.iter().any(|(chunk_pos, _)| *chunk_pos == pos) {
            ChunkAvailability::Usable
        } else {
            ChunkAvailability::Missing
        });
    }
    let Ok(workset) = LightWorkset::setup(layout, radius, true, &found) else {
        panic!("relaxed setup should accept missing chunks");
    };
    let mut parts: Vec<(ChunkPos, &Sections, &mut ChunkLightData)> = chunks
        .iter_mut()
        .map(|(pos, chunk)| (*pos, &chunk.sections, &mut chunk.light))
        .filter(|(pos, _, _)| workset.has_chunk(*pos))
        .collect();
    let mut sections = LightSectionReadCache::new(layout);
    let mut light = LightLayerWriteCache::new(layout, layer);
    for (pos, chunk_sections, chunk_light) in &mut parts {
        sections.insert_chunk(*pos, *chunk_sections);
        if writable(*pos) {
            match layer {
                LightLayer::Sky => light.lend_chunk(*pos, &mut chunk_light.sky),
                LightLayer::Block => light.lend_chunk(*pos, &mut chunk_light.block),
            }
        }
    }
    let result = run(&workset, &sections, &mut light);
    for (pos, _, chunk_light) in &mut parts {
        if writable(*pos) {
            match layer {
                LightLayer::Sky => light.return_chunk(*pos, &mut chunk_light.sky),
                LightLayer::Block => light.return_chunk(*pos, &mut chunk_light.block),
            }
        }
    }
    result
}

fn local_index(layout: LightCacheLayout, x: i32, y: i32, z: i32) -> usize {
    let Some(block) = layout.cached_block(BlockPos::new(x, y, z)) else {
        panic!("test block should be cached");
    };
    block.local_index
}

#[test]
fn light_stage_skips_sky_light_when_dimension_has_no_skylight() {
    let table = table();
    let center = ChunkPos::new(0, 0);
    let mut chunks = Vec::new();
    for z in -1..=1 {
        for x in -1..=1 {
            let pos = ChunkPos::new(x, z);
            let mut section = ChunkSection::new_empty(PLAINS);
            if pos == center {
                section.set_block_state(&table, 1, 1, 1, LIGHT);
            }
            chunks.push((pos, chunk_with_section(section)));
        }
    }
    let layout = LightCacheLayout::new(center, range());

    let Ok(sky_updates) = light_window(
        layout,
        LightCacheSetupRadius::Full,
        LightLayer::Sky,
        &mut chunks,
        |pos| pos == center,
        |workset, sections, light| run_sky_light_stage(false, workset, &table, sections, light),
    ) else {
        panic!("matching sky caches should run the light stage");
    };

    chunk_at_mut(&mut chunks, center).block_mut(0).set_non_null();
    let Ok(block_result) = light_window(
        layout,
        LightCacheSetupRadius::Full,
        LightLayer::Block,
        &mut chunks,
        |pos| pos == center,
        |_, sections, light| {
            propagate_block_light_changes(&table, sections, light, &[BlockPos::new(1, 1, 1)])
        },
    ) else {
        panic!("matching block caches should run block light updates");
    };

    let chunk = chunk_at(&chunks, center);
    assert!(sky_updates.is_empty());
    assert!(!block_result.updated_sections.is_empty());
    assert_eq!(chunk.block(0).get_visible_at_index(local_index(layout, 1, 1, 1)), 15);
    assert_eq!(chunk.sky(0).visible_state(), LightNibbleState::Null);
}

#[test]
fn light_stage_generates_center_sky_and_block_light() {
    let table = table();
    let center = ChunkPos::new(0, 0);
    let mut chunks = Vec::new();
    for z in -1..=1 {
        for x in -1..=1 {
            let pos = ChunkPos::new(x, z);
            let mut section = ChunkSection::new_empty(PLAINS);
            if pos == center {
                section.set_block_state(&table, 1, 1, 1, LIGHT);
            }
            chunks.push((pos, chunk_with_section(section)));
        }
    }
    let layout = LightCacheLayout::new(center, range());

    let Ok(_) = light_window(
        layout,
        LightCacheSetupRadius::Full,
        LightLayer::Sky,
        &mut chunks,
        |pos| pos == center,
        |workset, sections, light| run_sky_light_stage(true, workset, &table, sections, light),
    ) else {
        panic!("matching sky caches should run the light stage");
    };
    chunk_at_mut(&mut chunks, center).block_mut(0).set_non_null();
    let Ok(_) = light_window(
        layout,
        LightCacheSetupRadius::Full,
        LightLayer::Block,
        &mut chunks,
        |pos| pos == center,
        |_, sections, light| {
            propagate_block_light_changes(&table, sections, light, &[BlockPos::new(1, 1, 1)])
        },
    ) else {
        panic!("matching block caches should run block light updates");
    };

    let chunk = chunk_at(&chunks, center);
    assert_eq!(chunk.block(0).get_visible_at_index(local_index(layout, 1, 1, 1)), 15);
    assert_eq!(chunk.sky(0).get_visible_at_index(local_index(layout, 1, 15, 1)), 15);
}

#[test]
fn loaded_light_stage_validates_persisted_sky_light() {
    let table = table();
    let center = ChunkPos::new(0, 0);
    let mut chunks = Vec::new();
    for z in -2..=2 {
        for x in -2..=2 {
            let pos = ChunkPos::new(x, z);
            let mut section = ChunkSection::new_empty(PLAINS);
            if pos == center {
                section.set_block_state(&table, 0, 0, 0, STONE);
            }
            chunks.push((pos, chunk_with_section(section)));
        }
    }
    let layout = LightCacheLayout::new(center, range());

    let sky_pos = BlockPos::new(8, 15, 8);
    set_visible_sky_light(chunk_at_mut(&mut chunks, center), 0, 8, 15, 8, 15);

    let Ok(_) = light_window(
        layout,
        LightCacheSetupRadius::Full,
        LightLayer::Sky,
        &mut chunks,
        |_| true,
        |workset, sections, light| run_loaded_sky_light_stage(true, workset, &table, sections, light),
    ) else {
        panic!("matching sky caches should run the loaded light stage");
    };

    let chunk = chunk_at(&chunks, center);
    assert_eq!(chunk.light.get_light_value(LightLayer::Sky, sky_pos), 15);
}
