//! Setting up windows of chunks.
use steel_light::LightLayer;
use steel_light::block_state::{BlockStateId, BlockStateInfo, BlockStateTable};
use steel_light::cache::{LightCacheLayout, LightCacheSetupRadius};
use steel_light::chunk_light::ChunkLightData;
use steel_light::light_cache::{LightLayerWriteCache, LightSectionReadCache};
use steel_light::position::{BlockPos, ChunkPos};
use steel_light::section::{ChunkSection, Sections};
use steel_light::section_range::LightSectionRange;
use steel_light::workset::{ChunkAvailability, LightWorkset, LightWorksetSetupError};

const PLAINS: u16 = 0;
const AIR: BlockStateId = BlockStateId(0);
const STONE: BlockStateId = BlockStateId(1);
const BOTTOM_SLAB: BlockStateId = BlockStateId(2);
const TOP_SLAB: BlockStateId = BlockStateId(3);
const LIGHT: BlockStateId = BlockStateId(4);
const DIM_LIGHT: BlockStateId = BlockStateId(5);
const WATER: BlockStateId = BlockStateId(6);
const ACACIA_LEAVES: BlockStateId = BlockStateId(7);

/// Which halves of a face a shape covers: the lower one is bit 0, the upper
/// one bit 1. Shapes: empty, full block, bottom slab, top slab. Directions:
/// down, up, north, south, west, east.
const FACES: [[u8; 6]; 4] = [
    [0, 0, 0, 0, 0, 0],
    [3, 3, 3, 3, 3, 3],
    [3, 0, 1, 1, 1, 1],
    [0, 3, 2, 2, 2, 2],
];

fn table() -> BlockStateTable {
    let stone = BlockStateInfo {
        is_air: false,
        has_fluid: false,
        randomly_ticking: false,
        light_dampening: 15,
        light_emission: 0,
        can_occlude: true,
        use_shape_for_light_occlusion: false,
        occlusion_shape: 1,
    };
    let air = BlockStateInfo {
        is_air: true,
        light_dampening: 0,
        can_occlude: false,
        occlusion_shape: 0,
        ..stone
    };
    let slab = BlockStateInfo {
        light_dampening: 0,
        use_shape_for_light_occlusion: true,
        occlusion_shape: 2,
        ..stone
    };
    let light = BlockStateInfo { is_air: false, light_emission: 15, ..air };
    let mut states = vec![stone; 65536];
    states[AIR.0 as usize] = air;
    states[BOTTOM_SLAB.0 as usize] = slab;
    states[TOP_SLAB.0 as usize] = BlockStateInfo { occlusion_shape: 3, ..slab };
    states[LIGHT.0 as usize] = light;
    states[DIM_LIGHT.0 as usize] = BlockStateInfo { light_emission: 7, ..light };
    states[WATER.0 as usize] = BlockStateInfo {
        is_air: false,
        has_fluid: true,
        light_dampening: 1,
        ..air
    };
    states[ACACIA_LEAVES.0 as usize] =
        BlockStateInfo { is_air: false, light_dampening: 1, randomly_ticking: true, ..air };
    let opposite = [1, 0, 3, 2, 5, 4];
    let mut occludes = Vec::new();
    for from in 0..4 {
        for to in 0..4 {
            for direction in 0..6 {
                occludes.push(FACES[from][direction] | FACES[to][opposite[direction]] == 3);
            }
        }
    }
    let Some(table) = BlockStateTable::new(states, 4, occludes.clone(), occludes, AIR) else {
        panic!("the parts of the table fit together");
    };
    table
}

fn range_of_height(height: i32) -> LightSectionRange {
    let Ok(range) = LightSectionRange::from_world_height(0, height) else {
        panic!("test height should create a valid light range");
    };
    range
}

fn range() -> LightSectionRange {
    range_of_height(16)
}

struct Chunk {
    sections: Sections,
    light: ChunkLightData,
}

fn chunk_with_sections(sections: Vec<ChunkSection>) -> Chunk {
    let mut light = ChunkLightData::for_valid_world_height(0, (sections.len() * 16) as i32);
    let sections = Sections::from_owned(sections.into_boxed_slice());
    if let Err(error) = light.refresh_emptiness_maps_from_sections(&sections) {
        panic!("valid section count rejected: {error:?}");
    }
    Chunk { sections, light }
}

fn chunk_with_section(section: ChunkSection) -> Chunk {
    chunk_with_sections(vec![section])
}

/// Runs lighting over the chunks that are there, and gives them their light
/// back. Only the light of writable chunks takes part.
fn light_window<R>(
    layout: LightCacheLayout,
    radius: LightCacheSetupRadius,
    layer: LightLayer,
    chunks: &mut [(ChunkPos, Chunk)],
    writable: impl Fn(ChunkPos) -> bool,
    run: impl FnOnce(&LightWorkset, &LightSectionReadCache<'_>, &mut LightLayerWriteCache) -> R,
) -> R {
    let center = layout.center_chunk();
    let mut found = Vec::new();
    for slot in 0..25 {
        let pos = ChunkPos::new(center.x - 2 + slot % 5, center.z - 2 + slot / 5);
        found.push(if chunks.iter().any(|(chunk_pos, _)| *chunk_pos == pos) {
            ChunkAvailability::Usable
        } else {
            ChunkAvailability::Missing
        });
    }
    let Ok(workset) = LightWorkset::setup(layout, radius, true, &found) else {
        panic!("relaxed setup should accept missing chunks");
    };
    let mut parts: Vec<(ChunkPos, &Sections, &mut ChunkLightData)> = chunks
        .iter_mut()
        .map(|(pos, chunk)| (*pos, &chunk.sections, &mut chunk.light))
        .filter(|(pos, _, _)| workset.has_chunk(*pos))
        .collect();
    let mut sections = LightSectionReadCache::new(layout);
    let mut light = LightLayerWriteCache::new(layout, layer);
    for (pos, chunk_sections, chunk_light) in &mut parts {
        sections.insert_chunk(*pos, *chunk_sections);
        if writable(*pos) {
            match layer {
                LightLayer::Sky => light.lend_chunk(*pos, &mut chunk_light.sky),
                LightLayer::Block => light.lend_chunk(*pos, &mut chunk_light.block),
            }
        }
    }
    let result = run(&workset, &sections, &mut light);
    for (pos, _, chunk_light) in &mut parts {
        if writable(*pos) {
            match layer {
                LightLayer::Sky => light.return_chunk(*pos, &mut chunk_light.sky),
                LightLayer::Block => light.return_chunk(*pos, &mut chunk_light.block),
            }
        }
    }
    result
}

#[test]
fn workset_reports_missing_required_inner_chunk() {
    let layout = LightCacheLayout::new(ChunkPos::new(0, 0), range());

    let result = LightWorkset::setup(
        layout,
        LightCacheSetupRadius::Inner,
        false,
        &[ChunkAvailability::Missing; 25],
    );

    assert_eq!(
        result.err(),
        Some(LightWorksetSetupError::MissingRequiredChunk { chunk_pos: ChunkPos::new(-1, -1) })
    );
}

#[test]
fn section_read_cache_uses_scalable_lux_local_indices() {
    let table = table();
    let center = ChunkPos::new(0, 0);
    let mut section = ChunkSection::new_empty(PLAINS);
    let stone = STONE;
    section.set_block_state(&table, 1, 2, 3, stone);
    let mut chunks = vec![(center, chunk_with_section(section))];
    let layout = LightCacheLayout::new(center, range());

    let Some(cached_block) = layout.cached_block(BlockPos::new(1, 2, 3)) else {
        panic!("test block should be inside light cache");
    };
    let read_state = light_window(
        layout,
        LightCacheSetupRadius::Inner,
        LightLayer::Sky,
        &mut chunks,
        |_| true,
        |_, sections, _| sections.get_block_state(&table, cached_block),
    );

    assert_eq!(read_state, stone);
}
