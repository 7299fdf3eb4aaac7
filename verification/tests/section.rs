//! Section counters follow block writes.
use steel_light::block_state::{BlockStateId, BlockStateInfo, BlockStateTable};
use steel_light::position::{BlockPos, ChunkPos};
use steel_light::section::{ChunkSection, Sections};

const PLAINS: u16 = 0;
const AIR: BlockStateId = BlockStateId(0);
const STONE: BlockStateId = BlockStateId(1);
const BOTTOM_SLAB: BlockStateId = BlockStateId(2);
const TOP_SLAB: BlockStateId = BlockStateId(3);
const LIGHT: BlockStateId = BlockStateId(4);
const DIM_LIGHT: BlockStateId = BlockStateId(5);
const WATER: BlockStateId = BlockStateId(6);
const ACACIA_LEAVES: BlockStateId = BlockStateId(7);

/// Which halves of a face a shape covers: the lower one is bit 0, the upper
/// one bit 1. Shapes: empty, full block, bottom slab, top slab. Directions:
/// down, up, north, south, west, east.
const FACES: [[u8; 6]; 4] = [
    [0, 0, 0, 0, 0, 0],
    [3, 3, 3, 3, 3, 3],
    [3, 0, 1, 1, 1, 1],
    [0, 3, 2, 2, 2, 2],
];

fn table() -> BlockStateTable {
    let stone = BlockStateInfo {
        is_air: false,
        has_fluid: false,
        randomly_ticking: false,
        light_dampening: 15,
        light_emission: 0,
        can_occlude: true,
        use_shape_for_light_occlusion: false,
        occlusion_shape: 1,
    };
    let air = BlockStateInfo {
        is_air: true,
        light_dampening: 0,
        can_occlude: false,
        occlusion_shape: 0,
        ..stone
    };
    let slab = BlockStateInfo {
        light_dampening: 0,
        use_shape_for_light_occlusion: true,
        occlusion_shape: 2,
        ..stone
    };
    let light = BlockStateInfo { is_air: false, light_emission: 15, ..air };
    let mut states = vec![stone; 65536];
    states[AIR.0 as usize] = air;
    states[BOTTOM_SLAB.0 as usize] = slab;
    states[TOP_SLAB.0 as usize] = BlockStateInfo { occlusion_shape: 3, ..slab };
    states[LIGHT.0 as usize] = light;
    states[DIM_LIGHT.0 as usize] = BlockStateInfo { light_emission: 7, ..light };
    states[WATER.0 as usize] = BlockStateInfo {
        is_air: false,
        has_fluid: true,
        light_dampening: 1,
        ..air
    };
    states[ACACIA_LEAVES.0 as usize] =
        BlockStateInfo { is_air: false, light_dampening: 1, randomly_ticking: true, ..air };
    let opposite = [1, 0, 3, 2, 5, 4];
    let mut occludes = Vec::new();
    for from in 0..4 {
        for to in 0..4 {
            for direction in 0..6 {
                occludes.push(FACES[from][direction] | FACES[to][opposite[direction]] == 3);
            }
        }
    }
    let Some(table) = BlockStateTable::new(states, 4, occludes.clone(), occludes, AIR) else {
        panic!("the parts of the table fit together");
    };
    table
}

#[test]
fn relative_block_writes_update_section_counts() {
    let table = table();
    let mut sections = Sections::from_owned(vec![ChunkSection::new_empty(PLAINS)].into_boxed_slice());
    let stone = STONE;
    let air = AIR;

    sections.set_relative_block(&table, 1, 2, 3, stone);
    {
        let section = &sections.sections[0];
        assert_eq!(section.non_empty_block_count(), 1);
        assert!(!section.is_empty());
    }

    sections.set_relative_block(&table, 1, 2, 3, air);
    let section = &sections.sections[0];
    assert_eq!(section.non_empty_block_count(), 0);
    assert!(section.is_empty());
}

#[test]
fn batched_generation_writes_update_section_counts() {
    let table = table();
    let mut sections = Sections::from_owned(
        vec![ChunkSection::new_empty(PLAINS), ChunkSection::new_empty(PLAINS)].into_boxed_slice(),
    );
    let stone = STONE;
    let water = WATER;
    let air = AIR;

    sections.write_block_batch(&table, &[(1, 0, 1, stone), (2, 16, 2, water)]);
    {
        let lower = &sections.sections[0];
        assert_eq!(lower.non_empty_block_count(), 1);
        assert_eq!(lower.fluid_count(), 0);
        assert!(!lower.is_empty());
    }
    {
        let upper = &sections.sections[1];
        assert_eq!(upper.non_empty_block_count(), 1);
        assert_eq!(upper.fluid_count(), 1);
        assert!(!upper.is_empty());
    }

    sections.write_column_blocks(&table, 1, 1, &[(0, air), (17, stone)]);
    {
        let lower = &sections.sections[0];
        assert_eq!(lower.non_empty_block_count(), 0);
        assert_eq!(lower.fluid_count(), 0);
        assert!(lower.is_empty());
    }
    let upper = &sections.sections[1];
    assert_eq!(upper.non_empty_block_count(), 2);
    assert_eq!(upper.fluid_count(), 1);
    assert!(!upper.is_empty());
}

#[test]
fn sections_read_columns_and_biomes() {
    let table = table();
    let mut sections = Sections::from_owned(
        vec![ChunkSection::new_empty(7), ChunkSection::new_empty(9)].into_boxed_slice(),
    );
    sections.set_relative_block(&table, 2, 17, 3, STONE);
    let mut column = vec![STONE];
    sections.read_column_into(2, 3, &mut column);
    assert_eq!(column.len(), 32);
    assert_eq!(column[17], STONE);
    assert_eq!(column[16], AIR);
    let biomes = sections.read_all_biomes();
    assert_eq!(biomes.len(), 128);
    assert_eq!(biomes[63], 7);
    assert_eq!(biomes[64], 9);
    assert_eq!(sections.section_emptiness_map(), vec![true, false]);
    assert_eq!(sections.get_relative_block(2, 17, 3), Some(STONE));
    assert_eq!(sections.get_relative_block(2, 32, 3), None);
}

#[test]
fn block_light_sources_come_in_index_order() {
    let table = table();
    let mut sections = Sections::from_owned(
        vec![ChunkSection::new_empty(PLAINS), ChunkSection::new_empty(PLAINS)].into_boxed_slice(),
    );
    sections.write_block_batch(
        &table,
        &[(3, 16, 0, LIGHT), (1, 2, 5, DIM_LIGHT), (0, 2, 6, LIGHT), (0, 0, 0, STONE)],
    );
    assert_eq!(
        sections.block_light_sources(&table, ChunkPos::new(-1, 2), -64),
        vec![
            BlockPos::new(-15, -62, 37),
            BlockPos::new(-16, -62, 38),
            BlockPos::new(-13, -48, 32),
        ]
    );
    assert!(sections.sections[0].maybe_has_block_light_sources(&table));
}

#[test]
fn recounting_matches_counting_on_writes() {
    let table = table();
    let mut section = ChunkSection::new_empty(PLAINS);
    section.set_block_state(&table, 0, 0, 0, STONE);
    section.set_block_state(&table, 1, 0, 0, WATER);
    assert_eq!(section.set_block_state(&table, 0, 0, 0, AIR), STONE);
    let counts = (section.non_empty_block_count(), section.fluid_count());
    section.recalculate_counts(&table);
    assert_eq!((section.non_empty_block_count(), section.fluid_count()), counts);
    assert_eq!(counts, (1, 1));
    assert!(section.has_fluid());
    assert!(!section.is_randomly_ticking());
}
