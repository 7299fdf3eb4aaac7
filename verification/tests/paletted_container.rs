//! Reads and writes of paletted containers.
use steel_light::block_state::{BlockStateId, BlockStateInfo, BlockStateTable};
use steel_light::paletted_container::{pack_bits, BiomePalette, BlockPalette, PaletteEncoding};
use steel_light::section::ChunkSection;
use steel_light::wire::{write_u16, write_u64, write_var_int};

const AIR: BlockStateId = BlockStateId(0);
const STONE: BlockStateId = BlockStateId(1);
const BOTTOM_SLAB: BlockStateId = BlockStateId(2);
const TOP_SLAB: BlockStateId = BlockStateId(3);
const LIGHT: BlockStateId = BlockStateId(4);
const DIM_LIGHT: BlockStateId = BlockStateId(5);
const WATER: BlockStateId = BlockStateId(6);
const ACACIA_LEAVES: BlockStateId = BlockStateId(7);

/// Which halves of a face a shape covers: the lower one is bit 0, the upper
/// one bit 1. Shapes: empty, full block, bottom slab, top slab. Directions:
/// down, up, north, south, west, east.
const FACES: [[u8; 6]; 4] = [
    [0, 0, 0, 0, 0, 0],
    [3, 3, 3, 3, 3, 3],
    [3, 0, 1, 1, 1, 1],
    [0, 3, 2, 2, 2, 2],
];

fn table() -> BlockStateTable {
    let stone = BlockStateInfo {
        is_air: false,
        has_fluid: false,
        randomly_ticking: false,
        light_dampening: 15,
        light_emission: 0,
        can_occlude: true,
        use_shape_for_light_occlusion: false,
        occlusion_shape: 1,
    };
    let air = BlockStateInfo {
        is_air: true,
        light_dampening: 0,
        can_occlude: false,
        occlusion_shape: 0,
        ..stone
    };
    let slab = BlockStateInfo {
        light_dampening: 0,
        use_shape_for_light_occlusion: true,
        occlusion_shape: 2,
        ..stone
    };
    let light = BlockStateInfo { is_air: false, light_emission: 15, ..air };
    let mut states = vec![stone; 65536];
    states[AIR.0 as usize] = air;
    states[BOTTOM_SLAB.0 as usize] = slab;
    states[TOP_SLAB.0 as usize] = BlockStateInfo { occlusion_shape: 3, ..slab };
    states[LIGHT.0 as usize] = light;
    states[DIM_LIGHT.0 as usize] = BlockStateInfo { light_emission: 7, ..light };
    states[WATER.0 as usize] = BlockStateInfo {
        is_air: false,
        has_fluid: true,
        light_dampening: 1,
        ..air
    };
    states[ACACIA_LEAVES.0 as usize] =
        BlockStateInfo { is_air: false, light_dampening: 1, randomly_ticking: true, ..air };
    let opposite = [1, 0, 3, 2, 5, 4];
    let mut occludes = Vec::new();
    for from in 0..4 {
        for to in 0..4 {
            for direction in 0..6 {
                occludes.push(FACES[from][direction] | FACES[to][opposite[direction]] == 3);
            }
        }
    }
    let Some(table) = BlockStateTable::new(states, 4, occludes.clone(), occludes, AIR) else {
        panic!("the parts of the table fit together");
    };
    table
}

#[test]
fn get_at_index_reads_homogeneous_palette_values() {
    let blocks = BlockPalette::Homogeneous(BlockStateId(7));
    let biomes = BiomePalette::Homogeneous(12);

    assert_eq!(
        blocks.get_at_index(15 | (15 << 4) | (15 << 8)),
        BlockStateId(7)
    );
    assert_eq!(biomes.get_at_index(3 | (3 << 2) | (3 << 4)), 12);
}

#[test]
fn get_at_index_uses_y_z_x_linear_order_for_blocks() {
    let mut blocks = BlockPalette::Homogeneous(BlockStateId(0));
    blocks.set(3, 4, 5, BlockStateId(42));
    blocks.set(15, 15, 15, BlockStateId(99));

    assert_eq!(
        blocks.get_at_index(3 | (5 << 4) | (4 << 8)),
        BlockStateId(42)
    );
    assert_eq!(
        blocks.get_at_index(15 | (15 << 4) | (15 << 8)),
        BlockStateId(99)
    );
    assert_eq!(blocks.get_at_index(0), BlockStateId(0));
}

#[test]
fn get_at_index_uses_y_z_x_linear_order_for_biomes() {
    let mut biomes = BiomePalette::Homogeneous(0);
    biomes.set(2, 3, 1, 11);

    assert_eq!(biomes.get_at_index(2 | (1 << 2) | (3 << 4)), 11);
    assert_eq!(biomes.get_at_index(0), 0);
}

#[test]
fn maybe_has_checks_palette_values_without_scanning_cells() {
    let homogeneous = BlockPalette::Homogeneous(BlockStateId(7));
    assert!(homogeneous.maybe_has(|state: BlockStateId| state == BlockStateId(7)));
    assert!(!homogeneous.maybe_has(|state: BlockStateId| state == BlockStateId(8)));

    let mut heterogeneous = BlockPalette::Homogeneous(BlockStateId(0));
    heterogeneous.set(3, 4, 5, BlockStateId(42));
    heterogeneous.set(15, 15, 15, BlockStateId(99));

    assert!(heterogeneous.maybe_has(|state: BlockStateId| state == BlockStateId(42)));
    assert!(heterogeneous.maybe_has(|state: BlockStateId| state == BlockStateId(99)));
    assert!(!heterogeneous.maybe_has(|state: BlockStateId| state == BlockStateId(7)));
}

#[test]
fn containers_switch_between_one_and_many_values() {
    let mut blocks = BlockPalette::Homogeneous(BlockStateId(3));
    assert_eq!(blocks.set(1, 2, 3, BlockStateId(4)), BlockStateId(3));
    assert!(matches!(blocks, BlockPalette::Heterogeneous(_)));
    assert_eq!(blocks.get(1, 2, 3), BlockStateId(4));
    assert_eq!(blocks.set(1, 2, 3, BlockStateId(3)), BlockStateId(4));
    assert!(matches!(blocks, BlockPalette::Homogeneous(BlockStateId(3))));
    assert!(matches!(BiomePalette::from_cube(vec![5; 64]), BiomePalette::Homogeneous(5)));
    assert_eq!(blocks.collect_values().len(), 4096);
}

#[test]
fn encodings_pick_their_palette() {
    assert_eq!(BiomePalette::Homogeneous(300).encode(), PaletteEncoding::Single { id: 300 });

    let mut biomes = BiomePalette::Homogeneous(0);
    biomes.set(1, 0, 0, 9);
    assert_eq!(
        biomes.encode(),
        PaletteEncoding::Indirect { bits: 1, palette: vec![0, 9], longs: vec![0b10] }
    );

    let mut cube = vec![0; 64];
    for i in 0..10u16 {
        cube[i as usize] = i;
    }
    match BiomePalette::from_cube(cube).encode() {
        PaletteEncoding::Direct { bits, longs } => {
            assert_eq!(bits, 6);
            assert_eq!(longs.len(), 7);
            assert_eq!(longs[0] & 0xfff, 1 << 6);
        }
        other => panic!("ten biomes need no palette: {other:?}"),
    }
}

#[test]
fn containers_write_their_encoding() {
    let mut out = vec![];
    BiomePalette::Homogeneous(300).write(&mut out);
    assert_eq!(out, vec![0, 0xac, 0x02]);

    let mut biomes = BiomePalette::Homogeneous(0);
    biomes.set(1, 0, 0, 9);
    let mut out = vec![0xee];
    biomes.write(&mut out);
    assert_eq!(out, vec![0xee, 1, 2, 0, 9, 0, 0, 0, 0, 0, 0, 0, 0b10]);
}

#[test]
fn sections_write_counts_first() {
    let table = table();
    let mut section = ChunkSection::new_empty(5);
    for x in 0..16 {
        for y in 0..16 {
            for z in 0..16 {
                section.set_block_state(&table, x, y, z, WATER);
            }
        }
    }
    let mut out = vec![];
    section.write(&mut out);
    assert_eq!(out, vec![0x10, 0x00, 0x10, 0x00, 0, 6, 0, 5]);
}

#[test]
fn numbers_write_their_bytes() {
    let mut out = vec![];
    write_var_int(&mut out, 0);
    write_var_int(&mut out, 127);
    write_var_int(&mut out, 128);
    write_var_int(&mut out, u32::MAX);
    write_u16(&mut out, 0x1234);
    write_u64(&mut out, 0x0123_4567_89ab_cdef);
    assert_eq!(
        out,
        vec![
            0x00, 0x7f, 0x80, 0x01, 0xff, 0xff, 0xff, 0xff, 0x0f, 0x12, 0x34, 0x01, 0x23, 0x45,
            0x67, 0x89, 0xab, 0xcd, 0xef,
        ]
    );
}

#[test]
fn only_air_means_every_block() {
    let table = table();
    let mut blocks = BlockPalette::Homogeneous(AIR);
    assert!(blocks.has_only_air(&table));
    blocks.set(0, 0, 0, STONE);
    assert!(!blocks.has_only_air(&table));
    assert_eq!(blocks.non_empty_block_count(), 1);
}

#[test]
fn indices_are_packed_from_the_lowest_bits_up() {
    assert_eq!(pack_bits(&[1, 2, 3], 4), vec![0x321]);
    assert_eq!(pack_bits(&[], 4), Vec::<u64>::new());
    assert_eq!(pack_bits(&[7; 13], 5), vec![0x039c_e739_ce73_9ce7, 7]);
    assert_eq!(pack_bits(&[5, u32::MAX], 64), vec![5, u64::from(u32::MAX)]);
    assert_eq!(pack_bits(&[1, 2], 33), vec![1, 2]);
}

fn palette_of(biomes: &BiomePalette) -> Vec<u32> {
    match biomes.encode() {
        PaletteEncoding::Indirect { palette, .. } => palette,
        other => panic!("a few biomes have a palette: {other:?}"),
    }
}

#[test]
fn palettes_list_values_by_first_appearance() {
    let mut cube = vec![0; 64];
    cube[0] = 7;
    cube[1] = 7;
    cube[2] = 3;
    cube[3] = 9;
    assert_eq!(palette_of(&BiomePalette::from_cube(cube)), vec![7, 3, 9, 0]);
}

#[test]
fn palettes_take_and_drop_values_in_place() {
    let mut biomes = BiomePalette::Homogeneous(0);
    biomes.set(1, 0, 0, 5);
    biomes.set(2, 0, 0, 6);
    biomes.set(3, 0, 0, 7);
    assert_eq!(palette_of(&biomes), vec![0, 5, 6, 7]);

    assert_eq!(biomes.set(1, 0, 0, 6), 5);
    assert_eq!(palette_of(&biomes), vec![0, 7, 6]);
    assert!(!biomes.maybe_has(|biome: u16| biome == 5));

    assert_eq!(biomes.set(1, 0, 0, 8), 6);
    assert_eq!(palette_of(&biomes), vec![0, 7, 6, 8]);
    assert_eq!(biomes.set(2, 0, 0, 9), 6);
    assert_eq!(palette_of(&biomes), vec![0, 7, 9, 8]);

    let mut first = BiomePalette::Homogeneous(0);
    first.set(0, 0, 0, 5);
    assert_eq!(palette_of(&first), vec![5, 0]);
}

#[test]
fn predicates_see_only_values_of_cells() {
    let mut blocks = BlockPalette::Homogeneous(AIR);
    blocks.set(0, 0, 0, STONE);
    blocks.set(1, 0, 0, WATER);
    blocks.set(0, 0, 0, LIGHT);
    assert!(!blocks.maybe_has(|state: BlockStateId| {
        assert!(state == AIR || state == WATER || state == LIGHT);
        false
    }));
}
