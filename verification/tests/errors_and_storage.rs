//! Errors, storage and packing.
use steel_light::LightLayer;
use steel_light::bit_set::BitSet;
use steel_light::block_state::{
    get_light_block_into, get_light_opacity, light_occlusion_shape, BlockStateId, BlockStateInfo,
    BlockStateTable,
};
use steel_light::cache::PackedLightBlockPos;
use steel_light::chunk_light::{ChunkLightData, ChunkLightEmptinessMapLengthError};
use steel_light::data_layer::{DataLayer, DataLayerLengthError};
use steel_light::layer_map::DataLayerStorageMap;
use steel_light::nibble::{LightNibbleArray, LightNibbleExtrudeNullSourceError};
use steel_light::packed_queue::{
    LightAxisDirection, LightDirectionSet, LightQueueFlags, PackedLightQueueEntry,
};
use steel_light::packet::{
    build_chunk_light_update_packet, build_chunk_light_update_packet_for_sections,
};
use steel_light::position::{ChunkPos, Direction, PackedSectionPos, SectionPos};
use steel_light::section_range::{LightSectionRange, LightSectionRangeError, LightSectionType};
use steel_light::section_storage::LayerLightSectionStorage;

const AIR: BlockStateId = BlockStateId(0);
const STONE: BlockStateId = BlockStateId(1);
const BOTTOM_SLAB: BlockStateId = BlockStateId(2);
const TOP_SLAB: BlockStateId = BlockStateId(3);
const LIGHT: BlockStateId = BlockStateId(4);
const DIM_LIGHT: BlockStateId = BlockStateId(5);
const WATER: BlockStateId = BlockStateId(6);
const ACACIA_LEAVES: BlockStateId = BlockStateId(7);

/// Which halves of a face a shape covers: the lower one is bit 0, the upper
/// one bit 1. Shapes: empty, full block, bottom slab, top slab. Directions:
/// down, up, north, south, west, east.
const FACES: [[u8; 6]; 4] = [
    [0, 0, 0, 0, 0, 0],
    [3, 3, 3, 3, 3, 3],
    [3, 0, 1, 1, 1, 1],
    [0, 3, 2, 2, 2, 2],
];

fn table() -> BlockStateTable {
    let stone = BlockStateInfo {
        is_air: false,
        has_fluid: false,
        randomly_ticking: false,
        light_dampening: 15,
        light_emission: 0,
        can_occlude: true,
        use_shape_for_light_occlusion: false,
        occlusion_shape: 1,
    };
    let air = BlockStateInfo {
        is_air: true,
        light_dampening: 0,
        can_occlude: false,
        occlusion_shape: 0,
        ..stone
    };
    let slab = BlockStateInfo {
        light_dampening: 0,
        use_shape_for_light_occlusion: true,
        occlusion_shape: 2,
        ..stone
    };
    let light = BlockStateInfo { is_air: false, light_emission: 15, ..air };
    let mut states = vec![stone; 65536];
    states[AIR.0 as usize] = air;
    states[BOTTOM_SLAB.0 as usize] = slab;
    states[TOP_SLAB.0 as usize] = BlockStateInfo { occlusion_shape: 3, ..slab };
    states[LIGHT.0 as usize] = light;
    states[DIM_LIGHT.0 as usize] = BlockStateInfo { light_emission: 7, ..light };
    states[WATER.0 as usize] = BlockStateInfo {
        is_air: false,
        has_fluid: true,
        light_dampening: 1,
        ..air
    };
    states[ACACIA_LEAVES.0 as usize] =
        BlockStateInfo { is_air: false, light_dampening: 1, randomly_ticking: true, ..air };
    let opposite = [1, 0, 3, 2, 5, 4];
    let mut occludes = Vec::new();
    for from in 0..4 {
        for to in 0..4 {
            for direction in 0..6 {
                occludes.push(FACES[from][direction] | FACES[to][opposite[direction]] == 3);
            }
        }
    }
    let Some(table) = BlockStateTable::new(states, 4, occludes.clone(), occludes, AIR) else {
        panic!("the parts of the table fit together");
    };
    table
}

fn range_of_height(height: i32) -> LightSectionRange {
    let Ok(range) = LightSectionRange::from_world_height(0, height) else {
        panic!("test height should create a valid light range");
    };
    range
}

fn range() -> LightSectionRange {
    range_of_height(16)
}

#[test]
fn section_range_rejects_heights_without_blocks() {
    assert_eq!(
        LightSectionRange::from_world_height(0, 0),
        Err(LightSectionRangeError { min_y: 0, height: 0 })
    );
    assert_eq!(
        LightSectionRange::from_world_height(i32::MAX, 2),
        Err(LightSectionRangeError { min_y: i32::MAX, height: 2 })
    );
}

#[test]
fn emptiness_maps_of_another_length_are_rejected() {
    let mut light = ChunkLightData::for_valid_world_height(0, 32);
    assert_eq!(
        light.block.set_emptiness_map(vec![true]),
        Err(ChunkLightEmptinessMapLengthError { expected: 2, actual: 1 })
    );
    assert_eq!(light.block.emptiness_map(), None);
}

#[test]
fn null_nibbles_do_not_extrude() {
    let mut target = LightNibbleArray::filled(3);
    let source = LightNibbleArray::null();
    assert_eq!(target.extrude_lower(&source), Err(LightNibbleExtrudeNullSourceError));
    assert_eq!(target.get_updating(0, 0, 0), 3);
}

#[test]
fn nibble_bytes_of_another_length_are_rejected() {
    assert_eq!(
        LightNibbleArray::initialized_from_bytes(vec![0; 3].into_boxed_slice()).err(),
        Some(DataLayerLengthError { actual: 3 })
    );
    assert_eq!(
        LightNibbleArray::hidden_from_bytes(vec![0; 2049].into_boxed_slice()).err(),
        Some(DataLayerLengthError { actual: 2049 })
    );
}

#[test]
fn published_nibbles_keep_unwritten_levels() {
    let mut nibble = LightNibbleArray::filled(6);
    nibble.set(4, 5, 6, 11);
    assert!(nibble.update_visible());
    assert!(!nibble.update_visible());
    assert_eq!(nibble.get_visible(4, 5, 6), 11);
    assert_eq!(nibble.get_visible(5, 5, 6), 6);
}

#[test]
fn packed_section_positions_round_trip() {
    for pos in [
        SectionPos::new(0, 0, 0),
        SectionPos::new(-1, -1, -1),
        SectionPos::new(2097151, 524287, -2097152),
        SectionPos::new(-2097152, -524288, 2097151),
    ] {
        assert_eq!(PackedSectionPos::from_section_pos(pos).to_section_pos(), pos);
    }
}

#[test]
fn section_status_updates_are_undone() {
    let mut storage = LayerLightSectionStorage::new(LightLayer::Block);
    let kept = SectionPos::new(0, 0, 0);
    let removed = SectionPos::new(1, 0, 0);
    assert_eq!(storage.update_section_status(kept, false), Ok(()));
    assert_eq!(storage.update_section_status(removed, false), Ok(()));
    assert_eq!(storage.updating_section_count(), 36);
    assert_eq!(storage.update_section_status(removed, true), Ok(()));
    storage.mark_new_inconsistencies();
    assert_eq!(storage.updating_section_count(), 27);
    assert_eq!(storage.get_debug_section_type(removed), LightSectionType::LightOnly);
    assert_eq!(storage.get_debug_section_type(kept), LightSectionType::LightAndData);
    assert_eq!(storage.get_debug_section_type(SectionPos::new(2, 0, 0)), LightSectionType::Empty);
}

#[test]
fn swapping_shows_every_updated_section() {
    let mut storage = LayerLightSectionStorage::new(LightLayer::Block);
    let section = SectionPos::new(0, 0, 0);
    assert_eq!(storage.update_section_status(section, false), Ok(()));
    let affected = storage.swap_section_map();
    assert!(affected.contains(&section));
    assert!(storage.get_data_layer_data(section).is_some());
    assert!(storage.swap_section_map().is_empty());
    assert_eq!(storage.layer(), LightLayer::Block);
}

#[test]
fn storage_map_replaces_and_removes_layers() {
    let section = SectionPos::new(-5, 3, 9);
    let mut map = DataLayerStorageMap::new();
    assert!(map.is_empty());
    assert_eq!(map.set_layer(section, DataLayer::filled(2)), None);
    assert_eq!(map.set_layer(section, DataLayer::filled(9)), Some(DataLayer::filled(2)));
    assert_eq!(map.len(), 1);
    assert!(map.has_layer(section));
    assert!(!map.has_layer(SectionPos::new(-5, 4, 9)));
    assert_eq!(map.remove_layer(section), Some(DataLayer::filled(9)));
    assert_eq!(map.remove_layer(section), None);
    assert!(map.is_empty());
}

#[test]
fn light_on_follows_enabled_columns() {
    let mut storage = LayerLightSectionStorage::new(LightLayer::Sky);
    let zero = SectionPos::new(4, 0, 4);
    storage.set_light_enabled(zero, true);
    assert!(storage.light_on_in_column(zero));
    assert!(storage.light_on_in_section(SectionPos::new(4, 9, 4)));
    storage.set_light_enabled(zero, false);
    assert!(!storage.light_on_in_column(zero));
}

#[test]
fn table_parts_must_fit() {
    let info = table().get(STONE);
    assert!(BlockStateTable::new(vec![info; 10], 4, vec![], vec![], AIR).is_none());
    assert!(BlockStateTable::new(vec![info; 65536], 1, vec![false; 6], vec![false; 6], AIR).is_none());
    assert_eq!(table().air(), AIR);
    assert_eq!(light_occlusion_shape(&table(), BOTTOM_SLAB), 2);
    assert_eq!(light_occlusion_shape(&table(), STONE), 0);
}

#[test]
fn merged_slabs_block_light_between_them() {
    let table = table();
    assert_eq!(get_light_block_into(&table, BOTTOM_SLAB, TOP_SLAB, Direction::East, 1), 16);
    assert_eq!(get_light_block_into(&table, BOTTOM_SLAB, BOTTOM_SLAB, Direction::East, 1), 1);
    assert_eq!(get_light_opacity(&table, WATER), 1);
}

#[test]
fn light_masks_are_disjoint() {
    let mut light = ChunkLightData::for_valid_world_height(0, 16);
    for (section_y, level) in [(0, 7), (1, 0)] {
        let Some(nibble) = light.block.nibble_mut(section_y) else {
            panic!("test nibble should be inside light range");
        };
        nibble.set_non_null();
        if level > 0 {
            nibble.set(0, 0, 0, level);
        }
        assert!(nibble.update_visible());
    }
    let packet = build_chunk_light_update_packet(&light);
    assert_eq!(packet.block_y_mask.0[0] & packet.empty_block_y_mask.0[0], 0);
    assert_eq!(packet.block_y_mask.0[0], 0b010);
}

#[test]
fn packets_for_sections_omit_the_others() {
    let mut light = ChunkLightData::for_valid_world_height(0, 32);
    for section_y in [0, 1] {
        let Some(nibble) = light.block.nibble_mut(section_y) else {
            panic!("test nibble should be inside light range");
        };
        nibble.set(0, 0, 0, 7);
        assert!(nibble.update_visible());
    }
    let chunk_pos = ChunkPos::new(1, 1);
    let packet = build_chunk_light_update_packet_for_sections(
        chunk_pos,
        &light,
        &[],
        &[SectionPos::new(1, 1, 1)],
    );
    assert_eq!(packet.block_y_mask.0[0], 0b0100);
    assert_eq!(packet.block_updates.len(), 1);
    assert!(packet.sky_updates.is_empty());
}

#[test]
fn bit_sets_hold_their_bits() {
    let mut bits = BitSet::cleared(2);
    assert!(!bits.get(69));
    bits.set(69, true);
    assert!(bits.get(69));
    assert!(!bits.get(5));
    assert_eq!(bits.0, vec![0, 1 << 5]);
}

#[test]
fn packed_queue_entries_round_trip() {
    let pos = PackedLightBlockPos::from_raw(0x0abc_def1);
    let directions = LightDirectionSet::all_except(LightAxisDirection::PositiveY);
    let entry = PackedLightQueueEntry::from_parts(
        pos,
        11,
        directions,
        LightQueueFlags::empty().with_recheck_level(),
    );
    assert_eq!(entry.block_pos(), pos);
    assert_eq!(entry.level(), 11);
    assert!(!entry.directions().contains(LightAxisDirection::PositiveY));
    assert!(entry.directions().contains(LightAxisDirection::NegativeX));
    assert!(entry.should_recheck_level());
    assert!(!entry.should_write_level());
    assert!(!entry.has_sided_transparent_blocks());
}

#[test]
fn saved_nibbles_load_again() {
    let mut nibble = LightNibbleArray::null();
    nibble.set(3, 4, 5, 9);
    assert!(nibble.update_visible());
    let Some(saved) = nibble.to_save_state() else {
        panic!("initialized nibble should produce save state");
    };
    let Some(data) = saved.data else {
        panic!("initialized nibble should save packed bytes");
    };
    let Ok(loaded) = LightNibbleArray::initialized_from_bytes(data.to_vec().into_boxed_slice()) else {
        panic!("saved bytes should load again");
    };
    assert_eq!(loaded.get_visible(3, 4, 5), 9);
    assert_eq!(loaded.get_visible(3, 4, 6), 0);
    assert_eq!(loaded.visible_state(), saved.state);
}
