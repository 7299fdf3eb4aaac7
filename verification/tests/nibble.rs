//! Nibble access by index, and light reads of a chunk.
use steel_light::chunk_light::ChunkLightData;
use steel_light::nibble::LightNibbleArray;
use steel_light::position::BlockPos;
use steel_light::{LightLayer, MAX_LIGHT_LEVEL};

#[test]
fn light_nibble_index_access_matches_scalable_lux_local_index() {
    let mut nibble = LightNibbleArray::uninitialized();
    let index = 1 | (3 << 4) | (2 << 8);

    nibble.set_at_index(index, 12);

    assert_eq!(nibble.get_updating_at_index(index), 12);
    assert_eq!(nibble.get_updating(1, 2, 3), 12);
    assert_eq!(nibble.get_updating(2, 2, 3), 0);
    assert_eq!(nibble.get_visible_at_index(index), 0);

    assert!(nibble.update_visible());
    assert_eq!(nibble.get_visible_at_index(index), 12);
    assert_eq!(nibble.get_visible(1, 2, 3), 12);
}

#[test]
fn light_nibble_index_access_masks_values_like_coordinate_access() {
    let mut nibble = LightNibbleArray::null();

    nibble.set_at_index(0, 31);

    assert_eq!(nibble.get_updating_at_index(0), MAX_LIGHT_LEVEL);
    assert_eq!(nibble.get_updating(0, 0, 0), MAX_LIGHT_LEVEL);
}

#[test]
fn chunk_light_data_reads_visible_block_light() {
    let mut light = ChunkLightData::for_valid_world_height(0, 16);
    let block_pos = BlockPos::new(1, 2, 3);

    assert_eq!(light.get_light_value(LightLayer::Block, block_pos), 0);

    let Some(nibble) = light.block.nibble_mut(0) else {
        panic!("test section should be inside light range");
    };
    nibble.set_non_null();
    nibble.set(1, 2, 3, 12);
    assert!(nibble.update_visible());

    assert_eq!(light.get_light_value(LightLayer::Block, block_pos), 12);
}

#[test]
fn chunk_light_data_reads_visible_sky_light_with_upward_extrusion() {
    let mut light = ChunkLightData::for_valid_world_height(0, 16);
    let block_pos = BlockPos::new(1, 15, 3);

    assert_eq!(
        light.get_light_value(LightLayer::Sky, block_pos),
        MAX_LIGHT_LEVEL
    );

    let Some(upper_nibble) = light.sky.nibble_mut(1) else {
        panic!("upper test section should be inside light range");
    };
    upper_nibble.set_non_null();
    upper_nibble.set(1, 0, 3, 9);
    assert!(upper_nibble.update_visible());

    assert_eq!(light.get_light_value(LightLayer::Sky, block_pos), 9);

    let Some(current_nibble) = light.sky.nibble_mut(0) else {
        panic!("current test section should be inside light range");
    };
    current_nibble.set_non_null();
    current_nibble.set(1, 15, 3, 7);
    assert!(current_nibble.update_visible());

    assert_eq!(light.get_light_value(LightLayer::Sky, block_pos), 7);
}
