//! Light storage, nibbles, queues, packets and sky sources.
use steel_light::block_state::{
    get_light_block_into, get_light_opacity, has_different_light_properties, light_face_occludes,
    BlockStateId, BlockStateInfo, BlockStateTable,
};
use steel_light::chunk_light::ChunkLightData;
use steel_light::data_layer::{DataLayer, DataLayerLengthError};
use steel_light::layer_map::DataLayerStorageMap;
use steel_light::nibble::{LightNibbleArray, LightNibbleSaveState, LightNibbleState};
use steel_light::packet::{build_chunk_light_update_packet, build_light_update_packet};
use steel_light::position::{BlockPos, ChunkPos, Direction, SectionPos};
use steel_light::queue::{
    add_sky_source_entry, remove_sky_source_entry, remove_top_sky_source_entry,
    LightPropagationQueue, LightPropagationQueues, LightQueueEntry, QueuedLightUpdate,
};
use steel_light::section::{ChunkSection, Sections};
use steel_light::section_range::{
    LightSectionRange, LightSectionState, LightSectionStateError, LightSectionType,
    MissingLightDataLayerError,
};
use steel_light::section_storage::LayerLightSectionStorage;
use steel_light::sky_sources::{ChunkSkyLightSources, SkyLightSourceNeighborhood};
use steel_light::{CHUNK_EDGE, DATA_LAYER_EDGE, DATA_LAYER_SIZE, LightLayer, MAX_LIGHT_LEVEL};

const PLAINS: u16 = 0;
const AIR: BlockStateId = BlockStateId(0);
const STONE: BlockStateId = BlockStateId(1);
const BOTTOM_SLAB: BlockStateId = BlockStateId(2);
const TOP_SLAB: BlockStateId = BlockStateId(3);
const LIGHT: BlockStateId = BlockStateId(4);
const DIM_LIGHT: BlockStateId = BlockStateId(5);
const WATER: BlockStateId = BlockStateId(6);

/// Which halves of a face a shape covers: the lower one is bit 0, the upper
/// one bit 1. Shapes: empty, full block, bottom slab, top slab. Directions:
/// down, up, north, south, west, east.
const FACES: [[u8; 6]; 4] = [
    [0, 0, 0, 0, 0, 0],
    [3, 3, 3, 3, 3, 3],
    [3, 0, 1, 1, 1, 1],
    [0, 3, 2, 2, 2, 2],
];

fn table() -> BlockStateTable {
    let stone = BlockStateInfo {
        is_air: false,
        has_fluid: false,
        randomly_ticking: false,
        light_dampening: 15,
        light_emission: 0,
        can_occlude: true,
        use_shape_for_light_occlusion: false,
        occlusion_shape: 1,
    };
    let air = BlockStateInfo {
        is_air: true,
        light_dampening: 0,
        can_occlude: false,
        occlusion_shape: 0,
        ..stone
    };
    let slab = BlockStateInfo {
        light_dampening: 0,
        use_shape_for_light_occlusion: true,
        occlusion_shape: 2,
        ..stone
    };
    let light = BlockStateInfo { is_air: false, light_emission: 15, ..air };
    let mut states = vec![stone; 65536];
    states[AIR.0 as usize] = air;
    states[BOTTOM_SLAB.0 as usize] = slab;
    states[TOP_SLAB.0 as usize] = BlockStateInfo { occlusion_shape: 3, ..slab };
    states[LIGHT.0 as usize] = light;
    states[DIM_LIGHT.0 as usize] = BlockStateInfo { light_emission: 7, ..light };
    states[WATER.0 as usize] = BlockStateInfo {
        is_air: false,
        has_fluid: true,
        light_dampening: 1,
        ..air
    };
    let opposite = [1, 0, 3, 2, 5, 4];
    let mut occludes = Vec::new();
    for from in 0..4 {
        for to in 0..4 {
            for direction in 0..6 {
                occludes.push(FACES[from][direction] | FACES[to][opposite[direction]] == 3);
            }
        }
    }
    let Some(table) = BlockStateTable::new(states, 4, occludes.clone(), occludes, AIR) else {
        panic!("the parts of the table fit together");
    };
    table
}

fn empty_sections(section_count: usize) -> Sections {
    let sections: Vec<ChunkSection> =
        (0..section_count).map(|_| ChunkSection::new_empty(PLAINS)).collect();
    Sections::from_owned(sections.into_boxed_slice())
}

fn single_section_with_block(
    table: &BlockStateTable,
    local_y: usize,
    state: BlockStateId,
) -> Sections {
    let mut section = ChunkSection::new_empty(PLAINS);
    section.set_block_state(table, 0, local_y, 0, state);
    Sections::from_owned(vec![section].into_boxed_slice())
}

fn new_test_sky_sources() -> ChunkSkyLightSources {
    let Ok(sources) = ChunkSkyLightSources::new(0, 16) else {
        panic!("valid single-section height rejected");
    };
    sources
}

fn sky_sources_with_highest_lowest_source_y(source_y: i32) -> ChunkSkyLightSources {
    let mut sources = new_test_sky_sources();
    sources.heightmap.fill(source_y);
    sources
}

fn sky_sources_with_column(
    default_source_y: i32,
    x: usize,
    z: usize,
    source_y: i32,
) -> ChunkSkyLightSources {
    let mut sources = sky_sources_with_highest_lowest_source_y(default_source_y);
    sources.heightmap[x + z * CHUNK_EDGE] = source_y;
    sources
}

#[test]
fn mod_light_opacity_uses_vanilla_minimum_opacity() {
    let table = table();
    let air = AIR;
    let stone = STONE;

    assert_eq!(get_light_opacity(&table, air), 1);
    assert_eq!(get_light_opacity(&table, stone), 15);
}

#[test]
fn mod_light_block_into_uses_simple_opacity_for_empty_light_shapes() {
    let table = table();
    let air = AIR;
    let stone = STONE;

    assert_eq!(get_light_block_into(&table, air, stone, Direction::Down, 1), 1);
    assert_eq!(get_light_block_into(&table, stone, air, Direction::Up, 7), 7);
}

#[test]
fn mod_light_block_into_uses_merged_shape_occlusion() {
    let table = table();
    let air = AIR;
    let bottom_slab = BOTTOM_SLAB;

    assert_eq!(get_light_block_into(&table, bottom_slab, air, Direction::Down, 1), 16);
    assert_eq!(get_light_block_into(&table, bottom_slab, air, Direction::Up, 1), 1);
}

#[test]
fn mod_light_face_occludes_uses_face_occlusion_shapes() {
    let table = table();
    let air = AIR;
    let bottom_slab = BOTTOM_SLAB;
    let top_slab = TOP_SLAB;

    assert!(light_face_occludes(&table, bottom_slab, air, Direction::Down));
    assert!(!light_face_occludes(&table, bottom_slab, air, Direction::Up));
    assert!(light_face_occludes(&table, top_slab, air, Direction::Up));
    assert!(!light_face_occludes(&table, top_slab, air, Direction::Down));
}

#[test]
fn mod_light_queue_entry_decrease_entries_match_vanilla_bits() {
    let all = LightQueueEntry::decrease_all_directions(7);

    assert_eq!(all.raw(), 1008 | 7);
    assert_eq!(all.from_level(), 7);
    for direction in [Direction::Down, Direction::Up, Direction::North, Direction::South, Direction::West, Direction::East] {
        assert!(all.should_propagate_in_direction(direction));
    }
    assert!(!all.is_from_empty_shape());
    assert!(!all.is_increase_from_emission());

    let skip_north = LightQueueEntry::decrease_skip_one_direction(7, Direction::North);
    assert_eq!(skip_north.raw(), 951);
    assert!(!skip_north.should_propagate_in_direction(Direction::North));
    assert!(skip_north.should_propagate_in_direction(Direction::South));
}

#[test]
fn mod_light_queue_entry_increase_entries_match_vanilla_bits() {
    let emission = LightQueueEntry::increase_light_from_emission(15, true);
    assert_eq!(emission.raw(), 4095);
    assert_eq!(emission.from_level(), 15);
    assert!(emission.is_from_empty_shape());
    assert!(emission.is_increase_from_emission());

    let skip_up = LightQueueEntry::increase_skip_one_direction(10, false, Direction::Up);
    assert_eq!(skip_up.raw(), 986);
    assert!(!skip_up.is_from_empty_shape());
    assert!(!skip_up.is_increase_from_emission());
    assert!(!skip_up.should_propagate_in_direction(Direction::Up));
    assert!(skip_up.should_propagate_in_direction(Direction::Down));

    let east_only = LightQueueEntry::increase_only_one_direction(4, true, Direction::East);
    assert_eq!(east_only.raw(), 1540);
    assert!(east_only.is_from_empty_shape());
    assert!(east_only.should_propagate_in_direction(Direction::East));
    assert!(!east_only.should_propagate_in_direction(Direction::West));
}

#[test]
fn mod_light_queue_entry_sky_source_entry_selects_horizontal_and_down_directions() {
    let entry =
        LightQueueEntry::increase_sky_source_in_directions(true, true, false, true, false);

    assert_eq!(entry.raw(), 351);
    assert_eq!(entry.from_level(), 15);
    assert!(entry.should_propagate_in_direction(Direction::Down));
    assert!(!entry.should_propagate_in_direction(Direction::Up));
    assert!(entry.should_propagate_in_direction(Direction::North));
    assert!(!entry.should_propagate_in_direction(Direction::South));
    assert!(entry.should_propagate_in_direction(Direction::West));
    assert!(!entry.should_propagate_in_direction(Direction::East));
}

#[test]
fn mod_light_queue_entry_masks_levels_like_vanilla() {
    let entry = LightQueueEntry::increase_light_from_emission(31, false);

    assert_eq!(entry.from_level(), 15);
    assert_eq!(entry.raw(), 1008 | 2048 | 15);
}

#[test]
fn mod_light_propagation_queue_preserves_fifo_order() {
    let first_pos = BlockPos::new(1, 2, 3);
    let second_pos = BlockPos::new(4, 5, 6);
    let first_entry = LightQueueEntry::decrease_all_directions(3);
    let second_entry = LightQueueEntry::increase_skip_one_direction(12, false, Direction::North);
    let mut queue = LightPropagationQueue::new();

    queue.enqueue(first_pos, first_entry);
    queue.enqueue(second_pos, second_entry);

    assert_eq!(queue.len(), 2);
    assert_eq!(
        queue.dequeue(),
        Some(QueuedLightUpdate {
            block_pos: first_pos,
            entry: first_entry,
        })
    );
    assert_eq!(
        queue.dequeue(),
        Some(QueuedLightUpdate {
            block_pos: second_pos,
            entry: second_entry,
        })
    );
    assert_eq!(queue.dequeue(), None);
    assert!(queue.is_empty());
}

#[test]
fn mod_light_propagation_queue_processes_entries_enqueued_while_draining() {
    let first_pos = BlockPos::new(1, 2, 3);
    let second_pos = BlockPos::new(4, 5, 6);
    let first_entry = LightQueueEntry::decrease_all_directions(3);
    let second_entry = LightQueueEntry::decrease_skip_one_direction(2, Direction::South);
    let mut queue = LightPropagationQueue::new();

    queue.enqueue(first_pos, first_entry);

    assert_eq!(
        queue.dequeue(),
        Some(QueuedLightUpdate {
            block_pos: first_pos,
            entry: first_entry,
        })
    );

    queue.enqueue(second_pos, second_entry);

    assert_eq!(
        queue.dequeue(),
        Some(QueuedLightUpdate {
            block_pos: second_pos,
            entry: second_entry,
        })
    );
    assert_eq!(queue.dequeue(), None);
}

#[test]
fn mod_light_propagation_queues_keep_increase_and_decrease_work_separate() {
    let decrease_pos = BlockPos::new(1, 2, 3);
    let increase_pos = BlockPos::new(4, 5, 6);
    let decrease_entry = LightQueueEntry::decrease_all_directions(4);
    let increase_entry = LightQueueEntry::increase_only_one_direction(9, true, Direction::East);
    let mut queues = LightPropagationQueues::new();

    assert!(!queues.has_work());

    queues.enqueue_decrease(decrease_pos, decrease_entry);
    queues.enqueue_increase(increase_pos, increase_entry);

    assert!(queues.has_work());
    assert_eq!(
        queues.dequeue_increase(),
        Some(QueuedLightUpdate {
            block_pos: increase_pos,
            entry: increase_entry,
        })
    );
    assert!(queues.has_work());
    assert_eq!(
        queues.dequeue_decrease(),
        Some(QueuedLightUpdate {
            block_pos: decrease_pos,
            entry: decrease_entry,
        })
    );
    assert!(!queues.has_work());
}

#[test]
fn light_nibble_array_publishes_visible_state_after_update() {
    let mut nibble = LightNibbleArray::null();

    nibble.set(1, 2, 3, 12);

    assert_eq!(nibble.updating_state(), LightNibbleState::Initialized);
    assert_eq!(nibble.visible_state(), LightNibbleState::Null);
    assert_eq!(nibble.get_updating(1, 2, 3), 12);
    assert_eq!(nibble.get_visible(1, 2, 3), 0);
    assert!(nibble.update_visible());
    assert_eq!(nibble.visible_state(), LightNibbleState::Initialized);
    assert_eq!(nibble.get_visible(1, 2, 3), 12);
    assert!(!nibble.update_visible());
}

#[test]
fn light_nibble_array_converts_external_states_to_data_layer() {
    let mut hidden = LightNibbleArray::filled(7);
    hidden.set_hidden();
    assert!(hidden.update_visible());

    let null = LightNibbleArray::null();
    let uninitialized = LightNibbleArray::uninitialized();
    let initialized = LightNibbleArray::filled(5);

    assert!(null.to_data_layer().is_none());
    assert!(hidden.to_data_layer().is_none());

    let Some(empty_layer) = uninitialized.to_data_layer() else {
        panic!("uninitialized nibble should convert to an empty data layer");
    };
    assert!(empty_layer.is_empty());

    let Some(filled_layer) = initialized.to_data_layer() else {
        panic!("initialized nibble should convert to a data layer");
    };
    assert_eq!(filled_layer.get(3, 9, 11), 5);
}

#[test]
fn light_nibble_save_state_matches_scalable_lux_canonicalization() {
    let null = LightNibbleArray::null();
    let uninitialized = LightNibbleArray::uninitialized();
    let zero_initialized = LightNibbleArray::filled(0);

    assert_eq!(null.to_save_state(), None);
    assert_eq!(
        uninitialized.to_save_state(),
        Some(LightNibbleSaveState {
            state: LightNibbleState::Uninitialized,
            data: None,
        })
    );
    assert_eq!(
        zero_initialized.to_save_state(),
        Some(LightNibbleSaveState {
            state: LightNibbleState::Uninitialized,
            data: None,
        })
    );

    let mut zero_hidden = LightNibbleArray::filled(0);
    zero_hidden.set_hidden();
    assert!(zero_hidden.update_visible());
    assert_eq!(zero_hidden.to_save_state(), None);

    let mut hidden = LightNibbleArray::filled(3);
    hidden.set_hidden();
    assert!(hidden.update_visible());

    let Some(save_state) = hidden.to_save_state() else {
        panic!("non-zero hidden nibble should produce save state");
    };
    assert_eq!(save_state.state, LightNibbleState::Hidden);
    let Some(data) = save_state.data else {
        panic!("non-zero hidden nibble should save packed bytes");
    };
    assert!(data.iter().all(|byte| *byte == 0x33));
}

#[test]
fn light_nibble_array_extrudes_lower_row_from_updating_source() {
    let mut source = LightNibbleArray::null();
    for z in 0..DATA_LAYER_EDGE {
        for x in 0..DATA_LAYER_EDGE {
            source.set(x, 0, z, ((x + z) & 15) as u8);
        }
    }

    let mut target = LightNibbleArray::null();
    if target.extrude_lower(&source).is_err() {
        panic!("initialized source should extrude");
    }

    for y in 0..DATA_LAYER_EDGE {
        assert_eq!(target.get_updating(3, y, 5), 8);
        assert_eq!(target.get_updating(11, y, 14), 9);
    }
}

#[test]
fn chunk_light_data_uses_vanilla_padded_light_section_count() {
    let Ok(light) = ChunkLightData::new(-64, 384) else {
        panic!("valid overworld height rejected");
    };

    assert_eq!(light.block.range().min_section_y(), -5);
    assert_eq!(light.block.nibbles().len(), 26);
    assert_eq!(light.sky.nibbles().len(), 26);
    assert_eq!(
        light.sky.nibble(-5).map(LightNibbleArray::visible_state),
        Some(LightNibbleState::Null)
    );
    assert!(light.sky.nibble(21).is_none());
}

#[test]
fn chunk_light_emptiness_maps_follow_section_counters() {
    let table = table();
    let mut non_empty_section = ChunkSection::new_empty(PLAINS);
    non_empty_section.set_block_state(&table, 0, 0, 0, STONE);
    let sections = Sections::from_owned(
        vec![ChunkSection::new_empty(PLAINS), non_empty_section].into_boxed_slice(),
    );

    let Ok(mut light) = ChunkLightData::new(0, 32) else {
        panic!("valid two-section height rejected");
    };
    assert_eq!(light.block.chunk_section_count(), 2);
    assert!(light.block.emptiness_map().is_none());

    if let Err(error) = light.refresh_emptiness_maps_from_sections(&sections) {
        panic!("valid section count rejected: {error:?}");
    }

    assert_eq!(light.block.emptiness_map(), Some(&vec![true, false]));
    assert_eq!(light.sky.emptiness_map(), Some(&vec![true, false]));
    assert_eq!(light.block.section_empty(0), Some(true));
    assert_eq!(light.block.section_empty(1), Some(false));
    assert_eq!(light.block.section_empty(-1), None);
    assert_eq!(light.block.section_empty(2), None);

    assert!(light.set_section_empty(0, false));
    assert!(!light.set_section_empty(0, false));
    assert_eq!(light.block.emptiness_map(), Some(&vec![false, false]));
    assert_eq!(light.sky.emptiness_map(), Some(&vec![false, false]));
}

#[test]
fn chunk_light_update_packet_converts_chunk_owned_nibbles() {
    let Ok(mut light) = ChunkLightData::new(0, 16) else {
        panic!("valid single-section height rejected");
    };

    let Some(sky_nibble) = light.sky.nibble_mut(0) else {
        panic!("single-section light range should contain section 0");
    };
    sky_nibble.set_non_null();
    assert!(sky_nibble.update_visible());

    let Some(block_nibble) = light.block.nibble_mut(0) else {
        panic!("single-section light range should contain section 0");
    };
    block_nibble.set(0, 0, 0, 7);
    assert!(block_nibble.update_visible());

    let Some(hidden_nibble) = light.sky.nibble_mut(1) else {
        panic!("single-section light range should contain padded section 1");
    };
    hidden_nibble.set(0, 0, 0, 12);
    hidden_nibble.set_hidden();
    assert!(hidden_nibble.update_visible());

    let packet = build_chunk_light_update_packet(&light);

    assert_eq!(packet.sky_y_mask.0[0], 0);
    assert_eq!(packet.empty_sky_y_mask.0[0], 0b010);
    assert_eq!(packet.block_y_mask.0[0], 0b010);
    assert_eq!(packet.empty_block_y_mask.0[0], 0);
    assert!(packet.sky_updates.is_empty());
    assert_eq!(
        packet.block_updates,
        vec![{
            let mut bytes = vec![0; DATA_LAYER_SIZE];
            bytes[0] = 0x07;
            bytes
        }]
    );
}

#[test]
fn mod_new_layer_is_homogeneous_zero() {
    let layer = DataLayer::new();

    assert!(layer.is_empty());
    assert!(layer.is_homogeneous());
    assert_eq!(layer.get(0, 0, 0), 0);
    assert_eq!(layer.get(15, 15, 15), 0);
}

#[test]
fn mod_filled_layer_reads_same_value_everywhere() {
    let layer = DataLayer::filled(15);

    assert!(layer.is_filled_with(15));
    assert_eq!(layer.get(0, 0, 0), 15);
    assert_eq!(layer.get(3, 12, 7), 15);
    assert_eq!(layer.get(15, 15, 15), 15);
}

#[test]
fn mod_set_uses_vanilla_section_index_order() {
    let mut layer = DataLayer::new();

    layer.set(0, 0, 0, 1);
    layer.set(1, 0, 0, 2);
    layer.set(0, 0, 1, 3);
    layer.set(0, 1, 0, 4);

    assert_eq!(layer.to_bytes()[0], 0x21);
    assert_eq!(layer.to_bytes()[8], 0x03);
    assert_eq!(layer.to_bytes()[128], 0x04);
}

#[test]
fn mod_set_masks_to_nibble() {
    let mut layer = DataLayer::new();

    layer.set(0, 0, 0, 0x2f);

    assert_eq!(layer.get(0, 0, 0), 15);
    assert_eq!(layer.to_bytes()[0], 0x0f);
}

#[test]
fn mod_fill_returns_to_homogeneous_storage() {
    let mut layer = DataLayer::new();
    layer.set(4, 5, 6, 9);

    assert!(!layer.is_homogeneous());

    layer.fill(7);

    assert!(layer.is_homogeneous());
    assert!(layer.is_filled_with(7));
    assert_eq!(layer.to_bytes()[0], 0x77);
    assert_eq!(layer.to_bytes()[DATA_LAYER_SIZE - 1], 0x77);
}

#[test]
fn mod_copy_is_independent() {
    let mut original = DataLayer::new();
    original.set(2, 3, 4, 8);
    let mut copied = original.copy();

    copied.set(2, 3, 4, 1);

    assert_eq!(original.get(2, 3, 4), 8);
    assert_eq!(copied.get(2, 3, 4), 1);
}

#[test]
fn mod_from_bytes_rejects_wrong_length() {
    let err = DataLayer::from_bytes(vec![0; DATA_LAYER_SIZE - 1].into_boxed_slice());

    assert_eq!(
        err,
        Err(DataLayerLengthError {
            actual: DATA_LAYER_SIZE - 1,
        }),
    );
}

#[test]
fn mod_from_bytes_uses_existing_packed_data() {
    let mut bytes = vec![0; DATA_LAYER_SIZE];
    bytes[0] = 0xba;
    bytes[DATA_LAYER_SIZE - 1] = 0x65;

    let result = DataLayer::from_bytes(bytes.into_boxed_slice());
    let Ok(layer) = result else {
        panic!("valid data layer length was rejected");
    };

    assert_eq!(layer.get(0, 0, 0), 10);
    assert_eq!(layer.get(1, 0, 0), 11);
    assert_eq!(layer.get(14, 15, 15), 5);
    assert_eq!(layer.get(15, 15, 15), 6);
}

#[test]
fn mod_light_section_range_matches_vanilla_padding() {
    let Ok(range) = LightSectionRange::from_world_height(-64, 384) else {
        panic!("valid overworld height rejected");
    };

    assert_eq!(range.min_section_y(), -5);
    assert_eq!(range.max_section_y_exclusive(), 21);
    assert_eq!(range.section_count(), 26);
    assert_eq!(range.section_y(0), Some(-5));
    assert_eq!(range.section_y(25), Some(20));
    assert_eq!(range.section_y(26), None);
    assert_eq!(range.section_index(-5), Some(0));
    assert_eq!(range.section_index(20), Some(25));
    assert_eq!(range.section_index(-6), None);
    assert_eq!(range.section_index(21), None);
}

#[test]
fn mod_data_layer_storage_map_copies_layers_independently() {
    let section = SectionPos::new(4, -1, 7);
    let mut storage = DataLayerStorageMap::new();
    let mut layer = DataLayer::new();
    layer.set(2, 3, 4, 6);
    storage.set_layer(section, layer);

    let copied = storage.copy_map();
    let Some(original_layer) = storage.get_layer_mut(section) else {
        panic!("stored layer missing");
    };
    original_layer.set(2, 3, 4, 1);

    let Some(copied_layer) = copied.get_layer(section) else {
        panic!("copied layer missing");
    };
    assert_eq!(original_layer.get(2, 3, 4), 1);
    assert_eq!(copied_layer.get(2, 3, 4), 6);
}

#[test]
fn mod_light_section_state_matches_vanilla_bit_layout() {
    let data = LightSectionState::empty().with_has_data(true);
    assert_eq!(data.raw(), 32);
    assert!(data.has_data());
    assert_eq!(data.neighbor_count(), 0);
    assert_eq!(data.section_type(), LightSectionType::LightAndData);

    let result = LightSectionState::empty().with_neighbor_count(26);
    let Ok(light_only) = result else {
        panic!("valid neighbor count rejected");
    };
    assert_eq!(light_only.raw(), 26);
    assert!(!light_only.has_data());
    assert_eq!(light_only.neighbor_count(), 26);
    assert_eq!(light_only.section_type(), LightSectionType::LightOnly);
}

#[test]
fn mod_light_section_state_rejects_invalid_neighbor_count() {
    assert_eq!(
        LightSectionState::empty().with_neighbor_count(27),
        Err(LightSectionStateError { neighbor_count: 27 })
    );
    assert_eq!(
        LightSectionState::empty().with_neighbor_count(-1),
        Err(LightSectionStateError { neighbor_count: -1 })
    );
}

#[test]
fn mod_layer_storage_creates_data_and_light_only_neighbors() {
    let center = SectionPos::new(4, 5, 6);
    let mut storage = LayerLightSectionStorage::new(LightLayer::Block);

    assert_eq!(storage.update_section_status(center, false), Ok(()));

    assert_eq!(
        storage.get_debug_section_type(center),
        LightSectionType::LightAndData
    );
    assert!(storage.storing_light_for_section(center));
    assert_eq!(storage.updating_section_count(), 27);

    let neighbor = SectionPos::new(5, 5, 6);
    assert_eq!(
        storage.get_debug_section_type(neighbor),
        LightSectionType::LightOnly
    );
    assert!(storage.storing_light_for_section(neighbor));
}

#[test]
fn mod_layer_storage_removes_data_after_section_becomes_empty() {
    let center = SectionPos::new(4, 5, 6);
    let neighbor = SectionPos::new(5, 5, 6);
    let mut storage = LayerLightSectionStorage::new(LightLayer::Block);
    assert_eq!(storage.update_section_status(center, false), Ok(()));

    assert_eq!(storage.update_section_status(center, true), Ok(()));

    assert_eq!(
        storage.get_debug_section_type(center),
        LightSectionType::Empty
    );
    assert_eq!(
        storage.get_debug_section_type(neighbor),
        LightSectionType::Empty
    );
    assert!(storage.storing_light_for_section(center));
    assert!(storage.has_inconsistencies());

    storage.mark_new_inconsistencies();

    assert!(!storage.storing_light_for_section(center));
    assert!(!storage.storing_light_for_section(neighbor));
    assert_eq!(storage.updating_section_count(), 0);
}

#[test]
fn mod_layer_storage_retains_removed_column_data_when_requested() {
    let center = SectionPos::new(4, 5, 6);
    let mut storage = LayerLightSectionStorage::new(LightLayer::Block);
    assert_eq!(storage.update_section_status(center, false), Ok(()));

    let Some(layer) = storage.get_data_layer_to_write(center) else {
        panic!("center layer missing");
    };
    layer.set(1, 2, 3, 9);
    storage.retain_data(SectionPos::new(4, 0, 6), true);
    assert_eq!(storage.update_section_status(center, true), Ok(()));

    storage.mark_new_inconsistencies();

    let Some(retained) = storage.get_queued_data_layer(center) else {
        panic!("removed section data was not retained");
    };
    assert_eq!(retained.get(1, 2, 3), 9);
}

#[test]
fn mod_layer_storage_swap_updates_visible_map_and_returns_affected_sections() {
    let center = SectionPos::new(4, 5, 6);
    let mut storage = LayerLightSectionStorage::new(LightLayer::Block);
    assert_eq!(storage.update_section_status(center, false), Ok(()));
    assert!(storage.get_data_layer_data(center).is_none());

    let affected = storage.swap_section_map();

    assert!(affected.contains(&center));
    assert!(storage.get_data_layer_data(center).is_some());
    assert!(!storage.has_changed_sections());
    assert!(!storage.has_affected_sections());
}

#[test]
fn mod_layer_storage_reads_and_writes_stored_levels() {
    let center = SectionPos::new(4, 5, 6);
    let block = BlockPos::new((4 << 4) + 2, (5 << 4) + 3, (6 << 4) + 4);
    let mut storage = LayerLightSectionStorage::new(LightLayer::Block);
    assert_eq!(storage.update_section_status(center, false), Ok(()));
    drop(storage.swap_section_map());

    assert_eq!(storage.get_stored_level(block), Some(0));
    assert_eq!(storage.set_stored_level(block, 12), Ok(()));
    assert_eq!(storage.get_stored_level(block), Some(12));

    let Some(visible_before_swap) = storage.get_data_layer_data(center) else {
        panic!("visible layer missing before stored level swap");
    };
    assert_eq!(visible_before_swap.get(2, 3, 4), 0);

    let affected = storage.swap_section_map();
    assert_eq!(affected.len(), 1);
    assert!(affected.contains(&center));

    let Some(visible_after_swap) = storage.get_data_layer_data(center) else {
        panic!("visible layer missing after stored level swap");
    };
    assert_eq!(visible_after_swap.get(2, 3, 4), 12);
}

#[test]
fn mod_layer_storage_rejects_stored_level_write_without_section_data() {
    let mut storage = LayerLightSectionStorage::new(LightLayer::Block);
    let block = BlockPos::new(1, 2, 3);

    assert_eq!(storage.get_stored_level(block), None);
    assert_eq!(
        storage.set_stored_level(block, 4),
        Err(MissingLightDataLayerError {
            section_pos: SectionPos::new(0, 0, 0)
        })
    );
}

#[test]
fn mod_layer_storage_stored_level_write_marks_vanilla_adjacent_block_sections() {
    let center = SectionPos::new(1, 2, -1);
    let block = BlockPos::new(16, 32, -1);
    let mut storage = LayerLightSectionStorage::new(LightLayer::Block);
    assert_eq!(storage.update_section_status(center, false), Ok(()));
    drop(storage.swap_section_map());

    assert_eq!(storage.set_stored_level(block, 6), Ok(()));

    let affected = storage.swap_section_map();
    assert_eq!(affected.len(), 8);
    assert!(affected.contains(&SectionPos::new(0, 1, -1)));
    assert!(affected.contains(&SectionPos::new(0, 1, 0)));
    assert!(affected.contains(&SectionPos::new(0, 2, -1)));
    assert!(affected.contains(&SectionPos::new(0, 2, 0)));
    assert!(affected.contains(&SectionPos::new(1, 1, -1)));
    assert!(affected.contains(&SectionPos::new(1, 1, 0)));
    assert!(affected.contains(&SectionPos::new(1, 2, -1)));
    assert!(affected.contains(&SectionPos::new(1, 2, 0)));
}

#[test]
fn mod_block_storage_light_value_reads_visible_data() {
    let section = SectionPos::new(1, 2, 3);
    let block = BlockPos::new((1 << 4) + 2, (2 << 4) + 3, (3 << 4) + 4);
    let mut storage = LayerLightSectionStorage::new(LightLayer::Block);

    assert_eq!(storage.get_light_value(block), 0);
    assert_eq!(storage.update_section_status(section, false), Ok(()));
    assert_eq!(storage.set_stored_level(block, 11), Ok(()));
    assert_eq!(storage.get_light_value(block), 0);

    drop(storage.swap_section_map());

    assert_eq!(storage.get_light_value(block), 11);
}

#[test]
fn mod_sky_storage_light_value_defaults_to_full_bright_without_data() {
    let storage = LayerLightSectionStorage::new(LightLayer::Sky);

    assert_eq!(storage.get_light_value(BlockPos::new(1, -64, 1)), 15);
}

#[test]
fn mod_sky_storage_light_value_reads_visible_data() {
    let section = SectionPos::new(0, 4, 0);
    let block = BlockPos::new(2, (4 << 4) + 3, 5);
    let mut storage = LayerLightSectionStorage::new(LightLayer::Sky);

    assert_eq!(storage.update_section_status(section, false), Ok(()));
    assert_eq!(storage.set_stored_level(block, 8), Ok(()));
    assert_eq!(storage.get_light_value(block), 15);

    drop(storage.swap_section_map());

    assert_eq!(storage.get_light_value(block), 8);
}

#[test]
fn mod_sky_storage_light_value_scans_to_first_visible_layer_above() {
    let source_section = SectionPos::new(0, 5, 0);
    let first_above_bottom_block = BlockPos::new(2, 4 << 4, 5);
    let first_above_same_column_block = BlockPos::new(2, (4 << 4) + 11, 5);
    let missing_section_block = BlockPos::new(2, (3 << 4) + 11, 5);
    let mut storage = LayerLightSectionStorage::new(LightLayer::Sky);

    assert_eq!(storage.update_section_status(source_section, false), Ok(()));
    assert_eq!(
        storage.set_stored_level(first_above_bottom_block, 9),
        Ok(())
    );
    assert_eq!(
        storage.set_stored_level(first_above_same_column_block, 3),
        Ok(())
    );

    drop(storage.swap_section_map());

    assert_eq!(storage.get_light_value(missing_section_block), 9);
}

#[test]
fn mod_sky_storage_tracks_top_and_bottom_sections() {
    let center = SectionPos::new(4, 5, 6);
    let zero = SectionPos::new(4, 0, 6);
    let mut storage = LayerLightSectionStorage::new(LightLayer::Sky);

    assert_eq!(storage.update_section_status(center, false), Ok(()));

    assert_eq!(storage.get_bottom_section_y(), Some(4));
    assert_eq!(storage.get_top_section_y(zero), Some(7));
    assert_eq!(storage.has_light_data_at_or_below(3), Some(false));
    assert_eq!(storage.has_light_data_at_or_below(4), Some(true));
    assert_eq!(storage.is_above_data(SectionPos::new(4, 6, 6)), Some(false));
    assert_eq!(storage.is_above_data(SectionPos::new(4, 7, 6)), Some(true));
}

#[test]
fn mod_sky_storage_creates_full_bright_layers_when_sources_enabled() {
    let section = SectionPos::new(0, 0, 0);
    let below = SectionPos::new(0, -1, 0);
    let mut storage = LayerLightSectionStorage::new(LightLayer::Sky);
    storage.set_light_enabled(SectionPos::new(0, 0, 0), true);

    assert_eq!(storage.update_section_status(section, false), Ok(()));

    let Some(section_layer) = storage.get_updating_data_layer(section) else {
        panic!("section layer missing");
    };
    assert!(section_layer.is_filled_with(MAX_LIGHT_LEVEL));

    let Some(below_layer) = storage.get_updating_data_layer(below) else {
        panic!("below layer missing");
    };
    assert!(below_layer.is_filled_with(MAX_LIGHT_LEVEL));
}

#[test]
fn mod_sky_storage_enable_sky_sources_fills_existing_fully_sourced_layers() {
    let zero = SectionPos::new(0, 0, 0);
    let lower = SectionPos::new(0, 3, 0);
    let upper = SectionPos::new(0, 6, 0);
    let mut storage = LayerLightSectionStorage::new(LightLayer::Sky);
    let sources = sky_sources_with_highest_lowest_source_y(72);

    assert_eq!(storage.update_section_status(lower, false), Ok(()));
    assert_eq!(storage.update_section_status(upper, false), Ok(()));

    assert_eq!(storage.enable_sky_light_sources(zero, &sources), Some(()));
    assert!(storage.light_on_in_column(zero));

    for section_y in 5..=7 {
        let section = SectionPos::new(0, section_y, 0);
        let Some(layer) = storage.get_updating_data_layer(section) else {
            panic!("fully sourced section layer missing");
        };
        assert!(layer.is_filled_with(MAX_LIGHT_LEVEL));
    }

    let Some(lower_layer) = storage.get_updating_data_layer(SectionPos::new(0, 4, 0)) else {
        panic!("lower section layer missing");
    };
    assert!(lower_layer.is_empty());
}

#[test]
fn mod_block_storage_rejects_sky_source_enable() {
    let mut storage = LayerLightSectionStorage::new(LightLayer::Block);
    let sources = sky_sources_with_highest_lowest_source_y(72);

    assert_eq!(
        storage.enable_sky_light_sources(SectionPos::new(0, 0, 0), &sources),
        None
    );
    assert!(!storage.light_on_in_column(SectionPos::new(0, 0, 0)));
}

#[test]
fn sky_storage_propagates_sky_sources_and_queues_edge_updates() {
    let zero = SectionPos::new(0, 0, 0);
    let section = SectionPos::new(0, 4, 0);
    let source_section = SectionPos::new(0, 5, 0);
    let sources = sky_sources_with_column(1000, 0, 0, 95);
    let north_sources = sky_sources_with_highest_lowest_source_y(90);
    let south_sources = sky_sources_with_highest_lowest_source_y(1000);
    let west_sources = sky_sources_with_highest_lowest_source_y(1000);
    let east_sources = sky_sources_with_highest_lowest_source_y(1000);
    let mut storage = LayerLightSectionStorage::new(LightLayer::Sky);
    let mut queues = LightPropagationQueues::new();

    assert_eq!(storage.update_section_status(section, false), Ok(()));
    assert_eq!(
        storage.propagate_sky_light_sources(
            zero,
            SkyLightSourceNeighborhood::new(
                &sources,
                &north_sources,
                &south_sources,
                &west_sources,
                &east_sources,
            ),
            &mut queues,
        ),
        Some(())
    );

    assert!(storage.light_on_in_column(zero));
    let Some(layer) = storage.get_updating_data_layer(source_section) else {
        panic!("source section light layer missing");
    };
    assert_eq!(layer.get(0, 15, 0), MAX_LIGHT_LEVEL);
    assert_eq!(layer.get(0, 14, 0), 0);

    let Some(update) = queues.dequeue_increase() else {
        panic!("skylight source edge was not queued");
    };
    assert_eq!(update.block_pos, BlockPos::new(0, 95, 0));
    assert_eq!(update.entry.from_level(), MAX_LIGHT_LEVEL);
    assert!(update.entry.should_propagate_in_direction(Direction::Down));
    assert!(!update.entry.should_propagate_in_direction(Direction::Up));
    assert!(!update.entry.should_propagate_in_direction(Direction::North));
    assert!(update.entry.should_propagate_in_direction(Direction::South));
    assert!(update.entry.should_propagate_in_direction(Direction::West));
    assert!(update.entry.should_propagate_in_direction(Direction::East));
    assert_eq!(queues.dequeue_increase(), None);
}

#[test]
fn block_storage_rejects_sky_source_propagation() {
    let mut storage = LayerLightSectionStorage::new(LightLayer::Block);
    let sources = sky_sources_with_highest_lowest_source_y(95);
    let mut queues = LightPropagationQueues::new();

    assert_eq!(
        storage.propagate_sky_light_sources(
            SectionPos::new(0, 0, 0),
            SkyLightSourceNeighborhood::new(&sources, &sources, &sources, &sources, &sources),
            &mut queues,
        ),
        None
    );
    assert!(!queues.has_work());
    assert!(!storage.light_on_in_column(SectionPos::new(0, 0, 0)));
}

#[test]
fn sky_storage_update_sources_column_adds_sources_and_queues_edges() {
    let section = SectionPos::new(0, 4, 0);
    let mut storage = LayerLightSectionStorage::new(LightLayer::Sky);
    let mut queues = LightPropagationQueues::new();

    assert_eq!(storage.update_section_status(section, false), Ok(()));
    assert_eq!(
        storage.update_sky_sources_in_column(0, 0, 78, 80, &mut queues),
        Ok(Some(()))
    );

    assert_eq!(storage.get_stored_level(BlockPos::new(0, 78, 0)), Some(15));
    assert_eq!(storage.get_stored_level(BlockPos::new(0, 79, 0)), Some(15));
    assert_eq!(storage.get_stored_level(BlockPos::new(0, 80, 0)), Some(15));

    let Some(first) = queues.dequeue_increase() else {
        panic!("first skylight source edge was not queued");
    };
    assert_eq!(first.block_pos, BlockPos::new(0, 78, 0));
    assert_eq!(first.entry, add_sky_source_entry());
    assert!(first.entry.should_propagate_in_direction(Direction::Down));
    assert!(!first.entry.should_propagate_in_direction(Direction::Up));

    let Some(second) = queues.dequeue_increase() else {
        panic!("second skylight source edge was not queued");
    };
    assert_eq!(second.block_pos, BlockPos::new(0, 79, 0));
    assert_eq!(second.entry, add_sky_source_entry());
    assert_eq!(queues.dequeue_increase(), None);
}

#[test]
fn sky_storage_update_sources_column_removes_old_sources_below_new_edge() {
    let section = SectionPos::new(0, 4, 0);
    let mut storage = LayerLightSectionStorage::new(LightLayer::Sky);
    let mut queues = LightPropagationQueues::new();

    assert_eq!(storage.update_section_status(section, false), Ok(()));
    assert_eq!(
        storage.set_stored_level(BlockPos::new(0, 78, 0), 15),
        Ok(())
    );
    assert_eq!(
        storage.set_stored_level(BlockPos::new(0, 79, 0), 15),
        Ok(())
    );
    assert_eq!(
        storage.set_stored_level(BlockPos::new(0, 80, 0), 15),
        Ok(())
    );

    assert_eq!(
        storage.update_sky_sources_in_column(0, 0, 80, 1000, &mut queues),
        Ok(Some(()))
    );

    assert_eq!(storage.get_stored_level(BlockPos::new(0, 78, 0)), Some(0));
    assert_eq!(storage.get_stored_level(BlockPos::new(0, 79, 0)), Some(0));
    assert_eq!(storage.get_stored_level(BlockPos::new(0, 80, 0)), Some(15));

    let Some(first) = queues.dequeue_decrease() else {
        panic!("top skylight source removal was not queued");
    };
    assert_eq!(first.block_pos, BlockPos::new(0, 79, 0));
    assert_eq!(first.entry, remove_top_sky_source_entry());

    let Some(second) = queues.dequeue_decrease() else {
        panic!("lower skylight source removal was not queued");
    };
    assert_eq!(second.block_pos, BlockPos::new(0, 78, 0));
    assert_eq!(second.entry, remove_sky_source_entry());
    assert_eq!(queues.dequeue_decrease(), None);
    assert_eq!(queues.dequeue_increase(), None);
}

#[test]
fn block_storage_rejects_sky_source_column_update() {
    let mut storage = LayerLightSectionStorage::new(LightLayer::Block);
    let mut queues = LightPropagationQueues::new();

    assert_eq!(
        storage.update_sky_sources_in_column(0, 0, 80, 1000, &mut queues),
        Ok(None)
    );
    assert!(!queues.has_work());
}

#[test]
fn mod_sky_storage_repeats_first_layer_below_top_data() {
    let upper = SectionPos::new(0, 5, 0);
    let copied = SectionPos::new(0, 3, 0);
    let mut storage = LayerLightSectionStorage::new(LightLayer::Sky);
    storage.set_light_enabled(SectionPos::new(0, 0, 0), true);
    assert_eq!(storage.update_section_status(upper, false), Ok(()));

    let Some(source_layer) = storage.get_data_layer_to_write(SectionPos::new(0, 4, 0)) else {
        panic!("source layer missing");
    };
    source_layer.set(0, 0, 0, 3);
    source_layer.set(0, 1, 0, 12);

    assert_eq!(
        storage.update_section_status(SectionPos::new(0, 2, 0), false),
        Ok(())
    );

    let Some(copied_layer) = storage.get_updating_data_layer(copied) else {
        panic!("copied layer missing");
    };
    assert_eq!(copied_layer.get(0, 0, 0), 3);
    assert_eq!(copied_layer.get(0, 1, 0), 3);
}

#[test]
fn mod_sky_storage_moves_top_down_after_highest_section_removal() {
    let upper = SectionPos::new(0, 5, 0);
    let lower = SectionPos::new(0, 2, 0);
    let zero = SectionPos::new(0, 0, 0);
    let mut storage = LayerLightSectionStorage::new(LightLayer::Sky);
    assert_eq!(storage.update_section_status(upper, false), Ok(()));
    assert_eq!(storage.update_section_status(lower, false), Ok(()));
    assert_eq!(storage.get_top_section_y(zero), Some(7));

    assert_eq!(storage.update_section_status(upper, true), Ok(()));
    storage.mark_new_inconsistencies();

    assert_eq!(storage.get_top_section_y(zero), Some(4));
    assert!(storage.storing_light_for_section(SectionPos::new(0, 3, 0)));
    assert!(!storage.storing_light_for_section(SectionPos::new(0, 6, 0)));
}

#[test]
fn mod_sky_storage_uses_queued_data_when_section_is_created() {
    let section = SectionPos::new(0, 0, 0);
    let mut queued = DataLayer::new();
    queued.set(1, 2, 3, 6);
    let mut storage = LayerLightSectionStorage::new(LightLayer::Sky);
    storage.queue_section_data(section, Some(queued));

    assert_eq!(storage.update_section_status(section, false), Ok(()));

    let Some(layer) = storage.get_updating_data_layer(section) else {
        panic!("queued layer missing");
    };
    assert_eq!(layer.get(1, 2, 3), 6);
}

#[test]
fn mod_light_update_packet_masks_match_vanilla_section_preparation() {
    let Ok(range) = LightSectionRange::from_world_height(0, 16) else {
        panic!("valid single-section height rejected");
    };
    let chunk_pos = ChunkPos::new(2, -3);

    let mut sky_layers = DataLayerStorageMap::new();
    sky_layers.set_layer(
        range.section_pos(chunk_pos, -1),
        DataLayer::filled(MAX_LIGHT_LEVEL),
    );
    sky_layers.set_layer(range.section_pos(chunk_pos, 0), DataLayer::new());

    let mut block_layers = DataLayerStorageMap::new();
    let mut block_layer = DataLayer::new();
    block_layer.set(0, 0, 0, 7);
    block_layers.set_layer(range.section_pos(chunk_pos, 1), block_layer);

    let packet =
        build_light_update_packet(chunk_pos, range, Some(&sky_layers), Some(&block_layers));

    assert_eq!(packet.sky_y_mask.0[0], 0b001);
    assert_eq!(packet.empty_sky_y_mask.0[0], 0b010);
    assert_eq!(packet.block_y_mask.0[0], 0b100);
    assert_eq!(packet.empty_block_y_mask.0[0], 0);
    assert_eq!(packet.sky_updates.len(), 1);
    assert!(packet.sky_updates[0].iter().all(|byte| *byte == 0xff));
    assert_eq!(
        packet.block_updates,
        vec![{
            let mut bytes = vec![0; DATA_LAYER_SIZE];
            bytes[0] = 0x07;
            bytes
        }]
    );
}

#[test]
fn mod_light_update_packet_omits_disabled_layers() {
    let Ok(range) = LightSectionRange::from_world_height(0, 16) else {
        panic!("valid single-section height rejected");
    };
    let packet = build_light_update_packet(ChunkPos::new(0, 0), range, None, None);

    assert_eq!(packet.sky_y_mask.0[0], 0);
    assert_eq!(packet.block_y_mask.0[0], 0);
    assert_eq!(packet.empty_sky_y_mask.0[0], 0);
    assert_eq!(packet.empty_block_y_mask.0[0], 0);
    assert!(packet.sky_updates.is_empty());
    assert!(packet.block_updates.is_empty());
}

#[test]
fn mod_different_light_properties_match_vanilla_conditions() {
    let table = table();
    let air = AIR;
    let stone = STONE;

    assert!(!has_different_light_properties(&table, air, air));
    assert!(has_different_light_properties(&table, air, stone));

    let light = LIGHT;
    let dim_light = DIM_LIGHT;
    assert!(has_different_light_properties(&table, light, dim_light));
}

#[test]
fn mod_sky_light_sources_empty_chunk_extends_below_world() {
    let table = table();
    let sections = empty_sections(1);
    let mut sources = new_test_sky_sources();

    sources.fill_from_sections(&table, &sections);

    assert_eq!(sources.get_lowest_source_y(0, 0), i32::MIN);
    assert_eq!(sources.get_lowest_source_y(15, 15), i32::MIN);
    assert_eq!(sources.get_highest_lowest_source_y(), i32::MIN);
}

#[test]
fn mod_sky_light_sources_find_lowest_occluding_edge() {
    let table = table();
    let stone = STONE;
    let sections = single_section_with_block(&table, 4, stone);
    let mut sources = new_test_sky_sources();

    sources.fill_from_sections(&table, &sections);

    assert_eq!(sources.get_lowest_source_y(0, 0), 5);
    assert_eq!(sources.get_lowest_source_y(1, 0), i32::MIN);
    assert_eq!(sources.get_highest_lowest_source_y(), 5);
}

#[test]
fn mod_sky_light_sources_update_adds_and_removes_occluding_edge() {
    let table = table();
    let air = AIR;
    let stone = STONE;
    let sections = empty_sections(1);
    let mut sources = new_test_sky_sources();
    sources.fill_from_sections(&table, &sections);

    let added = sources.update(&table, 0, 4, 0, |_x: usize, y: i32, _z: usize| if y == 4 { stone } else { air });

    assert!(added);
    assert_eq!(sources.get_lowest_source_y(0, 0), 5);

    let removed = sources.update(&table, 0, 4, 0, |_x, _y, _z| air);

    assert!(removed);
    assert_eq!(sources.get_lowest_source_y(0, 0), i32::MIN);
}

#[test]
fn mod_sky_light_sources_update_ignores_changes_below_current_source_edge() {
    let table = table();
    let stone = STONE;
    let sections = single_section_with_block(&table, 10, stone);
    let mut sources = new_test_sky_sources();
    sources.fill_from_sections(&table, &sections);

    let changed = sources.update(&table, 0, 4, 0, |_x, _y, _z| stone);

    assert!(!changed);
    assert_eq!(sources.get_lowest_source_y(0, 0), 11);
}

#[test]
fn sky_sources_change_only_their_column() {
    let table = table();
    let sections = single_section_with_block(&table, 10, STONE);
    let mut sources = new_test_sky_sources();
    sources.fill_from_sections(&table, &sections);
    assert_eq!(sources.get_lowest_source_y(0, 0), 11);
    assert_eq!(sources.get_highest_lowest_source_y(), 11);

    assert!(sources.update(&table, 3, 12, 5, |x: usize, y: i32, z: usize| {
        assert_eq!((x, z), (3, 5));
        if y == 12 { STONE } else { AIR }
    }));
    assert_eq!(sources.get_lowest_source_y(3, 5), 13);
    assert_eq!(sources.get_lowest_source_y(0, 0), 11);
    assert_eq!(sources.get_lowest_source_y(5, 3), i32::MIN);
    assert_eq!(sources.get_highest_lowest_source_y(), 13);
}

#[test]
fn sky_sources_do_not_read_below_their_edge() {
    let table = table();
    let sections = single_section_with_block(&table, 10, STONE);
    let mut sources = new_test_sky_sources();
    sources.fill_from_sections(&table, &sections);
    assert!(!sources.update(&table, 0, 9, 0, |_x: usize, _y: i32, _z: usize| -> BlockStateId {
        panic!("nothing below the edge is read")
    }));
    assert_eq!(sources.get_lowest_source_y(0, 0), 11);
}

#[test]
fn section_types_follow_data_around() {
    let center = SectionPos::new(4, 5, 6);
    let neighbor = SectionPos::new(5, 6, 7);
    let far = SectionPos::new(6, 5, 6);
    let mut storage = LayerLightSectionStorage::new(LightLayer::Block);
    for _ in 0..2 {
        assert_eq!(storage.update_section_status(center, false), Ok(()));
        assert_eq!(storage.get_debug_section_type(center), LightSectionType::LightAndData);
        assert_eq!(storage.get_debug_section_type(neighbor), LightSectionType::LightOnly);
        assert_eq!(storage.get_debug_section_type(far), LightSectionType::Empty);
        assert!(storage.storing_light_for_section(center));
        assert!(storage.storing_light_for_section(neighbor));
        assert!(!storage.storing_light_for_section(far));
        assert_eq!(storage.updating_section_count(), 27);
    }
    assert_eq!(storage.update_section_status(neighbor, false), Ok(()));
    assert_eq!(storage.get_debug_section_type(far), LightSectionType::LightOnly);
    for _ in 0..2 {
        assert_eq!(storage.update_section_status(center, true), Ok(()));
        assert_eq!(storage.get_debug_section_type(center), LightSectionType::LightOnly);
        assert_eq!(storage.get_debug_section_type(neighbor), LightSectionType::LightAndData);
        assert_eq!(storage.get_debug_section_type(far), LightSectionType::LightOnly);
    }
}

#[test]
fn queued_data_is_taken_over_once() {
    let center = SectionPos::new(4, 5, 6);
    let mut storage = LayerLightSectionStorage::new(LightLayer::Block);
    assert_eq!(storage.update_section_status(center, false), Ok(()));
    storage.queue_section_data(center, Some(DataLayer::filled(3)));
    assert!(storage.has_inconsistencies());
    storage.mark_new_inconsistencies();
    assert!(!storage.has_inconsistencies());
    assert_eq!(storage.get_updating_data_layer(center), Some(&DataLayer::filled(3)));
    assert_eq!(storage.get_queued_data_layer(center), None);

    let missing = SectionPos::new(40, 5, 6);
    storage.queue_section_data(missing, Some(DataLayer::filled(4)));
    storage.mark_new_inconsistencies();
    assert!(!storage.storing_light_for_section(missing));
    assert_eq!(storage.get_queued_data_layer(missing), Some(&DataLayer::filled(4)));
}

#[test]
fn packet_masks_have_a_word_for_each_sixty_four_sections() {
    for (height, words) in [(16, 1), (16 * 62, 1), (16 * 63, 2), (16 * 126, 2), (16 * 127, 3)] {
        let Ok(light) = ChunkLightData::new(0, height) else {
            panic!("whole sections make a valid height");
        };
        let packet = build_chunk_light_update_packet(&light);
        for mask in [
            &packet.sky_y_mask,
            &packet.block_y_mask,
            &packet.empty_sky_y_mask,
            &packet.empty_block_y_mask,
        ] {
            assert_eq!(mask.0.len(), words);
        }
    }
}

#[test]
fn sky_sources_that_stay_open_are_no_change() {
    let table = table();
    let mut sources = new_test_sky_sources();
    let bottom = sources.min_y;
    for y in [bottom - 2, bottom - 1, bottom, i32::MIN, i32::MAX] {
        assert!(!sources.update(&table, 0, y, 0, |_x: usize, _y: i32, _z: usize| AIR));
        assert_eq!(sources.get_lowest_source_y(0, 0), i32::MIN);
    }
    assert!(sources.update(&table, 0, bottom, 0, |_x: usize, y: i32, _z: usize| {
        if y == bottom { STONE } else { AIR }
    }));
    assert_eq!(sources.get_lowest_source_y(0, 0), bottom + 1);
}

#[test]
fn open_columns_fill_all_stored_layers() {
    let zero = SectionPos::new(0, 0, 0);
    let mut storage = LayerLightSectionStorage::new(LightLayer::Sky);
    assert_eq!(storage.update_section_status(SectionPos::new(0, 3, 0), false), Ok(()));
    assert_eq!(storage.update_section_status(SectionPos::new(0, -6, 0), false), Ok(()));
    let kept = SectionPos::new(0, 3, 0);
    let Some(layer) = storage.get_data_layer_to_write(kept) else {
        panic!("center layer missing");
    };
    layer.set(1, 2, 3, 9);
    let sources = new_test_sky_sources();
    assert_eq!(sources.get_highest_lowest_source_y(), i32::MIN);
    assert_eq!(storage.enable_sky_light_sources(zero, &sources), Some(()));
    for section_y in [-7, -6, -5, 2, 4] {
        let section = SectionPos::new(0, section_y, 0);
        let Some(layer) = storage.get_updating_data_layer(section) else {
            panic!("stored section layer missing");
        };
        assert!(layer.is_filled_with(MAX_LIGHT_LEVEL));
    }
    assert_eq!(storage.get_stored_level(BlockPos::new(1, 3 * 16 + 2, 3)), Some(9));
    assert_eq!(storage.get_stored_level(BlockPos::new(0, 3 * 16, 0)), Some(0));
    assert_eq!(storage.get_stored_level(BlockPos::new(16, 3 * 16, 0)), Some(0));
}

#[test]
fn sky_data_is_what_is_stored_now() {
    let low = SectionPos::new(0, -4, 0);
    let high = SectionPos::new(3, 5, 3);
    let mut storage = LayerLightSectionStorage::new(LightLayer::Sky);
    assert_eq!(storage.has_light_data_at_or_below(1000), Some(false));
    assert_eq!(storage.update_section_status(low, false), Ok(()));
    assert_eq!(storage.update_section_status(high, false), Ok(()));
    assert_eq!(storage.has_light_data_at_or_below(-6), Some(false));
    assert_eq!(storage.has_light_data_at_or_below(-5), Some(true));
    assert_eq!(storage.is_above_data(SectionPos::new(0, -3, 0)), Some(false));

    assert_eq!(storage.update_section_status(low, true), Ok(()));
    storage.mark_new_inconsistencies();
    assert_eq!(storage.has_light_data_at_or_below(-5), Some(false));
    assert_eq!(storage.has_light_data_at_or_below(3), Some(false));
    assert_eq!(storage.has_light_data_at_or_below(4), Some(true));
    assert_eq!(storage.get_bottom_section_y(), Some(-5));
    assert_eq!(storage.is_above_data(SectionPos::new(0, -9, 0)), Some(true));

    let block = LayerLightSectionStorage::new(LightLayer::Block);
    assert_eq!(block.has_light_data_at_or_below(0), None);
    assert_eq!(block.is_above_data(low), None);
}
