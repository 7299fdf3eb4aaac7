//! The slots and packed positions of the light window.
use steel_light::cache::{CachedLightBlock, LightCacheLayout, PackedLightBlockPos};
use steel_light::notification::LightUpdateNotificationCache;
use steel_light::position::{BlockPos, ChunkPos, Direction, SectionPos};
use steel_light::section_range::LightSectionRange;

fn range(min_y: i32, height: i32) -> LightSectionRange {
    let Ok(range) = LightSectionRange::from_world_height(min_y, height) else {
        panic!("test world height should create a light range");
    };
    range
}

#[test]
fn cache_layout_matches_scalable_lux_chunk_indexing() {
    let layout = LightCacheLayout::new(ChunkPos::new(10, -20), range(0, 16));

    assert_eq!(layout.center_chunk(), ChunkPos::new(10, -20));
    assert_eq!(layout.range(), range(0, 16));
    assert_eq!(layout.chunk_slot(ChunkPos::new(10, -20)), Some(12));
    assert_eq!(layout.chunk_slot(ChunkPos::new(8, -22)), Some(0));
    assert_eq!(layout.chunk_slot(ChunkPos::new(12, -18)), Some(24));
    assert_eq!(layout.chunk_slot(ChunkPos::new(9, -20)), Some(11));
    assert_eq!(layout.chunk_slot(ChunkPos::new(13, -20)), None);
    assert_eq!(layout.chunk_slot(ChunkPos::new(10, -23)), None);
}

#[test]
fn cache_layout_adds_vertical_buffer_around_light_range() {
    let layout = LightCacheLayout::new(ChunkPos::new(0, 0), range(0, 16));

    assert_eq!(layout.cached_min_section_y(), -2);
    assert_eq!(layout.cached_max_section_y_exclusive(), 3);
    assert_eq!(layout.cached_section_count(), 5);
    assert_eq!(layout.section_slot_count(), 125);

    assert_eq!(layout.cached_section_index(-2), Some(0));
    assert_eq!(layout.cached_section_index(-1), Some(1));
    assert_eq!(layout.cached_section_index(2), Some(4));
    assert_eq!(layout.cached_section_index(3), None);

    assert_eq!(layout.cached_section_y(0), Some(-2));
    assert_eq!(layout.cached_section_y(4), Some(2));
    assert_eq!(layout.cached_section_y(5), None);
}

#[test]
fn cache_layout_matches_scalable_lux_section_indexing() {
    let layout = LightCacheLayout::new(ChunkPos::new(0, 0), range(0, 16));

    assert_eq!(layout.section_slot_by_coords(0, -2, 0), Some(12));
    assert_eq!(layout.section_slot_by_coords(0, -1, 0), Some(37));
    assert_eq!(layout.section_slot_by_coords(0, 1, 0), Some(87));
    assert_eq!(layout.section_slot_by_coords(0, 2, 0), Some(112));
    assert_eq!(layout.section_slot_by_coords(0, 3, 0), None);
}

#[test]
fn cache_layout_decodes_scalable_lux_section_slots() {
    let layout = LightCacheLayout::new(ChunkPos::new(10, -20), range(0, 16));

    assert_eq!(
        layout.section_pos_for_slot(0),
        Some(SectionPos::new(8, -2, -22))
    );
    assert_eq!(
        layout.section_pos_for_slot(12),
        Some(SectionPos::new(10, -2, -20))
    );
    assert_eq!(
        layout.section_pos_for_slot(37),
        Some(SectionPos::new(10, -1, -20))
    );
    assert_eq!(
        layout.section_pos_for_slot(112),
        Some(SectionPos::new(10, 2, -20))
    );
    assert_eq!(layout.section_pos_for_slot(125), None);
}

#[test]
fn cache_layout_section_slot_round_trips_every_cached_section() {
    let layout = LightCacheLayout::new(ChunkPos::new(-4, 6), range(-64, 384));

    for section_slot in 0..layout.section_slot_count() {
        let Some(section_pos) = layout.section_pos_for_slot(section_slot) else {
            panic!("valid cache slot did not decode");
        };
        assert_eq!(layout.section_slot(section_pos), Some(section_slot));
    }
}

#[test]
fn cache_layout_maps_block_positions_to_section_slots() {
    let layout = LightCacheLayout::new(ChunkPos::new(0, 0), range(0, 16));

    assert_eq!(
        layout.section_slot_for_block(BlockPos::new(31, 0, -32)),
        Some(53)
    );
    assert_eq!(layout.section_slot_for_block(BlockPos::new(48, 0, 0)), None);
}

#[test]
fn cache_layout_uses_scalable_lux_local_block_indices() {
    assert_eq!(
        LightCacheLayout::local_block_index(BlockPos::new(0, 0, 0)),
        0
    );
    assert_eq!(
        LightCacheLayout::local_block_index(BlockPos::new(15, 15, 15)),
        15 | (15 << 4) | (15 << 8)
    );
    assert_eq!(
        LightCacheLayout::local_block_index(BlockPos::new(-1, -1, -1)),
        15 | (15 << 4) | (15 << 8)
    );
    assert_eq!(
        LightCacheLayout::local_block_index(BlockPos::new(16, 16, 16)),
        0
    );
}

#[test]
fn cache_layout_maps_block_positions_to_cached_blocks() {
    let layout = LightCacheLayout::new(ChunkPos::new(0, 0), range(0, 16));

    assert_eq!(
        layout.cached_block(BlockPos::new(31, 0, -32)),
        Some(CachedLightBlock {
            block_pos: BlockPos::new(31, 0, -32),
            section_slot: 53,
            local_index: 15,
        })
    );
    assert_eq!(
        layout.cached_block(BlockPos::new(-1, -1, -1)),
        Some(CachedLightBlock {
            block_pos: BlockPos::new(-1, -1, -1),
            section_slot: 31,
            local_index: 4095,
        })
    );
    assert_eq!(layout.cached_block(BlockPos::new(48, 0, 0)), None);
}

#[test]
fn cache_layout_maps_cached_neighbors_with_scalable_lux_local_indices() {
    let layout = LightCacheLayout::new(ChunkPos::new(0, 0), range(0, 16));
    let Some(block) = layout.cached_block(BlockPos::new(7, 7, 7)) else {
        panic!("test block should be cached");
    };

    assert_eq!(
        layout.cached_neighbor(block, Direction::East),
        Some(CachedLightBlock {
            block_pos: BlockPos::new(8, 7, 7),
            section_slot: 62,
            local_index: 8 | (7 << 4) | (7 << 8),
        })
    );
    assert_eq!(
        layout.cached_neighbor(block, Direction::Down),
        Some(CachedLightBlock {
            block_pos: BlockPos::new(7, 6, 7),
            section_slot: 62,
            local_index: 7 | (7 << 4) | (6 << 8),
        })
    );
}

#[test]
fn cache_layout_maps_cached_neighbors_across_section_edges() {
    let layout = LightCacheLayout::new(ChunkPos::new(0, 0), range(0, 16));
    let Some(block) = layout.cached_block(BlockPos::new(15, 15, 15)) else {
        panic!("test block should be cached");
    };

    assert_eq!(
        layout.cached_neighbor(block, Direction::East),
        Some(CachedLightBlock {
            block_pos: BlockPos::new(16, 15, 15),
            section_slot: 63,
            local_index: (15 << 4) | (15 << 8),
        })
    );
    assert_eq!(
        layout.cached_neighbor(block, Direction::Up),
        Some(CachedLightBlock {
            block_pos: BlockPos::new(15, 16, 15),
            section_slot: 87,
            local_index: 15 | (15 << 4),
        })
    );
}

#[test]
fn cache_layout_rejects_cached_neighbors_outside_cache_window() {
    let layout = LightCacheLayout::new(ChunkPos::new(0, 0), range(0, 16));
    let Some(east_edge) = layout.cached_block(BlockPos::new(47, 0, 0)) else {
        panic!("edge block should be inside section cache");
    };
    let Some(bottom_edge) = layout.cached_block(BlockPos::new(0, -32, 0)) else {
        panic!("bottom block should be inside section cache");
    };

    assert_eq!(layout.cached_neighbor(east_edge, Direction::East), None);
    assert_eq!(layout.cached_neighbor(bottom_edge, Direction::Down), None);
}

#[test]
fn overworld_cache_layout_uses_light_sections_plus_two_buffers() {
    let layout = LightCacheLayout::new(ChunkPos::new(0, 0), range(-64, 384));

    assert_eq!(layout.range().min_section_y(), -5);
    assert_eq!(layout.range().max_section_y_exclusive(), 21);
    assert_eq!(layout.range().section_count(), 26);
    assert_eq!(layout.cached_min_section_y(), -6);
    assert_eq!(layout.cached_max_section_y_exclusive(), 22);
    assert_eq!(layout.cached_section_count(), 28);
    assert_eq!(layout.section_slot_count(), 700);
}

#[test]
fn packed_light_block_pos_masks_to_scalable_lux_position_bits() {
    let packed = PackedLightBlockPos::from_raw(u32::MAX);

    assert_eq!(packed.raw(), (1 << 28) - 1);
    assert_eq!(packed.encoded_x(), 63);
    assert_eq!(packed.encoded_z(), 63);
    assert_eq!(packed.encoded_y(), u16::MAX);
}

#[test]
fn cache_layout_encodes_scalable_lux_queue_position_window() {
    let layout = LightCacheLayout::new(ChunkPos::new(0, 0), range(0, 16));

    assert_eq!(layout.encoded_min_block_x(), -24);
    assert_eq!(layout.encoded_max_block_x_exclusive(), 40);
    assert_eq!(layout.encoded_min_block_z(), -24);
    assert_eq!(layout.encoded_max_block_z_exclusive(), 40);

    let Some(center) = layout.encode_block_pos(BlockPos::new(7, 0, 7)) else {
        panic!("center chunk block should encode");
    };
    assert_eq!(center.encoded_x(), 31);
    assert_eq!(center.encoded_z(), 31);
    assert_eq!(center.encoded_y(), 32);
    assert_eq!(
        layout.decode_block_pos(center),
        Some(BlockPos::new(7, 0, 7))
    );

    let Some(min) = layout.encode_block_pos(BlockPos::new(-24, -32, -24)) else {
        panic!("minimum queue block should encode");
    };
    assert_eq!(min.raw(), 0);
    assert_eq!(
        layout.decode_block_pos(min),
        Some(BlockPos::new(-24, -32, -24))
    );

    let Some(max) = layout.encode_block_pos(BlockPos::new(39, 47, 39)) else {
        panic!("maximum queue block should encode");
    };
    assert_eq!(max.encoded_x(), 63);
    assert_eq!(max.encoded_z(), 63);
    assert_eq!(max.encoded_y(), 79);
    assert_eq!(
        layout.decode_block_pos(max),
        Some(BlockPos::new(39, 47, 39))
    );

    assert_eq!(layout.encode_block_pos(BlockPos::new(40, 0, 0)), None);
    assert_eq!(layout.encode_block_pos(BlockPos::new(0, 0, 40)), None);
    assert_eq!(layout.encode_block_pos(BlockPos::new(0, 48, 0)), None);
}

#[test]
fn cache_layout_maps_packed_positions_to_cached_blocks() {
    let layout = LightCacheLayout::new(ChunkPos::new(0, 0), range(0, 16));
    let Some(packed) = layout.encode_block_pos(BlockPos::new(7, 0, 7)) else {
        panic!("center block should encode");
    };

    assert_eq!(
        layout.cached_block_from_packed(packed),
        Some(CachedLightBlock {
            block_pos: BlockPos::new(7, 0, 7),
            section_slot: 62,
            local_index: 7 | (7 << 4),
        })
    );
    assert_eq!(
        layout.cached_block_from_packed(PackedLightBlockPos::from_raw(u32::MAX)),
        None
    );
}

#[test]
fn notification_cache_marks_cached_sections_once() {
    let layout = LightCacheLayout::new(ChunkPos::new(0, 0), range(0, 16));
    let mut notifications = LightUpdateNotificationCache::new(layout);
    let section = SectionPos::new(0, 0, 0);

    assert_eq!(notifications.layout(), layout);
    assert!(notifications.is_empty());
    assert!(notifications.mark_section(section));
    assert!(!notifications.is_empty());
    assert!(notifications.is_marked_section(section));
    assert!(!notifications.mark_section(section));
    assert_eq!(
        notifications.marked_section_positions(),
        vec![section]
    );

    notifications.clear();
    assert!(notifications.is_empty());
    assert!(!notifications.is_marked_section(section));
}

#[test]
fn notification_cache_marks_one_block_light_neighborhood() {
    let layout = LightCacheLayout::new(ChunkPos::new(0, 0), range(0, 16));
    let mut notifications = LightUpdateNotificationCache::new(layout);

    assert_eq!(
        notifications.mark_block_neighborhood(BlockPos::new(8, 8, 8)),
        Some(1)
    );
    assert_eq!(
        notifications.marked_section_positions(),
        vec![SectionPos::new(0, 0, 0)]
    );

    notifications.clear();
    assert_eq!(
        notifications.mark_block_neighborhood(BlockPos::new(16, 16, 16)),
        Some(8)
    );

    let marked = notifications.marked_section_positions();
    assert_eq!(marked.len(), 8);
    assert!(marked.contains(&SectionPos::new(0, 0, 0)));
    assert!(marked.contains(&SectionPos::new(1, 0, 0)));
    assert!(marked.contains(&SectionPos::new(0, 1, 0)));
    assert!(marked.contains(&SectionPos::new(1, 1, 1)));
}

#[test]
fn notification_cache_rejects_partial_block_neighborhoods() {
    let layout = LightCacheLayout::new(ChunkPos::new(0, 0), range(0, 16));
    let mut notifications = LightUpdateNotificationCache::new(layout);

    assert_eq!(
        notifications.mark_block_neighborhood(BlockPos::new(48, 8, 8)),
        None
    );
    assert!(notifications.is_empty());
}
