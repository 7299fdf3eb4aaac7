//! What clients are told of changes.
use steel_light::block_state::BlockStateId;
use steel_light::broadcast::{BlockBroadcast, ChunkChanges};
use steel_light::chunk_light::ChunkLightData;
use steel_light::position::{BlockPos, ChunkPos, SectionPos};
use steel_light::section_range::LightSectionRange;

fn range_of_height(height: i32) -> LightSectionRange {
    let Ok(range) = LightSectionRange::from_world_height(0, height) else {
        panic!("test height should create a valid light range");
    };
    range
}

fn range() -> LightSectionRange {
    range_of_height(16)
}

#[test]
fn broadcast_sends_single_blocks_and_sections() {
    let mut light = ChunkLightData::for_valid_world_height(0, 16);
    let Some(nibble) = light.block.nibble_mut(0) else {
        panic!("test nibble should be inside light range");
    };
    nibble.set(0, 0, 0, 7);
    assert!(nibble.update_visible());
    let changes = ChunkChanges {
        chunk_pos: ChunkPos::new(2, -3),
        min_y: -64,
        sky_sections: vec![SectionPos::new(2, 0, -3)],
        block_sections: vec![SectionPos::new(2, 0, -3)],
        blocks: vec![(0, vec![0x0123]), (4, vec![0x0fff, 0x0010])],
    };

    let result = changes.broadcast(true, &[1], &[1, 2], Some(&light), &|pos: BlockPos| {
        BlockStateId((pos.y + 64) as u16)
    });

    assert_eq!(result.blocks.len(), 2);
    match &result.blocks[0] {
        BlockBroadcast::Block(change) => {
            assert_eq!(change.packed, 0x0123);
            assert_eq!(change.block_pos, BlockPos::new(33, -61, -46));
            assert_eq!(change.block_state, BlockStateId(3));
        }
        other => panic!("one block should be sent by itself: {other:?}"),
    }
    match &result.blocks[1] {
        BlockBroadcast::Section { section_pos, changes } => {
            assert_eq!(*section_pos, SectionPos::new(2, 0, -3));
            assert_eq!(changes.len(), 2);
            assert_eq!(changes[0].block_pos, BlockPos::new(47, 15, -33));
            assert_eq!(changes[1].block_pos, BlockPos::new(32, 0, -47));
            assert_eq!(changes[1].packed, 0x0010);
        }
        other => panic!("several blocks should be sent as a section: {other:?}"),
    }
    let Some(packet) = result.light else {
        panic!("changed light should be sent");
    };
    assert_eq!(packet.block_y_mask.0[0], 0b010);
    assert_eq!(packet.block_updates.len(), 1);
    assert_eq!(packet.block_updates[0][0], 0x07);
}

#[test]
fn broadcast_sends_nothing_without_players() {
    let mut light = ChunkLightData::for_valid_world_height(0, 16);
    let Some(nibble) = light.block.nibble_mut(0) else {
        panic!("test nibble should be inside light range");
    };
    nibble.set(0, 0, 0, 7);
    assert!(nibble.update_visible());
    let changes = ChunkChanges {
        chunk_pos: ChunkPos::new(2, -3),
        min_y: -64,
        sky_sections: vec![SectionPos::new(2, 0, -3)],
        block_sections: vec![SectionPos::new(2, 0, -3)],
        blocks: vec![(0, vec![0x0123]), (4, vec![0x0fff, 0x0010])],
    };

    let result = changes.broadcast(true, &[], &[], Some(&light), &|_| BlockStateId(0));
    assert!(result.light.is_none());
    assert!(result.blocks.is_empty());
}

#[test]
fn broadcast_waits_for_complete_chunks() {
    let mut light = ChunkLightData::for_valid_world_height(0, 16);
    let Some(nibble) = light.block.nibble_mut(0) else {
        panic!("test nibble should be inside light range");
    };
    nibble.set(0, 0, 0, 7);
    assert!(nibble.update_visible());
    let changes = ChunkChanges {
        chunk_pos: ChunkPos::new(2, -3),
        min_y: -64,
        sky_sections: vec![SectionPos::new(2, 0, -3)],
        block_sections: vec![SectionPos::new(2, 0, -3)],
        blocks: vec![(0, vec![0x0123]), (4, vec![0x0fff, 0x0010])],
    };

    let result = changes.broadcast(true, &[1], &[], None, &|_| BlockStateId(0));
    assert!(result.light.is_none());
    assert_eq!(result.blocks.len(), 2);
}

#[test]
fn sky_light_alone_is_not_broadcast_without_skylight() {
    let changes = ChunkChanges {
        chunk_pos: ChunkPos::new(0, 0),
        min_y: 0,
        sky_sections: vec![SectionPos::new(0, 0, 0)],
        block_sections: vec![],
        blocks: vec![],
    };
    assert!(changes.has_publishable_light_changes(true));
    assert!(!changes.has_publishable_light_changes(false));
    assert!(!changes.has_block_changes());
    let light = ChunkLightData::for_valid_world_height(0, 16);
    let result = changes.broadcast(false, &[1], &[1], Some(&light), &|_| BlockStateId(0));
    assert!(result.light.is_none());
}

#[test]
fn section_positions_lead_to_blocks() {
    let section = SectionPos::new(-1, 2, 3);
    assert_eq!(section.relative_to_block_pos(0x0a5c), BlockPos::new(-6, 44, 53));
    assert_eq!(SectionPos::from_block_pos(section.relative_to_block_pos(0x0a5c)), section);
}
