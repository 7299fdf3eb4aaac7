//! Waiting light changes come out in order.
use steel_light::pending::{PendingChunkLightUpdates, PendingLightUpdates};
use steel_light::position::{BlockPos, ChunkPos, SectionPos};
use steel_light::sky_runs::LightSectionEmptinessChange;

#[test]
fn pending_empty_section_changes_are_drained_top_down() {
    let mut pending = PendingChunkLightUpdates::new();
    pending.add_section(LightSectionEmptinessChange {
        section_pos: SectionPos::new(3, -2, 4),
        empty: true,
    });
    pending.add_section(LightSectionEmptinessChange {
        section_pos: SectionPos::new(3, 5, 4),
        empty: false,
    });
    pending.add_section(LightSectionEmptinessChange {
        section_pos: SectionPos::new(3, 0, 4),
        empty: true,
    });

    let changes = pending.empty_section_changes();
    let section_ys = changes
        .iter()
        .map(|change| change.section_pos.y())
        .collect::<Vec<_>>();

    assert_eq!(section_ys, vec![5, 0, -2]);
}

#[test]
fn pending_light_updates_drain_in_first_queue_order() {
    let mut pending = PendingLightUpdates::new();
    let first_chunk = ChunkPos::new(2, 0);
    let second_chunk = ChunkPos::new(-1, 4);

    pending.queue_change(first_chunk, BlockPos::new(32, 0, 0), true, None);
    pending.queue_change(second_chunk, BlockPos::new(-16, 0, 64), true, None);
    pending.queue_change(first_chunk, BlockPos::new(33, 0, 0), true, None);

    let drained = pending.drain();
    let chunks = drained
        .iter()
        .map(|(chunk_pos, _)| *chunk_pos)
        .collect::<Vec<_>>();

    assert_eq!(chunks, vec![first_chunk, second_chunk]);
    assert_eq!(drained[0].1.changed_positions().len(), 2);
    assert!(pending.is_empty());
}

#[test]
fn pending_light_change_needs_work_and_a_chunk() {
    let mut pending = PendingLightUpdates::new();
    let pos = BlockPos::new(-1, 70, 16);
    let change = LightSectionEmptinessChange { section_pos: SectionPos::new(-1, 4, 1), empty: true };

    pending.queue_light_change(pos, false, None, true);
    assert!(pending.is_empty());
    pending.queue_light_change(pos, true, None, false);
    assert!(pending.is_empty());
    pending.queue_light_change(pos, false, Some(change), true);
    assert!(pending.has_chunk(ChunkPos::new(-1, 1)));

    let drained = pending.drain();
    assert_eq!(drained.len(), 1);
    assert!(!drained[0].1.is_empty());
    assert!(drained[0].1.changed_positions().is_empty());
    assert_eq!(drained[0].1.empty_section_changes(), vec![change]);
}

#[test]
fn pending_chunk_keeps_its_first_place_after_removal() {
    let mut pending = PendingLightUpdates::new();
    let first = ChunkPos::new(0, 0);
    let second = ChunkPos::new(1, 0);
    pending.queue_change(first, BlockPos::new(0, 0, 0), true, None);
    pending.queue_change(second, BlockPos::new(16, 0, 0), true, None);
    pending.remove_chunk(first);
    assert!(!pending.has_chunk(first));
    pending.queue_change(first, BlockPos::new(1, 0, 0), true, None);

    let drained = pending.drain();
    assert_eq!(drained.len(), 2);
    assert_eq!(drained[0].0, first);
    assert_eq!(drained[0].1.changed_positions(), vec![BlockPos::new(1, 0, 0)]);
    assert_eq!(drained[1].0, second);
    assert!(pending.drain().is_empty());
}

#[test]
fn pending_positions_keep_extreme_coordinates() {
    let mut pending = PendingChunkLightUpdates::new();
    let low = BlockPos::new(i32::MIN, i32::MIN, i32::MIN);
    let high = BlockPos::new(i32::MAX, i32::MAX, i32::MAX);
    pending.add_position(low);
    pending.add_position(high);
    pending.add_position(low);

    let positions = pending.changed_positions();
    assert_eq!(positions.len(), 2);
    assert!(positions.contains(&low));
    assert!(positions.contains(&high));
}

#[test]
fn pending_section_changes_sort_by_x_then_z_then_height() {
    let mut pending = PendingChunkLightUpdates::new();
    for (x, y, z) in [(1, 0, 0), (0, 0, 1), (0, 5, 0), (0, -5, 0)] {
        pending.add_section(LightSectionEmptinessChange {
            section_pos: SectionPos::new(x, y, z),
            empty: true,
        });
    }
    pending.add_section(LightSectionEmptinessChange {
        section_pos: SectionPos::new(0, 5, 0),
        empty: false,
    });

    let changes = pending.empty_section_changes();
    let sections: Vec<(SectionPos, bool)> =
        changes.iter().map(|change| (change.section_pos, change.empty)).collect();
    assert_eq!(
        sections,
        vec![
            (SectionPos::new(0, 5, 0), false),
            (SectionPos::new(0, -5, 0), true),
            (SectionPos::new(0, 0, 1), true),
            (SectionPos::new(1, 0, 0), true),
        ]
    );
}
