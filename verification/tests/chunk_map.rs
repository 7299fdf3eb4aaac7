//! Decisions of the chunk map.
use steel_light::chunk_map::{
    chunks_in_radius, collect_tickable, count_saved, plan_game_tick, remove_player_view,
    ticket_level, update_player_view, ChunkLevels, ChunkTicket, HolderOrigin, LevelAction,
    LevelChange, PlayerChunkView, SaveOutcome, UnloadAction, ViewChange,
};
use steel_light::position::{BlockPos, ChunkPos};
use steel_light::scheduled_ticks::{order_scheduled_ticks, ScheduledTick};

#[test]
fn chunk_levels_follow_tickets() {
    let mut levels = ChunkLevels::new();
    let pos = ChunkPos::new(3, -4);

    assert_eq!(levels.update_chunk_level(pos, None), LevelAction::Ignore);
    assert_eq!(
        levels.update_chunk_level(pos, Some(7)),
        LevelAction::Activate { origin: HolderOrigin::New, level: 7, level_changed: false }
    );
    assert_eq!(levels.level(pos), Some(7));
    assert_eq!(
        levels.update_chunk_level(pos, Some(5)),
        LevelAction::Activate { origin: HolderOrigin::Active, level: 5, level_changed: true }
    );
    assert_eq!(
        levels.update_chunk_level(pos, Some(5)),
        LevelAction::Activate { origin: HolderOrigin::Active, level: 5, level_changed: false }
    );
    assert_eq!(levels.update_chunk_level(pos, None), LevelAction::Unload);
    assert_eq!(levels.level(pos), None);
    assert!(levels.is_unloading(pos));
}

#[test]
fn unloading_chunk_is_taken_back() {
    let mut levels = ChunkLevels::new();
    let pos = ChunkPos::new(-1, 0);
    let other = ChunkPos::new(0, -1);
    levels.update_chunk_level(pos, Some(3));
    levels.update_chunk_level(other, Some(4));
    levels.update_chunk_level(pos, None);

    assert_eq!(
        levels.update_chunk_level(pos, Some(9)),
        LevelAction::Activate { origin: HolderOrigin::Unloading, level: 9, level_changed: true }
    );
    assert!(!levels.is_unloading(pos));
    assert_eq!(levels.level(pos), Some(9));
    assert_eq!(levels.level(other), Some(4));
}

#[test]
fn scheduling_plan_lists_full_chunks() {
    let mut levels = ChunkLevels::new();
    let first = ChunkPos::new(0, 0);
    let second = ChunkPos::new(1, 0);
    let third = ChunkPos::new(2, 0);
    let plan = levels.apply_level_changes(&[
        LevelChange { pos: first, new_level: Some(1), full: true },
        LevelChange { pos: second, new_level: Some(40), full: false },
        LevelChange { pos: third, new_level: None, full: true },
        LevelChange { pos: second, new_level: Some(2), full: true },
    ]);

    assert_eq!(plan.scheduled, vec![first, second]);
    assert_eq!(plan.actions.len(), 4);
    assert_eq!(plan.actions[2], LevelAction::Ignore);
    assert_eq!(
        plan.actions[3],
        LevelAction::Activate { origin: HolderOrigin::Active, level: 2, level_changed: true }
    );
    assert!(!plan.parallel);
}

#[test]
fn scheduling_turns_parallel_at_a_hundred_chunks() {
    let changes: Vec<LevelChange> = (0..100)
        .map(|x| LevelChange { pos: ChunkPos::new(x, 0), new_level: Some(1), full: true })
        .collect();

    assert!(!ChunkLevels::new().apply_level_changes(&changes[..99]).parallel);
    assert!(ChunkLevels::new().apply_level_changes(&changes).parallel);
}

#[test]
fn unloads_wait_for_references_and_saves() {
    let mut levels = ChunkLevels::new();
    let pos = ChunkPos::new(5, 5);
    levels.update_chunk_level(pos, Some(1));
    levels.update_chunk_level(pos, None);

    assert_eq!(levels.process_unload(pos, 2, false, true), UnloadAction::Keep);
    assert_eq!(levels.process_unload(pos, 1, true, true), UnloadAction::Save);
    assert!(levels.is_unloading(pos));
    assert_eq!(levels.process_unload(pos, 1, false, true), UnloadAction::Release);
    assert!(!levels.is_unloading(pos));

    levels.update_chunk_level(pos, Some(1));
    levels.update_chunk_level(pos, None);
    assert_eq!(levels.process_unload(pos, 1, false, false), UnloadAction::Remove);
    assert!(!levels.is_unloading(pos));
}

#[test]
fn views_swap_their_tickets() {
    let mut last = None;
    let first = PlayerChunkView::new(ChunkPos::new(0, 0), 10);
    let second = PlayerChunkView::new(ChunkPos::new(1, 0), 40);
    let first_ticket = ChunkTicket { center: ChunkPos::new(0, 0), level: 22 };
    let second_ticket = ChunkTicket { center: ChunkPos::new(1, 0), level: 0 };

    assert_eq!(
        update_player_view(&mut last, first, 32),
        ViewChange::Joined { add: first_ticket }
    );
    assert_eq!(update_player_view(&mut last, first, 32), ViewChange::Unchanged);
    assert_eq!(
        update_player_view(&mut last, second, 32),
        ViewChange::Moved { last: first, remove: first_ticket, add: second_ticket }
    );
    assert_eq!(remove_player_view(&mut last, 32), Some(second_ticket));
    assert_eq!(last, None);
    assert_eq!(remove_player_view(&mut last, 32), None);
    assert_eq!(ticket_level(32, 2), 30);
}

#[test]
fn radius_lists_rows_of_chunks() {
    assert_eq!(chunks_in_radius(ChunkPos::new(4, -7), 0), vec![ChunkPos::new(4, -7)]);

    let chunks = chunks_in_radius(ChunkPos::new(0, 0), 1);
    assert_eq!(chunks.len(), 9);
    assert_eq!(chunks[0], ChunkPos::new(-1, -1));
    assert_eq!(chunks[1], ChunkPos::new(0, -1));
    assert_eq!(chunks[3], ChunkPos::new(-1, 0));
    assert_eq!(chunks[8], ChunkPos::new(1, 1));
}

#[test]
fn game_ticks_log_every_hundredth_tick() {
    let plan = plan_game_tick(300, true);
    assert!(plan.logs_status);
    assert_eq!(plan.chunk_tick, Some(300));

    let plan = plan_game_tick(301, false);
    assert!(!plan.logs_status);
    assert_eq!(plan.chunk_tick, None);

    assert_eq!(plan_game_tick(0x1_8000_0001, true).chunk_tick, Some(i32::MIN + 1));
}

#[test]
fn tickable_chunks_keep_their_order() {
    let chunks = [
        (ChunkPos::new(0, 0), true),
        (ChunkPos::new(1, 0), false),
        (ChunkPos::new(2, 0), true),
    ];
    assert_eq!(collect_tickable(&chunks), vec![ChunkPos::new(0, 0), ChunkPos::new(2, 0)]);
}

#[test]
fn only_written_chunks_count_as_saved() {
    let outcomes = [
        SaveOutcome::Written,
        SaveOutcome::Skipped,
        SaveOutcome::Clean,
        SaveOutcome::Failed,
        SaveOutcome::Written,
    ];
    assert_eq!(count_saved(&outcomes), 2);
}

#[test]
fn scheduled_ticks_run_by_priority_then_order() {
    let tick = |tick_type: u8, priority: i8, sub_tick_order: i64| ScheduledTick {
        pos: BlockPos::new(0, 0, 0),
        tick_type,
        priority,
        sub_tick_order,
    };
    let ticks = [
        tick(0, 0, 9),
        tick(1, -3, 12),
        tick(2, 0, 4),
        tick(3, 0, 9),
        tick(4, 2, 1),
        tick(5, -3, 2),
    ];
    let ordered: Vec<u8> =
        order_scheduled_ticks(&ticks).into_iter().map(|tick| tick.tick_type).collect();

    assert_eq!(ordered, vec![5, 1, 2, 0, 3, 4]);
    assert!(order_scheduled_ticks::<u8>(&[]).is_empty());
}

#[test]
fn due_ticks_apply_to_what_they_were_scheduled_for() {
    let tick =
        ScheduledTick { pos: BlockPos::new(1, 2, 3), tick_type: 7u8, priority: 0, sub_tick_order: 0 };
    assert!(tick.applies_to(&7));
    assert!(!tick.applies_to(&8));
}
