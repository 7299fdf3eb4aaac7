//! What the map of loaded chunks decides: which chunks are active, which are
//! let go, what runs in a tick, and what a player's view asks for.
use std::time::Duration;
use vstd::prelude::*;

use crate::count::count_where;
use crate::fx::{map_contains, map_get, map_insert, map_new, map_remove, FxMap};
use crate::pending::{chunk_key, chunk_key_injective, key_of_chunk};
use crate::position::ChunkPos;

verus! {

/// Timing information for the game tick portion of chunk map operations.
#[derive(Debug, Default)]
pub struct ChunkMapGameTickTimings {
    /// Time spent broadcasting block changes.
    pub broadcast_changes: Duration,
    /// Time spent collecting tickable chunks.
    pub collect_tickable: Duration,
    /// Time spent ticking chunks (random ticks, etc.).
    pub tick_chunks: Duration,
    /// Number of chunks that were ticked.
    pub tickable_count: usize,
    /// Total number of loaded chunks.
    pub total_chunks: usize,
}

/// Timing information for the chunk scheduling tick operations.
#[derive(Debug, Default)]
pub struct ChunkMapSchedulingTimings {
    /// Time spent processing ticket updates.
    pub ticket_updates: Duration,
    /// Time spent creating/updating chunk holders.
    pub holder_creation: Duration,
    /// Time spent scheduling generation tasks.
    pub schedule_generation: Duration,
    /// Number of holders scheduled for generation.
    pub scheduled_count: usize,
    /// Time spent spawning generation tasks.
    pub run_generation: Duration,
    /// Time spent processing chunk unloads.
    pub process_unloads: Duration,
}

/// The ticket level of a chunk that is let go.
pub const UNLOADED_LEVEL: u8 = 255;

/// From how many active chunks on generation is scheduled in parallel.
pub const PARALLEL_SCHEDULING_THRESHOLD: usize = 100;

/// Where the holder of an activated chunk comes from.
#[derive(Debug, Clone, Copy, PartialEq, Eq, Structural)]
pub enum HolderOrigin {
    /// The chunk was active.
    Active,
    /// The chunk was being unloaded and is taken back.
    Unloading,
    /// The chunk had no holder.
    New,
}

/// What becomes of a chunk whose level changes.
#[derive(Debug, Clone, Copy, PartialEq, Eq, Structural)]
pub enum LevelAction {
    /// The chunk has neither a level nor a holder.
    Ignore,
    /// The chunk is active.
    Activate {
        /// Where its holder comes from.
        origin: HolderOrigin,
        /// Its level.
        level: u8,
        /// Whether its holder had another level before.
        level_changed: bool,
    },
    /// The chunk is let go.
    Unload,
}

/// The new level of a chunk.
#[derive(Debug, Clone, Copy, PartialEq, Eq, Structural)]
pub struct LevelChange {
    /// The chunk.
    pub pos: ChunkPos,
    /// Its level, if it still has one.
    pub new_level: Option<u8>,
    /// Whether chunks of that level are generated completely.
    pub full: bool,
}

/// What is done for the level changes of one scheduling tick.
#[derive(Debug)]
pub struct SchedulingPlan {
    /// What becomes of each chunk.
    pub actions: Vec<LevelAction>,
    /// The chunks whose generation is scheduled.
    pub scheduled: Vec<ChunkPos>,
    /// Whether they are scheduled in parallel.
    pub parallel: bool,
}

/// What becomes of a chunk that is being unloaded.
#[derive(Debug, Clone, Copy, PartialEq, Eq, Structural)]
pub enum UnloadAction {
    /// It is kept.
    Keep,
    /// It is saved, and kept until it is clean.
    Save,
    /// It is removed.
    Remove,
    /// It is removed, and storage is told.
    Release,
}

/// The ticket levels of chunks with a holder.
pub struct ChunkLevels {
    active: FxMap<u64, u8>,
    unloading: FxMap<u64, u8>,
}

/// The chunks with a holder.
#[verifier::ext_equal]
pub struct Levels {
    /// The levels of active chunks.
    pub active: Map<ChunkPos, u8>,
    /// The chunks that are being unloaded.
    pub unloading: Set<ChunkPos>,
}

impl Levels {
    /// No chunk is both active and being unloaded.
    pub open spec fn disjoint(self) -> bool {
        forall|pos: ChunkPos|
            !(#[trigger] self.active.contains_key(pos) && self.unloading.contains(pos))
    }

    /// The chunks after a level change.
    pub open spec fn after(self, pos: ChunkPos, new_level: Option<u8>) -> Levels {
        match new_level {
            Some(level) => Levels {
                active: self.active.insert(pos, level),
                unloading: self.unloading.remove(pos),
            },
            None => if self.active.contains_key(pos) {
                Levels {
                    active: self.active.remove(pos),
                    unloading: self.unloading.insert(pos),
                }
            } else {
                self
            },
        }
    }

    /// What becomes of a chunk whose level changes.
    pub open spec fn action(self, pos: ChunkPos, new_level: Option<u8>) -> LevelAction {
        match new_level {
            Some(level) => if self.active.contains_key(pos) {
                LevelAction::Activate {
                    origin: HolderOrigin::Active,
                    level,
                    level_changed: self.active[pos] != level,
                }
            } else if self.unloading.contains(pos) {
                LevelAction::Activate {
                    origin: HolderOrigin::Unloading,
                    level,
                    level_changed: level != UNLOADED_LEVEL,
                }
            } else {
                LevelAction::Activate { origin: HolderOrigin::New, level, level_changed: false }
            },
            None => if self.active.contains_key(pos) {
                LevelAction::Unload
            } else {
                LevelAction::Ignore
            },
        }
    }

    /// The chunks after the first `n` level changes.
    pub open spec fn after_all(self, changes: Seq<LevelChange>, n: int) -> Levels
        decreases n,
    {
        if n <= 0 {
            self
        } else {
            self.after_all(changes, n - 1).after(changes[n - 1].pos, changes[n - 1].new_level)
        }
    }
}

/// A chunk that is let go and asked for again gets its holder back.
pub proof fn unloading_is_undone(levels: Levels, pos: ChunkPos, level: u8)
    requires
        levels.disjoint(),
        levels.active.contains_key(pos),
    ensures
        levels.after(pos, None).action(pos, Some(level)) == (LevelAction::Activate {
            origin: HolderOrigin::Unloading,
            level,
            level_changed: level != UNLOADED_LEVEL,
        }),
        levels.after(pos, None).after(pos, Some(level)) == (Levels {
            active: levels.active.insert(pos, level),
            unloading: levels.unloading,
        }),
{
    let end = levels.after(pos, None).after(pos, Some(level));
    assert(end.active =~= levels.active.insert(pos, level));
    assert(end.unloading =~= levels.unloading);
}

/// Level changes touch no other chunk.
pub proof fn level_change_is_local(
    levels: Levels,
    pos: ChunkPos,
    new_level: Option<u8>,
    other: ChunkPos,
)
    requires
        other != pos,
    ensures
        levels.after(pos, new_level).active.contains_key(other) == levels.active.contains_key(
            other,
        ),
        levels.active.contains_key(other) ==> levels.after(pos, new_level).active[other]
            == levels.active[other],
        levels.after(pos, new_level).unloading.contains(other) == levels.unloading.contains(other),
{
}

/// The chunks whose generation is scheduled: the active ones of a full level,
/// in their order.
pub open spec fn scheduled_chunks(changes: Seq<LevelChange>) -> Seq<ChunkPos>
    decreases changes.len(),
{
    if changes.len() == 0 {
        Seq::empty()
    } else {
        let before = scheduled_chunks(changes.drop_last());
        let change = changes.last();
        if change.new_level is Some && change.full {
            before.push(change.pos)
        } else {
            before
        }
    }
}

/// The number of changes that leave their chunk active.
pub open spec fn active_changes(changes: Seq<LevelChange>) -> nat {
    count_where(changes, |change: LevelChange| change.new_level is Some)
}

impl View for ChunkLevels {
    type V = Levels;

    closed spec fn view(&self) -> Levels {
        Levels {
            active: Map::new(
                |pos: ChunkPos| self.active@.contains_key(chunk_key(pos)),
                |pos: ChunkPos| self.active@[chunk_key(pos)],
            ),
            unloading: Set::new(|pos: ChunkPos| self.unloading@.contains_key(chunk_key(pos))),
        }
    }
}

impl ChunkLevels {
    /// No chunk is both active and being unloaded, and chunks that are being
    /// unloaded have no level.
    pub closed spec fn wf(&self) -> bool {
        &&& self@.disjoint()
        &&& forall|key: u64| #[trigger]
            self.unloading@.contains_key(key) ==> self.unloading@[key] == UNLOADED_LEVEL
    }

    /// Creates levels without any chunk.
    #[must_use]
    pub fn new() -> (levels: Self)
        ensures
            levels.wf(),
            levels@ == (Levels { active: Map::empty(), unloading: Set::empty() }),
    {
        let levels = ChunkLevels { active: map_new(), unloading: map_new() };
        assert(levels@.active =~= Map::empty());
        assert(levels@.unloading =~= Set::empty());
        levels
    }

    /// Returns the level of an active chunk.
    #[must_use]
    pub fn level(&self, pos: ChunkPos) -> (level: Option<u8>)
        ensures
            level == (if self@.active.contains_key(pos) {
                Some(self@.active[pos])
            } else {
                None
            }),
    {
        match map_get(&self.active, key_of_chunk(pos)) {
            Some(level) => Some(*level),
            None => None,
        }
    }

    /// Returns whether a chunk is being unloaded.
    #[must_use]
    pub fn is_unloading(&self, pos: ChunkPos) -> (result: bool)
        ensures
            result == self@.unloading.contains(pos),
    {
        map_contains(&self.unloading, key_of_chunk(pos))
    }

    /// Gives a chunk its new level, or lets it go. The holder of a chunk that
    /// is being unloaded is taken back where there is one.
    pub fn update_chunk_level(&mut self, pos: ChunkPos, new_level: Option<u8>) -> (action:
        LevelAction)
        requires
            old(self).wf(),
        ensures
            final(self).wf(),
            final(self)@ == old(self)@.after(pos, new_level),
            action == old(self)@.action(pos, new_level),
    {
        let key: u64 = key_of_chunk(pos);
        let active: Option<u8> = self.level(pos);
        let action: LevelAction = match new_level {
            Some(level) => {
                let origin: HolderOrigin;
                let before: u8;
                match active {
                    Some(old_level) => {
                        origin = HolderOrigin::Active;
                        before = old_level;
                    },
                    None => {
                        match map_remove(&mut self.unloading, key) {
                            Some(old_level) => {
                                origin = HolderOrigin::Unloading;
                                before = old_level;
                            },
                            None => {
                                origin = HolderOrigin::New;
                                before = level;
                            },
                        }
                    },
                }
                map_insert(&mut self.active, key, level);
                LevelAction::Activate { origin, level, level_changed: before != level }
            },
            None => match active {
                Some(_) => {
                    let _ = map_remove(&mut self.active, key);
                    map_insert(&mut self.unloading, key, UNLOADED_LEVEL);
                    LevelAction::Unload
                },
                None => LevelAction::Ignore,
            },
        };
        proof {
            let expected = old(self)@.after(pos, new_level);
            assert(old(self)@.active.contains_key(pos) == old(self).active@.contains_key(key));
            assert forall|p: ChunkPos|
                #![trigger self@.active.dom().contains(p)]
                #![trigger expected.active.dom().contains(p)]
                #![trigger self@.active[p]]
                #![trigger self@.unloading.contains(p)]
                #![trigger expected.unloading.contains(p)]
                self@.active.dom().contains(p) == expected.active.dom().contains(p) && (
                expected.active.dom().contains(p) ==> self@.active[p] == expected.active[p])
                    && self@.unloading.contains(p) == expected.unloading.contains(p) by {
                assert(old(self)@.active.contains_key(p) == old(self).active@.contains_key(
                    chunk_key(p),
                ));
                if chunk_key(p) == key {
                    chunk_key_injective(p, pos);
                }
            }
            assert(self@.active =~= expected.active);
            assert(self@.unloading =~= expected.unloading);
            assert(expected.disjoint()) by {
                assert forall|p: ChunkPos|
                    !(#[trigger] expected.active.contains_key(p) && expected.unloading.contains(
                        p,
                    )) by {
                    assert(!(old(self)@.active.contains_key(p) && old(self)@.unloading.contains(p)));
                }
            }
        }
        action
    }

    /// Applies the level changes of one scheduling tick, in their order.
    pub fn apply_level_changes(&mut self, changes: &[LevelChange]) -> (plan: SchedulingPlan)
        requires
            old(self).wf(),
        ensures
            final(self).wf(),
            final(self)@ == old(self)@.after_all(changes@, changes@.len() as int),
            plan.actions@.len() == changes@.len(),
            forall|i: int|
                0 <= i < changes@.len() ==> #[trigger] plan.actions@[i] == old(self)@.after_all(
                    changes@,
                    i,
                ).action(changes@[i].pos, changes@[i].new_level),
            plan.scheduled@ == scheduled_chunks(changes@),
            plan.parallel == (active_changes(changes@) >= PARALLEL_SCHEDULING_THRESHOLD),
    {
        let mut actions: Vec<LevelAction> = Vec::new();
        let mut scheduled: Vec<ChunkPos> = Vec::new();
        let mut holders: usize = 0;
        let mut i: usize = 0;
        while i < changes.len()
            invariant
                i <= changes@.len(),
                self.wf(),
                self@ == old(self)@.after_all(changes@, i as int),
                actions@.len() == i,
                forall|j: int|
                    0 <= j < i ==> #[trigger] actions@[j] == old(self)@.after_all(
                        changes@,
                        j,
                    ).action(changes@[j].pos, changes@[j].new_level),
                scheduled@ == scheduled_chunks(changes@.take(i as int)),
                holders == active_changes(changes@.take(i as int)),
                holders <= i,
            decreases changes@.len() - i,
        {
            let change: LevelChange = changes[i];
            proof {
                assert(changes@.take(i as int + 1).drop_last() =~= changes@.take(i as int));
                assert(changes@.take(i as int + 1).last() == change);
            }
            actions.push(self.update_chunk_level(change.pos, change.new_level));
            if change.new_level.is_some() {
                holders += 1;
                if change.full {
                    scheduled.push(change.pos);
                }
            }
            i += 1;
        }
        assert(changes@.take(i as int) =~= changes@);
        SchedulingPlan { actions, scheduled, parallel: holders >= PARALLEL_SCHEDULING_THRESHOLD }
    }

    /// Decides what becomes of a chunk that is being unloaded, and forgets it
    /// where it is removed.
    ///
    /// `holders` counts the references to its holder; `generated` says whether
    /// the holder has a chunk.
    pub fn process_unload(
        &mut self,
        pos: ChunkPos,
        holders: usize,
        dirty: bool,
        generated: bool,
    ) -> (action: UnloadAction)
        requires
            old(self).wf(),
        ensures
            final(self).wf(),
            action == unload_action(holders, dirty, generated),
            final(self)@ == (if removes(action) {
                Levels { unloading: old(self)@.unloading.remove(pos), ..old(self)@ }
            } else {
                old(self)@
            }),
    {
        let action: UnloadAction = if holders != 1 {
            UnloadAction::Keep
        } else if dirty {
            UnloadAction::Save
        } else if !generated {
            UnloadAction::Remove
        } else {
            UnloadAction::Release
        };
        if matches!(action, UnloadAction::Remove | UnloadAction::Release) {
            let key: u64 = key_of_chunk(pos);
            let _ = map_remove(&mut self.unloading, key);
            proof {
                assert forall|p: ChunkPos|
                    self@.unloading.contains(p) == old(self)@.unloading.remove(pos).contains(p) by {
                    if chunk_key(p) == key {
                        chunk_key_injective(p, pos);
                    }
                }
                assert(self@.unloading =~= old(self)@.unloading.remove(pos));
                assert(self@.active =~= old(self)@.active);
                assert forall|p: ChunkPos|
                    !(#[trigger] self@.active.contains_key(p) && self@.unloading.contains(p)) by {
                    assert(!(old(self)@.active.contains_key(p) && old(self)@.unloading.contains(p)));
                }
            }
        }
        action
    }
}

/// What becomes of a chunk that is being unloaded. It stays while anything
/// else refers to it and while it is dirty.
pub open spec fn unload_action(holders: usize, dirty: bool, generated: bool) -> UnloadAction {
    if holders != 1 {
        UnloadAction::Keep
    } else if dirty {
        UnloadAction::Save
    } else if generated {
        UnloadAction::Release
    } else {
        UnloadAction::Remove
    }
}

/// The chunk is removed.
pub open spec fn removes(action: UnloadAction) -> bool {
    action == UnloadAction::Remove || action == UnloadAction::Release
}

/// What happens in a game tick besides telling clients of changes.
#[derive(Debug, Clone, Copy, PartialEq, Eq, Structural)]
pub struct GameTickPlan {
    /// Whether the number of chunks is logged.
    pub logs_status: bool,
    /// The tick that chunks are handed, if they tick.
    pub chunk_tick: Option<i32>,
}

/// The low 32 bits of a number, read as a signed number.
pub open spec fn low_bits(n: int) -> int {
    let low = n % 0x1_0000_0000;
    if low < 0x8000_0000 {
        low
    } else {
        low - 0x1_0000_0000
    }
}

/// Decides what happens in a game tick: every hundredth one is logged, and
/// chunks tick while the game runs normally.
#[must_use]
pub fn plan_game_tick(tick_count: u64, runs_normally: bool) -> (plan: GameTickPlan)
    ensures
        plan.logs_status == (tick_count % 100 == 0),
        plan.chunk_tick is Some == runs_normally,
        runs_normally ==> plan.chunk_tick->0 == low_bits(tick_count as int),
{
    let low: i64 = (tick_count % 0x1_0000_0000) as i64;
    let chunk_tick: i32 = if low < 0x8000_0000 {
        low as i32
    } else {
        (low - 0x1_0000_0000) as i32
    };
    GameTickPlan {
        logs_status: tick_count % 100 == 0,
        chunk_tick: if runs_normally {
            Some(chunk_tick)
        } else {
            None
        },
    }
}

/// The chunks that tick.
pub open spec fn ticked_chunks(chunks: Seq<(ChunkPos, bool)>) -> Seq<ChunkPos>
    decreases chunks.len(),
{
    if chunks.len() == 0 {
        Seq::empty()
    } else {
        let before = ticked_chunks(chunks.drop_last());
        if chunks.last().1 {
            before.push(chunks.last().0)
        } else {
            before
        }
    }
}

/// Returns the chunks that tick, of chunks with whether their level ticks.
#[must_use]
pub fn collect_tickable(chunks: &[(ChunkPos, bool)]) -> (tickable: Vec<ChunkPos>)
    ensures
        tickable@ == ticked_chunks(chunks@),
{
    let mut tickable: Vec<ChunkPos> = Vec::new();
    let mut i: usize = 0;
    while i < chunks.len()
        invariant
            i <= chunks@.len(),
            tickable@ == ticked_chunks(chunks@.take(i as int)),
        decreases chunks@.len() - i,
    {
        proof {
            assert(chunks@.take(i as int + 1).drop_last() =~= chunks@.take(i as int));
            assert(chunks@.take(i as int + 1).last() == chunks@[i as int]);
        }
        let (pos, ticks) = chunks[i];
        if ticks {
            tickable.push(pos);
        }
        i += 1;
    }
    assert(chunks@.take(i as int) =~= chunks@);
    tickable
}

/// What came of saving a chunk.
#[derive(Debug, Clone, Copy, PartialEq, Eq, Structural)]
pub enum SaveOutcome {
    /// There was nothing to save.
    Skipped,
    /// The chunk was written.
    Written,
    /// The chunk was clean.
    Clean,
    /// The chunk could not be written.
    Failed,
}

/// Returns the number of chunks that were written.
#[must_use]
pub fn count_saved(outcomes: &[SaveOutcome]) -> (count: usize)
    ensures
        count == count_where(
            outcomes@,
            |outcome: SaveOutcome| outcome == SaveOutcome::Written,
        ),
{
    let ghost written = |outcome: SaveOutcome| outcome == SaveOutcome::Written;
    let mut count: usize = 0;
    let mut i: usize = 0;
    while i < outcomes.len()
        invariant
            i <= outcomes@.len(),
            count <= i,
            written == (|outcome: SaveOutcome| outcome == SaveOutcome::Written),
            count == count_where(outcomes@.take(i as int), written),
        decreases outcomes@.len() - i,
    {
        proof {
            assert(outcomes@.take(i as int + 1).drop_last() =~= outcomes@.take(i as int));
        }
        if outcomes[i] == SaveOutcome::Written {
            count += 1;
        }
        i += 1;
    }
    assert(outcomes@.take(i as int) =~= outcomes@);
    count
}

/// The chunks that a player sees: those around a center.
#[derive(Debug, Clone, Copy, PartialEq, Eq, Structural)]
pub struct PlayerChunkView {
    /// The chunk of the player.
    pub center: ChunkPos,
    /// How far the player sees.
    pub view_distance: u8,
}

/// A demand for a chunk and those around it.
#[derive(Debug, Clone, Copy, PartialEq, Eq, Structural)]
pub struct ChunkTicket {
    /// The chunk.
    pub center: ChunkPos,
    /// Its level: the lower, the farther the demand reaches.
    pub level: u8,
}

/// The level of a ticket that reaches a distance.
pub open spec fn level_for_distance(max_view_distance: u8, distance: u8) -> u8 {
    if distance <= max_view_distance {
        (max_view_distance - distance) as u8
    } else {
        0
    }
}

/// Returns the level of a ticket that reaches a distance.
#[must_use]
pub fn ticket_level(max_view_distance: u8, distance: u8) -> (level: u8)
    ensures
        level == level_for_distance(max_view_distance, distance),
{
    if distance <= max_view_distance {
        max_view_distance - distance
    } else {
        0
    }
}

impl PlayerChunkView {
    /// Creates a view.
    #[must_use]
    pub fn new(center: ChunkPos, view_distance: u8) -> (view: Self)
        ensures
            view == (PlayerChunkView { center, view_distance }),
    {
        PlayerChunkView { center, view_distance }
    }

    /// The ticket of the view.
    pub open spec fn spec_ticket(self, max_view_distance: u8) -> ChunkTicket {
        ChunkTicket {
            center: self.center,
            level: level_for_distance(max_view_distance, self.view_distance),
        }
    }

    /// Returns the ticket of the view.
    #[must_use]
    pub fn ticket(self, max_view_distance: u8) -> (ticket: ChunkTicket)
        ensures
            ticket == self.spec_ticket(max_view_distance),
    {
        ChunkTicket {
            center: self.center,
            level: ticket_level(max_view_distance, self.view_distance),
        }
    }
}

/// What a player's new view asks for.
#[derive(Debug, Clone, Copy, PartialEq, Eq, Structural)]
pub enum ViewChange {
    /// The view is the one that the player had.
    Unchanged,
    /// The player had none: everything in view is sent.
    Joined {
        /// The ticket to add.
        add: ChunkTicket,
    },
    /// The player had another one: what came into view is sent, what left it
    /// is dropped.
    Moved {
        /// The view that the player had.
        last: PlayerChunkView,
        /// The ticket to remove.
        remove: ChunkTicket,
        /// The ticket to add.
        add: ChunkTicket,
    },
}

/// Gives a player a view, and returns what that asks for. A player with a view
/// has its ticket and no other: what is removed is the ticket of the last view,
/// what is added that of the new one.
pub fn update_player_view(
    last_view: &mut Option<PlayerChunkView>,
    view: PlayerChunkView,
    max_view_distance: u8,
) -> (change: ViewChange)
    ensures
        *final(last_view) == Some(view),
        change == (match *old(last_view) {
            None => ViewChange::Joined { add: view.spec_ticket(max_view_distance) },
            Some(last) => if last == view {
                ViewChange::Unchanged
            } else {
                ViewChange::Moved {
                    last,
                    remove: last.spec_ticket(max_view_distance),
                    add: view.spec_ticket(max_view_distance),
                }
            },
        }),
{
    let add: ChunkTicket = view.ticket(max_view_distance);
    let change: ViewChange = match *last_view {
        None => ViewChange::Joined { add },
        Some(last) => if last == view {
            ViewChange::Unchanged
        } else {
            ViewChange::Moved { last, remove: last.ticket(max_view_distance), add }
        },
    };
    *last_view = Some(view);
    change
}

/// Takes a player's view away, and returns the ticket to remove.
pub fn remove_player_view(
    last_view: &mut Option<PlayerChunkView>,
    max_view_distance: u8,
) -> (ticket: Option<ChunkTicket>)
    ensures
        *final(last_view) == None::<PlayerChunkView>,
        ticket == (match *old(last_view) {
            None => None,
            Some(last) => Some(last.spec_ticket(max_view_distance)),
        }),
{
    let ticket: Option<ChunkTicket> = match *last_view {
        None => None,
        Some(last) => Some(last.ticket(max_view_distance)),
    };
    *last_view = None;
    ticket
}

/// Returns the chunks of the square around a center, row by row.
#[must_use]
pub fn chunks_in_radius(center: ChunkPos, radius: u8) -> (chunks: Vec<ChunkPos>)
    requires
        i32::MIN <= center.x - radius && center.x + radius <= i32::MAX,
        i32::MIN <= center.z - radius && center.z + radius <= i32::MAX,
    ensures
        chunks@.len() == (2 * radius + 1) * (2 * radius + 1),
        forall|dz: int, dx: int|
            -radius <= dz <= radius && -radius <= dx <= radius ==> #[trigger] chunks@[
                row_index(radius as int, dz, dx)] == (ChunkPos {
                x: (center.x + dx) as i32,
                z: (center.z + dz) as i32,
            }),
{
    let reach: i32 = radius as i32;
    let mut chunks: Vec<ChunkPos> = Vec::new();
    let mut dz: i32 = -reach;
    proof {
        lemma_first_row(radius as int);
    }
    while dz <= reach
        invariant
            reach == radius,
            -reach <= dz <= reach + 1,
            i32::MIN <= center.x - radius && center.x + radius <= i32::MAX,
            i32::MIN <= center.z - radius && center.z + radius <= i32::MAX,
            chunks@.len() == row_index(radius as int, dz as int, -(radius as int)),
            forall|z: int, x: int|
                -radius <= z < dz && -radius <= x <= radius ==> #[trigger] chunks@[
                    row_index(radius as int, z, x)] == (ChunkPos {
                    x: (center.x + x) as i32,
                    z: (center.z + z) as i32,
                }),
        decreases reach + 1 - dz,
    {
        let mut dx: i32 = -reach;
        while dx <= reach
            invariant
                reach == radius,
                -reach <= dz <= reach,
                -reach <= dx <= reach + 1,
                i32::MIN <= center.x - radius && center.x + radius <= i32::MAX,
                i32::MIN <= center.z - radius && center.z + radius <= i32::MAX,
                chunks@.len() == row_index(radius as int, dz as int, dx as int),
                forall|z: int, x: int|
                    -radius <= z <= dz && -radius <= x <= radius && (z < dz || x < dx)
                        ==> #[trigger] chunks@[row_index(radius as int, z, x)] == (ChunkPos {
                        x: (center.x + x) as i32,
                        z: (center.z + z) as i32,
                    }),
            decreases reach + 1 - dx,
        {
            let ghost before = chunks@;
            chunks.push(ChunkPos::new(center.x + dx, center.z + dz));
            proof {
                assert forall|z: int, x: int|
                    -radius <= z <= dz && -radius <= x <= radius && (z < dz || x < dx
                        + 1) implies #[trigger] chunks@[row_index(radius as int, z, x)] == (
                ChunkPos { x: (center.x + x) as i32, z: (center.z + z) as i32 }) by {
                    if z < dz {
                        lemma_row_before(radius as int, z, x, dz as int, dx as int);
                        assert(before[row_index(radius as int, z, x)] == chunks@[row_index(
                            radius as int,
                            z,
                            x,
                        )]);
                    } else if x < dx {
                        lemma_row_before(radius as int, z, x, dz as int, dx as int);
                        assert(before[row_index(radius as int, z, x)] == chunks@[row_index(
                            radius as int,
                            z,
                            x,
                        )]);
                    }
                }
            }
            dx += 1;
        }
        proof {
            lemma_next_row(radius as int, dz as int);
        }
        dz += 1;
    }
    proof {
        lemma_square_size(radius as int);
    }
    chunks
}

/// The place of a chunk in the rows of a square.
pub open spec fn row_index(radius: int, dz: int, dx: int) -> int {
    (dz + radius) * (2 * radius + 1) + dx + radius
}

proof fn lemma_row_before(radius: int, z: int, x: int, dz: int, dx: int)
    requires
        0 <= radius,
        -radius <= z <= dz,
        -radius <= x <= radius,
        -radius <= dx,
        z < dz || x < dx,
    ensures
        0 <= row_index(radius, z, x) < row_index(radius, dz, dx),
{
    assert((z + radius) * (2 * radius + 1) >= 0) by (nonlinear_arith)
        requires
            z + radius >= 0,
            radius >= 0,
    ;
    if z < dz {
        assert((z + radius) * (2 * radius + 1) + 2 * radius + 1 <= (dz + radius) * (2 * radius
            + 1)) by (nonlinear_arith)
            requires
                z + 1 <= dz,
                radius >= 0,
        ;
    }
}

proof fn lemma_first_row(radius: int)
    ensures
        row_index(radius, -radius, -radius) == 0,
{
    assert((-radius + radius) * (2 * radius + 1) == 0) by (nonlinear_arith);
}

proof fn lemma_next_row(radius: int, dz: int)
    ensures
        row_index(radius, dz, radius + 1) == row_index(radius, dz + 1, -radius),
{
    assert((dz + radius) * (2 * radius + 1) + 2 * radius + 1 == (dz + 1 + radius) * (2 * radius
        + 1)) by (nonlinear_arith);
}

proof fn lemma_square_size(radius: int)
    ensures
        row_index(radius, radius + 1, -radius) == (2 * radius + 1) * (2 * radius + 1),
{
    assert(radius + 1 + radius == 2 * radius + 1);
}

} // verus!
