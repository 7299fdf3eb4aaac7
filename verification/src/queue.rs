//! Queues of light propagation work keyed by block position.
use vstd::prelude::*;

use crate::position::{BlockPos, Direction};
use crate::MAX_LIGHT_LEVEL;

verus! {

const QUEUE_ENTRY_LEVEL_MASK: u64 = 0b1111;

const QUEUE_ENTRY_DIRECTIONS_MASK: u64 = 0b11_1111_0000;

const QUEUE_ENTRY_FLAG_FROM_EMPTY_SHAPE: u64 = 1024;

const QUEUE_ENTRY_FLAG_INCREASE_FROM_EMISSION: u64 = 2048;

const LIGHT_QUEUE_MIN_CAPACITY: usize = 512;

/// Packed light-propagation queue entry.
///
/// The source level stands in bits 0..3, one propagation bit per direction in
/// bits 4..9, and two increase flags in bits 10 and 11.
#[derive(Debug, Clone, Copy, PartialEq, Eq, Structural)]
pub struct LightQueueEntry(pub u64);

/// The value of a direction's bit in a queue entry.
pub open spec fn direction_value(direction: Direction) -> u64 {
    match direction {
        Direction::Down => 16,
        Direction::Up => 32,
        Direction::North => 64,
        Direction::South => 128,
        Direction::West => 256,
        Direction::East => 512,
    }
}

/// The value of a bit that is set or not.
pub open spec fn bit_value(set: bool, value: u64) -> int {
    if set {
        value as int
    } else {
        0
    }
}

/// The sum of all direction bits.
pub open spec fn all_directions() -> int {
    1008
}

/// The number that packs a level, direction bits and the two increase flags.
pub open spec fn entry_raw(level: u8, directions: int, empty_shape: bool, emission: bool) -> int {
    level as int % 16 + directions + bit_value(empty_shape, 1024) + bit_value(emission, 2048)
}

/// Whether the bit of the given value is set.
pub open spec fn value_is_set(raw: u64, value: u64) -> bool {
    (raw / value) % 2 == 1
}

proof fn lemma_read_bits(raw: u64)
    by (bit_vector)
    ensures
        raw & 15 == raw % 16,
        raw & 15 < 16,
        (raw & 16 != 0) <==> (raw / 16) % 2 == 1,
        (raw & 32 != 0) <==> (raw / 32) % 2 == 1,
        (raw & 64 != 0) <==> (raw / 64) % 2 == 1,
        (raw & 128 != 0) <==> (raw / 128) % 2 == 1,
        (raw & 256 != 0) <==> (raw / 256) % 2 == 1,
        (raw & 512 != 0) <==> (raw / 512) % 2 == 1,
        (raw & 1024 != 0) <==> (raw / 1024) % 2 == 1,
        (raw & 2048 != 0) <==> (raw / 2048) % 2 == 1,
{
}

proof fn lemma_with_level(entry: u64, level: u8)
    by (bit_vector)
    requires
        entry < 4096,
    ensures
        entry & !15u64 | (level as u64 & 15) == (entry - entry % 16) + level % 16,
{
}

proof fn lemma_with_direction(entry: u64, bit: u64)
    by (bit_vector)
    requires
        bit == 16 || bit == 32 || bit == 64 || bit == 128 || bit == 256 || bit == 512,
        entry < 4096,
    ensures
        (entry / bit) % 2 == 0 ==> entry | bit == entry + bit,
        (entry / bit) % 2 == 0 ==> entry + bit < 4096,
        (entry / bit) % 2 == 1 ==> entry & !bit == entry - bit,
        entry / 1024 % 2 == 0 ==> entry | 1024 == entry + 1024,
{
}

impl LightQueueEntry {
    /// Creates a decrease entry that propagates to all directions except one.
    #[must_use]
    pub fn decrease_skip_one_direction(old_from_level: u8, skip_direction: Direction) -> (entry:
        Self)
        ensures
            entry.0 == entry_raw(
                old_from_level,
                all_directions() - direction_value(skip_direction),
                false,
                false,
            ),
    {
        Self::with_level(
            Self::without_direction(QUEUE_ENTRY_DIRECTIONS_MASK, skip_direction),
            old_from_level,
        )
    }

    /// Creates a decrease entry that propagates to all directions.
    #[must_use]
    pub fn decrease_all_directions(old_from_level: u8) -> (entry: Self)
        ensures
            entry.0 == entry_raw(old_from_level, all_directions(), false, false),
    {
        Self::with_level(QUEUE_ENTRY_DIRECTIONS_MASK, old_from_level)
    }

    /// Creates an increase entry sourced from a block's light emission.
    #[must_use]
    pub fn increase_light_from_emission(new_from_level: u8, from_empty_shape: bool) -> (entry: Self)
        ensures
            entry.0 == entry_raw(new_from_level, all_directions(), from_empty_shape, true),
    {
        let mut entry: u64 = QUEUE_ENTRY_DIRECTIONS_MASK | QUEUE_ENTRY_FLAG_INCREASE_FROM_EMISSION;
        assert(entry == 1008 + 2048) by {
            assert(0b11_1111_0000u64 | 2048u64 == 3056) by (bit_vector);
        }
        if from_empty_shape {
            proof {
                lemma_with_direction(entry, 16);
            }
            entry = entry | QUEUE_ENTRY_FLAG_FROM_EMPTY_SHAPE;
        }
        Self::with_level(entry, new_from_level)
    }

    /// Creates an increase entry that propagates to all directions except one.
    #[must_use]
    pub fn increase_skip_one_direction(
        new_from_level: u8,
        from_empty_shape: bool,
        skip_direction: Direction,
    ) -> (entry: Self)
        ensures
            entry.0 == entry_raw(
                new_from_level,
                all_directions() - direction_value(skip_direction),
                from_empty_shape,
                false,
            ),
    {
        let mut entry: u64 = Self::without_direction(QUEUE_ENTRY_DIRECTIONS_MASK, skip_direction);
        if from_empty_shape {
            proof {
                lemma_with_direction(entry, 16);
            }
            entry = entry | QUEUE_ENTRY_FLAG_FROM_EMPTY_SHAPE;
        }
        Self::with_level(entry, new_from_level)
    }

    /// Creates an increase entry that propagates to exactly one direction.
    #[must_use]
    pub fn increase_only_one_direction(
        new_from_level: u8,
        from_empty_shape: bool,
        direction: Direction,
    ) -> (entry: Self)
        ensures
            entry.0 == entry_raw(
                new_from_level,
                direction_value(direction) as int,
                from_empty_shape,
                false,
            ),
    {
        let mut entry: u64 = 0;
        if from_empty_shape {
            proof {
                lemma_with_direction(entry, 16);
            }
            entry = entry | QUEUE_ENTRY_FLAG_FROM_EMPTY_SHAPE;
        }
        Self::with_level(Self::with_direction(entry, direction), new_from_level)
    }

    /// Creates a sky-source increase entry for selected directions.
    #[must_use]
    pub fn increase_sky_source_in_directions(
        down: bool,
        north: bool,
        south: bool,
        west: bool,
        east: bool,
    ) -> (entry: Self)
        ensures
            entry.0 == entry_raw(
                MAX_LIGHT_LEVEL,
                bit_value(down, 16) + bit_value(north, 64) + bit_value(south, 128) + bit_value(
                    west,
                    256,
                ) + bit_value(east, 512),
                false,
                false,
            ),
    {
        let mut entry: u64 = MAX_LIGHT_LEVEL as u64;
        if down {
            entry = Self::with_direction(entry, Direction::Down);
        }
        if north {
            entry = Self::with_direction(entry, Direction::North);
        }
        if south {
            entry = Self::with_direction(entry, Direction::South);
        }
        if west {
            entry = Self::with_direction(entry, Direction::West);
        }
        if east {
            entry = Self::with_direction(entry, Direction::East);
        }
        LightQueueEntry(entry)
    }

    /// Creates a queue entry from its packed representation.
    #[must_use]
    pub fn from_raw(raw: u64) -> (entry: Self)
        ensures
            entry.0 == raw,
    {
        LightQueueEntry(raw)
    }

    /// Returns the packed representation.
    #[must_use]
    pub fn raw(self) -> (raw: u64)
        ensures
            raw == self.0,
    {
        self.0
    }

    /// Returns the source light level stored in this entry.
    #[must_use]
    pub fn from_level(self) -> (level: u8)
        ensures
            level == self.0 % 16,
    {
        proof {
            lemma_read_bits(self.0);
        }
        (self.0 & QUEUE_ENTRY_LEVEL_MASK) as u8
    }

    /// Returns true if propagation starts from an empty occlusion shape.
    #[must_use]
    pub fn is_from_empty_shape(self) -> (result: bool)
        ensures
            result == value_is_set(self.0, 1024),
    {
        proof {
            lemma_read_bits(self.0);
        }
        self.0 & QUEUE_ENTRY_FLAG_FROM_EMPTY_SHAPE != 0
    }

    /// Returns true if this increase came from block light emission.
    #[must_use]
    pub fn is_increase_from_emission(self) -> (result: bool)
        ensures
            result == value_is_set(self.0, 2048),
    {
        proof {
            lemma_read_bits(self.0);
        }
        self.0 & QUEUE_ENTRY_FLAG_INCREASE_FROM_EMISSION != 0
    }

    /// Returns true if this entry propagates in `direction`.
    #[must_use]
    pub fn should_propagate_in_direction(self, direction: Direction) -> (result: bool)
        ensures
            result == value_is_set(self.0, direction_value(direction)),
    {
        proof {
            lemma_read_bits(self.0);
        }
        self.0 & Self::direction_bit(direction) != 0
    }

    fn with_level(entry: u64, level: u8) -> (result: Self)
        requires
            entry < 4096,
        ensures
            result.0 == entry - entry % 16 + level % 16,
    {
        proof {
            lemma_with_level(entry, level);
        }
        LightQueueEntry(entry & !QUEUE_ENTRY_LEVEL_MASK | (level as u64 & QUEUE_ENTRY_LEVEL_MASK))
    }

    fn with_direction(entry: u64, direction: Direction) -> (result: u64)
        requires
            entry < 4096,
            !value_is_set(entry, direction_value(direction)),
        ensures
            result == entry + direction_value(direction),
            result < 4096,
    {
        proof {
            lemma_with_direction(entry, direction_value(direction));
        }
        entry | Self::direction_bit(direction)
    }

    fn without_direction(entry: u64, direction: Direction) -> (result: u64)
        requires
            entry < 4096,
            value_is_set(entry, direction_value(direction)),
        ensures
            result == entry - direction_value(direction),
    {
        proof {
            lemma_with_direction(entry, direction_value(direction));
        }
        entry & !Self::direction_bit(direction)
    }

    fn direction_bit(direction: Direction) -> (bit: u64)
        ensures
            bit == direction_value(direction),
    {
        match direction {
            Direction::Down => 16,
            Direction::Up => 32,
            Direction::North => 64,
            Direction::South => 128,
            Direction::West => 256,
            Direction::East => 512,
        }
    }
}

/// The packed fields of an entry do not disturb one another: each is read back
/// as it was packed.
pub proof fn entry_fields_round_trip(
    level: u8,
    down: bool,
    up: bool,
    north: bool,
    south: bool,
    west: bool,
    east: bool,
    empty_shape: bool,
    emission: bool,
    raw: u64,
)
    requires
        raw == entry_raw(
            level,
            bit_value(down, 16) + bit_value(up, 32) + bit_value(north, 64) + bit_value(south, 128)
                + bit_value(west, 256) + bit_value(east, 512),
            empty_shape,
            emission,
        ),
    ensures
        raw < 4096,
        raw % 16 == level % 16,
        value_is_set(raw, direction_value(Direction::Down)) == down,
        value_is_set(raw, direction_value(Direction::Up)) == up,
        value_is_set(raw, direction_value(Direction::North)) == north,
        value_is_set(raw, direction_value(Direction::South)) == south,
        value_is_set(raw, direction_value(Direction::West)) == west,
        value_is_set(raw, direction_value(Direction::East)) == east,
        value_is_set(raw, 1024) == empty_shape,
        value_is_set(raw, 2048) == emission,
{
    let q7 = bit_value(emission, 1);
    let q6 = bit_value(empty_shape, 1) + 2 * q7;
    let q5 = bit_value(east, 1) + 2 * q6;
    let q4 = bit_value(west, 1) + 2 * q5;
    let q3 = bit_value(south, 1) + 2 * q4;
    let q2 = bit_value(north, 1) + 2 * q3;
    let q1 = bit_value(up, 1) + 2 * q2;
    let q0 = bit_value(down, 1) + 2 * q1;
    let low = level as int % 16;
    assert(raw == low + 16 * q0);
    assert(raw / 16 == q0);
    assert(raw == (low + 16 * bit_value(down, 1)) + 32 * q1);
    assert(raw / 32 == q1);
    assert(raw / 64 == q2) by {
        assert(raw == (low + 16 * bit_value(down, 1) + 32 * bit_value(up, 1)) + 64 * q2);
    }
    assert(raw / 128 == q3) by {
        assert((raw as int) / 64 == bit_value(north, 1) + 2 * q3);
    }
    assert(raw / 256 == q4) by {
        assert((raw as int) / 128 == bit_value(south, 1) + 2 * q4);
    }
    assert(raw / 512 == q5) by {
        assert((raw as int) / 256 == bit_value(west, 1) + 2 * q5);
    }
    assert(raw / 1024 == q6) by {
        assert((raw as int) / 512 == bit_value(east, 1) + 2 * q6);
    }
    assert(raw / 2048 == q7) by {
        assert((raw as int) / 1024 == bit_value(empty_shape, 1) + 2 * q7);
    }
}

/// Decrease entry of a topmost sky source that went away.
#[must_use]
pub fn remove_top_sky_source_entry() -> (entry: LightQueueEntry)
    ensures
        entry.0 == entry_raw(MAX_LIGHT_LEVEL, all_directions(), false, false),
{
    LightQueueEntry::decrease_all_directions(MAX_LIGHT_LEVEL)
}

/// Decrease entry of a sky source below another one that went away.
#[must_use]
pub fn remove_sky_source_entry() -> (entry: LightQueueEntry)
    ensures
        entry.0 == entry_raw(MAX_LIGHT_LEVEL, all_directions() - 32, false, false),
{
    LightQueueEntry::decrease_skip_one_direction(MAX_LIGHT_LEVEL, Direction::Up)
}

/// Increase entry of a new sky source.
#[must_use]
pub fn add_sky_source_entry() -> (entry: LightQueueEntry)
    ensures
        entry.0 == entry_raw(MAX_LIGHT_LEVEL, all_directions() - 32, false, false),
{
    LightQueueEntry::increase_skip_one_direction(MAX_LIGHT_LEVEL, false, Direction::Up)
}

/// One typed light propagation queue item.
#[derive(Debug, Clone, Copy, PartialEq, Eq, Structural)]
pub struct QueuedLightUpdate {
    /// Block position whose light should propagate.
    pub block_pos: BlockPos,
    /// Packed propagation metadata.
    pub entry: LightQueueEntry,
}

/// Array-backed FIFO used for light propagation work.
#[derive(Debug)]
pub struct LightPropagationQueue {
    entries: Vec<QueuedLightUpdate>,
    read_index: usize,
}

impl View for LightPropagationQueue {
    type V = Seq<QueuedLightUpdate>;

    /// The work that remains, first in first.
    closed spec fn view(&self) -> Seq<QueuedLightUpdate> {
        self.entries@.skip(self.read_index as int)
    }
}

impl LightPropagationQueue {
    /// The read position lies within the entries.
    pub closed spec fn wf(&self) -> bool {
        self.read_index <= self.entries@.len()
    }

    /// Creates an empty propagation queue.
    #[must_use]
    pub fn new() -> (queue: Self)
        ensures
            queue.wf(),
            queue@ == Seq::<QueuedLightUpdate>::empty(),
    {
        let queue = LightPropagationQueue {
            entries: Vec::with_capacity(LIGHT_QUEUE_MIN_CAPACITY),
            read_index: 0,
        };
        assert(queue@ =~= Seq::<QueuedLightUpdate>::empty());
        queue
    }

    /// Returns true when no queued work remains.
    #[must_use]
    pub fn is_empty(&self) -> (result: bool)
        requires
            self.wf(),
        ensures
            result == (self@.len() == 0),
    {
        self.read_index >= self.entries.len()
    }

    /// Returns the number of queued items that have not been dequeued yet.
    #[must_use]
    pub fn len(&self) -> (result: usize)
        requires
            self.wf(),
        ensures
            result == self@.len(),
    {
        self.entries.len() - self.read_index
    }

    /// Adds propagation work to the back of the queue.
    pub fn enqueue(&mut self, block_pos: BlockPos, entry: LightQueueEntry)
        requires
            old(self).wf(),
        ensures
            final(self).wf(),
            final(self)@ == old(self)@.push(QueuedLightUpdate { block_pos, entry }),
    {
        self.entries.push(QueuedLightUpdate { block_pos, entry });
        assert(self@ =~= old(self)@.push(QueuedLightUpdate { block_pos, entry }));
    }

    /// Removes propagation work from the front of the queue.
    pub fn dequeue(&mut self) -> (result: Option<QueuedLightUpdate>)
        requires
            old(self).wf(),
        ensures
            final(self).wf(),
            match result {
                Some(update) => old(self)@.len() > 0 && update == old(self)@[0] && final(self)@
                    == old(self)@.skip(1),
                None => old(self)@.len() == 0 && final(self)@ == old(self)@,
            },
    {
        if self.is_empty() {
            self.clear();
            assert(self@ =~= old(self)@);
            return None;
        }
        let length: usize = self.entries.len();
        assert(self.read_index < length);
        let update: QueuedLightUpdate = self.entries[self.read_index];
        self.read_index += 1;
        assert(self@ =~= old(self)@.skip(1));
        if self.is_empty() {
            self.clear();
            assert(self@ =~= old(self)@.skip(1));
        }
        Some(update)
    }

    /// Removes all queued work while keeping allocated storage for reuse.
    pub fn clear(&mut self)
        ensures
            final(self).wf(),
            final(self)@ == Seq::<QueuedLightUpdate>::empty(),
    {
        self.entries.clear();
        self.read_index = 0;
        assert(self@ =~= Seq::<QueuedLightUpdate>::empty());
    }
}

impl Default for LightPropagationQueue {
    fn default() -> (queue: Self)
        ensures
            queue.wf(),
            queue@ == Seq::<QueuedLightUpdate>::empty(),
    {
        LightPropagationQueue::new()
    }
}

/// What remains in the increase and decrease queues.
#[verifier::ext_equal]
pub struct QueuesView {
    /// Increase work, first in first.
    pub increase: Seq<QueuedLightUpdate>,
    /// Decrease work, first in first.
    pub decrease: Seq<QueuedLightUpdate>,
}

/// Separate increase and decrease propagation queues.
#[derive(Debug)]
pub struct LightPropagationQueues {
    increase: LightPropagationQueue,
    decrease: LightPropagationQueue,
}

impl View for LightPropagationQueues {
    type V = QueuesView;

    closed spec fn view(&self) -> QueuesView {
        QueuesView { increase: self.increase@, decrease: self.decrease@ }
    }
}

impl LightPropagationQueues {
    /// Both queues are well formed.
    pub closed spec fn wf(&self) -> bool {
        self.increase.wf() && self.decrease.wf()
    }

    /// Creates empty increase and decrease queues.
    #[must_use]
    pub fn new() -> (queues: Self)
        ensures
            queues.wf(),
            queues@.increase.len() == 0,
            queues@.decrease.len() == 0,
    {
        LightPropagationQueues {
            increase: LightPropagationQueue::new(),
            decrease: LightPropagationQueue::new(),
        }
    }

    /// Returns true when either propagation queue contains work.
    #[must_use]
    pub fn has_work(&self) -> (result: bool)
        requires
            self.wf(),
        ensures
            result == (self@.increase.len() > 0 || self@.decrease.len() > 0),
    {
        !self.increase.is_empty() || !self.decrease.is_empty()
    }

    /// Enqueues decrease propagation work.
    pub fn enqueue_decrease(&mut self, block_pos: BlockPos, entry: LightQueueEntry)
        requires
            old(self).wf(),
        ensures
            final(self).wf(),
            final(self)@.increase == old(self)@.increase,
            final(self)@.decrease == old(self)@.decrease.push(
                QueuedLightUpdate { block_pos, entry },
            ),
    {
        self.decrease.enqueue(block_pos, entry);
    }

    /// Enqueues increase propagation work.
    pub fn enqueue_increase(&mut self, block_pos: BlockPos, entry: LightQueueEntry)
        requires
            old(self).wf(),
        ensures
            final(self).wf(),
            final(self)@.decrease == old(self)@.decrease,
            final(self)@.increase == old(self)@.increase.push(
                QueuedLightUpdate { block_pos, entry },
            ),
    {
        self.increase.enqueue(block_pos, entry);
    }

    /// Dequeues decrease propagation work.
    pub fn dequeue_decrease(&mut self) -> (result: Option<QueuedLightUpdate>)
        requires
            old(self).wf(),
        ensures
            final(self).wf(),
            final(self)@.increase == old(self)@.increase,
            match result {
                Some(update) => old(self)@.decrease.len() > 0 && update == old(self)@.decrease[0]
                    && final(self)@.decrease == old(self)@.decrease.skip(1),
                None => old(self)@.decrease.len() == 0 && final(self)@.decrease == old(
                    self,
                )@.decrease,
            },
    {
        self.decrease.dequeue()
    }

    /// Dequeues increase propagation work.
    pub fn dequeue_increase(&mut self) -> (result: Option<QueuedLightUpdate>)
        requires
            old(self).wf(),
        ensures
            final(self).wf(),
            final(self)@.decrease == old(self)@.decrease,
            match result {
                Some(update) => old(self)@.increase.len() > 0 && update == old(self)@.increase[0]
                    && final(self)@.increase == old(self)@.increase.skip(1),
                None => old(self)@.increase.len() == 0 && final(self)@.increase == old(
                    self,
                )@.increase,
            },
    {
        self.increase.dequeue()
    }

    /// Removes all increase and decrease work.
    pub fn clear(&mut self)
        ensures
            final(self).wf(),
            final(self)@.increase.len() == 0,
            final(self)@.decrease.len() == 0,
    {
        self.increase.clear();
        self.decrease.clear();
    }
}

impl Default for LightPropagationQueues {
    fn default() -> (queues: Self)
        ensures
            queues.wf(),
            queues@.increase.len() == 0,
            queues@.decrease.len() == 0,
    {
        LightPropagationQueues::new()
    }
}

/// Work leaves a queue in the order in which it came: after `work` was added
/// behind what was there, as many removals as there were items before bring
/// the queue to exactly `work`.
pub proof fn queue_is_fifo(before: Seq<QueuedLightUpdate>, work: Seq<QueuedLightUpdate>)
    ensures
        (before + work).skip(before.len() as int) == work,
        before.len() > 0 ==> (before + work)[0] == before[0],
{
    assert((before + work).skip(before.len() as int) =~= work);
}

} // verus!
