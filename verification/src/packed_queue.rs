//! Queues of packed light propagation work.
use vstd::prelude::*;

use crate::cache::PackedLightBlockPos;
use crate::position::Direction;

verus! {

/// The directions in which light propagates, in propagation order.
#[derive(Debug, Clone, Copy, PartialEq, Eq, Structural)]
pub enum LightAxisDirection {
    /// Towards positive x.
    PositiveX,
    /// Towards negative x.
    NegativeX,
    /// Towards positive z.
    PositiveZ,
    /// Towards negative z.
    NegativeZ,
    /// Towards positive y.
    PositiveY,
    /// Towards negative y.
    NegativeY,
}

/// Number of propagation directions.
pub const AXIS_DIRECTION_COUNT: usize = 6;

/// Number of horizontal propagation directions, which come first.
pub const HORIZONTAL_DIRECTION_COUNT: usize = 4;

impl LightAxisDirection {
    /// The direction at a place of the propagation order.
    pub open spec fn at(index: int) -> LightAxisDirection {
        if index == 0 {
            LightAxisDirection::PositiveX
        } else if index == 1 {
            LightAxisDirection::NegativeX
        } else if index == 2 {
            LightAxisDirection::PositiveZ
        } else if index == 3 {
            LightAxisDirection::NegativeZ
        } else if index == 4 {
            LightAxisDirection::PositiveY
        } else {
            LightAxisDirection::NegativeY
        }
    }

    /// The place of the direction in the propagation order.
    pub open spec fn place(self) -> int {
        match self {
            LightAxisDirection::PositiveX => 0,
            LightAxisDirection::NegativeX => 1,
            LightAxisDirection::PositiveZ => 2,
            LightAxisDirection::NegativeZ => 3,
            LightAxisDirection::PositiveY => 4,
            LightAxisDirection::NegativeY => 5,
        }
    }

    /// The direction that undoes this one.
    pub open spec fn spec_opposite(self) -> LightAxisDirection {
        match self {
            LightAxisDirection::PositiveX => LightAxisDirection::NegativeX,
            LightAxisDirection::NegativeX => LightAxisDirection::PositiveX,
            LightAxisDirection::PositiveZ => LightAxisDirection::NegativeZ,
            LightAxisDirection::NegativeZ => LightAxisDirection::PositiveZ,
            LightAxisDirection::PositiveY => LightAxisDirection::NegativeY,
            LightAxisDirection::NegativeY => LightAxisDirection::PositiveY,
        }
    }

    /// The block direction.
    pub open spec fn spec_direction(self) -> Direction {
        match self {
            LightAxisDirection::PositiveX => Direction::East,
            LightAxisDirection::NegativeX => Direction::West,
            LightAxisDirection::PositiveZ => Direction::South,
            LightAxisDirection::NegativeZ => Direction::North,
            LightAxisDirection::PositiveY => Direction::Up,
            LightAxisDirection::NegativeY => Direction::Down,
        }
    }

    /// Returns the direction at a place of the propagation order.
    #[must_use]
    pub fn from_index(index: usize) -> (direction: Self)
        requires
            index < AXIS_DIRECTION_COUNT,
        ensures
            direction == LightAxisDirection::at(index as int),
            direction.place() == index,
    {
        match index {
            0 => LightAxisDirection::PositiveX,
            1 => LightAxisDirection::NegativeX,
            2 => LightAxisDirection::PositiveZ,
            3 => LightAxisDirection::NegativeZ,
            4 => LightAxisDirection::PositiveY,
            _ => LightAxisDirection::NegativeY,
        }
    }

    /// Returns the direction that undoes this one.
    #[must_use]
    pub fn opposite(self) -> (direction: Self)
        ensures
            direction == self.spec_opposite(),
    {
        match self {
            LightAxisDirection::PositiveX => LightAxisDirection::NegativeX,
            LightAxisDirection::NegativeX => LightAxisDirection::PositiveX,
            LightAxisDirection::PositiveZ => LightAxisDirection::NegativeZ,
            LightAxisDirection::NegativeZ => LightAxisDirection::PositiveZ,
            LightAxisDirection::PositiveY => LightAxisDirection::NegativeY,
            LightAxisDirection::NegativeY => LightAxisDirection::PositiveY,
        }
    }

    /// Returns the block direction.
    #[must_use]
    pub fn direction(self) -> (direction: Direction)
        ensures
            direction == self.spec_direction(),
    {
        match self {
            LightAxisDirection::PositiveX => Direction::East,
            LightAxisDirection::NegativeX => Direction::West,
            LightAxisDirection::PositiveZ => Direction::South,
            LightAxisDirection::NegativeZ => Direction::North,
            LightAxisDirection::PositiveY => Direction::Up,
            LightAxisDirection::NegativeY => Direction::Down,
        }
    }

    fn bit(self) -> (bit: u8)
        ensures
            bit == axis_bit(self),
    {
        match self {
            LightAxisDirection::PositiveX => 1,
            LightAxisDirection::NegativeX => 2,
            LightAxisDirection::PositiveZ => 4,
            LightAxisDirection::NegativeZ => 8,
            LightAxisDirection::PositiveY => 16,
            LightAxisDirection::NegativeY => 32,
        }
    }
}

/// The bit of a direction in a direction set.
pub open spec fn axis_bit(direction: LightAxisDirection) -> u8 {
    match direction {
        LightAxisDirection::PositiveX => 1,
        LightAxisDirection::NegativeX => 2,
        LightAxisDirection::PositiveZ => 4,
        LightAxisDirection::NegativeZ => 8,
        LightAxisDirection::PositiveY => 16,
        LightAxisDirection::NegativeY => 32,
    }
}

/// A set of propagation directions.
#[derive(Debug, Clone, Copy, PartialEq, Eq, Structural)]
pub struct LightDirectionSet(pub u8);

proof fn lemma_set_bits(a: u8, b: u8)
    by (bit_vector)
    requires
        a == 1 || a == 2 || a == 4 || a == 8 || a == 16 || a == 32,
        b == 1 || b == 2 || b == 4 || b == 8 || b == 16 || b == 32,
    ensures
        63 & b != 0,
        (63 & !a) & b != 0 <==> a != b,
        a & b != 0 <==> a == b,
        (63u8 & !a) < 64,
{
}

impl LightDirectionSet {
    /// The direction is in the set.
    pub open spec fn has(self, direction: LightAxisDirection) -> bool {
        self.0 & axis_bit(direction) != 0
    }

    /// Every direction.
    #[must_use]
    pub fn all() -> (set: Self)
        ensures
            set.0 == 63,
            forall|direction: LightAxisDirection| #[trigger] set.has(direction),
    {
        proof {
            assert forall|direction: LightAxisDirection| #[trigger]
                LightDirectionSet(63).has(direction) by {
                lemma_set_bits(1, axis_bit(direction));
            }
        }
        LightDirectionSet(63)
    }

    /// One direction.
    #[must_use]
    pub fn only(direction: LightAxisDirection) -> (set: Self)
        ensures
            set.0 == axis_bit(direction),
            set.0 < 64,
            forall|other: LightAxisDirection| #[trigger] set.has(other) <==> other == direction,
    {
        proof {
            assert forall|other: LightAxisDirection| #[trigger]
                LightDirectionSet(axis_bit(direction)).has(other) <==> other == direction by {
                lemma_set_bits(axis_bit(direction), axis_bit(other));
            }
        }
        LightDirectionSet(direction.bit())
    }

    /// Every direction but one.
    #[must_use]
    pub fn all_except(direction: LightAxisDirection) -> (set: Self)
        ensures
            set.0 == 63 & !axis_bit(direction),
            set.0 < 64,
            forall|other: LightAxisDirection| #[trigger] set.has(other) <==> other != direction,
    {
        proof {
            lemma_set_bits(axis_bit(direction), 1);
            assert forall|other: LightAxisDirection| #[trigger]
                LightDirectionSet(63 & !axis_bit(direction)).has(other) <==> other
                    != direction by {
                lemma_set_bits(axis_bit(direction), axis_bit(other));
            }
        }
        LightDirectionSet(63 & !direction.bit())
    }

    /// Every direction but the one that undoes `direction`.
    #[must_use]
    pub fn all_except_opposite(direction: LightAxisDirection) -> (set: Self)
        ensures
            set.0 == 63 & !axis_bit(direction.spec_opposite()),
            set.0 < 64,
            forall|other: LightAxisDirection| #[trigger]
                set.has(other) <==> other != direction.spec_opposite(),
    {
        Self::all_except(direction.opposite())
    }

    /// Returns whether the direction is in the set.
    #[must_use]
    pub fn contains(self, direction: LightAxisDirection) -> (result: bool)
        ensures
            result == self.has(direction),
    {
        self.0 & direction.bit() != 0
    }
}

/// What a queue entry asks for besides propagation.
#[derive(Debug, Clone, Copy, PartialEq, Eq, Structural)]
pub struct LightQueueFlags {
    /// The level is written before it propagates.
    pub write_level: bool,
    /// The level propagates only while the source still has it.
    pub recheck_level: bool,
    /// The source block has faces that occlude.
    pub has_sided_transparent_blocks: bool,
}

impl LightQueueFlags {
    /// No flags.
    #[must_use]
    pub fn empty() -> (flags: Self)
        ensures
            flags == (LightQueueFlags {
                write_level: false,
                recheck_level: false,
                has_sided_transparent_blocks: false,
            }),
    {
        LightQueueFlags {
            write_level: false,
            recheck_level: false,
            has_sided_transparent_blocks: false,
        }
    }

    /// The flags for a source whose occluding faces are told by `sided`.
    #[must_use]
    pub fn sided(sided: bool) -> (flags: Self)
        ensures
            flags == (LightQueueFlags {
                write_level: false,
                recheck_level: false,
                has_sided_transparent_blocks: sided,
            }),
    {
        LightQueueFlags {
            write_level: false,
            recheck_level: false,
            has_sided_transparent_blocks: sided,
        }
    }

    /// These flags and the one that asks for a check of the level.
    #[must_use]
    pub fn with_recheck_level(self) -> (flags: Self)
        ensures
            flags == (LightQueueFlags { recheck_level: true, ..self }),
    {
        LightQueueFlags { recheck_level: true, ..self }
    }

    /// These flags and the one that asks for the level to be written.
    #[must_use]
    pub fn with_write_level(self) -> (flags: Self)
        ensures
            flags == (LightQueueFlags { write_level: true, ..self }),
    {
        LightQueueFlags { write_level: true, ..self }
    }
}

/// A queue entry packed into 64 bits: the position in bits 0..27, the level in
/// bits 28..31, the directions in bits 32..37, and the flags in bits 61..63.
#[derive(Debug, Clone, Copy, PartialEq, Eq, Structural)]
pub struct PackedLightQueueEntry(pub u64);

/// The packed fields of an entry.
pub open spec fn pack_entry(pos: u32, level: u8, directions: u8, write: u64, recheck: u64, sided: u64) -> u64 {
    (pos as u64) | ((level as u64 & 15) << 28u64) | ((directions as u64) << 32u64) | (write
        << 61u64) | (recheck << 62u64) | (sided << 63u64)
}

proof fn lemma_entry_bits(pos: u32, level: u8, directions: u8, write: u64, recheck: u64, sided: u64)
    by (bit_vector)
    requires
        pos < 0x1000_0000,
        directions < 64,
        write <= 1,
        recheck <= 1,
        sided <= 1,
    ensures
        ({
            let raw = pack_entry(pos, level, directions, write, recheck, sided);
            &&& (raw & 0x0FFF_FFFF) as u32 == pos
            &&& ((raw >> 28u64) & 15) as u8 == level % 16
            &&& ((raw >> 32u64) & 63) as u8 == directions
            &&& (raw >> 61u64) & 1 == write
            &&& (raw >> 62u64) & 1 == recheck
            &&& (raw >> 63u64) & 1 == sided
        }),
{
}

proof fn lemma_entry_reads(raw: u64)
    by (bit_vector)
    ensures
        (raw & 0x0FFF_FFFF) < 0x1000_0000,
        (raw >> 28u64) & 15 < 16,
        (raw >> 32u64) & 63 < 64,
{
}

impl PackedLightQueueEntry {
    /// The packed position.
    pub open spec fn pos(self) -> PackedLightBlockPos {
        PackedLightBlockPos((self.0 & 0x0FFF_FFFF) as u32)
    }

    /// The level.
    pub open spec fn spec_level(self) -> u8 {
        ((self.0 >> 28u64) & 15) as u8
    }

    /// The directions.
    pub open spec fn spec_directions(self) -> LightDirectionSet {
        LightDirectionSet(((self.0 >> 32u64) & 63) as u8)
    }

    /// The flags.
    pub open spec fn flags(self) -> LightQueueFlags {
        LightQueueFlags {
            write_level: (self.0 >> 61u64) & 1 == 1,
            recheck_level: (self.0 >> 62u64) & 1 == 1,
            has_sided_transparent_blocks: (self.0 >> 63u64) & 1 == 1,
        }
    }

    /// The entry with the given fields.
    pub open spec fn of(
        pos: PackedLightBlockPos,
        level: u8,
        directions: LightDirectionSet,
        flags: LightQueueFlags,
    ) -> PackedLightQueueEntry {
        PackedLightQueueEntry(
            pack_entry(
                pos.0,
                level,
                directions.0,
                if flags.write_level {
                    1
                } else {
                    0
                },
                if flags.recheck_level {
                    1
                } else {
                    0
                },
                if flags.has_sided_transparent_blocks {
                    1
                } else {
                    0
                },
            ),
        )
    }

    /// Every field of an entry is read back, the level masked to four bits.
    pub proof fn fields_round_trip(
        pos: PackedLightBlockPos,
        level: u8,
        directions: LightDirectionSet,
        flags: LightQueueFlags,
    )
        requires
            pos.0 < 0x1000_0000,
            directions.0 < 64,
        ensures
            PackedLightQueueEntry::of(pos, level, directions, flags).pos() == pos,
            PackedLightQueueEntry::of(pos, level, directions, flags).spec_level() == level % 16,
            PackedLightQueueEntry::of(pos, level, directions, flags).spec_directions()
                == directions,
            PackedLightQueueEntry::of(pos, level, directions, flags).flags() == flags,
    {
        lemma_entry_bits(
            pos.0,
            level,
            directions.0,
            if flags.write_level {
                1
            } else {
                0
            },
            if flags.recheck_level {
                1
            } else {
                0
            },
            if flags.has_sided_transparent_blocks {
                1
            } else {
                0
            },
        );
    }

    /// The level of every entry fits in four bits.
    pub proof fn level_is_nibble(self)
        ensures
            self.spec_level() < 16,
    {
        lemma_entry_reads(self.0);
    }

    /// Packs a queue entry.
    #[must_use]
    pub fn from_parts(
        pos: PackedLightBlockPos,
        level: u8,
        directions: LightDirectionSet,
        flags: LightQueueFlags,
    ) -> (entry: Self)
        ensures
            entry == PackedLightQueueEntry::of(pos, level, directions, flags),
    {
        let write: u64 = if flags.write_level {
            1
        } else {
            0
        };
        let recheck: u64 = if flags.recheck_level {
            1
        } else {
            0
        };
        let sided: u64 = if flags.has_sided_transparent_blocks {
            1
        } else {
            0
        };
        PackedLightQueueEntry(
            (pos.0 as u64) | ((level as u64 & 15) << 28) | ((directions.0 as u64) << 32) | (write
                << 61) | (recheck << 62) | (sided << 63),
        )
    }

    /// Returns the packed position.
    #[must_use]
    pub fn block_pos(self) -> (pos: PackedLightBlockPos)
        ensures
            pos == self.pos(),
    {
        proof {
            lemma_entry_reads(self.0);
        }
        PackedLightBlockPos((self.0 & 0x0FFF_FFFF) as u32)
    }

    /// Returns the level.
    #[must_use]
    pub fn level(self) -> (level: u8)
        ensures
            level == self.spec_level(),
            level < 16,
    {
        proof {
            lemma_entry_reads(self.0);
        }
        ((self.0 >> 28) & 15) as u8
    }

    /// Returns the directions.
    #[must_use]
    pub fn directions(self) -> (directions: LightDirectionSet)
        ensures
            directions == self.spec_directions(),
    {
        proof {
            lemma_entry_reads(self.0);
        }
        LightDirectionSet(((self.0 >> 32) & 63) as u8)
    }

    /// Returns whether the level is written before it propagates.
    #[must_use]
    pub fn should_write_level(self) -> (result: bool)
        ensures
            result == self.flags().write_level,
    {
        (self.0 >> 61) & 1 == 1
    }

    /// Returns whether the level propagates only while the source has it.
    #[must_use]
    pub fn should_recheck_level(self) -> (result: bool)
        ensures
            result == self.flags().recheck_level,
    {
        (self.0 >> 62) & 1 == 1
    }

    /// Returns whether the source block has faces that occlude.
    #[must_use]
    pub fn has_sided_transparent_blocks(self) -> (result: bool)
        ensures
            result == self.flags().has_sided_transparent_blocks,
    {
        (self.0 >> 63) & 1 == 1
    }
}

/// The work that remains in packed queues, first in first.
#[verifier::ext_equal]
pub struct PackedQueuesView {
    /// Increase work.
    pub increase: Seq<PackedLightQueueEntry>,
    /// Decrease work.
    pub decrease: Seq<PackedLightQueueEntry>,
}

/// Separate increase and decrease queues of packed entries.
#[derive(Debug)]
pub struct PackedLightPropagationQueues {
    increase: Vec<PackedLightQueueEntry>,
    increase_read: usize,
    decrease: Vec<PackedLightQueueEntry>,
    decrease_read: usize,
}

impl View for PackedLightPropagationQueues {
    type V = PackedQueuesView;

    closed spec fn view(&self) -> PackedQueuesView {
        PackedQueuesView {
            increase: self.increase@.skip(self.increase_read as int),
            decrease: self.decrease@.skip(self.decrease_read as int),
        }
    }
}

impl PackedLightPropagationQueues {
    /// The read positions lie within the entries.
    pub closed spec fn wf(&self) -> bool {
        self.increase_read <= self.increase@.len() && self.decrease_read <= self.decrease@.len()
    }

    /// Creates empty queues.
    #[must_use]
    pub fn new() -> (queues: Self)
        ensures
            queues.wf(),
            queues@.increase == Seq::<PackedLightQueueEntry>::empty(),
            queues@.decrease == Seq::<PackedLightQueueEntry>::empty(),
    {
        PackedLightPropagationQueues {
            increase: Vec::new(),
            increase_read: 0,
            decrease: Vec::new(),
            decrease_read: 0,
        }
    }

    /// Returns whether any work waits.
    #[must_use]
    pub fn has_work(&self) -> (result: bool)
        requires
            self.wf(),
        ensures
            result == (self@.increase.len() > 0 || self@.decrease.len() > 0),
    {
        self.increase_read < self.increase.len() || self.decrease_read < self.decrease.len()
    }

    /// Adds increase work to the back of its queue.
    pub fn enqueue_increase(&mut self, entry: PackedLightQueueEntry)
        requires
            old(self).wf(),
        ensures
            final(self).wf(),
            final(self)@ == (PackedQueuesView {
                increase: old(self)@.increase.push(entry),
                ..old(self)@
            }),
    {
        self.increase.push(entry);
        assert(self@.increase =~= old(self)@.increase.push(entry));
    }

    /// Adds decrease work to the back of its queue.
    pub fn enqueue_decrease(&mut self, entry: PackedLightQueueEntry)
        requires
            old(self).wf(),
        ensures
            final(self).wf(),
            final(self)@ == (PackedQueuesView {
                decrease: old(self)@.decrease.push(entry),
                ..old(self)@
            }),
    {
        self.decrease.push(entry);
        assert(self@.decrease =~= old(self)@.decrease.push(entry));
    }

    /// Removes increase work from the front of its queue.
    pub fn dequeue_increase(&mut self) -> (result: Option<PackedLightQueueEntry>)
        requires
            old(self).wf(),
        ensures
            final(self).wf(),
            match result {
                Some(entry) => old(self)@.increase.len() > 0 && entry == old(self)@.increase[0]
                    && final(self)@ == (PackedQueuesView {
                    increase: old(self)@.increase.skip(1),
                    ..old(self)@
                }),
                None => old(self)@.increase.len() == 0 && final(self)@ == old(self)@,
            },
    {
        let length: usize = self.increase.len();
        if self.increase_read >= length {
            self.increase.clear();
            self.increase_read = 0;
            assert(self@.increase =~= old(self)@.increase);
            return None;
        }
        let entry: PackedLightQueueEntry = self.increase[self.increase_read];
        self.increase_read += 1;
        assert(self@.increase =~= old(self)@.increase.skip(1));
        Some(entry)
    }

    /// Removes decrease work from the front of its queue.
    pub fn dequeue_decrease(&mut self) -> (result: Option<PackedLightQueueEntry>)
        requires
            old(self).wf(),
        ensures
            final(self).wf(),
            match result {
                Some(entry) => old(self)@.decrease.len() > 0 && entry == old(self)@.decrease[0]
                    && final(self)@ == (PackedQueuesView {
                    decrease: old(self)@.decrease.skip(1),
                    ..old(self)@
                }),
                None => old(self)@.decrease.len() == 0 && final(self)@ == old(self)@,
            },
    {
        let length: usize = self.decrease.len();
        if self.decrease_read >= length {
            self.decrease.clear();
            self.decrease_read = 0;
            assert(self@.decrease =~= old(self)@.decrease);
            return None;
        }
        let entry: PackedLightQueueEntry = self.decrease[self.decrease_read];
        self.decrease_read += 1;
        assert(self@.decrease =~= old(self)@.decrease.skip(1));
        Some(entry)
    }
}

impl Default for PackedLightPropagationQueues {
    fn default() -> (queues: Self)
        ensures
            queues.wf(),
            queues@.increase == Seq::<PackedLightQueueEntry>::empty(),
            queues@.decrease == Seq::<PackedLightQueueEntry>::empty(),
    {
        PackedLightPropagationQueues::new()
    }
}

} // verus!
