//! Block, chunk and section positions, and the packed key of a section.
use vstd::prelude::*;

verus! {

/// A block position.
#[derive(Debug, Clone, Copy, PartialEq, Eq, Hash, Structural)]
pub struct BlockPos {
    /// East-west coordinate.
    pub x: i32,
    /// Height.
    pub y: i32,
    /// South-north coordinate.
    pub z: i32,
}

/// A chunk column position.
#[derive(Debug, Clone, Copy, PartialEq, Eq, Hash, Structural)]
pub struct ChunkPos {
    /// East-west coordinate, in chunks.
    pub x: i32,
    /// South-north coordinate, in chunks.
    pub z: i32,
}

/// A 16x16x16 section position.
#[derive(Debug, Clone, Copy, PartialEq, Eq, Hash, Structural)]
pub struct SectionPos {
    /// East-west coordinate, in sections.
    pub x: i32,
    /// Height, in sections.
    pub y: i32,
    /// South-north coordinate, in sections.
    pub z: i32,
}

/// A section position packed into 64 bits: 22 bits of x, 22 of z, 20 of y.
#[derive(Debug, Clone, Copy, PartialEq, Eq, Hash, Structural)]
pub struct PackedSectionPos(pub u64);

/// One of the six directions that lead from a block to a neighbor.
#[derive(Debug, Clone, Copy, PartialEq, Eq, Hash, Structural)]
pub enum Direction {
    /// Towards negative y.
    Down,
    /// Towards positive y.
    Up,
    /// Towards negative z.
    North,
    /// Towards positive z.
    South,
    /// Towards negative x.
    West,
    /// Towards positive x.
    East,
}

/// The section coordinate of a block coordinate: division by sixteen, rounded
/// down.
pub open spec fn section_coord(block: int) -> int {
    block / 16
}

/// The coordinate of a block within its section.
pub open spec fn local_coord(block: int) -> int {
    block % 16
}

proof fn lemma_coord_bits(block: i32)
    by (bit_vector)
    ensures
        -134217728 <= block >> 4u32 <= 134217727,
        (block >> 4u32) * 16 <= block,
        block < (block >> 4u32) * 16 + 16,
        0 <= block & 15 < 16,
        (block >> 4u32) * 16 + (block & 15) == block,
{
}

/// Returns the section coordinate of a block coordinate.
pub fn block_to_section_coord(block: i32) -> (section: i32)
    ensures
        section == section_coord(block as int),
        -134217728 <= section <= 134217727,
{
    proof {
        lemma_coord_bits(block);
    }
    block >> 4
}

/// Returns the coordinate of a block within its section.
pub fn section_relative_coord(block: i32) -> (local: usize)
    ensures
        local == local_coord(block as int),
        local < 16,
{
    proof {
        lemma_coord_bits(block);
    }
    (block & 15) as usize
}

impl BlockPos {
    /// Creates a block position.
    #[must_use]
    pub fn new(x: i32, y: i32, z: i32) -> (pos: Self)
        ensures
            pos == (BlockPos { x, y, z }),
    {
        BlockPos { x, y, z }
    }

    /// Returns the x coordinate.
    #[must_use]
    pub fn x(&self) -> (x: i32)
        ensures
            x == self.x,
    {
        self.x
    }

    /// Returns the y coordinate.
    #[must_use]
    pub fn y(&self) -> (y: i32)
        ensures
            y == self.y,
    {
        self.y
    }

    /// Returns the z coordinate.
    #[must_use]
    pub fn z(&self) -> (z: i32)
        ensures
            z == self.z,
    {
        self.z
    }

    /// The position has neighbors on every side.
    pub open spec fn has_neighbors(&self) -> bool {
        &&& i32::MIN < self.x < i32::MAX
        &&& i32::MIN < self.y < i32::MAX
        &&& i32::MIN < self.z < i32::MAX
    }

    /// The neighbor in a direction.
    pub open spec fn spec_relative(&self, direction: Direction) -> BlockPos {
        BlockPos {
            x: (self.x + direction.dx()) as i32,
            y: (self.y + direction.dy()) as i32,
            z: (self.z + direction.dz()) as i32,
        }
    }

    /// Returns the neighbor in a direction.
    #[must_use]
    pub fn relative(&self, direction: Direction) -> (pos: Self)
        requires
            i32::MIN <= self.x + direction.dx() <= i32::MAX,
            i32::MIN <= self.y + direction.dy() <= i32::MAX,
            i32::MIN <= self.z + direction.dz() <= i32::MAX,
        ensures
            pos == self.spec_relative(direction),
    {
        let (dx, dy, dz) = direction.offset();
        BlockPos { x: self.x + dx, y: self.y + dy, z: self.z + dz }
    }
}

impl ChunkPos {
    /// Creates a chunk position.
    #[must_use]
    pub fn new(x: i32, z: i32) -> (pos: Self)
        ensures
            pos == (ChunkPos { x, z }),
    {
        ChunkPos { x, z }
    }

    /// The chunk of a block.
    pub open spec fn of_block(block_pos: BlockPos) -> ChunkPos {
        ChunkPos {
            x: section_coord(block_pos.x as int) as i32,
            z: section_coord(block_pos.z as int) as i32,
        }
    }

    /// Returns the chunk of a block.
    #[must_use]
    pub fn from_block_pos(block_pos: BlockPos) -> (pos: Self)
        ensures
            pos == ChunkPos::of_block(block_pos),
    {
        ChunkPos { x: block_to_section_coord(block_pos.x), z: block_to_section_coord(block_pos.z) }
    }
}

impl SectionPos {
    /// Creates a section position.
    #[must_use]
    pub fn new(x: i32, y: i32, z: i32) -> (pos: Self)
        ensures
            pos == (SectionPos { x, y, z }),
    {
        SectionPos { x, y, z }
    }

    /// Returns the x coordinate.
    #[must_use]
    pub fn x(&self) -> (x: i32)
        ensures
            x == self.x,
    {
        self.x
    }

    /// Returns the y coordinate.
    #[must_use]
    pub fn y(&self) -> (y: i32)
        ensures
            y == self.y,
    {
        self.y
    }

    /// Returns the z coordinate.
    #[must_use]
    pub fn z(&self) -> (z: i32)
        ensures
            z == self.z,
    {
        self.z
    }

    /// The section that holds a block.
    pub open spec fn of_block(block_pos: BlockPos) -> SectionPos {
        SectionPos {
            x: section_coord(block_pos.x as int) as i32,
            y: section_coord(block_pos.y as int) as i32,
            z: section_coord(block_pos.z as int) as i32,
        }
    }

    /// Returns the section that holds a block.
    #[must_use]
    pub fn from_block_pos(block_pos: BlockPos) -> (pos: Self)
        ensures
            pos == SectionPos::of_block(block_pos),
            pos.x == section_coord(block_pos.x as int),
            pos.y == section_coord(block_pos.y as int),
            pos.z == section_coord(block_pos.z as int),
    {
        SectionPos {
            x: block_to_section_coord(block_pos.x),
            y: block_to_section_coord(block_pos.y),
            z: block_to_section_coord(block_pos.z),
        }
    }

    /// The section touches the block or one of the 26 blocks around it.
    pub open spec fn is_around(&self, block_pos: BlockPos) -> bool {
        &&& section_coord(block_pos.x - 1) <= self.x <= section_coord(block_pos.x + 1)
        &&& section_coord(block_pos.y - 1) <= self.y <= section_coord(block_pos.y + 1)
        &&& section_coord(block_pos.z - 1) <= self.z <= section_coord(block_pos.z + 1)
    }

    /// Returns every section that touches a block or one of the 26 blocks
    /// around it.
    #[must_use]
    pub fn around_and_at_block_pos(block_pos: BlockPos) -> (sections: Vec<SectionPos>)
        requires
            block_pos.has_neighbors(),
        ensures
            sections@.no_duplicates(),
            forall|pos: SectionPos| #[trigger]
                sections@.contains(pos) <==> pos.is_around(block_pos),
    {
        let min_x: i32 = block_to_section_coord(block_pos.x - 1);
        let max_x: i32 = block_to_section_coord(block_pos.x + 1);
        let min_y: i32 = block_to_section_coord(block_pos.y - 1);
        let max_y: i32 = block_to_section_coord(block_pos.y + 1);
        let min_z: i32 = block_to_section_coord(block_pos.z - 1);
        let max_z: i32 = block_to_section_coord(block_pos.z + 1);
        let mut sections: Vec<SectionPos> = Vec::new();
        let mut x: i32 = min_x;
        while x <= max_x
            invariant
                min_x <= x <= max_x + 1,
                -134217728 <= min_y <= max_y <= 134217727,
                -134217728 <= min_z <= max_z <= 134217727,
                max_x <= 134217727,
                sections@.no_duplicates(),
                forall|pos: SectionPos| #[trigger]
                    sections@.contains(pos) <==> min_x <= pos.x < x && min_y <= pos.y <= max_y
                        && min_z <= pos.z <= max_z,
            decreases max_x + 1 - x,
        {
            let mut y: i32 = min_y;
            while y <= max_y
                invariant
                    min_x <= x <= max_x,
                    min_y <= y <= max_y + 1,
                    -134217728 <= min_y <= max_y <= 134217727,
                    -134217728 <= min_z <= max_z <= 134217727,
                    sections@.no_duplicates(),
                    forall|pos: SectionPos| #[trigger]
                        sections@.contains(pos) <==> min_z <= pos.z <= max_z && (min_x <= pos.x < x
                            && min_y <= pos.y <= max_y || pos.x == x && min_y <= pos.y < y),
                decreases max_y + 1 - y,
            {
                let mut z: i32 = min_z;
                while z <= max_z
                    invariant
                        min_x <= x <= max_x,
                        min_y <= y <= max_y,
                        min_z <= z <= max_z + 1,
                        -134217728 <= min_z <= max_z <= 134217727,
                        sections@.no_duplicates(),
                        forall|pos: SectionPos| #[trigger]
                            sections@.contains(pos) <==> min_z <= pos.z <= max_z && (min_x <= pos.x
                                < x && min_y <= pos.y <= max_y || pos.x == x && min_y <= pos.y < y)
                                || pos.x == x && pos.y == y && min_z <= pos.z < z,
                    decreases max_z + 1 - z,
                {
                    let pos: SectionPos = SectionPos { x, y, z };
                    let ghost before = sections@;
                    assert(!before.contains(pos));
                    sections.push(pos);
                    proof {
                        lemma_push_contains(before, pos);
                    }
                    z += 1;
                }
                y += 1;
            }
            x += 1;
        }
        sections
    }

    /// The packed key of this position.
    pub open spec fn key(&self) -> u64 {
        pack_section(self.x, self.y, self.z)
    }

    /// The key has room for every coordinate.
    pub open spec fn packable(&self) -> bool {
        &&& -0x200000 <= self.x < 0x200000
        &&& -0x80000 <= self.y < 0x80000
        &&& -0x200000 <= self.z < 0x200000
    }

    /// Every section that touches this one can be packed too, and so can the
    /// sections right below and above those.
    pub open spec fn neighborhood_packable(&self) -> bool {
        &&& -0x200000 < self.x < 0x1FFFFF
        &&& -0x7FFFF < self.y < 0x7FFFE
        &&& -0x200000 < self.z < 0x1FFFFF
    }
}

proof fn lemma_push_contains<A>(s: Seq<A>, value: A)
    ensures
        forall|x: A| #[trigger] s.push(value).contains(x) <==> s.contains(x) || x == value,
        s.no_duplicates() && !s.contains(value) ==> s.push(value).no_duplicates(),
{
    assert forall|x: A| #[trigger] s.push(value).contains(x) <==> s.contains(x) || x == value by {
        if s.contains(x) {
            let i = choose|i: int| 0 <= i < s.len() && s[i] == x;
            assert(s.push(value)[i] == x);
        }
        assert(s.push(value)[s.len() as int] == value);
    }
}

/// The packed key of section coordinates.
pub open spec fn pack_section(x: i32, y: i32, z: i32) -> u64 {
    (((x as u64) & 0x3FFFFF) << 42u64) | (((z as u64) & 0x3FFFFF) << 20u64) | ((y as u64)
        & 0xFFFFF)
}

/// The x coordinate of a packed key.
pub open spec fn unpack_x(key: u64) -> i32 {
    ((((key >> 42u64) & 0x3FFFFF) as u32) << 10u32) as i32 >> 10u32
}

/// The y coordinate of a packed key.
pub open spec fn unpack_y(key: u64) -> i32 {
    (((key & 0xFFFFF) as u32) << 12u32) as i32 >> 12u32
}

/// The z coordinate of a packed key.
pub open spec fn unpack_z(key: u64) -> i32 {
    ((((key >> 20u64) & 0x3FFFFF) as u32) << 10u32) as i32 >> 10u32
}

/// The section position of a packed key.
pub open spec fn section_of_key(key: u64) -> SectionPos {
    SectionPos { x: unpack_x(key), y: unpack_y(key), z: unpack_z(key) }
}

proof fn lemma_unpack_bits(x: i32, y: i32, z: i32)
    by (bit_vector)
    requires
        -0x200000 <= x < 0x200000,
        -0x80000 <= y < 0x80000,
        -0x200000 <= z < 0x200000,
    ensures
        unpack_x(pack_section(x, y, z)) == x,
        unpack_y(pack_section(x, y, z)) == y,
        unpack_z(pack_section(x, y, z)) == z,
{
}

/// A packable position is read back from its key.
pub broadcast proof fn key_round_trip(pos: SectionPos)
    requires
        pos.packable(),
    ensures
        section_of_key(#[trigger] pos.key()) == pos,
{
    lemma_unpack_bits(pos.x, pos.y, pos.z);
}

proof fn lemma_repack_bits(key: u64)
    by (bit_vector)
    ensures
        pack_section(unpack_x(key), unpack_y(key), unpack_z(key)) == key,
        -0x200000 <= unpack_x(key) < 0x200000,
        -0x80000 <= unpack_y(key) < 0x80000,
        -0x200000 <= unpack_z(key) < 0x200000,
{
}

proof fn lemma_column_bits(x: i32, y: i32, z: i32, other_x: i32, other_z: i32)
    by (bit_vector)
    requires
        -0x80000 <= y < 0x80000,
    ensures
        unpack_y(pack_section(x, y, z)) == y,
        pack_section(unpack_x(pack_section(x, y, z)), 0, unpack_z(pack_section(x, y, z)))
            == pack_section(x, 0, z),
        pack_section(x, 0, z) == pack_section(other_x, 0, other_z) ==> pack_section(x, y, z)
            == pack_section(other_x, y, other_z),
{
}

/// A key keeps the height and the column of its section, and columns with one
/// key share the keys of their sections.
pub proof fn key_keeps_column(pos: SectionPos, other: SectionPos)
    requires
        -0x80000 <= pos.y < 0x80000,
    ensures
        section_of_key(pos.key()).y == pos.y,
        (SectionPos { y: 0, ..section_of_key(pos.key()) }).key() == (SectionPos {
            y: 0,
            ..pos
        }).key(),
        (SectionPos { y: 0, ..pos }).key() == (SectionPos { y: 0, ..other }).key() ==> pos.key()
            == (SectionPos { y: pos.y, ..other }).key(),
{
    lemma_column_bits(pos.x, pos.y, pos.z, other.x, other.z);
}

/// Every key stands for a packable position, and is the key of that position.
pub broadcast proof fn section_round_trip(key: u64)
    ensures
        (#[trigger] section_of_key(key)).key() == key,
        section_of_key(key).packable(),
{
    lemma_repack_bits(key);
}

/// Packable positions with one key are one position.
pub proof fn key_injective(a: SectionPos, b: SectionPos)
    requires
        a.packable(),
        b.packable(),
        a.key() == b.key(),
    ensures
        a == b,
{
    key_round_trip(a);
    key_round_trip(b);
}

impl PackedSectionPos {
    /// Packs a section position.
    #[must_use]
    #[verifier::truncate]
    pub fn from_section_pos(pos: SectionPos) -> (packed: Self)
        ensures
            packed.0 == pos.key(),
    {
        PackedSectionPos(
            (((pos.x as u64) & 0x3FFFFF) << 42) | (((pos.z as u64) & 0x3FFFFF) << 20) | ((
            pos.y as u64) & 0xFFFFF),
        )
    }

    /// Returns the section position that this key stands for.
    #[must_use]
    pub fn to_section_pos(&self) -> (pos: SectionPos)
        ensures
            pos == section_of_key(self.0),
    {
        let x: u32 = #[verifier::truncate]
        (((self.0 >> 42) & 0x3FFFFF) as u32);
        let y: u32 = #[verifier::truncate]
        ((self.0 & 0xFFFFF) as u32);
        let z: u32 = #[verifier::truncate]
        (((self.0 >> 20) & 0x3FFFFF) as u32);
        SectionPos {
            x: #[verifier::truncate]
            ((x << 10) as i32) >> 10,
            y: #[verifier::truncate]
            ((y << 12) as i32) >> 12,
            z: #[verifier::truncate]
            ((z << 10) as i32) >> 10,
        }
    }
}

impl Direction {
    /// The step along x.
    pub open spec fn dx(self) -> int {
        match self {
            Direction::West => -1,
            Direction::East => 1,
            _ => 0,
        }
    }

    /// The step along y.
    pub open spec fn dy(self) -> int {
        match self {
            Direction::Down => -1,
            Direction::Up => 1,
            _ => 0,
        }
    }

    /// The step along z.
    pub open spec fn dz(self) -> int {
        match self {
            Direction::North => -1,
            Direction::South => 1,
            _ => 0,
        }
    }

    /// The direction that undoes this one.
    pub open spec fn spec_opposite(self) -> Direction {
        match self {
            Direction::Down => Direction::Up,
            Direction::Up => Direction::Down,
            Direction::North => Direction::South,
            Direction::South => Direction::North,
            Direction::West => Direction::East,
            Direction::East => Direction::West,
        }
    }

    /// Returns the step along x, y and z.
    #[must_use]
    pub fn offset(self) -> (offset: (i32, i32, i32))
        ensures
            offset.0 == self.dx(),
            offset.1 == self.dy(),
            offset.2 == self.dz(),
    {
        match self {
            Direction::Down => (0, -1, 0),
            Direction::Up => (0, 1, 0),
            Direction::North => (0, 0, -1),
            Direction::South => (0, 0, 1),
            Direction::West => (-1, 0, 0),
            Direction::East => (1, 0, 0),
        }
    }

    /// Returns the direction that undoes this one.
    #[must_use]
    pub fn opposite(self) -> (direction: Direction)
        ensures
            direction == self.spec_opposite(),
    {
        match self {
            Direction::Down => Direction::Up,
            Direction::Up => Direction::Down,
            Direction::North => Direction::South,
            Direction::South => Direction::North,
            Direction::West => Direction::East,
            Direction::East => Direction::West,
        }
    }
}

} // verus!
