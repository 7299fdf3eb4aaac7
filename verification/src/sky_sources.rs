//! The lowest sky light source of each block column of a chunk.
use vstd::prelude::*;

use crate::block_state::{light_face_occludes, BlockStateId, BlockStateTable};
use crate::packed::local_index;
use crate::position::{block_to_section_coord, section_coord, Direction};
use crate::section::{block_cell_index, ChunkSection, Sections};
use crate::section_range::LightSectionRangeError;
use crate::{CHUNK_COLUMN_COUNT, CHUNK_EDGE};

verus! {

/// Lowest source of a column whose sources reach below the world.
pub const NEGATIVE_INFINITY: i32 = i32::MIN;

/// Lowest section of a storage that has none.
pub const POSITIVE_INFINITY: i32 = i32::MAX;

/// Cached sky light source edges of one chunk.
///
/// For each block column the cache keeps the lowest height that the sky lights
/// directly.
#[derive(Debug)]
pub struct ChunkSkyLightSources {
    /// One below the lowest block; a column with this value has sources all
    /// the way down.
    pub min_y: i32,
    /// The cached edge of each column, by `x + z * 16`.
    pub heightmap: [i32; CHUNK_COLUMN_COUNT],
}

/// The source caches of a chunk and of its four horizontal neighbors.
#[derive(Debug, Clone, Copy)]
pub struct SkyLightSourceNeighborhood<'a> {
    /// The chunk itself.
    pub center: &'a ChunkSkyLightSources,
    /// The neighbor towards negative z.
    pub north: &'a ChunkSkyLightSources,
    /// The neighbor towards positive z.
    pub south: &'a ChunkSkyLightSources,
    /// The neighbor towards negative x.
    pub west: &'a ChunkSkyLightSources,
    /// The neighbor towards positive x.
    pub east: &'a ChunkSkyLightSources,
}

impl<'a> SkyLightSourceNeighborhood<'a> {
    /// Bundles the source caches around a chunk.
    #[must_use]
    pub fn new(
        center: &'a ChunkSkyLightSources,
        north: &'a ChunkSkyLightSources,
        south: &'a ChunkSkyLightSources,
        west: &'a ChunkSkyLightSources,
        east: &'a ChunkSkyLightSources,
    ) -> (neighborhood: Self)
        ensures
            neighborhood.center == center,
            neighborhood.north == north,
            neighborhood.south == south,
            neighborhood.west == west,
            neighborhood.east == east,
    {
        SkyLightSourceNeighborhood { center, north, south, west, east }
    }
}

/// Whether sky light stops between two blocks of a column.
pub open spec fn edge_occluded(
    table: &BlockStateTable,
    top_state: BlockStateId,
    bottom_state: BlockStateId,
) -> bool {
    table.info(bottom_state).light_dampening != 0 || table.face_occludes(
        top_state,
        bottom_state,
        Direction::Down,
    )
}

/// The highest edge at or below `top` where a column stops sky light, or
/// `min_y` when there is none above it.
pub open spec fn lowest_source_below(
    table: &BlockStateTable,
    column: spec_fn(int) -> BlockStateId,
    min_y: int,
    top: int,
) -> int
    decreases top - min_y,
{
    if top <= min_y {
        min_y
    } else if edge_occluded(table, column(top), column(top - 1)) {
        top
    } else {
        lowest_source_below(table, column, min_y, top - 1)
    }
}

proof fn lemma_lowest_source_bounds(
    table: &BlockStateTable,
    column: spec_fn(int) -> BlockStateId,
    min_y: int,
    top: int,
)
    ensures
        min_y <= lowest_source_below(table, column, min_y, top),
        min_y <= top ==> lowest_source_below(table, column, min_y, top) <= top,
        top <= min_y ==> lowest_source_below(table, column, min_y, top) == min_y,
    decreases top - min_y,
{
    if top > min_y {
        lemma_lowest_source_bounds(table, column, min_y, top - 1);
    }
}

/// What a check of one edge does to a column's cached edge.
pub open spec fn checked_edge(
    table: &BlockStateTable,
    column: spec_fn(int) -> BlockStateId,
    min_y: int,
    current: int,
    edge_y: int,
) -> Option<int> {
    if edge_occluded(table, column(edge_y), column(edge_y - 1)) {
        if edge_y > current {
            Some(edge_y)
        } else {
            None
        }
    } else if edge_y == current {
        Some(lowest_source_below(table, column, min_y, edge_y - 1))
    } else {
        None
    }
}

/// The cached edge of a column after the block at `y` changed: the edges above
/// and below the block are checked in turn.
pub open spec fn updated_edge(
    table: &BlockStateTable,
    column: spec_fn(int) -> BlockStateId,
    min_y: int,
    current: int,
    y: int,
) -> int {
    if y >= i32::MAX || y + 1 < current {
        current
    } else {
        match checked_edge(table, column, min_y, current, y + 1) {
            Some(edge) => edge,
            None => if y <= i32::MIN {
                current
            } else {
                match checked_edge(table, column, min_y, current, y) {
                    Some(edge) => edge,
                    None => current,
                }
            },
        }
    }
}

/// A function may give a state for a position.
pub open spec fn gives_state<F: Fn(usize, i32, usize) -> BlockStateId>(
    state_at: F,
    x: usize,
    y: i32,
    z: usize,
    state: BlockStateId,
) -> bool {
    call_ensures(state_at, (x, y, z), state)
}

/// A function that can be asked for every block of a column, and gives one
/// state for each.
pub open spec fn reads_column<F: Fn(usize, i32, usize) -> BlockStateId>(
    state_at: F,
    x: usize,
    z: usize,
) -> bool {
    &&& forall|y: i32| #[trigger] call_requires(state_at, (x, y, z))
    &&& forall|y: i32, a: BlockStateId, b: BlockStateId|
        #[trigger] gives_state(state_at, x, y, z, a) && #[trigger] gives_state(
            state_at,
            x,
            y,
            z,
            b,
        ) ==> a == b
}

/// The states that a function gives for a column.
pub open spec fn column_of<F: Fn(usize, i32, usize) -> BlockStateId>(
    state_at: F,
    x: usize,
    z: usize,
) -> spec_fn(int) -> BlockStateId {
    |y: int| choose|state: BlockStateId| #[trigger] gives_state(state_at, x, y as i32, z, state)
}

/// The block of a section column as light sees it: air in sections without
/// blocks, and outside of the sections.
pub open spec fn filled_state(
    table: &BlockStateTable,
    sections: Seq<ChunkSection>,
    x: int,
    z: int,
    relative_y: int,
) -> BlockStateId {
    if 0 <= relative_y < sections.len() * 16 && sections[relative_y / 16].non_empty_block_count
        != 0 {
        sections[relative_y / 16].states@[local_index(x, relative_y % 16, z)]
    } else {
        table.spec_air()
    }
}

/// Whether sky light stops at an edge of a section column. Edges above a
/// section without blocks are not looked at.
pub open spec fn filled_edge(
    table: &BlockStateTable,
    sections: Seq<ChunkSection>,
    x: int,
    z: int,
    relative_y: int,
) -> bool {
    &&& sections[(relative_y - 1) / 16].non_empty_block_count != 0
    &&& edge_occluded(
        table,
        filled_state(table, sections, x, z, relative_y),
        filled_state(table, sections, x, z, relative_y - 1),
    )
}

/// The highest edge at or below a height where a section column stops sky
/// light, relative to the bottom of the sections.
pub open spec fn highest_filled_edge(
    table: &BlockStateTable,
    sections: Seq<ChunkSection>,
    x: int,
    z: int,
    relative_y: int,
) -> Option<int>
    decreases relative_y,
{
    if relative_y <= 0 {
        None
    } else if filled_edge(table, sections, x, z, relative_y) {
        Some(relative_y)
    } else {
        highest_filled_edge(table, sections, x, z, relative_y - 1)
    }
}

proof fn lemma_skip_empty_section(
    table: &BlockStateTable,
    sections: Seq<ChunkSection>,
    x: int,
    z: int,
    section: int,
    local_y: int,
)
    requires
        0 <= section < sections.len(),
        sections[section].non_empty_block_count == 0,
        0 <= local_y <= 16,
    ensures
        highest_filled_edge(table, sections, x, z, section * 16 + local_y) == highest_filled_edge(
            table,
            sections,
            x,
            z,
            section * 16,
        ),
    decreases local_y,
{
    if local_y > 0 {
        let relative_y = section * 16 + local_y;
        assert((relative_y - 1) / 16 == section);
        assert(!filled_edge(table, sections, x, z, relative_y));
        lemma_skip_empty_section(table, sections, x, z, section, local_y - 1);
    }
}

impl ChunkSkyLightSources {
    /// The cached edge of a column.
    pub open spec fn edge(&self, x: int, z: int) -> int {
        self.heightmap@[x + z * 16] as int
    }

    /// No edge lies below the world.
    pub open spec fn valid(&self) -> bool {
        forall|c: int| 0 <= c < 256 ==> #[trigger] self.heightmap@[c] >= self.min_y
    }

    /// The lowest source of a cached edge: sources that reach the bottom go on
    /// below it.
    pub open spec fn extended(&self, edge: int) -> int {
        if edge == self.min_y {
            i32::MIN as int
        } else {
            edge
        }
    }

    /// The lowest source of a column.
    pub open spec fn lowest_source(&self, x: int, z: int) -> int {
        self.extended(self.edge(x, z))
    }

    /// The bottom of the lowest section, in blocks.
    pub open spec fn base_y(&self) -> int {
        section_coord(self.min_y + 1) * 16
    }

    /// The edge that a section column gives to the cache.
    pub open spec fn filled_edge_y(
        &self,
        table: &BlockStateTable,
        sections: Seq<ChunkSection>,
        x: int,
        z: int,
    ) -> int {
        match highest_filled_edge(table, sections, x, z, sections.len() * 16int) {
            Some(relative_y) => if self.base_y() + relative_y < self.min_y {
                self.min_y as int
            } else {
                self.base_y() + relative_y
            },
            None => self.min_y as int,
        }
    }

    /// Creates an empty skylight-source cache for a level height.
    pub fn new(min_y: i32, height: i32) -> (result: Result<Self, LightSectionRangeError>)
        ensures
            match result {
                Ok(sources) => {
                    &&& height > 0 && min_y > i32::MIN && min_y + height <= i32::MAX
                    &&& sources.valid()
                    &&& sources.min_y == min_y - 1
                    &&& forall|c: int|
                        0 <= c < 256 ==> #[trigger] sources.heightmap@[c] == min_y - 1
                },
                Err(error) => !(height > 0 && min_y > i32::MIN && min_y + height <= i32::MAX)
                    && error.min_y == min_y && error.height == height,
            },
    {
        if height <= 0 || min_y.checked_sub(1).is_none() || min_y.checked_add(height).is_none() {
            return Err(LightSectionRangeError { min_y, height });
        }
        let min_y: i32 = min_y - 1;
        Ok(ChunkSkyLightSources { min_y, heightmap: [min_y; CHUNK_COLUMN_COUNT] })
    }

    /// Creates a cache for world heights already accepted by chunk construction.
    #[must_use]
    pub fn for_valid_world_height(min_y: i32, height: i32) -> (sources: Self)
        requires
            height > 0,
            min_y > i32::MIN,
            min_y + height <= i32::MAX,
        ensures
            sources.valid(),
            sources.min_y == min_y - 1,
            forall|c: int| 0 <= c < 256 ==> #[trigger] sources.heightmap@[c] == min_y - 1,
    {
        match Self::new(min_y, height) {
            Ok(sources) => sources,
            Err(_) => vstd::pervasive::unreached(),
        }
    }

    /// Fills this cache from a chunk's sections.
    pub fn fill_from_sections(&mut self, table: &BlockStateTable, sections: &Sections)
        requires
            table.wf(),
            sections.wf(),
            i32::MIN < old(self).min_y < i32::MAX,
            old(self).base_y() > i32::MIN,
            old(self).base_y() + sections.sections@.len() * 16 <= i32::MAX,
        ensures
            final(self).valid(),
            final(self).min_y == old(self).min_y,
            forall|x: int, z: int|
                0 <= x < 16 && 0 <= z < 16 ==> #[trigger] final(self).edge(x, z) == old(
                    self,
                ).filled_edge_y(table, sections.sections@, x, z),
    {
        let mut z: usize = 0;
        while z < CHUNK_EDGE
            invariant
                z <= 16,
                table.wf(),
                sections.wf(),
                self.min_y == old(self).min_y,
                i32::MIN < self.min_y < i32::MAX,
                self.base_y() > i32::MIN,
                self.base_y() + sections.sections@.len() * 16 <= i32::MAX,
                forall|i: int, j: int|
                    0 <= i < 16 && 0 <= j < z ==> #[trigger] self.edge(i, j) == old(
                        self,
                    ).filled_edge_y(table, sections.sections@, i, j),
            decreases 16 - z,
        {
            let mut x: usize = 0;
            while x < CHUNK_EDGE
                invariant
                    z < 16,
                    x <= 16,
                    table.wf(),
                    sections.wf(),
                    self.min_y == old(self).min_y,
                    i32::MIN < self.min_y < i32::MAX,
                    self.base_y() > i32::MIN,
                    self.base_y() + sections.sections@.len() * 16 <= i32::MAX,
                    forall|i: int, j: int|
                        0 <= i < 16 && 0 <= j < 16 && (j < z || j == z && i < x)
                            ==> #[trigger] self.edge(i, j) == old(self).filled_edge_y(
                            table,
                            sections.sections@,
                            i,
                            j,
                        ),
                decreases 16 - x,
            {
                let edge_y: i32 = self.find_lowest_source_y(table, sections, x, z);
                let ghost before = *self;
                self.heightmap[x + z * CHUNK_EDGE] = if edge_y < self.min_y {
                    self.min_y
                } else {
                    edge_y
                };
                proof {
                    assert(before.filled_edge_y(table, sections.sections@, x as int, z as int)
                        == old(self).filled_edge_y(
                        table,
                        sections.sections@,
                        x as int,
                        z as int,
                    ));
                    assert forall|i: int, j: int|
                        0 <= i < 16 && 0 <= j < 16 && (j < z || j == z && i < x
                            + 1) implies #[trigger] self.edge(i, j) == old(self).filled_edge_y(
                        table,
                        sections.sections@,
                        i,
                        j,
                    ) by {
                        if j < z || i < x {
                            assert(i + j * 16 != x + z * 16);
                            assert(before.edge(i, j) == self.edge(i, j));
                        }
                    }
                }
                x += 1;
            }
            z += 1;
        }
        assert forall|c: int| 0 <= c < 256 implies #[trigger] self.heightmap@[c] >= self.min_y by {
            assert(c == c % 16 + (c / 16) * 16);
            assert(self.edge(c % 16, c / 16) == old(self).filled_edge_y(
                table,
                sections.sections@,
                c % 16,
                c / 16,
            ));
        }
    }

    fn find_lowest_source_y(
        &self,
        table: &BlockStateTable,
        sections: &Sections,
        x: usize,
        z: usize,
    ) -> (edge_y: i32)
        requires
            table.wf(),
            sections.wf(),
            x < 16,
            z < 16,
            i32::MIN < self.min_y < i32::MAX,
            self.base_y() > i32::MIN,
            self.base_y() + sections.sections@.len() * 16 <= i32::MAX,
        ensures
            edge_y == match highest_filled_edge(
                table,
                sections.sections@,
                x as int,
                z as int,
                sections.sections@.len() * 16int,
            ) {
                Some(relative_y) => self.base_y() + relative_y,
                None => self.min_y as int,
            },
    {
        let base_y: i32 = block_to_section_coord(self.min_y + 1) * 16;
        let ghost all = sections.sections@;
        let ghost goal = highest_filled_edge(table, all, x as int, z as int, all.len() * 16int);
        let mut section_index: usize = sections.sections.len();
        let mut top_state: BlockStateId = table.air();
        while section_index > 0
            invariant
                table.wf(),
                sections.wf(),
                all == sections.sections@,
                x < 16,
                z < 16,
                section_index <= all.len(),
                base_y == self.base_y(),
                base_y + all.len() * 16 <= i32::MAX,
                top_state == filled_state(table, all, x as int, z as int, section_index * 16),
                goal == highest_filled_edge(table, all, x as int, z as int, all.len() * 16int),
                goal == highest_filled_edge(table, all, x as int, z as int, section_index * 16),
            decreases section_index,
        {
            section_index -= 1;
            let section: &ChunkSection = &sections.sections[section_index];
            assert(all[section_index as int].wf());
            if section.is_empty() {
                top_state = table.air();
                proof {
                    lemma_skip_empty_section(
                        table,
                        all,
                        x as int,
                        z as int,
                        section_index as int,
                        16,
                    );
                }
            } else {
                let mut y: usize = 16;
                while y > 0
                    invariant
                        table.wf(),
                        section.wf(),
                        all == sections.sections@,
                        *section == all[section_index as int],
                        section.non_empty_block_count != 0,
                        x < 16,
                        z < 16,
                        y <= 16,
                        section_index < all.len(),
                        base_y == self.base_y(),
                        base_y + all.len() * 16 <= i32::MAX,
                        top_state == filled_state(
                            table,
                            all,
                            x as int,
                            z as int,
                            section_index * 16 + y,
                        ),
                        goal == highest_filled_edge(table, all, x as int, z as int, all.len() * 16int),
                        goal == highest_filled_edge(
                            table,
                            all,
                            x as int,
                            z as int,
                            section_index * 16 + y,
                        ),
                    decreases y,
                {
                    y -= 1;
                    let ghost relative = section_index * 16 + y;
                    proof {
                        block_cell_index(x as int, y as int, z as int);
                        assert(relative / 16 == section_index && relative % 16 == y);
                    }
                    let bottom_state: BlockStateId = section.states.get(x, y, z);
                    if Self::is_edge_occluded(table, top_state, bottom_state) {
                        return (base_y as i64 + section_index as i64 * 16 + y as i64 + 1) as i32;
                    }
                    top_state = bottom_state;
                }
            }
        }
        self.min_y
    }

    /// Updates one column after a block change.
    ///
    /// `state_at` is called with section-local X/Z and world Y coordinates, of
    /// the given column only, and not at all where the block lies below the
    /// cached edge. Returns true exactly when the cached source edge changed.
    pub fn update<F: Fn(usize, i32, usize) -> BlockStateId>(
        &mut self,
        table: &BlockStateTable,
        x: usize,
        y: i32,
        z: usize,
        state_at: F,
    ) -> (changed: bool)
        requires
            table.wf(),
            x < CHUNK_EDGE,
            z < CHUNK_EDGE,
            y < i32::MAX && y + 1 >= old(self).edge(x as int, z as int) ==> reads_column(
                state_at,
                x,
                z,
            ),
        ensures
            final(self).min_y == old(self).min_y,
            old(self).valid() ==> final(self).valid(),
            final(self).edge(x as int, z as int) == updated_edge(
                table,
                column_of(state_at, x, z),
                old(self).min_y as int,
                old(self).edge(x as int, z as int),
                y as int,
            ),
            final(self).heightmap@ == old(self).heightmap@.update(
                x + z * 16,
                final(self).heightmap@[x + z * 16],
            ),
            changed == (final(self).edge(x as int, z as int) != old(self).edge(
                x as int,
                z as int,
            )),
            old(self).valid() ==> changed == (final(self).lowest_source(x as int, z as int)
                != old(self).lowest_source(x as int, z as int)),
            forall|a: int, b: int|
                0 <= a < 16 && 0 <= b < 16 && (a != x || b != z)
                    ==> #[trigger] final(self).lowest_source(a, b) == old(self).lowest_source(a, b),
    {
        let index: usize = x + z * CHUNK_EDGE;
        let current: i32 = self.heightmap[index];
        self.update_column(table, x, y, z, state_at);
        proof {
            if old(self).valid() {
                old(self).lemma_updated(
                    table,
                    column_of(state_at, x, z),
                    x as int,
                    y as int,
                    z as int,
                );
                assert(old(self).heightmap@[x + z * 16] >= old(self).min_y);
                assert forall|c: int| 0 <= c < 256 implies #[trigger] self.heightmap@[c]
                    >= self.min_y by {
                    assert(old(self).heightmap@[c] >= old(self).min_y);
                }
            }
            assert forall|a: int, b: int|
                0 <= a < 16 && 0 <= b < 16 && (a != x || b != z) implies #[trigger]
                self.lowest_source(a, b) == old(self).lowest_source(a, b) by {
                assert(a + b * 16 != x + z * 16);
            }
        }
        self.heightmap[index] != current
    }

    fn update_column<F: Fn(usize, i32, usize) -> BlockStateId>(
        &mut self,
        table: &BlockStateTable,
        x: usize,
        y: i32,
        z: usize,
        state_at: F,
    )
        requires
            table.wf(),
            x < CHUNK_EDGE,
            z < CHUNK_EDGE,
            y < i32::MAX && y + 1 >= old(self).edge(x as int, z as int) ==> reads_column(
                state_at,
                x,
                z,
            ),
        ensures
            final(self).min_y == old(self).min_y,
            final(self).edge(x as int, z as int) == updated_edge(
                table,
                column_of(state_at, x, z),
                old(self).min_y as int,
                old(self).edge(x as int, z as int),
                y as int,
            ),
            final(self).heightmap@ == old(self).heightmap@.update(
                x + z * 16,
                final(self).heightmap@[x + z * 16],
            ),
    {
        let upper_edge_y: i32 = match y.checked_add(1) {
            Some(upper_edge_y) => upper_edge_y,
            None => {
                return;
            },
        };
        let index: usize = x + z * CHUNK_EDGE;
        let current: i32 = self.heightmap[index];
        if upper_edge_y < current {
            return;
        }
        let top_state: BlockStateId = Self::read_state(&state_at, x, upper_edge_y, z);
        let middle_state: BlockStateId = Self::read_state(&state_at, x, y, z);
        if self.update_edge(
            table,
            index,
            current,
            x,
            z,
            upper_edge_y,
            top_state,
            y,
            middle_state,
            &state_at,
        ) {
            return;
        }
        let bottom_y: i32 = match y.checked_sub(1) {
            Some(bottom_y) => bottom_y,
            None => {
                return;
            },
        };
        let bottom_state: BlockStateId = Self::read_state(&state_at, x, bottom_y, z);
        self.update_edge(
            table,
            index,
            current,
            x,
            z,
            y,
            middle_state,
            bottom_y,
            bottom_state,
            &state_at,
        );
    }

    /// An updated edge does not lie below the world.
    proof fn lemma_updated(
        &self,
        table: &BlockStateTable,
        column: spec_fn(int) -> BlockStateId,
        x: int,
        y: int,
        z: int,
    )
        requires
            self.valid(),
            0 <= x < 16,
            0 <= z < 16,
            y <= i32::MAX,
        ensures
            self.min_y <= updated_edge(table, column, self.min_y as int, self.edge(x, z), y),
    {
        assert(self.heightmap@[x + z * 16] >= self.min_y);
        lemma_lowest_source_bounds(table, column, self.min_y as int, y);
        lemma_lowest_source_bounds(table, column, self.min_y as int, y - 1);
    }

    fn read_state<F: Fn(usize, i32, usize) -> BlockStateId>(
        state_at: &F,
        x: usize,
        y: i32,
        z: usize,
    ) -> (state: BlockStateId)
        requires
            reads_column(*state_at, x, z),
        ensures
            state == column_of(*state_at, x, z)(y as int),
    {
        let state: BlockStateId = state_at(x, y, z);
        assert(gives_state(*state_at, x, y, z, state));
        state
    }

    /// Checks one edge, and returns whether that settles the column's edge.
    fn update_edge<F: Fn(usize, i32, usize) -> BlockStateId>(
        &mut self,
        table: &BlockStateTable,
        index: usize,
        old_top_edge_y: i32,
        x: usize,
        z: usize,
        checked_edge_y: i32,
        top_state: BlockStateId,
        bottom_y: i32,
        bottom_state: BlockStateId,
        state_at: &F,
    ) -> (settled: bool)
        requires
            table.wf(),
            index < 256,
            bottom_y == checked_edge_y - 1,
            reads_column(*state_at, x, z),
            top_state == column_of(*state_at, x, z)(checked_edge_y as int),
            bottom_state == column_of(*state_at, x, z)(bottom_y as int),
        ensures
            final(self).min_y == old(self).min_y,
            match checked_edge(
                table,
                column_of(*state_at, x, z),
                old(self).min_y as int,
                old_top_edge_y as int,
                checked_edge_y as int,
            ) {
                Some(edge_y) => settled && edge_y == final(self).heightmap@[index as int]
                    && final(self).heightmap@ == old(self).heightmap@.update(
                    index as int,
                    edge_y as i32,
                ),
                None => !settled && final(self).heightmap@ == old(self).heightmap@,
            },
    {
        if Self::is_edge_occluded(table, top_state, bottom_state) {
            if checked_edge_y > old_top_edge_y {
                self.heightmap[index] = checked_edge_y;
                return true;
            }
        } else if checked_edge_y == old_top_edge_y {
            let new_source_y: i32 = self.find_lowest_source_below(
                table,
                x,
                z,
                bottom_y,
                bottom_state,
                state_at,
            );
            self.heightmap[index] = new_source_y;
            return true;
        }
        false
    }

    fn find_lowest_source_below<F: Fn(usize, i32, usize) -> BlockStateId>(
        &self,
        table: &BlockStateTable,
        x: usize,
        z: usize,
        start_y: i32,
        start_state: BlockStateId,
        state_at: &F,
    ) -> (edge_y: i32)
        requires
            table.wf(),
            reads_column(*state_at, x, z),
            start_state == column_of(*state_at, x, z)(start_y as int),
        ensures
            edge_y == lowest_source_below(
                table,
                column_of(*state_at, x, z),
                self.min_y as int,
                start_y as int,
            ),
    {
        let ghost column = column_of(*state_at, x, z);
        let mut top_y: i32 = start_y;
        let mut top_state: BlockStateId = start_state;
        while top_y > self.min_y
            invariant
                table.wf(),
                reads_column(*state_at, x, z),
                column == column_of(*state_at, x, z),
                top_state == column(top_y as int),
                lowest_source_below(table, column, self.min_y as int, start_y as int)
                    == lowest_source_below(table, column, self.min_y as int, top_y as int),
            decreases top_y - self.min_y,
        {
            let bottom_y: i32 = top_y - 1;
            let bottom_state: BlockStateId = Self::read_state(state_at, x, bottom_y, z);
            if Self::is_edge_occluded(table, top_state, bottom_state) {
                return top_y;
            }
            top_state = bottom_state;
            top_y = bottom_y;
        }
        self.min_y
    }

    /// Returns the lowest skylight source Y for a local X/Z column.
    #[must_use]
    pub fn get_lowest_source_y(&self, x: usize, z: usize) -> (y: i32)
        requires
            x < CHUNK_EDGE,
            z < CHUNK_EDGE,
        ensures
            y == self.lowest_source(x as int, z as int),
            self.valid() ==> y == i32::MIN || y > self.min_y,
    {
        assert(self.valid() ==> self.heightmap@[x + z * 16] >= self.min_y);
        self.extend_sources_below_world(self.heightmap[x + z * CHUNK_EDGE])
    }

    /// The highest cached edge of the columns.
    pub open spec fn highest_edge(&self, n: int) -> int
        decreases n,
    {
        if n <= 0 {
            i32::MIN as int
        } else {
            let before = self.highest_edge(n - 1);
            if self.heightmap@[n - 1] > before {
                self.heightmap@[n - 1] as int
            } else {
                before
            }
        }
    }

    /// A height is the lowest source of some column, and no column's lowest
    /// source is higher.
    pub open spec fn is_highest_source(&self, y: int) -> bool {
        &&& exists|x: int, z: int|
            0 <= x < 16 && 0 <= z < 16 && #[trigger] self.lowest_source(x, z) == y
        &&& forall|x: int, z: int|
            0 <= x < 16 && 0 <= z < 16 ==> #[trigger] self.lowest_source(x, z) <= y
    }

    proof fn lemma_highest_source(&self)
        requires
            self.valid(),
        ensures
            self.is_highest_source(self.extended(self.highest_edge(256))),
    {
        self.highest_edge_is_maximum(256);
        let highest = self.highest_edge(256);
        let c = choose|c: int| 0 <= c < 256 && #[trigger] self.heightmap@[c] == highest;
        assert(c == c % 16 + (c / 16) * 16);
        assert(self.lowest_source(c % 16, c / 16) == self.extended(highest));
        assert forall|x: int, z: int| 0 <= x < 16 && 0 <= z < 16 implies #[trigger]
            self.lowest_source(x, z) <= self.extended(highest) by {
            assert(self.heightmap@[x + z * 16] <= highest);
            assert(self.heightmap@[x + z * 16] >= self.min_y);
        }
    }

    /// Returns the highest cached lowest-source Y across all columns.
    #[must_use]
    pub fn get_highest_lowest_source_y(&self) -> (y: i32)
        ensures
            y == self.extended(self.highest_edge(256)),
            self.valid() ==> self.is_highest_source(y as int),
    {
        proof {
            if self.valid() {
                self.lemma_highest_source();
            }
        }
        let mut max_value: i32 = NEGATIVE_INFINITY;
        let mut i: usize = 0;
        while i < CHUNK_COLUMN_COUNT
            invariant
                i <= 256,
                max_value == self.highest_edge(i as int),
            decreases 256 - i,
        {
            if self.heightmap[i] > max_value {
                max_value = self.heightmap[i];
            }
            i += 1;
        }
        self.extend_sources_below_world(max_value)
    }

    /// The highest cached edge is a column's edge, and no column's edge is
    /// higher.
    pub proof fn highest_edge_is_maximum(&self, n: int)
        requires
            0 < n <= 256,
        ensures
            exists|c: int| 0 <= c < n && #[trigger] self.heightmap@[c] == self.highest_edge(n),
            forall|c: int| 0 <= c < n ==> #[trigger] self.heightmap@[c] <= self.highest_edge(n),
        decreases n,
    {
        if n > 1 {
            self.highest_edge_is_maximum(n - 1);
            if self.heightmap@[n - 1] > self.highest_edge(n - 1) {
                assert(self.heightmap@[n - 1] == self.highest_edge(n));
            } else {
                let c = choose|c: int|
                    0 <= c < n - 1 && #[trigger] self.heightmap@[c] == self.highest_edge(n - 1);
                assert(self.heightmap@[c] == self.highest_edge(n));
            }
        } else {
            reveal_with_fuel(ChunkSkyLightSources::highest_edge, 2);
            assert(self.heightmap@[0] == self.highest_edge(1));
        }
    }

    fn is_edge_occluded(
        table: &BlockStateTable,
        top_state: BlockStateId,
        bottom_state: BlockStateId,
    ) -> (result: bool)
        requires
            table.wf(),
        ensures
            result == edge_occluded(table, top_state, bottom_state),
    {
        if table.get(bottom_state).light_dampening != 0 {
            return true;
        }
        light_face_occludes(table, top_state, bottom_state, Direction::Down)
    }

    fn extend_sources_below_world(&self, value: i32) -> (y: i32)
        ensures
            y == self.extended(value as int),
    {
        if value == self.min_y {
            NEGATIVE_INFINITY
        } else {
            value
        }
    }
}

/// The edge that a search finds is the highest one: it stops light, and no
/// edge between it and the start does.
pub proof fn lowest_source_is_highest_edge(
    table: &BlockStateTable,
    column: spec_fn(int) -> BlockStateId,
    min_y: int,
    top: int,
    edge: int,
)
    ensures
        lowest_source_below(table, column, min_y, top) > min_y ==> edge_occluded(
            table,
            column(lowest_source_below(table, column, min_y, top)),
            column(lowest_source_below(table, column, min_y, top) - 1),
        ),
        lowest_source_below(table, column, min_y, top) < edge <= top && min_y < edge
            ==> !edge_occluded(table, column(edge), column(edge - 1)),
    decreases top - min_y,
{
    if top > min_y && !edge_occluded(table, column(top), column(top - 1)) {
        lowest_source_is_highest_edge(table, column, min_y, top - 1, edge);
    }
}

/// Sources that no edge puts below the world: a column's lowest source lies in
/// the world or reaches below it without limit, the highest of them is that of
/// a column and no column's is higher, and it is without limit exactly when
/// every column's is.
pub proof fn sources_stay_in_world(sources: &ChunkSkyLightSources, x: int, z: int)
    requires
        sources.valid(),
        0 <= x < 16,
        0 <= z < 16,
    ensures
        sources.lowest_source(x, z) == i32::MIN || sources.lowest_source(x, z) > sources.min_y,
        sources.is_highest_source(sources.extended(sources.highest_edge(256))),
        sources.extended(sources.highest_edge(256)) == i32::MIN <==> forall|a: int, b: int|
            0 <= a < 16 && 0 <= b < 16 ==> #[trigger] sources.lowest_source(a, b) == i32::MIN,
{
    assert(sources.heightmap@[x + z * 16] >= sources.min_y);
    sources.lemma_highest_source();
    let highest = sources.extended(sources.highest_edge(256));
    if highest == i32::MIN {
        assert forall|a: int, b: int| 0 <= a < 16 && 0 <= b < 16 implies #[trigger]
            sources.lowest_source(a, b) == i32::MIN by {
            assert(sources.lowest_source(a, b) <= highest);
        }
    }
}

} // verus!
