//! What the parts of sky-light propagation do.
use vstd::prelude::*;

use crate::block_state::BlockStateId;
use crate::cache::LightCacheLayout;
use crate::engine_model::{
    after_increase, after_relight, entry_for, entry_source, level_of, queue_decrease,
    queue_increase, set_block, EngineState, LightWorld,
};
use crate::light_cache::{extrude_from_above, section_view, update_section, SlotView};
use crate::packed_queue::{
    axis_bit, LightAxisDirection, LightDirectionSet, LightQueueFlags, PackedLightQueueEntry,
};
use crate::position::{local_coord, section_coord, BlockPos, ChunkPos, Direction, SectionPos};
use crate::propagation::{level_from_around, no_flags};

verus! {

/// The blocks that sky light passes through, and which sections are empty.
pub struct SkyWorld<'a> {
    /// The blocks.
    pub base: LightWorld<'a>,
    /// Whether a cached section is empty, where it is cached.
    pub section_emptiness: spec_fn(SectionPos) -> Option<bool>,
    /// Whether a section is empty by the light storage's knowledge.
    pub light_emptiness: spec_fn(SectionPos) -> Option<bool>,
}

/// The light, the queued work, and which heights were looked at for null
/// sections.
#[verifier::ext_equal]
pub struct SkyState {
    /// Light and queued work.
    pub engine: EngineState,
    /// Whether each light section height was looked at.
    pub checked: Seq<bool>,
}

impl<'a> SkyWorld<'a> {
    /// The window.
    pub open spec fn layout(self) -> LightCacheLayout {
        self.base.layout
    }

    /// The section is known not to be empty: by the cached section, or else by
    /// the light storage.
    pub open spec fn is_filled(self, pos: SectionPos) -> bool {
        match (self.section_emptiness)(pos) {
            Some(empty) => !empty,
            None => (self.light_emptiness)(pos) == Some(false),
        }
    }

    /// The section is cached and not empty.
    pub open spec fn is_cached_filled(self, pos: SectionPos) -> bool {
        (self.section_emptiness)(pos) == Some(false)
    }

    /// The state of a block; air outside of the window.
    pub open spec fn block_state(self, pos: BlockPos) -> BlockStateId {
        if self.layout().has_block(pos) {
            self.base.state(self.layout().cached(pos))
        } else {
            self.base.table.spec_air()
        }
    }

    /// The first chunk section.
    pub open spec fn min_chunk_y(self) -> int {
        self.layout().section_range.min_y() + 1
    }

    /// One past the last chunk section.
    pub open spec fn max_chunk_y(self) -> int {
        self.layout().section_range.max_y() - 1
    }
}

/// The section of a chunk at a height.
pub open spec fn chunk_section(chunk_pos: ChunkPos, y: int) -> SectionPos {
    SectionPos { x: chunk_pos.x, y: y as i32, z: chunk_pos.z }
}

/// The section at a horizontal and vertical distance from a chunk's section.
pub open spec fn section_near(chunk_pos: ChunkPos, dx: int, y: int, dz: int) -> SectionPos {
    SectionPos { x: (chunk_pos.x + dx) as i32, y: y as i32, z: (chunk_pos.z + dz) as i32 }
}

/// The chunk's blocks and those around it have coordinates.
pub open spec fn chunk_in_world(chunk_pos: ChunkPos) -> bool {
    -134217720 <= chunk_pos.x <= 134217720 && -134217720 <= chunk_pos.z <= 134217720
}

/// The highest section of a column from `y` down that is not empty, or one
/// below the light sections.
pub open spec fn highest_filled(sw: SkyWorld<'_>, pos: SectionPos, y: int) -> int
    decreases y - sw.min_chunk_y() + 1,
{
    if y < sw.min_chunk_y() {
        sw.layout().section_range.min_y() - 1
    } else if sw.is_filled(SectionPos { x: pos.x, y: y as i32, z: pos.z }) {
        y
    } else {
        highest_filled(sw, pos, y - 1)
    }
}

/// The light after a section was brought into being: a null section above all
/// filled ones is fully lit, one below takes the light above it or starts dark.
pub open spec fn init_section(
    sw: SkyWorld<'_>,
    light: Seq<SlotView>,
    pos: SectionPos,
    extrude: bool,
    init_removed: bool,
) -> Seq<SlotView> {
    let layout = sw.layout();
    let slot = section_view(layout, light, pos);
    if !layout.has_section(pos) || (!(slot is Cached) && !(init_removed && slot is Removed)) {
        light
    } else {
        let present = if slot is Cached {
            light
        } else {
            light.update(layout.slot_at(pos), slot.materialized())
        };
        let current = present[layout.slot_at(pos)];
        if !current.is_null() {
            present
        } else if pos.y > highest_filled(sw, pos, sw.max_chunk_y() - 1) {
            present.update(layout.slot_at(pos), current.non_null().filled(15))
        } else if extrude {
            extrude_from_above(layout, present, pos)
        } else {
            present.update(layout.slot_at(pos), current.non_null())
        }
    }
}

/// The light after the first `n` sections around a chunk's section were brought
/// into being, ordered by z, then x, then downwards.
pub open spec fn init_around(
    sw: SkyWorld<'_>,
    light: Seq<SlotView>,
    chunk_pos: ChunkPos,
    y: int,
    center_extrudes: bool,
    n: int,
) -> Seq<SlotView>
    decreases n,
{
    if n <= 0 {
        light
    } else {
        let i = n - 1;
        let (dx, dy, dz) = ((i / 3) % 3 - 1, 1 - i % 3, i / 9 - 1);
        init_section(
            sw,
            init_around(sw, light, chunk_pos, y, center_extrudes, n - 1),
            section_near(chunk_pos, dx, y + dy, dz),
            dx != 0 || dz != 0 || center_extrudes,
            false,
        )
    }
}

/// The light after the surroundings of every filled section of a chunk from
/// `y` down were brought into being.
pub open spec fn init_chunk(
    sw: SkyWorld<'_>,
    light: Seq<SlotView>,
    chunk_pos: ChunkPos,
    unlit: bool,
    y: int,
) -> Seq<SlotView>
    decreases y - sw.min_chunk_y() + 1,
{
    if y < sw.min_chunk_y() {
        light
    } else {
        let next = if sw.is_filled(chunk_section(chunk_pos, y)) {
            init_around(sw, light, chunk_pos, y, !unlit, 27)
        } else {
            light
        };
        init_chunk(sw, next, chunk_pos, unlit, y - 1)
    }
}

/// The section at place `i` of the 27 sections around a chunk's section,
/// ordered by height, then z, then x.
pub open spec fn surrounding(chunk_pos: ChunkPos, y: int, i: int) -> SectionPos {
    section_near(chunk_pos, i % 3 - 1, y + i / 9 - 1, (i / 3) % 3 - 1)
}

/// Whether a place of the surroundings lies outside of the chunk sections.
pub open spec fn outside_chunk(sw: SkyWorld<'_>, y: int, i: int) -> bool {
    !(sw.min_chunk_y() <= y + i / 9 - 1 < sw.max_chunk_y())
}

/// Whether the surroundings of a section are all empty, as far as cached
/// sections tell: unknown as soon as a section that is not cached comes before
/// one that is filled.
pub open spec fn surroundings_known(
    sw: SkyWorld<'_>,
    chunk_pos: ChunkPos,
    y: int,
    i: int,
) -> Option<bool>
    decreases 27 - i,
{
    if i >= 27 {
        Some(true)
    } else if outside_chunk(sw, y, i) {
        surroundings_known(sw, chunk_pos, y, i + 1)
    } else {
        match (sw.section_emptiness)(surrounding(chunk_pos, y, i)) {
            None => None,
            Some(empty) => if empty {
                surroundings_known(sw, chunk_pos, y, i + 1)
            } else {
                Some(false)
            },
        }
    }
}

/// No section around a section is known to be filled.
pub open spec fn surroundings_empty(sw: SkyWorld<'_>, chunk_pos: ChunkPos, y: int) -> bool {
    forall|i: int|
        0 <= i < 27 && !outside_chunk(sw, y, i) ==> !sw.is_filled(
            #[trigger] surrounding(chunk_pos, y, i),
        )
}

/// The light after one section was made null or brought into being, by its
/// surroundings.
pub open spec fn settle_section(
    sw: SkyWorld<'_>,
    light: Seq<SlotView>,
    chunk_pos: ChunkPos,
    y: int,
    extrude: bool,
) -> Seq<SlotView> {
    let pos = chunk_section(chunk_pos, y);
    match surroundings_known(sw, chunk_pos, y, 0) {
        Some(true) => update_section(
            sw.layout(),
            light,
            pos,
            section_view(sw.layout(), light, pos).nulled(),
        ),
        Some(false) => init_section(sw, light, pos, extrude, false),
        None => if surroundings_empty(sw, chunk_pos, y) {
            light
        } else {
            init_section(sw, light, pos, extrude, false)
        },
    }
}

/// The light after a chunk's sections from `y` down were settled.
pub open spec fn settle_chunk(
    sw: SkyWorld<'_>,
    light: Seq<SlotView>,
    chunk_pos: ChunkPos,
    extrude: bool,
    y: int,
) -> Seq<SlotView>
    decreases y - sw.layout().section_range.min_y() + 1,
{
    if y < sw.layout().section_range.min_y() {
        light
    } else {
        settle_chunk(
            sw,
            settle_section(sw, light, chunk_pos, y, extrude),
            chunk_pos,
            extrude,
            y - 1,
        )
    }
}

/// The chunk at place `i` of the nine chunks around a chunk, ordered by z, then
/// x.
pub open spec fn chunk_near(chunk_pos: ChunkPos, i: int) -> ChunkPos {
    ChunkPos { x: (chunk_pos.x + i % 3 - 1) as i32, z: (chunk_pos.z + i / 3 - 1) as i32 }
}

/// The light after the first `n` chunks around a chunk were settled.
pub open spec fn settle_around(
    sw: SkyWorld<'_>,
    light: Seq<SlotView>,
    chunk_pos: ChunkPos,
    unlit: bool,
    n: int,
) -> Seq<SlotView>
    decreases n,
{
    if n <= 0 {
        light
    } else {
        settle_chunk(
            sw,
            settle_around(sw, light, chunk_pos, unlit, n - 1),
            chunk_near(chunk_pos, n - 1),
            n - 1 != 4 || !unlit,
            sw.layout().section_range.max_y() - 1,
        )
    }
}

/// Some section of the nine at a height around a chunk is cached and not null.
pub open spec fn any_lit_near(
    sw: SkyWorld<'_>,
    light: Seq<SlotView>,
    chunk_pos: ChunkPos,
    y: int,
) -> bool {
    exists|i: int|
        0 <= i < 9 && section_view(
            sw.layout(),
            light,
            chunk_section(#[trigger] chunk_near(chunk_pos, i), y),
        ).is_lit()
}

/// The light after the first `n` of the nine sections at a height were brought
/// into being, those that were taken out included.
pub open spec fn init_level(
    sw: SkyWorld<'_>,
    light: Seq<SlotView>,
    chunk_pos: ChunkPos,
    y: int,
    extrude_center: bool,
    n: int,
) -> Seq<SlotView>
    decreases n,
{
    if n <= 0 {
        light
    } else {
        init_section(
            sw,
            init_level(sw, light, chunk_pos, y, extrude_center, n - 1),
            chunk_section(chunk_near(chunk_pos, n - 1), y),
            n - 1 != 4 || extrude_center,
            true,
        )
    }
}

/// The state after a height was looked at for null sections: each height is
/// looked at once, and where a section around the chunk is lit the others come
/// into being.
pub open spec fn check_null(
    sw: SkyWorld<'_>,
    s: SkyState,
    chunk_pos: ChunkPos,
    y: int,
    extrude_center: bool,
) -> SkyState {
    let range = sw.layout().section_range;
    if !range.contains(y) || s.checked[y - range.min_y()] {
        s
    } else {
        SkyState {
            engine: if any_lit_near(sw, s.engine.light, chunk_pos, y) {
                EngineState {
                    light: init_level(sw, s.engine.light, chunk_pos, y, extrude_center, 9),
                    ..s.engine
                }
            } else {
                s.engine
            },
            checked: s.checked.update(y - range.min_y(), true),
        }
    }
}

/// The block at place `j` of a chunk section's edge towards a direction: 16
/// heights of 16 blocks each.
pub open spec fn edge_block(
    chunk_pos: ChunkPos,
    y: int,
    direction: LightAxisDirection,
    j: int,
) -> BlockPos {
    let block_y = y * 16 + j / 16;
    let k = j % 16;
    match direction {
        LightAxisDirection::PositiveX => BlockPos {
            x: (chunk_pos.x * 16 + 15) as i32,
            y: block_y as i32,
            z: (chunk_pos.z * 16 + k) as i32,
        },
        LightAxisDirection::NegativeX => BlockPos {
            x: (chunk_pos.x * 16) as i32,
            y: block_y as i32,
            z: (chunk_pos.z * 16 + k) as i32,
        },
        LightAxisDirection::PositiveZ => BlockPos {
            x: (chunk_pos.x * 16 + k) as i32,
            y: block_y as i32,
            z: (chunk_pos.z * 16 + 15) as i32,
        },
        _ => BlockPos {
            x: (chunk_pos.x * 16 + k) as i32,
            y: block_y as i32,
            z: (chunk_pos.z * 16) as i32,
        },
    }
}

/// The block across a chunk's edge.
pub open spec fn across_edge(
    chunk_pos: ChunkPos,
    y: int,
    direction: LightAxisDirection,
    j: int,
) -> BlockPos {
    edge_block(chunk_pos, y, direction, j).spec_relative(direction.spec_direction())
}

/// The section across a chunk's edge.
pub open spec fn section_across(
    chunk_pos: ChunkPos,
    y: int,
    direction: LightAxisDirection,
) -> SectionPos {
    section_near(
        chunk_pos,
        direction.spec_direction().dx(),
        y,
        direction.spec_direction().dz(),
    )
}

/// The directions of work that goes in one direction only.
pub open spec fn only(direction: LightAxisDirection) -> LightDirectionSet {
    LightDirectionSet(axis_bit(direction))
}

/// The directions of work that goes everywhere but upwards.
pub open spec fn not_up() -> LightDirectionSet {
    LightDirectionSet(63 & !axis_bit(LightAxisDirection::PositiveY))
}

/// The flags of work whose source may have occluding faces.
pub open spec fn sided_flags() -> LightQueueFlags {
    LightQueueFlags {
        write_level: false,
        recheck_level: false,
        has_sided_transparent_blocks: true,
    }
}

/// The state after the first `n` blocks of an edge were queued to spread full
/// light across it.
pub open spec fn spread_edge(
    sw: SkyWorld<'_>,
    s: EngineState,
    chunk_pos: ChunkPos,
    y: int,
    direction: LightAxisDirection,
    n: int,
) -> EngineState
    decreases n,
{
    if n <= 0 {
        s
    } else {
        queue_increase(
            sw.layout(),
            spread_edge(sw, s, chunk_pos, y, direction, n - 1),
            edge_block(chunk_pos, y, direction, n - 1),
            15,
            only(direction),
            no_flags(),
        )
    }
}

/// The state after an empty section's full light was queued to spread across
/// the first `n` edges behind which a section is lit.
pub open spec fn spread_edges(
    sw: SkyWorld<'_>,
    s: EngineState,
    chunk_pos: ChunkPos,
    y: int,
    n: int,
) -> EngineState
    decreases n,
{
    if n <= 0 {
        s
    } else {
        let before = spread_edges(sw, s, chunk_pos, y, n - 1);
        let direction = LightAxisDirection::at(n - 1);
        if section_view(
            sw.layout(),
            before.light,
            section_across(chunk_pos, y, direction),
        ).is_lit() {
            spread_edge(sw, before, chunk_pos, y, direction, 256)
        } else {
            before
        }
    }
}

/// The bottom level of a column's first lit section from `section_y` up; full
/// light when there is none.
pub open spec fn level_above(
    layout: LightCacheLayout,
    light: Seq<SlotView>,
    pos: BlockPos,
    section_y: int,
) -> u8
    decreases layout.section_range.max_y() - section_y,
{
    let above = BlockPos { x: pos.x, y: (section_y * 16) as i32, z: pos.z };
    if section_y >= layout.section_range.max_y() {
        15
    } else if section_view(layout, light, SectionPos::of_block(above)).is_lit() {
        level_of(light, layout.cached(above))
    } else {
        level_above(layout, light, pos, section_y + 1)
    }
}

/// The level of a block, taken from above where its section is null or not
/// cached.
pub open spec fn extruded_level(
    layout: LightCacheLayout,
    light: Seq<SlotView>,
    pos: BlockPos,
) -> u8 {
    if section_view(layout, light, SectionPos::of_block(pos)).is_lit() {
        level_of(light, layout.cached(pos))
    } else {
        level_above(layout, light, pos, section_coord(pos.y as int) + 1)
    }
}

/// The chunk that holds a block column.
pub open spec fn column_chunk(x: i32, z: i32) -> ChunkPos {
    ChunkPos { x: section_coord(x as int) as i32, z: section_coord(z as int) as i32 }
}

/// Sky light stops at a block below another one.
pub open spec fn sky_stops(
    sw: SkyWorld<'_>,
    above: BlockStateId,
    current: BlockStateId,
) -> bool {
    let dampening = sw.base.table.info(current).light_dampening;
    sw.base.table.light_block_into(above, current, Direction::Down, dampening) == 16 || dampening
        > 0
}

/// What a descent of sky light leaves: the state, the delayed entries, and the
/// height at which it stopped.
#[verifier::ext_equal]
pub struct Descent {
    /// The state.
    pub state: SkyState,
    /// Entries whose levels are written later.
    pub delayed: Seq<PackedLightQueueEntry>,
    /// The height of the first block that was not reached.
    pub y: int,
}

/// A descent of sky light from height `y`: it goes on while nothing stops it,
/// passes sections without light in one step, and spreads full light from the
/// blocks of lit sections. Their levels are written at once, or later when they
/// are delayed.
pub open spec fn descend(
    sw: SkyWorld<'_>,
    s: SkyState,
    delayed: Seq<PackedLightQueueEntry>,
    x: i32,
    z: i32,
    extrude: bool,
    delay: bool,
    above: BlockStateId,
    y: int,
) -> Descent
    decreases y - sw.layout().section_range.min_y() * 16 + 1,
{
    if y < sw.layout().section_range.min_y() * 16 {
        Descent { state: s, delayed, y }
    } else {
        let pos = BlockPos { x, y: y as i32, z };
        let looked = if y % 16 == 15 {
            check_null(sw, s, column_chunk(x, z), section_coord(y), extrude)
        } else {
            s
        };
        let current = sw.block_state(pos);
        if sky_stops(sw, above, current) {
            Descent { state: looked, delayed, y }
        } else if !section_view(
            sw.layout(),
            looked.engine.light,
            SectionPos::of_block(pos),
        ).is_lit() {
            descend(
                sw,
                looked,
                delayed,
                x,
                z,
                extrude,
                delay,
                sw.base.table.spec_air(),
                section_coord(y) * 16 - 1,
            )
        } else {
            let flags = sw.base.shape_flags(current);
            let queued = queue_increase(sw.layout(), looked.engine, pos, 15, not_up(), flags);
            let lit = if delay {
                queued
            } else {
                EngineState {
                    light: set_block(queued.light, sw.layout().cached(pos), 15),
                    ..queued
                }
            };
            let waiting = if delay && sw.layout().can_encode(pos) {
                delayed.push(entry_for(sw.layout(), pos, 15, not_up(), flags))
            } else {
                delayed
            };
            descend(
                sw,
                SkyState { engine: lit, ..looked },
                waiting,
                x,
                z,
                extrude,
                delay,
                current,
                y - 1,
            )
        }
    }
}

/// A descent of sky light into a column from height `y`, if the block above is
/// fully lit.
pub open spec fn enter_column(
    sw: SkyWorld<'_>,
    s: SkyState,
    delayed: Seq<PackedLightQueueEntry>,
    x: i32,
    z: i32,
    extrude: bool,
    delay: bool,
    y: int,
) -> Descent {
    let above = BlockPos { x, y: (y + 1) as i32, z };
    if extruded_level(sw.layout(), s.engine.light, above) != 15 {
        Descent { state: s, delayed, y }
    } else {
        descend(
            sw,
            check_null(sw, s, column_chunk(x, z), section_coord(y), extrude),
            delayed,
            x,
            z,
            extrude,
            delay,
            sw.block_state(above),
            y,
        )
    }
}

/// The state after sky light descended into the first `n` columns of a chunk
/// from above a section.
pub open spec fn enter_columns(
    sw: SkyWorld<'_>,
    s: SkyState,
    chunk_pos: ChunkPos,
    y: int,
    n: int,
) -> SkyState
    decreases n,
{
    if n <= 0 {
        s
    } else {
        enter_column(
            sw,
            enter_columns(sw, s, chunk_pos, y, n - 1),
            Seq::empty(),
            (chunk_pos.x * 16 + (n - 1) % 16) as i32,
            (chunk_pos.z * 16 + (n - 1) / 16) as i32,
            false,
            false,
            y,
        ).state
    }
}

/// The removal of sky sources from height `y` down: fully lit blocks are queued
/// to become dark until one is not, and sections without light are passed.
pub open spec fn remove_below(
    sw: SkyWorld<'_>,
    s: SkyState,
    delayed: Seq<PackedLightQueueEntry>,
    x: i32,
    z: i32,
    y: int,
) -> Descent
    decreases y - sw.layout().section_range.min_y() * 16 + 1,
{
    if y < sw.layout().section_range.min_y() * 16 {
        Descent { state: s, delayed, y }
    } else {
        let pos = BlockPos { x, y: y as i32, z };
        let looked = if y % 16 == 15 {
            check_null(sw, s, column_chunk(x, z), section_coord(y), true)
        } else {
            s
        };
        if !section_view(
            sw.layout(),
            looked.engine.light,
            SectionPos::of_block(pos),
        ).is_lit() {
            remove_below(sw, looked, delayed, x, z, section_coord(y) * 16 - 1)
        } else if level_of(looked.engine.light, sw.layout().cached(pos)) != 15 {
            Descent { state: looked, delayed, y }
        } else {
            let waiting = if sw.layout().can_encode(pos) {
                delayed.push(entry_for(sw.layout(), pos, 15, not_up(), no_flags()))
            } else {
                delayed
            };
            remove_below(
                sw,
                SkyState {
                    engine: queue_decrease(
                        sw.layout(),
                        looked.engine,
                        pos,
                        15,
                        not_up(),
                        no_flags(),
                    ),
                    ..looked
                },
                waiting,
                x,
                z,
                y - 1,
            )
        }
    }
}

/// The removal of a column's sky sources from height `y` down, if the block
/// there is fully lit.
pub open spec fn remove_column(
    sw: SkyWorld<'_>,
    s: SkyState,
    delayed: Seq<PackedLightQueueEntry>,
    x: i32,
    z: i32,
    y: int,
) -> Descent {
    if extruded_level(sw.layout(), s.engine.light, BlockPos { x, y: y as i32, z }) != 15 {
        Descent { state: s, delayed, y }
    } else {
        remove_below(sw, s, delayed, x, z, y)
    }
}

/// The light after the levels of the first `n` delayed entries were written, or
/// made dark.
pub open spec fn write_delayed(
    layout: LightCacheLayout,
    light: Seq<SlotView>,
    entries: Seq<PackedLightQueueEntry>,
    dark: bool,
    n: int,
) -> Seq<SlotView>
    decreases n,
{
    if n <= 0 {
        light
    } else {
        let before = write_delayed(layout, light, entries, dark, n - 1);
        match entry_source(layout, entries[n - 1]) {
            Some(source) => set_block(
                before,
                source,
                if dark {
                    0
                } else {
                    entries[n - 1].spec_level()
                },
            ),
            None => before,
        }
    }
}

/// The state after the levels of the first `n` blocks across an edge were
/// queued to spread inwards.
pub open spec fn pull_edge(
    sw: SkyWorld<'_>,
    s: EngineState,
    chunk_pos: ChunkPos,
    y: int,
    direction: LightAxisDirection,
    n: int,
) -> EngineState
    decreases n,
{
    if n <= 0 {
        s
    } else {
        let before = pull_edge(sw, s, chunk_pos, y, direction, n - 1);
        let pos = across_edge(chunk_pos, y, direction, n - 1);
        if sw.layout().has_block(pos) && level_of(before.light, sw.layout().cached(pos)) > 1 {
            queue_increase(
                sw.layout(),
                before,
                pos,
                level_of(before.light, sw.layout().cached(pos)),
                only(direction.spec_opposite()),
                sided_flags(),
            )
        } else {
            before
        }
    }
}

/// The state after the levels behind the first `n` edges of a section were
/// queued to spread inwards, where the section there is initialized.
pub open spec fn pull_edges(
    sw: SkyWorld<'_>,
    s: EngineState,
    chunk_pos: ChunkPos,
    y: int,
    n: int,
) -> EngineState
    decreases n,
{
    if n <= 0 {
        s
    } else {
        let before = pull_edges(sw, s, chunk_pos, y, n - 1);
        let direction = LightAxisDirection::at(n - 1);
        if section_view(
            sw.layout(),
            before.light,
            section_across(chunk_pos, y, direction),
        ).is_initialized() {
            pull_edge(sw, before, chunk_pos, y, direction, 256)
        } else {
            before
        }
    }
}

/// The state after neighbor levels were pulled into a chunk's lit sections from
/// `y` down to `from`.
pub open spec fn pull_levels(
    sw: SkyWorld<'_>,
    s: EngineState,
    chunk_pos: ChunkPos,
    from: int,
    y: int,
) -> EngineState
    decreases y - from + 1,
{
    if y < from {
        s
    } else {
        let next = if section_view(
            sw.layout(),
            s.light,
            chunk_section(chunk_pos, y),
        ).is_lit() {
            pull_edges(sw, s, chunk_pos, y, 4)
        } else {
            s
        };
        pull_levels(sw, next, chunk_pos, from, y - 1)
    }
}

/// The sky-light level that a block should have.
pub open spec fn calculated_sky_level(
    w: LightWorld<'_>,
    light: Seq<SlotView>,
    pos: BlockPos,
    expect: u8,
) -> Option<u8> {
    if expect == 15 {
        Some(expect)
    } else if !w.layout.has_block(pos) {
        None
    } else {
        Some(level_from_around(w, light, pos, expect, 0, 0))
    }
}

/// The state after a block's opacity change was noted: a fully lit block
/// spreads its light again, another one becomes dark, and what it had
/// decreases.
pub open spec fn sky_block_checked(
    w: LightWorld<'_>,
    s: EngineState,
    pos: BlockPos,
) -> EngineState {
    if !w.layout.has_block(pos) {
        s
    } else {
        let block = w.layout.cached(pos);
        let current = level_of(s.light, block);
        let noted = if current == 15 {
            queue_increase(w.layout, s, pos, current, LightDirectionSet(63), sided_flags())
        } else {
            EngineState { light: set_block(s.light, block, 0), ..s }
        };
        queue_decrease(w.layout, noted, pos, current, LightDirectionSet(63), no_flags())
    }
}

/// A block does not have the level that it should have.
pub open spec fn sky_block_wrong(w: LightWorld<'_>, light: Seq<SlotView>, pos: BlockPos) -> bool {
    let level = level_of(light, w.layout.cached(pos));
    calculated_sky_level(w, light, pos, level) matches Some(calculated) && calculated != level
}

/// The blocks among the first `n` of an edge, on this side or across it, that
/// do not have the level that they should have.
pub open spec fn wrong_blocks(
    sw: SkyWorld<'_>,
    light: Seq<SlotView>,
    chunk_pos: ChunkPos,
    y: int,
    direction: LightAxisDirection,
    across: bool,
    n: int,
) -> Seq<BlockPos>
    decreases n,
{
    if n <= 0 {
        Seq::empty()
    } else {
        let before = wrong_blocks(sw, light, chunk_pos, y, direction, across, n - 1);
        let here = edge_block(chunk_pos, y, direction, n - 1);
        let there = across_edge(chunk_pos, y, direction, n - 1);
        let pos = if across {
            there
        } else {
            here
        };
        if sw.layout().has_block(here) && sw.layout().has_block(there) && sky_block_wrong(
            sw.base,
            light,
            pos,
        ) {
            before.push(pos)
        } else {
            before
        }
    }
}

/// The state after the first `n` blocks of two lists were noted, one of each
/// list in turn.
pub open spec fn blocks_checked_in_turn(
    w: LightWorld<'_>,
    s: EngineState,
    here: Seq<BlockPos>,
    there: Seq<BlockPos>,
    n: int,
) -> EngineState
    decreases n,
{
    if n <= 0 {
        s
    } else {
        let before = blocks_checked_in_turn(w, s, here, there, n - 1);
        let first = if n - 1 < here.len() {
            sky_block_checked(w, before, here[n - 1])
        } else {
            before
        };
        if n - 1 < there.len() {
            sky_block_checked(w, first, there[n - 1])
        } else {
            first
        }
    }
}

/// The state after one edge of a section was checked against the section across
/// it.
pub open spec fn edge_checked(
    sw: SkyWorld<'_>,
    s: EngineState,
    chunk_pos: ChunkPos,
    y: int,
    direction: LightAxisDirection,
) -> EngineState {
    let here = wrong_blocks(sw, s.light, chunk_pos, y, direction, false, 256);
    let there = wrong_blocks(sw, s.light, chunk_pos, y, direction, true, 256);
    blocks_checked_in_turn(
        sw.base,
        s,
        here,
        there,
        if here.len() < there.len() {
            there.len() as int
        } else {
            here.len() as int
        },
    )
}

/// The state after the first `n` edges of a section were checked: those behind
/// which a section is lit, when one of the two is initialized.
pub open spec fn edges_checked(
    sw: SkyWorld<'_>,
    s: EngineState,
    chunk_pos: ChunkPos,
    y: int,
    n: int,
) -> EngineState
    decreases n,
{
    if n <= 0 {
        s
    } else {
        let before = edges_checked(sw, s, chunk_pos, y, n - 1);
        let direction = LightAxisDirection::at(n - 1);
        let here = section_view(sw.layout(), before.light, chunk_section(chunk_pos, y));
        let there = section_view(
            sw.layout(),
            before.light,
            section_across(chunk_pos, y, direction),
        );
        if there.is_lit() && (here.is_initialized() || there.is_initialized()) {
            edge_checked(sw, before, chunk_pos, y, direction)
        } else {
            before
        }
    }
}

/// The state after the edges of a chunk's lit sections were checked from `y`
/// down to `from`.
pub open spec fn sections_checked(
    sw: SkyWorld<'_>,
    s: EngineState,
    chunk_pos: ChunkPos,
    from: int,
    y: int,
) -> EngineState
    decreases y - from + 1,
{
    if y < from {
        s
    } else {
        let next = if section_view(
            sw.layout(),
            s.light,
            chunk_section(chunk_pos, y),
        ).is_lit() {
            edges_checked(sw, s, chunk_pos, y, 4)
        } else {
            s
        };
        sections_checked(sw, next, chunk_pos, from, y - 1)
    }
}

/// The state after a chunk's edges were checked and its light was propagated.
pub open spec fn chunk_edges_checked(
    sw: SkyWorld<'_>,
    s: EngineState,
    chunk_pos: ChunkPos,
    from: int,
    to: int,
) -> EngineState {
    after_relight(sw.base, false, sections_checked(sw, s, chunk_pos, from, to))
}

/// The state after heights from `y` down to `from` were looked at for null
/// sections.
pub open spec fn check_nulls(
    sw: SkyWorld<'_>,
    s: SkyState,
    chunk_pos: ChunkPos,
    extrude: bool,
    from: int,
    y: int,
) -> SkyState
    decreases y - from + 1,
{
    if y < from {
        s
    } else {
        check_nulls(
            sw,
            check_null(sw, s, chunk_pos, y, extrude),
            chunk_pos,
            extrude,
            from,
            y - 1,
        )
    }
}

/// The state after the empty sections at the top of a chunk were lit: each is
/// looked at for null sections, and its light is queued to spread to the sides.
pub open spec fn light_empty_top(
    sw: SkyWorld<'_>,
    s: SkyState,
    chunk_pos: ChunkPos,
    y: int,
) -> SkyState
    decreases y - sw.min_chunk_y() + 2,
{
    if y < sw.min_chunk_y() - 1 || (y != sw.min_chunk_y() - 1 && sw.is_cached_filled(
        chunk_section(chunk_pos, y),
    )) {
        s
    } else {
        let looked = check_null(sw, s, chunk_pos, y, false);
        light_empty_top(
            sw,
            SkyState { engine: spread_edges(sw, looked.engine, chunk_pos, y, 4), ..looked },
            chunk_pos,
            y - 1,
        )
    }
}

/// The highest filled section of a chunk from `y` down, or one below the
/// section below the chunk.
pub open spec fn top_filled(sw: SkyWorld<'_>, chunk_pos: ChunkPos, y: int) -> int
    decreases y - sw.min_chunk_y() + 2,
{
    if y < sw.min_chunk_y() - 1 || (y != sw.min_chunk_y() - 1 && sw.is_cached_filled(
        chunk_section(chunk_pos, y),
    )) {
        y
    } else {
        top_filled(sw, chunk_pos, y - 1)
    }
}

/// The light and marks at the start of a pass: null sections are taken out, and
/// no height was looked at.
pub open spec fn fresh_pass(s: SkyState) -> SkyState {
    SkyState {
        engine: EngineState {
            light: s.engine.light.map_values(|slot: SlotView| slot.rewritten()),
            ..s.engine
        },
        checked: Seq::new(s.checked.len(), |i: int| false),
    }
}

/// The state after sky light came down into a chunk, before its edges are seen
/// to.
pub open spec fn chunk_lit_from_above(
    sw: SkyWorld<'_>,
    s: SkyState,
    chunk_pos: ChunkPos,
) -> SkyState {
    let opened = light_empty_top(sw, fresh_pass(s), chunk_pos, sw.max_chunk_y() - 1);
    let top = top_filled(sw, chunk_pos, sw.max_chunk_y() - 1);
    if top >= sw.min_chunk_y() {
        enter_columns(sw, opened, chunk_pos, top * 16 + 16, 256)
    } else {
        opened
    }
}

/// The state after a chunk was lit from above and its edges were checked, or
/// neighbor levels were pulled in.
pub open spec fn chunk_lit(
    sw: SkyWorld<'_>,
    s: SkyState,
    chunk_pos: ChunkPos,
    edge_checks: bool,
) -> SkyState {
    let lit = chunk_lit_from_above(sw, s, chunk_pos);
    let top = top_filled(sw, chunk_pos, sw.max_chunk_y() - 1);
    let bottom = sw.layout().section_range.min_y();
    if edge_checks {
        let spread = SkyState { engine: after_increase(sw.base, lit.engine), ..lit };
        let looked = check_nulls(sw, spread, chunk_pos, false, bottom, top);
        SkyState {
            engine: chunk_edges_checked(sw, looked.engine, chunk_pos, bottom, top),
            ..looked
        }
    } else {
        let looked = check_nulls(sw, lit, chunk_pos, false, bottom, top);
        SkyState {
            engine: after_increase(
                sw.base,
                pull_levels(sw, looked.engine, chunk_pos, bottom, top),
            ),
            ..looked
        }
    }
}

/// The block lies in a chunk.
pub open spec fn in_chunk(chunk_pos: ChunkPos, pos: BlockPos) -> bool {
    section_coord(pos.x as int) == chunk_pos.x && section_coord(pos.z as int) == chunk_pos.z
}

/// The section heights of the first `n` changed blocks of a chunk, each once, in
/// order of first mention.
pub open spec fn changed_heights(
    chunk_pos: ChunkPos,
    positions: Seq<BlockPos>,
    n: int,
) -> Seq<i32>
    decreases n,
{
    if n <= 0 {
        Seq::empty()
    } else {
        let before = changed_heights(chunk_pos, positions, n - 1);
        let height = section_coord(positions[n - 1].y as int) as i32;
        if in_chunk(chunk_pos, positions[n - 1]) && !before.contains(height) {
            before.push(height)
        } else {
            before
        }
    }
}

/// The light after the surroundings of the first `n` changed heights were
/// brought into being, where the section is filled.
pub open spec fn init_heights(
    sw: SkyWorld<'_>,
    light: Seq<SlotView>,
    chunk_pos: ChunkPos,
    heights: Seq<i32>,
    n: int,
) -> Seq<SlotView>
    decreases n,
{
    if n <= 0 {
        light
    } else {
        let before = init_heights(sw, light, chunk_pos, heights, n - 1);
        if sw.is_cached_filled(chunk_section(chunk_pos, heights[n - 1] as int)) {
            init_around(sw, before, chunk_pos, heights[n - 1] as int, true, 27)
        } else {
            before
        }
    }
}

/// The highest changed block of a column among the first `n` changes; the
/// lowest number when there is none.
pub open spec fn highest_change(
    chunk_pos: ChunkPos,
    positions: Seq<BlockPos>,
    column: int,
    n: int,
) -> i32
    decreases n,
{
    if n <= 0 {
        i32::MIN
    } else {
        let before = highest_change(chunk_pos, positions, column, n - 1);
        let pos = positions[n - 1];
        if in_chunk(chunk_pos, pos) && local_coord(pos.x as int) + local_coord(pos.z as int) * 16
            == column && pos.y > before {
            pos.y
        } else {
            before
        }
    }
}

/// What the changed columns leave: the state and the entries whose levels are
/// written later.
#[verifier::ext_equal]
pub struct ColumnPass {
    /// The state.
    pub state: SkyState,
    /// Entries whose levels are written.
    pub increases: Seq<PackedLightQueueEntry>,
    /// Entries whose blocks become dark.
    pub removals: Seq<PackedLightQueueEntry>,
}

/// The state after sky light entered the first `n` changed columns from their
/// highest changed blocks, and sources below where it stopped were removed.
pub open spec fn change_columns(
    sw: SkyWorld<'_>,
    s: SkyState,
    positions: Seq<BlockPos>,
    n: int,
) -> ColumnPass
    decreases n,
{
    if n <= 0 {
        ColumnPass { state: s, increases: Seq::empty(), removals: Seq::empty() }
    } else {
        let chunk_pos = sw.layout().center;
        let before = change_columns(sw, s, positions, n - 1);
        let max_y = highest_change(chunk_pos, positions, n - 1, positions.len() as int);
        let x = (chunk_pos.x * 16 + (n - 1) % 16) as i32;
        let z = (chunk_pos.z * 16 + (n - 1) / 16) as i32;
        if max_y == i32::MIN {
            before
        } else {
            let entered = enter_column(
                sw,
                before.state,
                before.increases,
                x,
                z,
                true,
                true,
                max_y as int,
            );
            let removed = remove_column(
                sw,
                entered.state,
                before.removals,
                x,
                z,
                entered.y,
            );
            ColumnPass {
                state: removed.state,
                increases: entered.delayed,
                removals: removed.delayed,
            }
        }
    }
}

/// The state after the first `n` changes were noted.
pub open spec fn sky_blocks_checked(
    w: LightWorld<'_>,
    s: EngineState,
    positions: Seq<BlockPos>,
    n: int,
) -> EngineState
    decreases n,
{
    if n <= 0 {
        s
    } else {
        sky_block_checked(w, sky_blocks_checked(w, s, positions, n - 1), positions[n - 1])
    }
}

/// The state after block changes in the center chunk were propagated.
pub open spec fn changes_propagated(
    sw: SkyWorld<'_>,
    s: SkyState,
    positions: Seq<BlockPos>,
) -> SkyState {
    let chunk_pos = sw.layout().center;
    let started = fresh_pass(s);
    let heights = changed_heights(chunk_pos, positions, positions.len() as int);
    let opened = SkyState {
        engine: EngineState {
            light: init_heights(
                sw,
                started.engine.light,
                chunk_pos,
                heights,
                heights.len() as int,
            ),
            ..started.engine
        },
        ..started
    };
    let pass = change_columns(sw, opened, positions, 256);
    let brightened = write_delayed(
        sw.layout(),
        pass.state.engine.light,
        pass.increases,
        false,
        pass.increases.len() as int,
    );
    let darkened = write_delayed(
        sw.layout(),
        brightened,
        pass.removals,
        true,
        pass.removals.len() as int,
    );
    let noted = sky_blocks_checked(
        sw.base,
        EngineState { light: darkened, ..pass.state.engine },
        positions,
        positions.len() as int,
    );
    SkyState { engine: after_relight(sw.base, false, noted), ..pass.state }
}

} // verus!
