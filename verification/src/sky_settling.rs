//! Which sections around the active chunk have sky light: those around filled
//! ones.
use vstd::prelude::*;

use crate::cache::LightCacheLayout;
use crate::engine_model::level_of;
use crate::light_cache::{section_view, SlotView};
use crate::position::{section_coord, BlockPos, ChunkPos, SectionPos};
use crate::sky_changes::near_section;
use crate::sky_lighting::{
    center_section, center_top, comes_into_being, is_sound, is_uniform, lemma_init_level,
    was_checked,
};
use crate::sky_model::{
    any_lit_near, check_null, chunk_near, chunk_section, extruded_level, init_section, level_above,
    outside_chunk, section_near, settle_section, surrounding, surroundings_known, SkyState,
    SkyWorld,
};

verus! {

/// A distance of at most one.
pub open spec fn is_step(d: int) -> bool {
    -1 <= d <= 1
}

/// The nine chunks around a chunk are the chunks at most one away.
pub proof fn chunks_near_are_all_around(chunk_pos: ChunkPos, dx: int, dz: int) -> (i: int)
    requires
        is_step(dx),
        is_step(dz),
    ensures
        0 <= i < 9,
        chunk_near(chunk_pos, i) == (ChunkPos {
            x: (chunk_pos.x + dx) as i32,
            z: (chunk_pos.z + dz) as i32,
        }),
{
    let i = (dz + 1) * 3 + dx + 1;
    assert(i % 3 == dx + 1 && i / 3 == dz + 1);
    i
}

/// The surroundings of a section are the sections at most one away.
pub proof fn surroundings_are_all_around(
    chunk_pos: ChunkPos,
    y: int,
    dx: int,
    dy: int,
    dz: int,
) -> (i: int)
    requires
        is_step(dx),
        is_step(dy),
        is_step(dz),
    ensures
        0 <= i < 27,
        i / 9 - 1 == dy,
        surrounding(chunk_pos, y, i) == section_near(chunk_pos, dx, y + dy, dz),
{
    let i = (dy + 1) * 9 + (dz + 1) * 3 + dx + 1;
    assert(i % 3 == dx + 1 && (i / 3) % 3 == dz + 1 && i / 9 == dy + 1);
    i
}

/// Every section around a section is known to be empty, as far as it can hold
/// blocks.
pub open spec fn is_known_empty(sw: SkyWorld<'_>, chunk_pos: ChunkPos, y: int) -> bool {
    forall|dx: int, dy: int, dz: int|
        is_step(dx) && is_step(dy) && is_step(dz) && sw.min_chunk_y() <= y + dy
            < sw.max_chunk_y() ==> (sw.section_emptiness)(
            #[trigger] section_near(chunk_pos, dx, y + dy, dz),
        ) == Some(true)
}

proof fn lemma_surroundings_known(sw: SkyWorld<'_>, chunk_pos: ChunkPos, y: int, i: int)
    requires
        0 <= i <= 27,
    ensures
        surroundings_known(sw, chunk_pos, y, i) == Some(true) <==> forall|k: int|
            i <= k < 27 && !outside_chunk(sw, y, k) ==> (sw.section_emptiness)(
                #[trigger] surrounding(chunk_pos, y, k),
            ) == Some(true),
        surroundings_known(sw, chunk_pos, y, i) == Some(false) ==> exists|k: int|
            i <= k < 27 && !outside_chunk(sw, y, k) && (sw.section_emptiness)(
                #[trigger] surrounding(chunk_pos, y, k),
            ) == Some(false),
    decreases 27 - i,
{
    if i < 27 {
        lemma_surroundings_known(sw, chunk_pos, y, i + 1);
        let here = surrounding(chunk_pos, y, i);
        if !outside_chunk(sw, y, i) {
            assert((sw.section_emptiness)(here) == (sw.section_emptiness)(here));
            match (sw.section_emptiness)(here) {
                Some(empty) => {
                    if empty {
                        if surroundings_known(sw, chunk_pos, y, i + 1) == Some(true) {
                            assert forall|k: int|
                                i <= k < 27 && !outside_chunk(sw, y, k) implies (
                            sw.section_emptiness)(#[trigger] surrounding(chunk_pos, y, k)) == Some(
                                true,
                            ) by {}
                        }
                    }
                },
                None => {},
            }
        }
    }
}

/// The surroundings of a section are known to be empty exactly when each section
/// at most one away that can hold blocks is cached and empty.
pub proof fn known_emptiness_is_exact(sw: SkyWorld<'_>, chunk_pos: ChunkPos, y: int)
    ensures
        surroundings_known(sw, chunk_pos, y, 0) == Some(true) <==> is_known_empty(
            sw,
            chunk_pos,
            y,
        ),
{
    lemma_surroundings_known(sw, chunk_pos, y, 0);
    if surroundings_known(sw, chunk_pos, y, 0) == Some(true) {
        assert forall|dx: int, dy: int, dz: int|
            is_step(dx) && is_step(dy) && is_step(dz) && sw.min_chunk_y() <= y + dy
                < sw.max_chunk_y() implies (sw.section_emptiness)(
            #[trigger] section_near(chunk_pos, dx, y + dy, dz),
        ) == Some(true) by {
            let i = surroundings_are_all_around(chunk_pos, y, dx, dy, dz);
            assert(!outside_chunk(sw, y, i));
        }
    }
    if is_known_empty(sw, chunk_pos, y) {
        assert forall|k: int| 0 <= k < 27 && !outside_chunk(sw, y, k) implies (
        sw.section_emptiness)(#[trigger] surrounding(chunk_pos, y, k)) == Some(true) by {
            let (dx, dy, dz) = (k % 3 - 1, k / 9 - 1, (k / 3) % 3 - 1);
            assert(is_step(dx) && is_step(dy) && is_step(dz));
            assert(surrounding(chunk_pos, y, k) == section_near(chunk_pos, dx, y + dy, dz));
        }
    }
}

/// Settling a section takes its light where all the sections around it are known
/// to be empty, keeps it otherwise, and leaves every other section alone.
pub proof fn settling_follows_surroundings(
    sw: SkyWorld<'_>,
    light: Seq<SlotView>,
    chunk_pos: ChunkPos,
    y: int,
    extrude: bool,
    other: SectionPos,
)
    requires
        sw.layout().wf(),
        light.len() == sw.layout().slots(),
    ensures
        ({
            let pos = chunk_section(chunk_pos, y);
            let after = settle_section(sw, light, chunk_pos, y, extrude);
            let was = section_view(sw.layout(), light, pos);
            let now = section_view(sw.layout(), after, pos);
            &&& is_known_empty(sw, chunk_pos, y) ==> !now.is_lit()
            &&& !is_known_empty(sw, chunk_pos, y) && was.is_lit() ==> now == was
            &&& other != pos ==> section_view(sw.layout(), after, other) == section_view(
                sw.layout(),
                light,
                other,
            )
        }),
{
    let layout = sw.layout();
    let pos = chunk_section(chunk_pos, y);
    known_emptiness_is_exact(sw, chunk_pos, y);
    layout.slot_round_trip(pos, 0);
    layout.slot_round_trip(other, 0);
}

/// A section that is filled or stands next to a filled one has light once it was
/// settled.
pub proof fn settling_lights_surroundings(
    sw: SkyWorld<'_>,
    light: Seq<SlotView>,
    chunk_pos: ChunkPos,
    y: int,
    dx: int,
    dy: int,
    dz: int,
)
    requires
        sw.layout().wf(),
        light.len() == sw.layout().slots(),
        sw.layout().has_section(chunk_section(chunk_pos, y)),
        section_view(sw.layout(), light, chunk_section(chunk_pos, y)) is Cached,
        is_step(dx) && is_step(dy) && is_step(dz),
        sw.min_chunk_y() <= y + dy < sw.max_chunk_y(),
        sw.is_filled(section_near(chunk_pos, dx, y + dy, dz)),
    ensures
        section_view(
            sw.layout(),
            settle_section(sw, light, chunk_pos, y, false),
            chunk_section(chunk_pos, y),
        ).is_lit(),
{
    let layout = sw.layout();
    let pos = chunk_section(chunk_pos, y);
    let i = surroundings_are_all_around(chunk_pos, y, dx, dy, dz);
    layout.slot_round_trip(pos, 0);
    lemma_surroundings_known(sw, chunk_pos, y, 0);
    assert(!outside_chunk(sw, y, i));
    assert(surrounding(chunk_pos, y, i) == section_near(chunk_pos, dx, y + dy, dz));
    assert(sw.is_filled(surrounding(chunk_pos, y, i)));
    assert(surroundings_known(sw, chunk_pos, y, 0) != Some(true));
    assert(init_section(sw, light, pos, false, false)[layout.slot_at(pos)].is_lit());
}

/// A height that is looked at for the first time gets light in the active
/// chunk's section where a section around the chunk has light at that height:
/// full light above the filled sections, and none below. Sections that had light
/// and sections at other heights stay as they are.
pub proof fn looked_heights_have_light(sw: SkyWorld<'_>, s: SkyState, y: int, i: int)
    requires
        sw.layout().wf(),
        sw.layout().in_world(),
        is_sound(sw, s.engine.light),
        sw.layout().section_range.contains(y),
        s.checked.len() == sw.layout().section_range.count(),
        !was_checked(sw, s, y),
        !(center_section(sw, s.engine.light, y) is Absent),
        0 <= i < 9,
        near_section(sw, s.engine.light, y, i).is_lit(),
    ensures
        ({
            let after = check_null(sw, s, sw.layout().center, y, false);
            &&& was_checked(sw, after, y)
            &&& after.engine.queues == s.engine.queues
            &&& center_section(sw, after.engine.light, y).is_lit()
            &&& !center_section(sw, s.engine.light, y).is_lit() ==> is_uniform(
                center_section(sw, after.engine.light, y),
                y > center_top(sw),
            )
            &&& comes_into_being(sw.layout(), s.engine.light, after.engine.light, y)
        }),
{
    let layout = sw.layout();
    let light = s.engine.light;
    lemma_init_level(sw, light, y, 9);
    layout.slot_round_trip(chunk_section(layout.center, y), 0);
    assert(section_view(
        layout,
        light,
        chunk_section(chunk_near(layout.center, i), y),
    ).is_lit());
    assert(any_lit_near(sw, light, layout.center, y));
}

/// Where nothing around the active chunk has light at a height, looking at it
/// changes no light.
pub proof fn looked_heights_stay_dark(sw: SkyWorld<'_>, s: SkyState, y: int)
    requires
        forall|i: int|
            0 <= i < 9 ==> !(#[trigger] near_section(sw, s.engine.light, y, i)).is_lit(),
    ensures
        check_null(sw, s, sw.layout().center, y, false).engine == s.engine,
{
    let center = sw.layout().center;
    if any_lit_near(sw, s.engine.light, center, y) {
        let i = choose|i: int|
            0 <= i < 9 && section_view(
                sw.layout(),
                s.engine.light,
                chunk_section(#[trigger] chunk_near(center, i), y),
            ).is_lit();
        assert(near_section(sw, s.engine.light, y, i).is_lit());
    }
}

/// The section of a block column at a height.
pub open spec fn column_section(pos: BlockPos, y: int) -> SectionPos {
    SectionPos::of_block(BlockPos { x: pos.x, y: (y * 16) as i32, z: pos.z })
}

proof fn lemma_level_above(
    layout: LightCacheLayout,
    light: Seq<SlotView>,
    pos: BlockPos,
    from: int,
    y: int,
)
    requires
        from <= y,
        forall|k: int|
            from <= k < y ==> !section_view(
                layout,
                light,
                #[trigger] column_section(pos, k),
            ).is_lit(),
        y == layout.section_range.max_y() || (y < layout.section_range.max_y() && section_view(
            layout,
            light,
            column_section(pos, y),
        ).is_lit()),
    ensures
        level_above(layout, light, pos, from) == if y == layout.section_range.max_y() {
            15
        } else {
            level_of(
                light,
                layout.cached(BlockPos { x: pos.x, y: (y * 16) as i32, z: pos.z }),
            )
        },
    decreases y - from,
{
    if from < y {
        assert(!section_view(layout, light, column_section(pos, from)).is_lit());
        lemma_level_above(layout, light, pos, from + 1, y);
    }
}

/// The level of a block is its own where its section has light. Elsewhere it is
/// that of the lowest block of the first section above it that has light, and
/// full light where there is none.
pub proof fn missing_light_comes_from_above(
    layout: LightCacheLayout,
    light: Seq<SlotView>,
    pos: BlockPos,
    y: int,
)
    requires
        section_coord(pos.y as int) < y <= layout.section_range.max_y(),
        forall|k: int|
            section_coord(pos.y as int) < k < y ==> !section_view(
                layout,
                light,
                #[trigger] column_section(pos, k),
            ).is_lit(),
        y < layout.section_range.max_y() ==> section_view(
            layout,
            light,
            column_section(pos, y),
        ).is_lit(),
    ensures
        extruded_level(layout, light, pos) == if section_view(
            layout,
            light,
            SectionPos::of_block(pos),
        ).is_lit() {
            level_of(light, layout.cached(pos))
        } else if y == layout.section_range.max_y() {
            15
        } else {
            level_of(
                light,
                layout.cached(BlockPos { x: pos.x, y: (y * 16) as i32, z: pos.z }),
            )
        },
{
    lemma_level_above(layout, light, pos, section_coord(pos.y as int) + 1, y);
}

} // verus!
