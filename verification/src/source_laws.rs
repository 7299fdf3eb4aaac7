//! Stored sky light follows the lowest sources of its columns.
use vstd::prelude::*;

use crate::position::{
    key_keeps_column, section_coord, section_of_key, section_round_trip, BlockPos, Direction,
    SectionPos,
};
use crate::queue::{direction_value, value_is_set, QueuedLightUpdate, QueuesView};
use crate::sky_sources::SkyLightSourceNeighborhood;
use crate::storage_model::{
    add_sources_from, at_height, block_index, column_updates, east_source, fill_columns,
    lemma_stored_has_top, lemma_top_has_stored, lowest_in_section, north_source,
    propagate_sections, propagate_sources, remove_sources_from, section_updates, set_level,
    sky_source_entry, source_at, source_spreads, source_update, sources_continue, south_source,
    update_column, west_source, zero_key, StorageModel,
};

verus! {

/// The cell of a section lies at or above its column's lowest source.
pub open spec fn is_sourced(
    hood: SkyLightSourceNeighborhood<'_>,
    section_y: int,
    index: int,
) -> bool {
    hood.center.lowest_source(index % 16, (index / 16) % 16) <= section_y * 16 + index / 256
}

proof fn lemma_key_of_height(pos: SectionPos, y: int, key: u64)
    requires
        -0x80000 <= y < 0x80000,
    ensures
        at_height(pos, y) == key <==> section_of_key(key).y == y && zero_key(section_of_key(key))
            == zero_key(pos),
{
    let at = section_of_key(key);
    let here = SectionPos { y: y as i32, ..pos };
    section_round_trip(key);
    key_keeps_column(here, pos);
    key_keeps_column(at, pos);
}

proof fn lemma_sections_filled(
    m: StorageModel,
    q: QueuesView,
    pos: SectionPos,
    hood: SkyLightSourceNeighborhood<'_>,
    section_y: int,
    bottom: int,
    key: u64,
    index: int,
)
    requires
        -0x80000 <= bottom,
        section_y < 0x80000,
        m.updating.contains_key(key),
        0 <= index < 4096,
    ensures
        ({
            let after = propagate_sections(m, q, pos, hood, section_y, bottom).0;
            let at = section_of_key(key);
            &&& after.updating.contains_key(key)
            &&& if zero_key(at) == zero_key(pos) && bottom <= at.y <= section_y {
                after.updating[key].levels[index] == if is_sourced(hood, at.y as int, index) {
                    15
                } else {
                    m.updating[key].levels[index]
                }
            } else {
                after.updating[key] == m.updating[key]
            }
        }),
    decreases section_y - bottom + 1,
{
    let at = section_of_key(key);
    let here = at_height(pos, section_y);
    if section_y >= bottom {
        lemma_key_of_height(pos, section_y, key);
        let c = index % 256;
        assert(c % 16 == index % 16 && c / 16 == (index / 16) % 16);
        if !m.updating.contains_key(here) {
            lemma_sections_filled(m, q, pos, hood, section_y - 1, bottom, key, index);
        } else {
            let filled = StorageModel {
                updating: m.updating.insert(
                    here,
                    fill_columns(m.updating[here], hood.center, section_y, 256),
                ),
                changed: m.changed.insert(here),
                ..m
            };
            let queued = QueuesView {
                increase: q.increase + section_updates(hood, pos, section_y, 256),
                ..q
            };
            if sources_continue(hood.center, section_y) {
                lemma_sections_filled(
                    filled,
                    queued,
                    pos,
                    hood,
                    section_y - 1,
                    bottom,
                    key,
                    index,
                );
            } else {
                assert(source_at(hood.center, c) >= section_y * 16);
            }
        }
    }
}

/// Once the sky sources of a column were propagated, every stored block at or
/// above the lowest source of its block column is fully lit, and every other
/// stored level is as it was.
pub proof fn propagated_sources_are_lit(
    m: StorageModel,
    q: QueuesView,
    pos: SectionPos,
    hood: SkyLightSourceNeighborhood<'_>,
    key: u64,
    index: int,
)
    requires
        m.valid(),
        m.sky is Some,
        m.updating.contains_key(key),
        0 <= index < 4096,
    ensures
        ({
            let after = propagate_sources(m, q, pos, hood).0;
            let at = section_of_key(key);
            &&& after.updating.contains_key(key)
            &&& after.updating[key].levels[index] == if zero_key(at) == zero_key(pos)
                && is_sourced(hood, at.y as int, index) {
                15
            } else {
                m.updating[key].levels[index]
            }
        }),
{
    reveal(StorageModel::valid);
    let columns = m.sky->0.updating;
    let at = section_of_key(key);
    let begun = StorageModel { sources: m.sources.insert(zero_key(pos)), ..m };
    lemma_stored_has_top(m.updating.dom(), columns, key);
    let top = columns.top(zero_key(pos));
    if columns.tops.contains_key(zero_key(pos)) {
        lemma_top_has_stored(m.updating.dom(), columns, zero_key(pos));
    }
    if columns.lowest_y == i32::MAX {
        assert(false);
    }
    lemma_sections_filled(
        begun,
        q,
        pos,
        hood,
        top - 1,
        columns.lowest_y as int,
        key,
        index,
    );
}

/// The lowest source of the block column beside a block column.
pub open spec fn lowest_beside(
    hood: SkyLightSourceNeighborhood<'_>,
    x: int,
    z: int,
    direction: Direction,
) -> int {
    let (nx, nz) = (x + direction.dx(), z + direction.dz());
    if nx < 0 {
        hood.west.lowest_source(nx + 16, nz)
    } else if nx > 15 {
        hood.east.lowest_source(nx - 16, nz)
    } else if nz < 0 {
        hood.north.lowest_source(nx, nz + 16)
    } else if nz > 15 {
        hood.south.lowest_source(nx, nz - 16)
    } else {
        hood.center.lowest_source(nx, nz)
    }
}

/// A source gives work: it is the lowest of its block column, or a block column
/// beside it has no source at its height.
pub open spec fn gives_work(
    hood: SkyLightSourceNeighborhood<'_>,
    x: int,
    z: int,
    y: int,
) -> bool {
    &&& hood.center.lowest_source(x, z) <= y
    &&& y == hood.center.lowest_source(x, z) || y < lowest_beside(hood, x, z, Direction::North)
        || y < lowest_beside(hood, x, z, Direction::South) || y < lowest_beside(
        hood,
        x,
        z,
        Direction::West,
    ) || y < lowest_beside(hood, x, z, Direction::East)
}

/// An update spreads full light from a source: downwards from the lowest one, to
/// each side on which there is no source at its height, and never upwards.
pub open spec fn is_source_work(
    hood: SkyLightSourceNeighborhood<'_>,
    pos: SectionPos,
    x: int,
    z: int,
    y: int,
    update: QueuedLightUpdate,
) -> bool {
    let raw = update.entry.0;
    &&& update.block_pos == BlockPos {
        x: (pos.x * 16 + x) as i32,
        y: y as i32,
        z: (pos.z * 16 + z) as i32,
    }
    &&& raw % 16 == 15
    &&& value_is_set(raw, direction_value(Direction::Down)) == (y == hood.center.lowest_source(
        x,
        z,
    ))
    &&& !value_is_set(raw, direction_value(Direction::Up))
    &&& value_is_set(raw, direction_value(Direction::North)) == (y < lowest_beside(
        hood,
        x,
        z,
        Direction::North,
    ))
    &&& value_is_set(raw, direction_value(Direction::South)) == (y < lowest_beside(
        hood,
        x,
        z,
        Direction::South,
    ))
    &&& value_is_set(raw, direction_value(Direction::West)) == (y < lowest_beside(
        hood,
        x,
        z,
        Direction::West,
    ))
    &&& value_is_set(raw, direction_value(Direction::East)) == (y < lowest_beside(
        hood,
        x,
        z,
        Direction::East,
    ))
}

proof fn lemma_source_update(
    hood: SkyLightSourceNeighborhood<'_>,
    pos: SectionPos,
    c: int,
    y: int,
)
    requires
        0 <= c < 256,
    ensures
        is_source_work(hood, pos, c % 16, c / 16, y, source_update(hood, pos, c, y)),
        source_spreads(hood, c, y) && source_at(hood.center, c) <= y <==> gives_work(
            hood,
            c % 16,
            c / 16,
            y,
        ),
{
    let (x, z) = (c % 16, c / 16);
    assert(0 <= x < 16 && 0 <= z < 16);
    assert(north_source(hood, c) == lowest_beside(hood, x, z, Direction::North));
    assert(south_source(hood, c) == lowest_beside(hood, x, z, Direction::South));
    assert(west_source(hood, c) == lowest_beside(hood, x, z, Direction::West));
    assert(east_source(hood, c) == lowest_beside(hood, x, z, Direction::East));
}

/// The update is that of a source of a block column between two heights.
spec fn is_column_work(
    hood: SkyLightSourceNeighborhood<'_>,
    pos: SectionPos,
    c: int,
    top_y: int,
    y: int,
    update: QueuedLightUpdate,
) -> bool {
    exists|h: int|
        y <= h <= top_y && source_spreads(hood, c, h) && update == #[trigger] source_update(
            hood,
            pos,
            c,
            h,
        )
}

proof fn lemma_column_updates(
    hood: SkyLightSourceNeighborhood<'_>,
    pos: SectionPos,
    c: int,
    top_y: int,
    y: int,
)
    ensures
        ({
            let updates = column_updates(hood, pos, c, top_y, y);
            &&& forall|h: int|
                y <= h <= top_y && source_spreads(hood, c, h) ==> updates.contains(
                    #[trigger] source_update(hood, pos, c, h),
                )
            &&& forall|k: int|
                0 <= k < updates.len() ==> is_column_work(
                    hood,
                    pos,
                    c,
                    top_y,
                    y,
                    #[trigger] updates[k],
                )
        }),
    decreases top_y - y + 1,
{
    if y <= top_y {
        lemma_column_updates(hood, pos, c, top_y, y + 1);
        let above = column_updates(hood, pos, c, top_y, y + 1);
        let updates = column_updates(hood, pos, c, top_y, y);
        if source_spreads(hood, c, y) {
            assert(updates == above.push(source_update(hood, pos, c, y)));
            assert(updates[above.len() as int] == source_update(hood, pos, c, y));
        }
        assert forall|h: int|
            y <= h <= top_y && source_spreads(hood, c, h) implies updates.contains(
            #[trigger] source_update(hood, pos, c, h),
        ) by {
            if h > y {
                assert(above.contains(source_update(hood, pos, c, h)));
                let k = choose|k: int|
                    0 <= k < above.len() && above[k] == source_update(hood, pos, c, h);
                assert(updates[k] == source_update(hood, pos, c, h));
            }
        }
        assert forall|k: int| 0 <= k < updates.len() implies is_column_work(
            hood,
            pos,
            c,
            top_y,
            y,
            #[trigger] updates[k],
        ) by {
            if k < above.len() {
                assert(updates[k] == above[k]);
                assert(is_column_work(hood, pos, c, top_y, y + 1, above[k]));
            }
        }
    }
}

/// The work of a section is that of its sources that give any.
spec fn lists_section_work(
    hood: SkyLightSourceNeighborhood<'_>,
    pos: SectionPos,
    section_y: int,
    n: int,
    updates: Seq<QueuedLightUpdate>,
) -> bool {
    &&& forall|c: int, h: int|
        0 <= c < n && section_y * 16 <= h <= section_y * 16 + 15 && source_at(hood.center, c) <= h
            && source_spreads(hood, c, h) ==> updates.contains(
            #[trigger] source_update(hood, pos, c, h),
        )
    &&& forall|k: int|
        0 <= k < updates.len() ==> is_section_work(hood, pos, section_y, n, #[trigger] updates[k])
}

/// The update is that of a source of one of the first `n` block columns of a
/// section.
spec fn is_section_work(
    hood: SkyLightSourceNeighborhood<'_>,
    pos: SectionPos,
    section_y: int,
    n: int,
    update: QueuedLightUpdate,
) -> bool {
    exists|c: int, h: int|
        0 <= c < n && section_y * 16 <= h <= section_y * 16 + 15 && source_at(hood.center, c) <= h
            && source_spreads(hood, c, h) && update == #[trigger] source_update(hood, pos, c, h)
}

proof fn lemma_section_updates(
    hood: SkyLightSourceNeighborhood<'_>,
    pos: SectionPos,
    section_y: int,
    n: int,
)
    requires
        0 <= n <= 256,
    ensures
        lists_section_work(
            hood,
            pos,
            section_y,
            n,
            section_updates(hood, pos, section_y, n),
        ),
    decreases n,
{
    if n > 0 {
        lemma_section_updates(hood, pos, section_y, n - 1);
        let low = lowest_in_section(hood.center, n - 1, section_y);
        lemma_column_updates(hood, pos, n - 1, section_y * 16 + 15, low);
        let before = section_updates(hood, pos, section_y, n - 1);
        let added = column_updates(hood, pos, n - 1, section_y * 16 + 15, low);
        let updates = section_updates(hood, pos, section_y, n);
        assert(updates == before + added);
        assert forall|c: int, h: int|
            0 <= c < n && section_y * 16 <= h <= section_y * 16 + 15 && source_at(hood.center, c)
                <= h && source_spreads(hood, c, h) implies updates.contains(
            #[trigger] source_update(hood, pos, c, h),
        ) by {
            let update = source_update(hood, pos, c, h);
            if c < n - 1 {
                assert(before.contains(update));
                let k = choose|k: int| 0 <= k < before.len() && before[k] == update;
                assert(updates[k] == update);
            } else {
                assert(added.contains(update));
                let k = choose|k: int| 0 <= k < added.len() && added[k] == update;
                assert(updates[before.len() + k] == update);
            }
        }
        assert forall|k: int| 0 <= k < updates.len() implies is_section_work(
            hood,
            pos,
            section_y,
            n,
            #[trigger] updates[k],
        ) by {
            if k < before.len() {
                assert(updates[k] == before[k]);
                assert(is_section_work(hood, pos, section_y, n - 1, before[k]));
            } else {
                assert(updates[k] == added[k - before.len()]);
                assert(is_column_work(
                    hood,
                    pos,
                    n - 1,
                    section_y * 16 + 15,
                    low,
                    added[k - before.len()],
                ));
            }
        }
    }
}

/// A source of a stored section of a column between two section heights gives
/// work.
spec fn works_between(
    m: StorageModel,
    pos: SectionPos,
    hood: SkyLightSourceNeighborhood<'_>,
    low: int,
    high: int,
    c: int,
    h: int,
) -> bool {
    &&& 0 <= c < 256
    &&& low <= section_coord(h) <= high
    &&& m.updating.contains_key(at_height(pos, section_coord(h)))
    &&& source_at(hood.center, c) <= h
    &&& source_spreads(hood, c, h)
}

/// What was queued is kept, and the work of sources follows it.
spec fn queues_work(
    m: StorageModel,
    q: QueuesView,
    pos: SectionPos,
    hood: SkyLightSourceNeighborhood<'_>,
    low: int,
    high: int,
    after: QueuesView,
) -> bool {
    &&& after.decrease == q.decrease
    &&& after.increase.len() >= q.increase.len()
    &&& forall|k: int| 0 <= k < q.increase.len() ==> #[trigger] after.increase[k] == q.increase[k]
    &&& forall|c: int, h: int|
        works_between(m, pos, hood, low, high, c, h) ==> after.increase.contains(
            #[trigger] source_update(hood, pos, c, h),
        )
    &&& forall|k: int|
        q.increase.len() <= k < after.increase.len() ==> is_work_between(
            m,
            pos,
            hood,
            low,
            high,
            #[trigger] after.increase[k],
        )
}

/// The update is that of a source of a stored section between two heights.
spec fn is_work_between(
    m: StorageModel,
    pos: SectionPos,
    hood: SkyLightSourceNeighborhood<'_>,
    low: int,
    high: int,
    update: QueuedLightUpdate,
) -> bool {
    exists|c: int, h: int|
        works_between(m, pos, hood, low, high, c, h) && update == #[trigger] source_update(
            hood,
            pos,
            c,
            h,
        )
}

proof fn lemma_sections_queued(
    m: StorageModel,
    q: QueuesView,
    pos: SectionPos,
    hood: SkyLightSourceNeighborhood<'_>,
    section_y: int,
    bottom: int,
)
    requires
        -0x80000 <= bottom,
        section_y < 0x80000,
    ensures
        queues_work(
            m,
            q,
            pos,
            hood,
            bottom,
            section_y,
            propagate_sections(m, q, pos, hood, section_y, bottom).1,
        ),
    decreases section_y - bottom + 1, 1int,
{
    let here = at_height(pos, section_y);
    let after = propagate_sections(m, q, pos, hood, section_y, bottom).1;
    if section_y >= bottom {
        if !m.updating.contains_key(here) {
            lemma_sections_queued(m, q, pos, hood, section_y - 1, bottom);
            assert forall|c: int, h: int|
                works_between(
                    m,
                    pos,
                    hood,
                    bottom,
                    section_y,
                    c,
                    h,
                ) implies after.increase.contains(#[trigger] source_update(hood, pos, c, h)) by {
                assert(works_between(m, pos, hood, bottom, section_y - 1, c, h));
            }
            assert forall|k: int| q.increase.len() <= k < after.increase.len() implies
                is_work_between(
                m,
                pos,
                hood,
                bottom,
                section_y,
                #[trigger] after.increase[k],
            ) by {
                assert(is_work_between(m, pos, hood, bottom, section_y - 1, after.increase[k]));
                let (c, h) = choose|c: int, h: int|
                    works_between(m, pos, hood, bottom, section_y - 1, c, h) && after.increase[k]
                        == #[trigger] source_update(hood, pos, c, h);
                assert(works_between(m, pos, hood, bottom, section_y, c, h));
            }
        } else {
            lemma_section_queued(m, q, pos, hood, section_y, bottom);
        }
    }
}

proof fn lemma_section_queued(
    m: StorageModel,
    q: QueuesView,
    pos: SectionPos,
    hood: SkyLightSourceNeighborhood<'_>,
    section_y: int,
    bottom: int,
)
    requires
        -0x80000 <= bottom <= section_y < 0x80000,
        m.updating.contains_key(at_height(pos, section_y)),
    ensures
        queues_work(
            m,
            q,
            pos,
            hood,
            bottom,
            section_y,
            propagate_sections(m, q, pos, hood, section_y, bottom).1,
        ),
    decreases section_y - bottom + 1, 0int,
{
    let here = at_height(pos, section_y);
    let after = propagate_sections(m, q, pos, hood, section_y, bottom).1;
    let filled = StorageModel {
        updating: m.updating.insert(
            here,
            fill_columns(m.updating[here], hood.center, section_y, 256),
        ),
        changed: m.changed.insert(here),
        ..m
    };
    let added = section_updates(hood, pos, section_y, 256);
    let queued = QueuesView { increase: q.increase + added, ..q };
    lemma_section_updates(hood, pos, section_y, 256);
    let goes_on = sources_continue(hood.center, section_y);
    if goes_on {
        lemma_sections_queued(filled, queued, pos, hood, section_y - 1, bottom);
    }
    assert forall|k: int| 0 <= k < queued.increase.len() implies #[trigger] after.increase[k]
        == queued.increase[k] by {}
    assert forall|k: int| 0 <= k < q.increase.len() implies #[trigger] after.increase[k]
        == q.increase[k] by {
        assert(queued.increase[k] == q.increase[k]);
    }
    assert forall|c: int, h: int|
        works_between(m, pos, hood, bottom, section_y, c, h) implies after.increase.contains(
        #[trigger] source_update(hood, pos, c, h),
    ) by {
        let update = source_update(hood, pos, c, h);
        if section_coord(h) == section_y {
            assert(added.contains(update));
            let k = choose|k: int| 0 <= k < added.len() && added[k] == update;
            assert(queued.increase[q.increase.len() + k] == update);
            assert(after.increase[q.increase.len() + k] == update);
        } else if goes_on {
            assert(works_between(filled, pos, hood, bottom, section_y - 1, c, h));
        } else {
            assert(source_at(hood.center, c) >= section_y * 16);
        }
    }
    assert forall|k: int| q.increase.len() <= k < after.increase.len() implies is_work_between(
        m,
        pos,
        hood,
        bottom,
        section_y,
        #[trigger] after.increase[k],
    ) by {
        if k < queued.increase.len() {
            let j = k - q.increase.len();
            assert(after.increase[k] == queued.increase[k] && queued.increase[k] == added[j]);
            assert(is_section_work(hood, pos, section_y, 256, added[j]));
            let (c, h) = choose|c: int, h: int|
                0 <= c < 256 && section_y * 16 <= h <= section_y * 16 + 15 && source_at(
                    hood.center,
                    c,
                ) <= h && source_spreads(hood, c, h) && added[j] == #[trigger] source_update(
                    hood,
                    pos,
                    c,
                    h,
                );
            assert(works_between(m, pos, hood, bottom, section_y, c, h));
        } else {
            assert(is_work_between(filled, pos, hood, bottom, section_y - 1, after.increase[k]));
            let (c, h) = choose|c: int, h: int|
                works_between(filled, pos, hood, bottom, section_y - 1, c, h) && after.increase[k]
                    == #[trigger] source_update(hood, pos, c, h);
            assert(works_between(m, pos, hood, bottom, section_y, c, h));
        }
    }
}

/// The sky sources of a column that were propagated give their work to the queue
/// behind what was queued: each source of a stored section that is the lowest of
/// its block column or has no source beside it, and nothing else.
pub proof fn propagated_sources_are_queued(
    m: StorageModel,
    q: QueuesView,
    pos: SectionPos,
    hood: SkyLightSourceNeighborhood<'_>,
)
    requires
        m.valid(),
        m.sky is Some,
    ensures
        ({
            let after = propagate_sources(m, q, pos, hood).1;
            &&& after.decrease == q.decrease
            &&& after.increase.len() >= q.increase.len()
            &&& forall|k: int|
                0 <= k < q.increase.len() ==> #[trigger] after.increase[k] == q.increase[k]
            &&& forall|x: int, z: int, y: int|
                0 <= x < 16 && 0 <= z < 16 && stores_height(m, pos, y) && #[trigger] gives_work(
                    hood,
                    x,
                    z,
                    y,
                ) ==> exists|k: int|
                    0 <= k < after.increase.len() && is_source_work(
                        hood,
                        pos,
                        x,
                        z,
                        y,
                        #[trigger] after.increase[k],
                    )
            &&& forall|k: int|
                q.increase.len() <= k < after.increase.len() ==> is_some_source_work(
                    m,
                    hood,
                    pos,
                    #[trigger] after.increase[k],
                )
        }),
{
    reveal(StorageModel::valid);
    let columns = m.sky->0.updating;
    let begun = StorageModel { sources: m.sources.insert(zero_key(pos)), ..m };
    let top = columns.top(zero_key(pos)) - 1;
    let low = columns.lowest_y as int;
    let after = propagate_sources(m, q, pos, hood).1;
    if columns.tops.contains_key(zero_key(pos)) {
        lemma_top_has_stored(m.updating.dom(), columns, zero_key(pos));
    }
    if low == i32::MAX {
        assert(after == q);
    } else {
        lemma_sections_queued(begun, q, pos, hood, top, low);
    }
    assert forall|x: int, z: int, y: int|
        0 <= x < 16 && 0 <= z < 16 && stores_height(m, pos, y) && #[trigger] gives_work(
            hood,
            x,
            z,
            y,
        ) implies exists|k: int|
        0 <= k < after.increase.len() && is_source_work(
            hood,
            pos,
            x,
            z,
            y,
            #[trigger] after.increase[k],
        ) by {
        let c = z * 16 + x;
        assert(c % 16 == x && c / 16 == z);
        let key = at_height(pos, section_coord(y));
        lemma_key_of_height(pos, section_coord(y), key);
        lemma_stored_has_top(m.updating.dom(), columns, key);
        lemma_source_update(hood, pos, c, y);
        assert(works_between(begun, pos, hood, low, top, c, y));
        let update = source_update(hood, pos, c, y);
        assert(after.increase.contains(update));
        let k = choose|k: int| 0 <= k < after.increase.len() && after.increase[k] == update;
        assert(is_source_work(hood, pos, x, z, y, after.increase[k]));
    }
    assert forall|k: int| q.increase.len() <= k < after.increase.len() implies
        is_some_source_work(m, hood, pos, #[trigger] after.increase[k]) by {
        assert(is_work_between(begun, pos, hood, low, top, after.increase[k]));
        let (c, h) = choose|c: int, h: int|
            works_between(begun, pos, hood, low, top, c, h) && after.increase[k]
                == #[trigger] source_update(hood, pos, c, h);
        lemma_source_update(hood, pos, c, h);
        assert(is_source_work(hood, pos, c % 16, c / 16, h, after.increase[k]));
    }
}

/// The section of a column at a block height stores light.
pub open spec fn stores_height(m: StorageModel, pos: SectionPos, y: int) -> bool {
    -0x80000 <= section_coord(y) < 0x80000 && m.updating.contains_key(
        at_height(pos, section_coord(y)),
    )
}

/// The update is that of a source of the column that gives work.
pub open spec fn is_some_source_work(
    m: StorageModel,
    hood: SkyLightSourceNeighborhood<'_>,
    pos: SectionPos,
    update: QueuedLightUpdate,
) -> bool {
    exists|x: int, z: int, y: int|
        0 <= x < 16 && 0 <= z < 16 && stores_height(m, pos, y) && gives_work(hood, x, z, y)
            && #[trigger] is_source_work(hood, pos, x, z, y, update)
}

/// The block of a column at a height.
pub open spec fn column_pos(x: i32, y: int, z: i32) -> BlockPos {
    BlockPos { x, y: y as i32, z }
}

/// Every stored layer has all its levels.
pub open spec fn layers_whole(m: StorageModel) -> bool {
    forall|key: u64| #[trigger]
        m.updating.contains_key(key) ==> m.updating[key].levels.len() == 4096
}

/// Heights whose sections have keys of their own.
pub open spec fn has_key(y: int) -> bool {
    -0x80000 <= section_coord(y) < 0x80000
}

/// Setting a block's level changes that block of its column alone.
proof fn lemma_set_level(m: StorageModel, x: i32, z: i32, y: int, level: u8, other: int)
    requires
        layers_whole(m),
        m.stored_level(column_pos(x, y, z)) is Some,
        level < 16,
        has_key(y),
        has_key(other),
    ensures
        ({
            let after = set_level(m, column_pos(x, y, z), level);
            &&& layers_whole(after)
            &&& after.sky == m.sky
            &&& after.stored_level(column_pos(x, other, z)) == if other == y {
                Some(level)
            } else {
                m.stored_level(column_pos(x, other, z))
            }
        }),
{
    let after = set_level(m, column_pos(x, y, z), level);
    let a = SectionPos::of_block(column_pos(x, y, z));
    let b = SectionPos::of_block(column_pos(x, other, z));
    key_keeps_column(a, b);
    key_keeps_column(b, a);
    assert(a.y == section_coord(y) && b.y == section_coord(other));
    if a.key() == b.key() {
        assert(a.y == b.y);
        if block_index(column_pos(x, y, z)) == block_index(column_pos(x, other, z)) {
            assert(y == section_coord(y) * 16 + y % 16);
            assert(other == section_coord(other) * 16 + other % 16);
        }
    }
    assert forall|key: u64| #[trigger] after.updating.contains_key(key) implies
        after.updating[key].levels.len() == 4096 by {
        if key != a.key() {
            assert(m.updating.contains_key(key));
        }
    }
}

/// Blocks of one section are stored together.
proof fn lemma_stored_together(m: StorageModel, x: i32, z: i32, a: int, b: int)
    requires
        section_coord(a) == section_coord(b),
        has_key(a),
    ensures
        m.stored_level(column_pos(x, a, z)) is Some == m.stored_level(column_pos(x, b, z)) is Some,
{
    assert(SectionPos::of_block(column_pos(x, a, z)) == SectionPos::of_block(
        column_pos(x, b, z),
    ));
}

/// In a block column, the stored blocks between two heights are fully lit exactly
/// from a height up.
pub open spec fn is_full_from(
    m: StorageModel,
    x: i32,
    z: i32,
    low: int,
    high: int,
    source: int,
) -> bool {
    forall|y: int|
        low <= y < high ==> (#[trigger] m.stored_level(column_pos(x, y, z)) matches Some(level)
            ==> (level == 15 <==> y >= source))
}

proof fn lemma_sources_removed(
    m: StorageModel,
    q: QueuesView,
    x: i32,
    z: i32,
    start_y: int,
    y: int,
    source: int,
)
    requires
        layers_whole(m),
        m.sky is Some,
        -0x80000 <= m.sky->0.updating.lowest_y,
        section_coord(y) < 0x80000,
        is_full_from(m, x, z, m.sky->0.updating.lowest_y * 16, y + 1, source),
    ensures
        ({
            let after = remove_sources_from(m, q, x, z, start_y, y).0;
            &&& layers_whole(after)
            &&& after.sky == m.sky
            &&& forall|h: int|
                has_key(h) ==> #[trigger] after.stored_level(column_pos(x, h, z)) == if m.stored_level(
                    column_pos(x, h, z),
                ) is Some && source <= h <= y && m.sky->0.updating.lowest_y * 16 <= h {
                    Some(0u8)
                } else {
                    m.stored_level(column_pos(x, h, z))
                }
        }),
    decreases y - m.sky->0.updating.lowest_y * 16 + 1,
{
    let pos = column_pos(x, y, z);
    let low = m.sky->0.updating.lowest_y;
    let after = remove_sources_from(m, q, x, z, start_y, y).0;
    if section_coord(y) >= low {
        assert(low * 16 <= y);
        if m.stored_level(pos) is None {
            let next = section_coord(y) * 16 - 1;
            assert(section_coord(next) == section_coord(y) - 1);
            lemma_sources_removed(m, q, x, z, start_y, next, source);
            assert forall|h: int|
                has_key(h) implies #[trigger] after.stored_level(column_pos(x, h, z)) == if m.stored_level(
                column_pos(x, h, z),
            ) is Some && source <= h <= y && low * 16 <= h {
                Some(0u8)
            } else {
                m.stored_level(column_pos(x, h, z))
            } by {
                if next < h <= y {
                    assert(section_coord(h) == section_coord(y));
                    lemma_stored_together(m, x, z, h, y);
                }
            }
        } else if m.stored_level(pos) == Some(15u8) {
            let dark = set_level(m, pos, 0);
            lemma_set_level(m, x, z, y, 0, y);
            assert forall|h: int| low * 16 <= h < y implies (#[trigger] dark.stored_level(
                column_pos(x, h, z),
            ) matches Some(level) ==> (level == 15 <==> h >= source)) by {
                lemma_set_level(m, x, z, y, 0, h);
                assert(m.stored_level(column_pos(x, h, z)) == dark.stored_level(
                    column_pos(x, h, z),
                ));
            }
            let queued = QueuesView {
                decrease: q.decrease.push(
                    QueuedLightUpdate { block_pos: pos, entry: sky_source_entry(y == start_y) },
                ),
                ..q
            };
            assert(section_coord(y - 1) <= section_coord(y));
            lemma_sources_removed(dark, queued, x, z, start_y, y - 1, source);
            assert forall|h: int|
                has_key(h) implies #[trigger] after.stored_level(column_pos(x, h, z)) == if m.stored_level(
                column_pos(x, h, z),
            ) is Some && source <= h <= y && low * 16 <= h {
                Some(0u8)
            } else {
                m.stored_level(column_pos(x, h, z))
            } by {
                lemma_set_level(m, x, z, y, 0, h);
                assert(m.stored_level(pos) == Some(15u8));
            }
        } else {
            assert(m.stored_level(column_pos(x, y, z)) is Some);
            assert(y < source);
        }
    }
}

proof fn lemma_sources_added(
    m: StorageModel,
    q: QueuesView,
    x: i32,
    z: i32,
    lowest: int,
    neighbor: int,
    y: int,
    source: int,
)
    requires
        layers_whole(m),
        m.sky is Some,
        -0x80000 <= m.sky->0.updating.lowest_y,
        m.sky->0.updating.lowest_y * 16 <= y,
        column_top(m, x, z) < 0x80000,
        is_full_from(m, x, z, y, column_top(m, x, z) * 16, source),
    ensures
        ({
            let after = add_sources_from(m, q, x, z, lowest, neighbor, y).0;
            &&& layers_whole(after)
            &&& after.sky == m.sky
            &&& forall|h: int|
                has_key(h) ==> #[trigger] after.stored_level(column_pos(x, h, z)) == if m.stored_level(
                    column_pos(x, h, z),
                ) is Some && y <= h < source && h < column_top(m, x, z) * 16 {
                    Some(15u8)
                } else {
                    m.stored_level(column_pos(x, h, z))
                }
        }),
    decreases column_top(m, x, z) * 16 - y,
{
    let pos = column_pos(x, y, z);
    let top = column_top(m, x, z);
    let columns = m.sky->0.updating;
    let after = add_sources_from(m, q, x, z, lowest, neighbor, y).0;
    assert(section_coord(y) * 16 <= y < section_coord(y) * 16 + 16);
    if !(top == columns.lowest_y || section_coord(y) >= top) {
        if m.stored_level(pos) is None {
            let next = section_coord(y) * 16 + 16;
            lemma_sources_added(m, q, x, z, lowest, neighbor, next, source);
            assert forall|h: int|
                has_key(h) implies #[trigger] after.stored_level(column_pos(x, h, z)) == if m.stored_level(
                column_pos(x, h, z),
            ) is Some && y <= h < source && h < top * 16 {
                Some(15u8)
            } else {
                m.stored_level(column_pos(x, h, z))
            } by {
                if y <= h < next {
                    assert(section_coord(h) == section_coord(y));
                    lemma_stored_together(m, x, z, h, y);
                }
            }
        } else if m.stored_level(pos) == Some(15u8) {
            assert(m.stored_level(column_pos(x, y, z)) is Some);
            assert(y >= source);
        } else {
            let lit = set_level(m, pos, 15);
            let queued = if y < neighbor || y == lowest {
                QueuesView {
                    increase: q.increase.push(
                        QueuedLightUpdate { block_pos: pos, entry: sky_source_entry(false) },
                    ),
                    ..q
                }
            } else {
                q
            };
            lemma_set_level(m, x, z, y, 15, y);
            assert forall|h: int| y + 1 <= h < top * 16 implies (#[trigger] lit.stored_level(
                column_pos(x, h, z),
            ) matches Some(level) ==> (level == 15 <==> h >= source)) by {
                lemma_set_level(m, x, z, y, 15, h);
                assert(m.stored_level(column_pos(x, h, z)) == lit.stored_level(
                    column_pos(x, h, z),
                ));
            }
            assert(m.stored_level(column_pos(x, y, z)) is Some);
            assert(y < source);
            lemma_sources_added(lit, queued, x, z, lowest, neighbor, y + 1, source);
            assert forall|h: int|
                has_key(h) implies #[trigger] after.stored_level(column_pos(x, h, z)) == if m.stored_level(
                column_pos(x, h, z),
            ) is Some && y <= h < source && h < top * 16 {
                Some(15u8)
            } else {
                m.stored_level(column_pos(x, h, z))
            } by {
                lemma_set_level(m, x, z, y, 15, h);
            }
        }
    }
}

/// One past the highest stored section of a block column.
pub open spec fn column_top(m: StorageModel, x: i32, z: i32) -> int {
    m.sky->0.updating.top(zero_key(SectionPos::of_block(BlockPos { x, y: 0, z }))) as int
}

/// A block column whose stored blocks are fully lit exactly from its lowest
/// source up is so again when its lowest source moved. Below both sources nothing
/// changes.
pub proof fn column_follows_its_source(
    m: StorageModel,
    q: QueuesView,
    x: i32,
    z: i32,
    source: int,
    moved: int,
    neighbor: int,
)
    requires
        layers_whole(m),
        m.sky is Some,
        -0x80000 <= m.sky->0.updating.lowest_y < 0x80000,
        m.sky->0.updating.lowest_y <= column_top(m, x, z) < 0x80000,
        section_coord(moved - 1) < 0x80000,
        is_full_from(
            m,
            x,
            z,
            m.sky->0.updating.lowest_y * 16,
            if column_top(m, x, z) * 16 < moved {
                moved
            } else {
                column_top(m, x, z) * 16
            },
            source,
        ),
    ensures
        ({
            let after = update_column(m, q, x, z, moved, neighbor).0;
            let low = m.sky->0.updating.lowest_y * 16;
            let high = column_top(m, x, z) * 16;
            &&& is_full_from(after, x, z, low, high, moved)
            &&& forall|y: int|
                low <= y < high && y < moved && y < source ==> #[trigger] after.stored_level(
                    column_pos(x, y, z),
                ) == m.stored_level(column_pos(x, y, z))
        }),
{
    let low = m.sky->0.updating.lowest_y * 16;
    let high = column_top(m, x, z) * 16;
    let (removed, queued) = if moved <= low {
        (m, q)
    } else {
        remove_sources_from(m, q, x, z, moved - 1, moved - 1)
    };
    if moved > low {
        lemma_sources_removed(m, q, x, z, moved - 1, moved - 1, source);
    }
    let from = if moved < low {
        low
    } else {
        moved
    };
    assert forall|y: int| from <= y < high implies (#[trigger] removed.stored_level(
        column_pos(x, y, z),
    ) matches Some(level) ==> (level == 15 <==> y >= source)) by {
        assert(has_key(y));
        assert(m.stored_level(column_pos(x, y, z)) is None || m.stored_level(
            column_pos(x, y, z),
        ) is Some);
    }
    lemma_sources_added(removed, queued, x, z, moved, neighbor, from, source);
    let after = update_column(m, q, x, z, moved, neighbor).0;
    assert(after == add_sources_from(removed, queued, x, z, moved, neighbor, from).0);
    assert forall|y: int| low <= y < high implies (#[trigger] after.stored_level(
        column_pos(x, y, z),
    ) matches Some(level) ==> (level == 15 <==> y >= moved)) by {
        assert(has_key(y));
        let was = m.stored_level(column_pos(x, y, z));
        let between = removed.stored_level(column_pos(x, y, z));
        assert(was matches Some(level) ==> (level == 15 <==> y >= source));
    }
    assert forall|y: int| low <= y < high && y < moved && y < source implies
        #[trigger] after.stored_level(column_pos(x, y, z)) == m.stored_level(
        column_pos(x, y, z),
    ) by {
        assert(has_key(y));
        let between = removed.stored_level(column_pos(x, y, z));
    }
}

/// An update takes back or spreads full light from a block in all directions, or
/// in all but the one upwards.
pub open spec fn is_column_update(update: QueuedLightUpdate, pos: BlockPos, upwards: bool) -> bool {
    let raw = update.entry.0;
    &&& update.block_pos == pos
    &&& raw % 16 == 15
    &&& value_is_set(raw, direction_value(Direction::Up)) == upwards
    &&& value_is_set(raw, direction_value(Direction::Down))
    &&& value_is_set(raw, direction_value(Direction::North))
    &&& value_is_set(raw, direction_value(Direction::South))
    &&& value_is_set(raw, direction_value(Direction::West))
    &&& value_is_set(raw, direction_value(Direction::East))
}

/// Some update of a queue is that of a block.
pub open spec fn has_column_update(
    queue: Seq<QueuedLightUpdate>,
    pos: BlockPos,
    upwards: bool,
) -> bool {
    exists|k: int|
        0 <= k < queue.len() && is_column_update(#[trigger] queue[k], pos, upwards)
}

proof fn lemma_update_pushed(
    queue: Seq<QueuedLightUpdate>,
    pos: BlockPos,
    upwards: bool,
    other: BlockPos,
    other_upwards: bool,
)
    ensures
        ({
            let after = queue.push(
                QueuedLightUpdate { block_pos: pos, entry: sky_source_entry(upwards) },
            );
            &&& has_column_update(after, pos, upwards)
            &&& has_column_update(queue, other, other_upwards) ==> has_column_update(
                after,
                other,
                other_upwards,
            )
        }),
{
    let update = QueuedLightUpdate { block_pos: pos, entry: sky_source_entry(upwards) };
    let after = queue.push(update);
    assert(after[queue.len() as int] == update);
    assert(is_column_update(after[queue.len() as int], pos, upwards));
    if has_column_update(queue, other, other_upwards) {
        let k = choose|k: int|
            0 <= k < queue.len() && is_column_update(#[trigger] queue[k], other, other_upwards);
        assert(is_column_update(after[k], other, other_upwards));
    }
}

proof fn lemma_removals_queued(
    m: StorageModel,
    q: QueuesView,
    x: i32,
    z: i32,
    start_y: int,
    y: int,
    source: int,
    h: int,
)
    requires
        layers_whole(m),
        m.sky is Some,
        -0x80000 <= m.sky->0.updating.lowest_y,
        section_coord(y) < 0x80000,
        is_full_from(m, x, z, m.sky->0.updating.lowest_y * 16, y + 1, source),
    ensures
        ({
            let after = remove_sources_from(m, q, x, z, start_y, y).1;
            &&& after.increase == q.increase
            &&& m.stored_level(column_pos(x, h, z)) is Some && source <= h <= y
                && m.sky->0.updating.lowest_y * 16 <= h || has_column_update(
                q.decrease,
                column_pos(x, h, z),
                h == start_y,
            ) ==> has_column_update(after.decrease, column_pos(x, h, z), h == start_y)
        }),
    decreases y - m.sky->0.updating.lowest_y * 16 + 1,
{
    let pos = column_pos(x, y, z);
    let low = m.sky->0.updating.lowest_y;
    if section_coord(y) >= low {
        assert(low * 16 <= y);
        if m.stored_level(pos) is None {
            let next = section_coord(y) * 16 - 1;
            assert(section_coord(next) == section_coord(y) - 1);
            lemma_removals_queued(m, q, x, z, start_y, next, source, h);
            if next < h <= y {
                assert(section_coord(h) == section_coord(y));
                lemma_stored_together(m, x, z, h, y);
            }
        } else if m.stored_level(pos) == Some(15u8) {
            let dark = set_level(m, pos, 0);
            lemma_set_level(m, x, z, y, 0, y);
            assert forall|k: int| low * 16 <= k < y implies (#[trigger] dark.stored_level(
                column_pos(x, k, z),
            ) matches Some(level) ==> (level == 15 <==> k >= source)) by {
                lemma_set_level(m, x, z, y, 0, k);
                assert(m.stored_level(column_pos(x, k, z)) == dark.stored_level(
                    column_pos(x, k, z),
                ));
            }
            let queued = QueuesView {
                decrease: q.decrease.push(
                    QueuedLightUpdate { block_pos: pos, entry: sky_source_entry(y == start_y) },
                ),
                ..q
            };
            lemma_update_pushed(
                q.decrease,
                pos,
                y == start_y,
                column_pos(x, h, z),
                h == start_y,
            );
            assert(section_coord(y - 1) <= section_coord(y));
            lemma_removals_queued(dark, queued, x, z, start_y, y - 1, source, h);
            if low * 16 <= h <= y {
                assert(has_key(h));
                lemma_set_level(m, x, z, y, 0, h);
            }
        } else {
            assert(m.stored_level(column_pos(x, y, z)) is Some);
            assert(y < source);
        }
    }
}

proof fn lemma_additions_queued(
    m: StorageModel,
    q: QueuesView,
    x: i32,
    z: i32,
    lowest: int,
    neighbor: int,
    y: int,
    source: int,
    h: int,
)
    requires
        layers_whole(m),
        m.sky is Some,
        -0x80000 <= m.sky->0.updating.lowest_y,
        m.sky->0.updating.lowest_y * 16 <= y,
        column_top(m, x, z) < 0x80000,
        is_full_from(m, x, z, y, column_top(m, x, z) * 16, source),
    ensures
        ({
            let after = add_sources_from(m, q, x, z, lowest, neighbor, y).1;
            &&& after.decrease == q.decrease
            &&& m.stored_level(column_pos(x, h, z)) is Some && y <= h < source && h < column_top(
                m,
                x,
                z,
            ) * 16 && (h < neighbor || h == lowest) || has_column_update(
                q.increase,
                column_pos(x, h, z),
                false,
            ) ==> has_column_update(after.increase, column_pos(x, h, z), false)
        }),
    decreases column_top(m, x, z) * 16 - y,
{
    let pos = column_pos(x, y, z);
    let top = column_top(m, x, z);
    let columns = m.sky->0.updating;
    assert(section_coord(y) * 16 <= y < section_coord(y) * 16 + 16);
    if !(top == columns.lowest_y || section_coord(y) >= top) {
        if m.stored_level(pos) is None {
            let next = section_coord(y) * 16 + 16;
            lemma_additions_queued(m, q, x, z, lowest, neighbor, next, source, h);
            if y <= h < next {
                assert(section_coord(h) == section_coord(y));
                lemma_stored_together(m, x, z, h, y);
            }
        } else if m.stored_level(pos) == Some(15u8) {
            assert(m.stored_level(column_pos(x, y, z)) is Some);
            assert(y >= source);
        } else {
            let lit = set_level(m, pos, 15);
            let queued = if y < neighbor || y == lowest {
                QueuesView {
                    increase: q.increase.push(
                        QueuedLightUpdate { block_pos: pos, entry: sky_source_entry(false) },
                    ),
                    ..q
                }
            } else {
                q
            };
            lemma_set_level(m, x, z, y, 15, y);
            assert forall|k: int| y + 1 <= k < top * 16 implies (#[trigger] lit.stored_level(
                column_pos(x, k, z),
            ) matches Some(level) ==> (level == 15 <==> k >= source)) by {
                lemma_set_level(m, x, z, y, 15, k);
                assert(m.stored_level(column_pos(x, k, z)) == lit.stored_level(
                    column_pos(x, k, z),
                ));
            }
            lemma_update_pushed(q.increase, pos, false, column_pos(x, h, z), false);
            lemma_additions_queued(lit, queued, x, z, lowest, neighbor, y + 1, source, h);
            if y <= h < top * 16 {
                assert(has_key(h));
                lemma_set_level(m, x, z, y, 15, h);
            }
        }
    }
}

/// When the lowest source of a block column moved, every stored block that lost
/// its full light takes it back from its neighbors, and every stored block that
/// is the lowest source now, or has no source beside it, and had no full light
/// spreads it.
pub proof fn moved_sources_are_queued(
    m: StorageModel,
    q: QueuesView,
    x: i32,
    z: i32,
    source: int,
    moved: int,
    neighbor: int,
    y: int,
)
    requires
        layers_whole(m),
        m.sky is Some,
        -0x80000 <= m.sky->0.updating.lowest_y < 0x80000,
        m.sky->0.updating.lowest_y <= column_top(m, x, z) < 0x80000,
        section_coord(moved - 1) < 0x80000,
        is_full_from(
            m,
            x,
            z,
            m.sky->0.updating.lowest_y * 16,
            if column_top(m, x, z) * 16 < moved {
                moved
            } else {
                column_top(m, x, z) * 16
            },
            source,
        ),
        m.sky->0.updating.lowest_y * 16 <= y < column_top(m, x, z) * 16,
        m.stored_level(column_pos(x, y, z)) is Some,
    ensures
        ({
            let after = update_column(m, q, x, z, moved, neighbor).1;
            &&& source <= y < moved ==> has_column_update(
                after.decrease,
                column_pos(x, y, z),
                y == moved - 1,
            )
            &&& moved <= y < source && (y < neighbor || y == moved) ==> has_column_update(
                after.increase,
                column_pos(x, y, z),
                false,
            )
        }),
{
    let low = m.sky->0.updating.lowest_y * 16;
    let high = column_top(m, x, z) * 16;
    let (removed, queued) = if moved <= low {
        (m, q)
    } else {
        remove_sources_from(m, q, x, z, moved - 1, moved - 1)
    };
    if moved > low {
        lemma_sources_removed(m, q, x, z, moved - 1, moved - 1, source);
        lemma_removals_queued(m, q, x, z, moved - 1, moved - 1, source, y);
    }
    let from = if moved < low {
        low
    } else {
        moved
    };
    assert forall|h: int| from <= h < high implies (#[trigger] removed.stored_level(
        column_pos(x, h, z),
    ) matches Some(level) ==> (level == 15 <==> h >= source)) by {
        assert(has_key(h));
        assert(m.stored_level(column_pos(x, h, z)) is None || m.stored_level(
            column_pos(x, h, z),
        ) is Some);
    }
    assert(has_key(y));
    assert(removed.stored_level(column_pos(x, y, z)) is Some);
    lemma_additions_queued(removed, queued, x, z, moved, neighbor, from, source, y);
    assert(update_column(m, q, x, z, moved, neighbor).1 == add_sources_from(
        removed,
        queued,
        x,
        z,
        moved,
        neighbor,
        from,
    ).1);
}

} // verus!
