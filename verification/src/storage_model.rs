//! What section light storage holds, and what its operations do to it.
use vstd::prelude::*;

use crate::data_layer::{filled_content, stored_content, LayerContent};
use crate::nibble::repeat_bottom_row;
use crate::packed::local_index;
use crate::position::{
    key_keeps_column, key_round_trip, local_coord, section_coord, section_of_key,
    section_round_trip, BlockPos, SectionPos,
};
use crate::queue::{
    all_directions, bit_value, entry_raw, LightQueueEntry, QueuedLightUpdate, QueuesView,
};
use crate::section_range::{
    state_neighbor_count, state_type, state_with_count, state_with_data, LightSectionState,
    LightSectionType,
};
use crate::sky_sources::{sources_stay_in_world, ChunkSkyLightSources, SkyLightSourceNeighborhood};
use crate::LightLayer;

verus! {

/// Sky light metadata of the section columns.
#[verifier::ext_equal]
pub struct SkyColumns {
    /// The lowest section that ever stored light.
    pub lowest_y: i32,
    /// One past the highest section that stores light, for each column that
    /// has one.
    pub tops: Map<u64, i32>,
}

impl SkyColumns {
    /// One past the highest section of a column; the lowest section ever seen
    /// stands for a column without light.
    pub open spec fn top(self, zero_key: u64) -> i32 {
        if self.tops.contains_key(zero_key) {
            self.tops[zero_key]
        } else {
            self.lowest_y
        }
    }
}

/// The visible and the updating sky metadata.
#[verifier::ext_equal]
pub struct SkyModel {
    /// What outside readers see.
    pub visible: SkyColumns,
    /// What changes work on.
    pub updating: SkyColumns,
}

/// What section light storage holds. Sections are named by their packed keys.
#[verifier::ext_equal]
pub struct StorageModel {
    /// The layer.
    pub layer: LightLayer,
    /// The state of each section that is not empty.
    pub states: Map<u64, LightSectionState>,
    /// The columns whose light sources are enabled.
    pub sources: Set<u64>,
    /// The light that outside readers see.
    pub visible: Map<u64, LayerContent>,
    /// The light that changes work on.
    pub updating: Map<u64, LayerContent>,
    /// The sections whose light changed since it was last made visible.
    pub changed: Set<u64>,
    /// The sections that updates may have affected.
    pub affected: Set<u64>,
    /// Light that waits for its section.
    pub queued: Map<u64, LayerContent>,
    /// The columns that keep their light for later when it is removed.
    pub retained: Set<u64>,
    /// The sections whose light is to be removed.
    pub to_remove: Set<u64>,
    /// Whether queued light or removals wait.
    pub has_inconsistencies: bool,
    /// Sky metadata; none in block light storage.
    pub sky: Option<SkyModel>,
}

/// The key of a section's column.
pub open spec fn zero_key(pos: SectionPos) -> u64 {
    SectionPos { x: pos.x, y: 0, z: pos.z }.key()
}

/// The key of the section of a column at a height.
pub open spec fn at_height(pos: SectionPos, y: int) -> u64 {
    SectionPos { x: pos.x, y: y as i32, z: pos.z }.key()
}

/// A column with stored light knows a height above each of its sections.
#[verifier::opaque]
pub open spec fn stored_have_tops(stored: Set<u64>, columns: SkyColumns) -> bool {
    forall|key: u64| #[trigger]
        stored.contains(key) ==> {
            let pos = section_of_key(key);
            &&& columns.lowest_y <= pos.y < 0x7FFFF
            &&& columns.tops.contains_key(zero_key(pos))
            &&& pos.y < columns.tops[zero_key(pos)]
        }
}

/// Every column that has a top stores light right below it.
#[verifier::opaque]
pub open spec fn tops_have_stored(stored: Set<u64>, columns: SkyColumns) -> bool {
    forall|zero: u64| #[trigger]
        columns.tops.contains_key(zero) ==> {
            let pos = section_of_key(zero);
            &&& pos.y == 0
            &&& columns.lowest_y < columns.tops[zero] <= 0x7FFFF
            &&& stored.contains(at_height(pos, columns.tops[zero] - 1))
        }
}

/// A section lies above the stored light of its column when it lies at the
/// column's top or higher, or the column has none.
pub proof fn lemma_top_is_above(stored: Set<u64>, columns: SkyColumns, pos: SectionPos)
    requires
        columns_valid(stored, columns),
    ensures
        is_above_stored(stored, pos) <==> columns.top(zero_key(pos)) == columns.lowest_y || pos.y
            >= columns.top(zero_key(pos)),
{
    let zero = zero_key(pos);
    let top = columns.top(zero);
    if columns.tops.contains_key(zero) {
        lemma_top_has_stored(stored, columns, zero);
        let highest = SectionPos { y: (top - 1) as i32, ..section_of_key(zero) };
        section_round_trip(zero);
        key_keeps_column(highest, highest);
        assert(stored.contains(highest.key()));
        assert(zero_key(section_of_key(highest.key())) == zero);
    }
    assert forall|key: u64| #[trigger]
        stored.contains(key) && zero_key(section_of_key(key)) == zero implies section_of_key(key).y
        < top && columns.tops.contains_key(zero) by {
        lemma_stored_has_top(stored, columns, key);
    }
}

/// The stored sections and the sky columns fit together: a column with stored
/// light knows one past its highest section, and every column that it knows has
/// stored light there.
pub open spec fn columns_valid(stored: Set<u64>, columns: SkyColumns) -> bool {
    &&& -0x7FFFF <= columns.lowest_y < 0x7FFFF || columns.lowest_y == i32::MAX
    &&& stored_have_tops(stored, columns)
    &&& tops_have_stored(stored, columns)
}

/// Some section at or below a height stores light.
pub open spec fn stores_at_or_below(stored: Set<u64>, section_y: int) -> bool {
    exists|key: u64| #[trigger] stored.contains(key) && section_of_key(key).y <= section_y
}

/// A section lies above all sections of its column that store light.
pub open spec fn is_above_stored(stored: Set<u64>, pos: SectionPos) -> bool {
    forall|key: u64| #[trigger]
        stored.contains(key) && zero_key(section_of_key(key)) == zero_key(pos)
            ==> section_of_key(key).y < pos.y
}

/// A section that stores light lies below its column's top.
pub proof fn lemma_stored_has_top(stored: Set<u64>, columns: SkyColumns, key: u64)
    requires
        stored_have_tops(stored, columns),
        stored.contains(key),
    ensures
        columns.lowest_y <= section_of_key(key).y < 0x7FFFF,
        columns.tops.contains_key(zero_key(section_of_key(key))),
        section_of_key(key).y < columns.tops[zero_key(section_of_key(key))],
{
    reveal(stored_have_tops);
}

/// A column's top has stored light right below it.
pub proof fn lemma_top_has_stored(stored: Set<u64>, columns: SkyColumns, zero: u64)
    requires
        tops_have_stored(stored, columns),
        columns.tops.contains_key(zero),
    ensures
        section_of_key(zero).y == 0,
        columns.lowest_y < columns.tops[zero] <= 0x7FFFF,
        stored.contains(at_height(section_of_key(zero), columns.tops[zero] - 1)),
{
    reveal(tops_have_stored);
}

impl StorageModel {
    /// Light is stored exactly for sections that have a state or wait for
    /// removal, stored sections with queued light are to be reconciled, and the
    /// sky metadata fits the stored sections.
    #[verifier::opaque]
    pub open spec fn valid(self) -> bool {
        &&& self.layer == LightLayer::Sky <==> self.sky is Some
        &&& forall|key: u64| #[trigger]
            self.states.contains_key(key) ==> self.states[key] != LightSectionState(0)
        &&& forall|key: u64| #[trigger]
            self.updating.contains_key(key) <==> self.states.contains_key(key)
                || self.to_remove.contains(key)
        &&& forall|key: u64| #[trigger]
            self.to_remove.contains(key) ==> !self.states.contains_key(key)
                && self.has_inconsistencies
        &&& forall|key: u64|
            #![trigger self.queued.contains_key(key)]
            self.queued.contains_key(key) && self.updating.contains_key(key)
                ==> self.has_inconsistencies
        &&& self.sky matches Some(sky) ==> columns_valid(self.updating.dom(), sky.updating)
    }

    /// The state of a section.
    pub open spec fn state_of(self, pos: SectionPos) -> LightSectionState {
        if self.states.contains_key(pos.key()) {
            self.states[pos.key()]
        } else {
            LightSectionState(0)
        }
    }

    /// The updating level of a block, where its section stores light.
    pub open spec fn stored_level(self, block_pos: BlockPos) -> Option<u8> {
        let key = SectionPos::of_block(block_pos).key();
        if self.updating.contains_key(key) {
            Some(self.updating[key].levels[block_index(block_pos)])
        } else {
            None
        }
    }

    /// The light that was read for a block of the visible map: of its own
    /// section for block light; for sky light that of the first section above
    /// that stores light, and full light above the highest.
    pub open spec fn light_value(self, block_pos: BlockPos) -> u8 {
        let pos = SectionPos::of_block(block_pos);
        match self.layer {
            LightLayer::Block => if self.visible.contains_key(pos.key()) {
                self.visible[pos.key()].levels[block_index(block_pos)]
            } else {
                0
            },
            LightLayer::Sky => match self.sky {
                None => 15,
                Some(sky) => {
                    let top = sky.visible.top(zero_key(pos));
                    if top == sky.visible.lowest_y || pos.y >= top {
                        15
                    } else if self.visible.contains_key(pos.key()) {
                        self.visible[pos.key()].levels[block_index(block_pos)]
                    } else {
                        let y = first_stored_above(self.visible, pos, pos.y + 1, top as int);
                        if y >= top {
                            15
                        } else {
                            self.visible[at_height(pos, y)].levels[local_index(
                                local_coord(block_pos.x as int),
                                0,
                                local_coord(block_pos.z as int),
                            )]
                        }
                    }
                },
            },
        }
    }
}

/// The index of a block in its section.
pub open spec fn block_index(block_pos: BlockPos) -> int {
    local_index(
        local_coord(block_pos.x as int),
        local_coord(block_pos.y as int),
        local_coord(block_pos.z as int),
    )
}

/// The lowest height from `y` up at which a column stores light, or `top` when
/// there is none below it.
pub open spec fn first_stored_above(
    layers: Map<u64, LayerContent>,
    pos: SectionPos,
    y: int,
    top: int,
) -> int
    decreases top - y,
{
    if y >= top {
        top
    } else if layers.contains_key(at_height(pos, y)) {
        y
    } else {
        first_stored_above(layers, pos, y + 1, top)
    }
}

/// The highest height from `y` down to `lowest` at which a column stores light.
pub open spec fn highest_stored(
    stored: Set<u64>,
    pos: SectionPos,
    y: int,
    lowest: int,
) -> Option<int>
    decreases y - lowest + 1,
{
    if y < lowest {
        None
    } else if stored.contains(at_height(pos, y)) {
        Some(y)
    } else {
        highest_stored(stored, pos, y - 1, lowest)
    }
}

/// The section at place `i` of the 27 sections around a section, ordered by z,
/// then x, then y. Place 13 is the section itself.
pub open spec fn neighbor_at(pos: SectionPos, i: int) -> SectionPos {
    SectionPos {
        x: (pos.x + (i / 3) % 3 - 1) as i32,
        y: (pos.y + i % 3 - 1) as i32,
        z: (pos.z + i / 9 - 1) as i32,
    }
}

/// The keys of a section and of the 26 sections around it.
pub open spec fn neighborhood_keys(pos: SectionPos) -> Set<u64> {
    Set::new(|key: u64| exists|i: int| 0 <= i < 27 && #[trigger] neighbor_at(pos, i).key() == key)
}

/// The keys of the sections that touch a block or the blocks around it.
pub open spec fn keys_around(block_pos: BlockPos) -> Set<u64> {
    Set::new(
        |key: u64|
            exists|pos: SectionPos| pos.is_around(block_pos) && #[trigger] pos.key() == key,
    )
}

/// The light of a section that comes into being: queued light if there is any;
/// in sky storage a column of the light above it, or full light above all
/// stored sections of a column with sources; darkness otherwise.
pub open spec fn created_content(m: StorageModel, pos: SectionPos) -> LayerContent {
    if m.queued.contains_key(pos.key()) {
        m.queued[pos.key()]
    } else {
        match m.sky {
            None => filled_content(0),
            Some(sky) => {
                let top = sky.updating.top(zero_key(pos));
                if top != sky.updating.lowest_y && pos.y < top {
                    let above = first_stored_above(m.updating, pos, pos.y + 1, top as int);
                    repeat_first_row(m.updating[at_height(pos, above)])
                } else if m.sources.contains(zero_key(pos)) {
                    filled_content(15)
                } else {
                    filled_content(0)
                }
            },
        }
    }
}

/// A layer that repeats the lowest row of another one.
pub open spec fn repeat_first_row(content: LayerContent) -> LayerContent {
    if content.homogeneous {
        content
    } else {
        stored_content(repeat_bottom_row(content.levels))
    }
}

/// The sky columns after a section came to store light.
pub open spec fn column_added(columns: SkyColumns, pos: SectionPos) -> SkyColumns {
    let lowered = SkyColumns {
        lowest_y: if columns.lowest_y > pos.y {
            pos.y
        } else {
            columns.lowest_y
        },
        tops: columns.tops,
    };
    if lowered.top(zero_key(pos)) < pos.y + 1 {
        SkyColumns { tops: lowered.tops.insert(zero_key(pos), (pos.y + 1) as i32), ..lowered }
    } else {
        lowered
    }
}

/// Storage after a section came to have a state.
pub open spec fn initialize(m: StorageModel, pos: SectionPos) -> StorageModel {
    if m.to_remove.contains(pos.key()) {
        StorageModel { to_remove: m.to_remove.remove(pos.key()), ..m }
    } else {
        StorageModel {
            queued: m.queued.remove(pos.key()),
            updating: m.updating.insert(pos.key(), created_content(m, pos)),
            changed: m.changed.insert(pos.key()),
            affected: m.affected.union(neighborhood_keys(pos)),
            has_inconsistencies: true,
            sky: match m.sky {
                Some(sky) => Some(
                    SkyModel { updating: column_added(sky.updating, pos), ..sky },
                ),
                None => None,
            },
            ..m
        }
    }
}

/// Storage after a section's state was set. A section without a state is
/// marked for removal.
#[verifier::opaque]
pub open spec fn put_state(
    m: StorageModel,
    pos: SectionPos,
    state: LightSectionState,
) -> StorageModel {
    let key = pos.key();
    if state != LightSectionState(0) {
        let known = if m.states.contains_key(key) {
            m
        } else {
            initialize(m, pos)
        };
        StorageModel { states: known.states.insert(key, state), ..known }
    } else if m.states.contains_key(key) {
        StorageModel {
            states: m.states.remove(key),
            to_remove: m.to_remove.insert(key),
            has_inconsistencies: true,
            ..m
        }
    } else {
        m
    }
}

/// Storage after the neighbor counts of the first `n` sections around one were
/// changed by `increment`, and the count that could not be stored, if any.
pub open spec fn bump_neighbors(
    m: StorageModel,
    pos: SectionPos,
    increment: int,
    n: int,
) -> (StorageModel, Option<int>)
    decreases n,
{
    if n <= 0 {
        (m, None)
    } else {
        let (before, failed) = bump_neighbors(m, pos, increment, n - 1);
        let neighbor = neighbor_at(pos, n - 1);
        let state = before.state_of(neighbor);
        let count = state_neighbor_count(state.0) + increment;
        if failed is Some || n - 1 == 13 {
            (before, failed)
        } else if 0 <= count <= 26 {
            (put_state(before, neighbor, LightSectionState(state_with_count(state.0, count))), None)
        } else {
            (before, Some(count))
        }
    }
}

/// Storage after a section came to have block data or lost it, and the
/// neighbor count that could not be stored, if any.
pub open spec fn update_status(m: StorageModel, pos: SectionPos, section_empty: bool) -> (
    StorageModel,
    Option<int>,
) {
    let state = m.state_of(pos);
    let new_state = LightSectionState(state_with_data(state.0, !section_empty));
    if state == new_state {
        (m, None)
    } else {
        bump_neighbors(
            put_state(m, pos, new_state),
            pos,
            if section_empty {
                -1
            } else {
                1
            },
            27,
        )
    }
}

/// The sky columns after sections stopped storing light: each column's highest
/// section is looked for downwards, and columns without one are forgotten.
pub open spec fn columns_after_removal(columns: SkyColumns, stored: Set<u64>) -> SkyColumns {
    SkyColumns {
        tops: Map::new(
            |zero: u64|
                columns.tops.contains_key(zero) && highest_stored(
                    stored,
                    section_of_key(zero),
                    columns.tops[zero] - 1,
                    columns.lowest_y as int,
                ) is Some,
            |zero: u64|
                (highest_stored(
                    stored,
                    section_of_key(zero),
                    columns.tops[zero] - 1,
                    columns.lowest_y as int,
                )->0 + 1) as i32,
        ),
        ..columns
    }
}

/// Queued light after removals: a removed section keeps its queued or stored
/// light in the queue where its column retains it.
pub open spec fn queued_after_removal(m: StorageModel) -> Map<u64, LayerContent> {
    Map::new(
        |key: u64|
            if m.to_remove.contains(key) {
                m.retained.contains(zero_key(section_of_key(key))) && (m.queued.contains_key(key)
                    || m.updating.contains_key(key))
            } else {
                m.queued.contains_key(key)
            },
        |key: u64|
            if m.queued.contains_key(key) {
                m.queued[key]
            } else {
                m.updating[key]
            },
    )
}

/// Storage after pending removals and queued light were reconciled.
pub open spec fn reconcile(m: StorageModel) -> StorageModel {
    if !m.has_inconsistencies {
        m
    } else {
        let kept = m.updating.remove_keys(m.to_remove);
        let queued = queued_after_removal(m);
        StorageModel {
            updating: Map::new(
                |key: u64| kept.contains_key(key),
                |key: u64|
                    if queued.contains_key(key) {
                        queued[key]
                    } else {
                        kept[key]
                    },
            ),
            queued: queued.remove_keys(kept.dom()),
            changed: m.changed.union(m.to_remove).union(queued.dom().intersect(kept.dom())),
            to_remove: Set::empty(),
            has_inconsistencies: false,
            sky: match m.sky {
                Some(sky) => Some(
                    SkyModel { updating: columns_after_removal(sky.updating, kept.dom()), ..sky },
                ),
                None => None,
            },
            ..m
        }
    }
}

/// Storage after its changes became visible.
pub open spec fn publish(m: StorageModel) -> StorageModel {
    let shown = if m.changed == Set::<u64>::empty() {
        m
    } else {
        StorageModel {
            visible: m.updating,
            sky: match m.sky {
                Some(sky) => Some(SkyModel { visible: sky.updating, updating: sky.updating }),
                None => None,
            },
            changed: Set::empty(),
            ..m
        }
    };
    StorageModel { affected: Set::empty(), ..shown }
}

/// Storage after a block's updating level was set.
pub open spec fn set_level(m: StorageModel, block_pos: BlockPos, level: u8) -> StorageModel {
    let key = SectionPos::of_block(block_pos).key();
    StorageModel {
        updating: m.updating.insert(
            key,
            stored_content(
                m.updating[key].levels.update(block_index(block_pos), (level % 16) as u8),
            ),
        ),
        changed: m.changed.insert(key),
        affected: m.affected.union(keys_around(block_pos)),
        ..m
    }
}

/// The column of a packable section is read back from its key.
pub proof fn lemma_zero_key(pos: SectionPos)
    requires
        pos.packable(),
    ensures
        section_of_key(zero_key(pos)) == (SectionPos { x: pos.x, y: 0, z: pos.z }),
        forall|y: int| #[trigger]
            at_height(section_of_key(zero_key(pos)), y) == at_height(pos, y),
        at_height(pos, pos.y as int) == pos.key(),
{
    key_round_trip(SectionPos { x: pos.x, y: 0, z: pos.z });
}

/// A search upwards finds a section when there is one.
pub proof fn lemma_first_stored_above(
    layers: Map<u64, LayerContent>,
    pos: SectionPos,
    y: int,
    top: int,
    target: int,
)
    requires
        y <= target < top,
        layers.contains_key(at_height(pos, target)),
    ensures
        y <= first_stored_above(layers, pos, y, top) <= target,
        layers.contains_key(at_height(pos, first_stored_above(layers, pos, y, top))),
    decreases top - y,
{
    if !layers.contains_key(at_height(pos, y)) {
        lemma_first_stored_above(layers, pos, y + 1, top, target);
    }
}

/// A section that comes to store light keeps the sky columns in step.
pub proof fn lemma_column_added(stored: Set<u64>, columns: SkyColumns, pos: SectionPos)
    requires
        columns_valid(stored, columns),
        pos.packable(),
        -0x7FFFF <= pos.y < 0x7FFFF,
    ensures
        columns_valid(stored.insert(pos.key()), column_added(columns, pos)),
{
    let after = column_added(columns, pos);
    let zero = zero_key(pos);
    lemma_zero_key(pos);
    key_round_trip(pos);
    assert(stored_have_tops(stored.insert(pos.key()), after)) by {
        assert forall|key: u64| #[trigger] stored.insert(pos.key()).contains(key) implies {
            let p = section_of_key(key);
            &&& after.lowest_y <= p.y < 0x7FFFF
            &&& after.tops.contains_key(zero_key(p))
            &&& p.y < after.tops[zero_key(p)]
        } by {
            if key != pos.key() {
                lemma_stored_has_top(stored, columns, key);
            }
        }
        reveal(stored_have_tops);
    }
    assert(tops_have_stored(stored.insert(pos.key()), after)) by {
        assert forall|z: u64| #[trigger] after.tops.contains_key(z) implies {
            let p = section_of_key(z);
            &&& p.y == 0
            &&& after.lowest_y < after.tops[z] <= 0x7FFFF
            &&& stored.insert(pos.key()).contains(at_height(p, after.tops[z] - 1))
        } by {
            if columns.tops.contains_key(z) {
                lemma_top_has_stored(stored, columns, z);
            }
        }
        reveal(tops_have_stored);
    }
}

/// Setting a state keeps storage valid.
pub proof fn lemma_put_state_valid(m: StorageModel, pos: SectionPos, state: LightSectionState)
    requires
        m.valid(),
        pos.packable(),
        -0x7FFFF <= pos.y < 0x7FFFF,
    ensures
        put_state(m, pos, state).valid(),
{
    reveal(put_state);
    reveal(StorageModel::valid);
    let after = put_state(m, pos, state);
    let key = pos.key();
    if let Some(sky) = m.sky {
        if m.updating.contains_key(key) {
            assert(after.updating.dom() =~= m.updating.dom());
        } else if state != LightSectionState(0) {
            lemma_column_added(m.updating.dom(), sky.updating, pos);
            assert(after.updating.dom() =~= m.updating.dom().insert(key));
        }
    }
    assert forall|k: u64| #[trigger] after.updating.contains_key(k) <==> after.states.contains_key(k)
        || after.to_remove.contains(k) by {
        assert(m.updating.contains_key(k) <==> m.states.contains_key(k) || m.to_remove.contains(k));
    }
    assert forall|k: u64| #[trigger] after.to_remove.contains(k) implies !after.states.contains_key(
        k,
    ) && after.has_inconsistencies by {
        if m.to_remove.contains(k) {
            assert(!m.states.contains_key(k));
        }
    }
}

/// The section above a new section below its column's top stores light.
pub proof fn lemma_created_below_top(m: StorageModel, pos: SectionPos)
    requires
        m.valid(),
        pos.packable(),
        m.sky is Some,
        !m.updating.contains_key(pos.key()),
        m.sky->0.updating.top(zero_key(pos)) != m.sky->0.updating.lowest_y,
        pos.y < m.sky->0.updating.top(zero_key(pos)),
    ensures
        ({
            let top = m.sky->0.updating.top(zero_key(pos));
            let above = first_stored_above(m.updating, pos, pos.y + 1, top as int);
            &&& pos.y < above < top
            &&& m.updating.contains_key(at_height(pos, above))
        }),
{
    reveal(StorageModel::valid);
    let columns = m.sky->0.updating;
    let zero = zero_key(pos);
    lemma_zero_key(pos);
    assert(columns.tops.contains_key(zero));
    let top = columns.tops[zero];
    lemma_top_has_stored(m.updating.dom(), columns, zero);
    assert(at_height(section_of_key(zero), top - 1) == at_height(pos, top - 1));
    if pos.y == top - 1 {
        assert(false);
    }
    lemma_first_stored_above(m.updating, pos, pos.y + 1, top as int, top - 1);
}

/// The sections around a section whose neighborhood can be packed can be
/// packed.
pub proof fn lemma_neighbors_packable(pos: SectionPos, i: int)
    requires
        pos.neighborhood_packable(),
        0 <= i < 27,
    ensures
        neighbor_at(pos, i).packable(),
        -0x7FFFF <= neighbor_at(pos, i).y < 0x7FFFF,
        neighbor_at(pos, i).x == pos.x + (i / 3) % 3 - 1,
        neighbor_at(pos, i).y == pos.y + i % 3 - 1,
        neighbor_at(pos, i).z == pos.z + i / 9 - 1,
        i != 13 ==> neighbor_at(pos, i) != pos,
{
}

/// Changing neighbor counts keeps storage valid.
pub proof fn lemma_bump_valid(m: StorageModel, pos: SectionPos, increment: int, n: int)
    requires
        m.valid(),
        pos.neighborhood_packable(),
        0 <= n <= 27,
    ensures
        bump_neighbors(m, pos, increment, n).0.valid(),
    decreases n,
{
    if n > 0 {
        lemma_bump_valid(m, pos, increment, n - 1);
        let before = bump_neighbors(m, pos, increment, n - 1).0;
        let neighbor = neighbor_at(pos, n - 1);
        let state = before.state_of(neighbor);
        let count = state_neighbor_count(state.0) + increment;
        lemma_neighbors_packable(pos, n - 1);
        lemma_put_state_valid(
            before,
            neighbor,
            LightSectionState(state_with_count(state.0, count)),
        );
    }
}

/// A change of a section's status keeps storage valid.
pub proof fn status_update_keeps_valid(m: StorageModel, pos: SectionPos, section_empty: bool)
    requires
        m.valid(),
        pos.neighborhood_packable(),
    ensures
        update_status(m, pos, section_empty).0.valid(),
{
    let state = m.state_of(pos);
    let new_state = LightSectionState(state_with_data(state.0, !section_empty));
    lemma_put_state_valid(m, pos, new_state);
    lemma_bump_valid(
        put_state(m, pos, new_state),
        pos,
        if section_empty {
            -1
        } else {
            1
        },
        27,
    );
}

/// What a search downwards finds is stored, and nothing above it is.
pub proof fn lemma_highest_stored(stored: Set<u64>, pos: SectionPos, y: int, lowest: int, target: int)
    ensures
        highest_stored(stored, pos, y, lowest) matches Some(found) ==> lowest <= found <= y
            && stored.contains(at_height(pos, found)),
        lowest <= target <= y && stored.contains(at_height(pos, target)) ==> (highest_stored(
            stored,
            pos,
            y,
            lowest,
        ) matches Some(found) && found >= target),
    decreases y - lowest + 1,
{
    if y >= lowest && !stored.contains(at_height(pos, y)) {
        lemma_highest_stored(stored, pos, y - 1, lowest, target);
    }
}

/// Looking for new tops keeps the sky columns in step with the sections that
/// still store light.
pub proof fn lemma_columns_after_removal(all: Set<u64>, kept: Set<u64>, columns: SkyColumns)
    requires
        columns_valid(all, columns),
        kept.subset_of(all),
    ensures
        columns_valid(kept, columns_after_removal(columns, kept)),
{
    let reduced = columns_after_removal(columns, kept);
    assert(stored_have_tops(kept, reduced)) by {
        assert forall|key: u64| #[trigger] kept.contains(key) implies {
            let pos = section_of_key(key);
            &&& reduced.lowest_y <= pos.y < 0x7FFFF
            &&& reduced.tops.contains_key(zero_key(pos))
            &&& pos.y < reduced.tops[zero_key(pos)]
        } by {
            lemma_stored_has_top(all, columns, key);
            let pos = section_of_key(key);
            section_round_trip(key);
            lemma_zero_key(pos);
            let zero = zero_key(pos);
            lemma_top_has_stored(all, columns, zero);
            assert(at_height(section_of_key(zero), pos.y as int) == key);
            lemma_highest_stored(
                kept,
                section_of_key(zero),
                columns.tops[zero] - 1,
                columns.lowest_y as int,
                pos.y as int,
            );
        }
        reveal(stored_have_tops);
    }
    assert(tops_have_stored(kept, reduced)) by {
        assert forall|zero: u64| #[trigger] reduced.tops.contains_key(zero) implies {
            let pos = section_of_key(zero);
            &&& pos.y == 0
            &&& reduced.lowest_y < reduced.tops[zero] <= 0x7FFFF
            &&& kept.contains(at_height(pos, reduced.tops[zero] - 1))
        } by {
            lemma_top_has_stored(all, columns, zero);
            lemma_highest_stored(
                kept,
                section_of_key(zero),
                columns.tops[zero] - 1,
                columns.lowest_y as int,
                0,
            );
        }
        reveal(tops_have_stored);
    }
}

/// Reconciling removals and queued light keeps storage valid, and leaves
/// nothing to remove.
pub proof fn reconcile_keeps_valid(m: StorageModel)
    requires
        m.valid(),
    ensures
        reconcile(m).valid(),
        !reconcile(m).has_inconsistencies,
        reconcile(m).to_remove == Set::<u64>::empty(),
        reconcile(m).updating.dom() == m.states.dom(),
        reconcile(m).states == m.states,
{
    reveal(StorageModel::valid);
    let after = reconcile(m);
    if m.has_inconsistencies {
        let kept = m.updating.remove_keys(m.to_remove);
        assert(after.updating.dom() =~= kept.dom());
        if let Some(sky) = m.sky {
            lemma_columns_after_removal(m.updating.dom(), kept.dom(), sky.updating);
        }
    } else {
        assert(m.to_remove =~= Set::<u64>::empty());
    }
    assert forall|key: u64| after.updating.contains_key(key) == m.states.contains_key(key) by {
        assert(m.updating.contains_key(key) <==> m.states.contains_key(key)
            || m.to_remove.contains(key));
    }
    assert(after.updating.dom() =~= m.states.dom());
}

/// Reconciling settles every section. Light is stored exactly where the
/// section's type is not empty. A section that stays stored has its queued
/// light, if there was any. A section that is dropped leaves its queued light,
/// or else the light that it stored, in the queue where its column retains it,
/// and nothing elsewhere.
pub proof fn reconcile_settles(m: StorageModel, pos: SectionPos)
    requires
        m.valid(),
    ensures
        ({
            let after = reconcile(m);
            let key = pos.key();
            let dropped = m.updating.contains_key(key) && !after.updating.contains_key(key);
            &&& !after.has_inconsistencies
            &&& after.updating.contains_key(key) <==> state_type(after.state_of(pos).0)
                != LightSectionType::Empty
            &&& after.updating.contains_key(key) && m.queued.contains_key(key)
                ==> after.updating[key] == m.queued[key] && !after.queued.contains_key(key)
            &&& after.updating.contains_key(key) && !m.queued.contains_key(key)
                ==> after.updating[key] == m.updating[key]
            &&& dropped && m.retained.contains(zero_key(section_of_key(key)))
                ==> after.queued.contains_key(key) && after.queued[key]
                == if m.queued.contains_key(key) {
                m.queued[key]
            } else {
                m.updating[key]
            }
            &&& dropped && !m.retained.contains(zero_key(section_of_key(key)))
                ==> !after.queued.contains_key(key)
        }),
{
    reconcile_keeps_valid(m);
    reveal(StorageModel::valid);
    let key = pos.key();
    let after = reconcile(m);
    assert(m.updating.contains_key(key) <==> m.states.contains_key(key)
        || m.to_remove.contains(key));
    assert(after.updating.contains_key(key) == m.states.contains_key(key));
    if m.states.contains_key(key) {
        assert(m.states[key] != LightSectionState(0));
        assert(m.states[key].0 != 0);
    }
    if !m.has_inconsistencies {
        assert(!m.to_remove.contains(key));
    }
}

/// After changes became visible, readers see what changes work on, and a
/// second publication changes nothing.
pub proof fn publish_shows_updates(m: StorageModel)
    requires
        m.valid(),
    ensures
        publish(m).valid(),
        publish(publish(m)) == publish(m),
        m.changed != Set::<u64>::empty() ==> publish(m).visible == m.updating,
        publish(m).updating == m.updating,
        publish(m).affected == Set::<u64>::empty(),
{
    reveal(StorageModel::valid);
}

/// The sky columns after a section stopped storing light.
pub open spec fn column_removed(columns: SkyColumns, stored: Set<u64>, pos: SectionPos) -> SkyColumns {
    let zero = zero_key(pos);
    if columns.top(zero) != pos.y + 1 {
        columns
    } else {
        match highest_stored(stored, pos, pos.y as int, columns.lowest_y as int) {
            Some(y) => SkyColumns { tops: columns.tops.insert(zero, (y + 1) as i32), ..columns },
            None => SkyColumns { tops: columns.tops.remove(zero), ..columns },
        }
    }
}

/// The sky columns while removed sections are looked at one by one: a column
/// has its new top as soon as its old highest section was looked at.
pub open spec fn columns_in_removal(
    columns: SkyColumns,
    stored: Set<u64>,
    done: spec_fn(u64) -> bool,
    current: SkyColumns,
) -> bool {
    let after = columns_after_removal(columns, stored);
    &&& current.lowest_y == columns.lowest_y
    &&& forall|zero: u64| #[trigger]
        current.tops.contains_key(zero) ==> columns.tops.contains_key(zero)
    &&& forall|zero: u64| #[trigger]
        columns.tops.contains_key(zero) ==> if done(
            at_height(section_of_key(zero), columns.tops[zero] - 1),
        ) {
            &&& current.tops.contains_key(zero) == after.tops.contains_key(zero)
            &&& current.tops.contains_key(zero) ==> current.tops[zero] == after.tops[zero]
        } else {
            current.tops.contains_key(zero) && current.tops[zero] == columns.tops[zero]
        }
}

/// Looking at one more removed section keeps the columns in removal.
pub proof fn lemma_column_removed(
    all: Set<u64>,
    stored: Set<u64>,
    columns: SkyColumns,
    current: SkyColumns,
    done: spec_fn(u64) -> bool,
    key: u64,
)
    requires
        columns_valid(all, columns),
        columns_in_removal(columns, stored, done, current),
        all.contains(key),
        !stored.contains(key),
        !done(key),
    ensures
        columns_in_removal(
            columns,
            stored,
            |k: u64| done(k) || k == key,
            column_removed(current, stored, section_of_key(key)),
        ),
{
    let pos = section_of_key(key);
    let zero = zero_key(pos);
    let next = column_removed(current, stored, pos);
    let after = columns_after_removal(columns, stored);
    let now_done = |k: u64| done(k) || k == key;
    section_round_trip(key);
    lemma_zero_key(pos);
    lemma_stored_has_top(all, columns, key);
    lemma_top_has_stored(all, columns, zero);
    let top_key = at_height(section_of_key(zero), columns.tops[zero] - 1);
    assert(at_height(pos, pos.y as int) == key);
    lemma_highest_stored(
        stored,
        section_of_key(zero),
        columns.tops[zero] - 1,
        columns.lowest_y as int,
        0,
    );
    lemma_same_column(stored, pos, section_of_key(zero), pos.y as int, columns.lowest_y as int);
    assert forall|z: u64| #[trigger] columns.tops.contains_key(z) implies if now_done(
        at_height(section_of_key(z), columns.tops[z] - 1),
    ) {
        &&& next.tops.contains_key(z) == after.tops.contains_key(z)
        &&& next.tops.contains_key(z) ==> next.tops[z] == after.tops[z]
    } else {
        next.tops.contains_key(z) && next.tops[z] == columns.tops[z]
    } by {
        lemma_top_has_stored(all, columns, z);
        if z != zero {
            let other = at_height(section_of_key(z), columns.tops[z] - 1);
            if other == key {
                section_round_trip(z);
                lemma_height_column(section_of_key(z), columns.tops[z] - 1);
                assert(false);
            }
        } else if done(top_key) {
            if after.tops.contains_key(zero) {
                assert(stored.contains(at_height(pos, after.tops[zero] - 1)));
            }
            assert(current.top(zero) != pos.y + 1);
        } else {
            if columns.tops[zero] == pos.y + 1 {
                assert(top_key == key);
            } else {
                if top_key == key {
                    section_round_trip(zero);
                    lemma_height_column(section_of_key(zero), columns.tops[zero] - 1);
                    assert(false);
                }
            }
        }
    }
}

proof fn lemma_height_column(pos: SectionPos, y: int)
    requires
        pos.packable(),
        -0x80000 <= y < 0x80000,
    ensures
        section_of_key(at_height(pos, y)) == (SectionPos { x: pos.x, y: y as i32, z: pos.z }),
{
    key_round_trip(SectionPos { x: pos.x, y: y as i32, z: pos.z });
}

proof fn lemma_same_column(stored: Set<u64>, a: SectionPos, b: SectionPos, y: int, lowest: int)
    requires
        a.x == b.x,
        a.z == b.z,
    ensures
        highest_stored(stored, a, y, lowest) == highest_stored(stored, b, y, lowest),
    decreases y - lowest + 1,
{
    if y >= lowest {
        lemma_same_column(stored, a, b, y - 1, lowest);
    }
}

/// The lowest section all of whose columns are lit by the sky directly: that of
/// the lowest height where every column is open to below the world.
pub open spec fn lowest_full_section(sources: &ChunkSkyLightSources) -> int {
    let highest = sources.extended(sources.highest_edge(256));
    if highest == i32::MIN {
        section_coord(i32::MIN as int)
    } else {
        section_coord(highest - 1) + 1
    }
}

/// Every block of a section of the chunk is a sky source.
pub open spec fn is_fully_sourced(sources: &ChunkSkyLightSources, section_y: int) -> bool {
    forall|x: int, z: int|
        0 <= x < 16 && 0 <= z < 16 ==> #[trigger] sources.lowest_source(x, z) <= section_y * 16
}

/// The sections from the lowest full one up are those that the sky lights
/// directly in every column.
pub proof fn full_sections_are_sourced(sources: &ChunkSkyLightSources, section_y: int)
    requires
        sources.valid(),
        section_coord(i32::MIN as int) <= section_y,
    ensures
        is_fully_sourced(sources, section_y) <==> lowest_full_section(sources) <= section_y,
{
    sources_stay_in_world(sources, 0, 0);
    let highest = sources.extended(sources.highest_edge(256));
    let (x, z) = choose|x: int, z: int|
        0 <= x < 16 && 0 <= z < 16 && #[trigger] sources.lowest_source(x, z) == highest;
    assert(sources.lowest_source(x, z) == highest);
}

/// The key is that of a section of a column from `bottom` up to below `top`.
pub open spec fn in_span(pos: SectionPos, bottom: int, top: int, key: u64) -> bool {
    exists|y: int| bottom <= y < top && #[trigger] at_height(pos, y) == key
}

/// Storage after the dark homogeneous layers of a span of a column were filled
/// with full light.
pub open spec fn fill_span(m: StorageModel, pos: SectionPos, bottom: int, top: int) -> StorageModel {
    StorageModel {
        updating: Map::new(
            |key: u64| m.updating.contains_key(key),
            |key: u64|
                if in_span(pos, bottom, top, key) && m.updating[key] == filled_content(0) {
                    filled_content(15)
                } else {
                    m.updating[key]
                },
        ),
        changed: Set::new(
            |key: u64|
                m.changed.contains(key) || m.updating.contains_key(key) && in_span(
                    pos,
                    bottom,
                    top,
                    key,
                ),
        ),
        ..m
    }
}

/// Storage after the sky sources of a column were enabled.
pub open spec fn enable_sources(
    m: StorageModel,
    pos: SectionPos,
    sources: &ChunkSkyLightSources,
) -> StorageModel {
    match m.sky {
        None => m,
        Some(sky) => {
            let lit = StorageModel { sources: m.sources.insert(zero_key(pos)), ..m };
            let full = lowest_full_section(sources);
            fill_span(
                lit,
                pos,
                if sky.updating.lowest_y < full {
                    full
                } else {
                    sky.updating.lowest_y as int
                },
                sky.updating.top(zero_key(pos)) as int,
            )
        },
    }
}

/// Enabling the sky sources of a column fills every dark homogeneous layer of
/// the column that the sky lights directly everywhere, and no other layer.
pub proof fn enabling_fills_sourced_layers(
    m: StorageModel,
    pos: SectionPos,
    sources: &ChunkSkyLightSources,
    key: u64,
)
    requires
        m.valid(),
        m.sky is Some,
        sources.valid(),
        m.updating.contains_key(key),
    ensures
        enable_sources(m, pos, sources).updating.dom() == m.updating.dom(),
        enable_sources(m, pos, sources).updating[key] == if zero_key(section_of_key(key))
            == zero_key(pos) && is_fully_sourced(sources, section_of_key(key).y as int)
            && m.updating[key] == filled_content(0) {
            filled_content(15)
        } else {
            m.updating[key]
        },
{
    reveal(StorageModel::valid);
    let after = enable_sources(m, pos, sources);
    let columns = m.sky->0.updating;
    let at = section_of_key(key);
    let full = lowest_full_section(sources);
    let bottom = if columns.lowest_y < full {
        full
    } else {
        columns.lowest_y as int
    };
    let top = columns.top(zero_key(pos)) as int;
    assert(after.updating.dom() =~= m.updating.dom());
    section_round_trip(key);
    lemma_stored_has_top(m.updating.dom(), columns, key);
    full_sections_are_sourced(sources, at.y as int);
    key_keeps_column(at, pos);
    if zero_key(at) == zero_key(pos) && full <= at.y {
        assert(at_height(pos, at.y as int) == key);
        assert(in_span(pos, bottom, top, key));
    }
    if in_span(pos, bottom, top, key) {
        let y = choose|y: int| bottom <= y < top && #[trigger] at_height(pos, y) == key;
        if columns.tops.contains_key(zero_key(pos)) {
            lemma_top_has_stored(m.updating.dom(), columns, zero_key(pos));
        }
        key_keeps_column(SectionPos { y: y as i32, ..pos }, pos);
    }
}

/// The lowest source of column `c` of a chunk.
pub open spec fn source_at(sources: &ChunkSkyLightSources, c: int) -> int {
    sources.lowest_source(c % 16, c / 16)
}

/// The lowest source of the column north of column `c`.
pub open spec fn north_source(hood: SkyLightSourceNeighborhood<'_>, c: int) -> int {
    if c / 16 == 0 {
        hood.north.lowest_source(c % 16, 15)
    } else {
        hood.center.lowest_source(c % 16, c / 16 - 1)
    }
}

/// The lowest source of the column south of column `c`.
pub open spec fn south_source(hood: SkyLightSourceNeighborhood<'_>, c: int) -> int {
    if c / 16 == 15 {
        hood.south.lowest_source(c % 16, 0)
    } else {
        hood.center.lowest_source(c % 16, c / 16 + 1)
    }
}

/// The lowest source of the column west of column `c`.
pub open spec fn west_source(hood: SkyLightSourceNeighborhood<'_>, c: int) -> int {
    if c % 16 == 0 {
        hood.west.lowest_source(15, c / 16)
    } else {
        hood.center.lowest_source(c % 16 - 1, c / 16)
    }
}

/// The lowest source of the column east of column `c`.
pub open spec fn east_source(hood: SkyLightSourceNeighborhood<'_>, c: int) -> int {
    if c % 16 == 15 {
        hood.east.lowest_source(0, c / 16)
    } else {
        hood.center.lowest_source(c % 16 + 1, c / 16)
    }
}

/// A layer after full light was put where the first `n` columns have sources.
pub open spec fn fill_columns(
    content: LayerContent,
    center: &ChunkSkyLightSources,
    section_y: int,
    n: int,
) -> LayerContent {
    LayerContent {
        levels: Seq::new(
            4096,
            |i: int|
                if i % 256 < n && source_at(center, i % 256) <= section_y * 16 + i / 256 {
                    15
                } else {
                    content.levels[i]
                },
        ),
        homogeneous: content.homogeneous && forall|c: int|
            0 <= c < n ==> #[trigger] source_at(center, c) > section_y * 16 + 15,
    }
}

/// Whether a source spreads to a side or downwards: it is the lowest of its
/// column, or a neighboring column has no source at its height.
pub open spec fn source_spreads(hood: SkyLightSourceNeighborhood<'_>, c: int, y: int) -> bool {
    ||| y == source_at(hood.center, c)
    ||| y < north_source(hood, c)
    ||| y < south_source(hood, c)
    ||| y < west_source(hood, c)
    ||| y < east_source(hood, c)
}

/// The work that a source at height `y` of column `c` gives to the queue.
pub open spec fn source_update(
    hood: SkyLightSourceNeighborhood<'_>,
    pos: SectionPos,
    c: int,
    y: int,
) -> QueuedLightUpdate {
    QueuedLightUpdate {
        block_pos: BlockPos {
            x: (pos.x * 16 + c % 16) as i32,
            y: y as i32,
            z: (pos.z * 16 + c / 16) as i32,
        },
        entry: LightQueueEntry(
            entry_raw(
                15,
                bit_value(y == source_at(hood.center, c), 16) + bit_value(
                    y < north_source(hood, c),
                    64,
                ) + bit_value(y < south_source(hood, c), 128) + bit_value(
                    y < west_source(hood, c),
                    256,
                ) + bit_value(y < east_source(hood, c), 512),
                false,
                false,
            ) as u64,
        ),
    }
}

/// The work of the sources of column `c` from the top of a section down to
/// height `y`, highest first.
pub open spec fn column_updates(
    hood: SkyLightSourceNeighborhood<'_>,
    pos: SectionPos,
    c: int,
    top_y: int,
    y: int,
) -> Seq<QueuedLightUpdate>
    decreases top_y - y + 1,
{
    if y > top_y {
        Seq::empty()
    } else {
        let above = column_updates(hood, pos, c, top_y, y + 1);
        if source_spreads(hood, c, y) {
            above.push(source_update(hood, pos, c, y))
        } else {
            above
        }
    }
}

/// The lowest height of a section at which column `c` has a source.
pub open spec fn lowest_in_section(center: &ChunkSkyLightSources, c: int, section_y: int) -> int {
    if source_at(center, c) < section_y * 16 {
        section_y * 16
    } else {
        source_at(center, c)
    }
}

/// The work of the sources of the first `n` columns of a section, column by
/// column.
pub open spec fn section_updates(
    hood: SkyLightSourceNeighborhood<'_>,
    pos: SectionPos,
    section_y: int,
    n: int,
) -> Seq<QueuedLightUpdate>
    decreases n,
{
    if n <= 0 {
        Seq::empty()
    } else {
        section_updates(hood, pos, section_y, n - 1) + column_updates(
            hood,
            pos,
            n - 1,
            section_y * 16 + 15,
            lowest_in_section(hood.center, n - 1, section_y),
        )
    }
}

/// Some column has sources below a section.
pub open spec fn sources_continue(center: &ChunkSkyLightSources, section_y: int) -> bool {
    exists|c: int| 0 <= c < 256 && #[trigger] source_at(center, c) < section_y * 16
}

/// Storage and queues after sky sources were propagated from section
/// `section_y` of a column down to section `bottom`, or to the first section
/// below which no column has sources.
pub open spec fn propagate_sections(
    m: StorageModel,
    q: QueuesView,
    pos: SectionPos,
    hood: SkyLightSourceNeighborhood<'_>,
    section_y: int,
    bottom: int,
) -> (StorageModel, QueuesView)
    decreases section_y - bottom + 1,
{
    let key = at_height(pos, section_y);
    if section_y < bottom {
        (m, q)
    } else if !m.updating.contains_key(key) {
        propagate_sections(m, q, pos, hood, section_y - 1, bottom)
    } else {
        let filled = StorageModel {
            updating: m.updating.insert(
                key,
                fill_columns(m.updating[key], hood.center, section_y, 256),
            ),
            changed: m.changed.insert(key),
            ..m
        };
        let queued = QueuesView {
            increase: q.increase + section_updates(hood, pos, section_y, 256),
            ..q
        };
        if sources_continue(hood.center, section_y) {
            propagate_sections(filled, queued, pos, hood, section_y - 1, bottom)
        } else {
            (filled, queued)
        }
    }
}

/// Storage and queues after the sky sources of a column were propagated.
pub open spec fn propagate_sources(
    m: StorageModel,
    q: QueuesView,
    pos: SectionPos,
    hood: SkyLightSourceNeighborhood<'_>,
) -> (StorageModel, QueuesView) {
    match m.sky {
        None => (m, q),
        Some(sky) => propagate_sections(
            StorageModel { sources: m.sources.insert(zero_key(pos)), ..m },
            q,
            pos,
            hood,
            sky.updating.top(zero_key(pos)) - 1,
            sky.updating.lowest_y as int,
        ),
    }
}

/// The entry of a sky source that spreads in all directions, or in all but
/// upwards.
pub open spec fn sky_source_entry(top: bool) -> LightQueueEntry {
    LightQueueEntry(
        entry_raw(
            15,
            if top {
                all_directions()
            } else {
                all_directions() - 32
            },
            false,
            false,
        ) as u64,
    )
}

/// Storage and queues after sources of a block column were removed from height
/// `y` down: fully lit blocks become dark until one is not fully lit, and
/// sections without light are skipped.
pub open spec fn remove_sources_from(
    m: StorageModel,
    q: QueuesView,
    x: i32,
    z: i32,
    start_y: int,
    y: int,
) -> (StorageModel, QueuesView)
    decreases y - m.sky->0.updating.lowest_y * 16 + 1,
{
    let block_pos = BlockPos { x, y: y as i32, z };
    if section_coord(y) < m.sky->0.updating.lowest_y {
        (m, q)
    } else if m.stored_level(block_pos) is None {
        remove_sources_from(m, q, x, z, start_y, section_coord(y) * 16 - 1)
    } else if m.stored_level(block_pos) != Some(15u8) {
        (m, q)
    } else {
        remove_sources_from(
            set_level(m, block_pos, 0),
            QueuesView {
                decrease: q.decrease.push(
                    QueuedLightUpdate { block_pos, entry: sky_source_entry(y == start_y) },
                ),
                ..q
            },
            x,
            z,
            start_y,
            y - 1,
        )
    }
}

/// Storage and queues after sources were added to a block column from height
/// `y` up: blocks become fully lit until one is already, and sections without
/// light are skipped.
pub open spec fn add_sources_from(
    m: StorageModel,
    q: QueuesView,
    x: i32,
    z: i32,
    lowest_source_y: int,
    neighbor_lowest_source_y: int,
    y: int,
) -> (StorageModel, QueuesView)
    decreases
            m.sky->0.updating.top(zero_key(SectionPos::of_block(BlockPos { x, y: 0, z }))) * 16 - y,
{
    let block_pos = BlockPos { x, y: y as i32, z };
    let columns = m.sky->0.updating;
    let top = columns.top(zero_key(SectionPos::of_block(BlockPos { x, y: 0, z })));
    if top == columns.lowest_y || section_coord(y) >= top {
        (m, q)
    } else if m.stored_level(block_pos) is None {
        add_sources_from(
            m,
            q,
            x,
            z,
            lowest_source_y,
            neighbor_lowest_source_y,
            section_coord(y) * 16 + 16,
        )
    } else if m.stored_level(block_pos) == Some(15u8) {
        (m, q)
    } else {
        add_sources_from(
            set_level(m, block_pos, 15),
            if y < neighbor_lowest_source_y || y == lowest_source_y {
                QueuesView {
                    increase: q.increase.push(
                        QueuedLightUpdate { block_pos, entry: sky_source_entry(false) },
                    ),
                    ..q
                }
            } else {
                q
            },
            x,
            z,
            lowest_source_y,
            neighbor_lowest_source_y,
            y + 1,
        )
    }
}

/// Storage and queues after a block column's lowest source moved.
pub open spec fn update_column(
    m: StorageModel,
    q: QueuesView,
    x: i32,
    z: i32,
    lowest_source_y: int,
    neighbor_lowest_source_y: int,
) -> (StorageModel, QueuesView) {
    match m.sky {
        None => (m, q),
        Some(sky) => {
            let world_bottom_y = sky.updating.lowest_y * 16;
            if sky.updating.lowest_y == i32::MAX {
                (m, q)
            } else {
                let (removed, queued) = if lowest_source_y <= world_bottom_y {
                    (m, q)
                } else {
                    remove_sources_from(m, q, x, z, lowest_source_y - 1, lowest_source_y - 1)
                };
                add_sources_from(
                    removed,
                    queued,
                    x,
                    z,
                    lowest_source_y,
                    neighbor_lowest_source_y,
                    if lowest_source_y < world_bottom_y {
                        world_bottom_y
                    } else {
                        lowest_source_y
                    },
                )
            }
        },
    }
}

} // verus!
