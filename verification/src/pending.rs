//! Light changes that wait for the next light pass.
use vstd::prelude::*;

use crate::fx::{
    map_contains, map_get, map_get_mut, map_insert, map_is_empty, map_keys, map_new, map_remove,
    set_insert, set_is_empty, set_items, set_new, FxMap, FxSet,
};
use crate::position::{BlockPos, ChunkPos, SectionPos};
use crate::sky_runs::LightSectionEmptinessChange;

verus! {

/// A coordinate moved to the non-negative numbers.
pub open spec fn lifted(coord: int) -> int {
    coord + 0x8000_0000
}

/// The key of three coordinates.
#[verifier::opaque]
pub open spec fn coords_key(x: int, y: int, z: int) -> u128 {
    ((lifted(x) * 0x1_0000_0000 + lifted(y)) * 0x1_0000_0000 + lifted(z)) as u128
}

/// The key of a chunk.
pub open spec fn chunk_key(pos: ChunkPos) -> u64 {
    (lifted(pos.x as int) * 0x1_0000_0000 + lifted(pos.z as int)) as u64
}

/// Chunks with one key are one chunk.
pub proof fn chunk_key_injective(a: ChunkPos, b: ChunkPos)
    requires
        chunk_key(a) == chunk_key(b),
    ensures
        a == b,
{
}

/// The coordinates of a key are read back.
pub proof fn coords_key_round_trip(x: i32, y: i32, z: i32)
    ensures
        coords_key(x as int, y as int, z as int) / 0x1_0000_0000_0000_0000 == lifted(x as int),
        (coords_key(x as int, y as int, z as int) / 0x1_0000_0000) % 0x1_0000_0000 == lifted(
            y as int,
        ),
        coords_key(x as int, y as int, z as int) % 0x1_0000_0000 == lifted(z as int),
{
    reveal(coords_key);
    let high = lifted(x as int) * 0x1_0000_0000 + lifted(y as int);
    let key = coords_key(x as int, y as int, z as int) as int;
    assert(key == high * 0x1_0000_0000 + lifted(z as int));
    assert(key / 0x1_0000_0000 == high);
    assert(high / 0x1_0000_0000 == lifted(x as int));
    assert(key / 0x1_0000_0000_0000_0000 == (key / 0x1_0000_0000) / 0x1_0000_0000) by {
        vstd::arithmetic::div_mod::lemma_div_denominator(key, 0x1_0000_0000, 0x1_0000_0000);
    }
}

/// Positions with one key are one position.
proof fn lemma_coords_key_injective(x: i32, y: i32, z: i32, p: i32, q: i32, r: i32)
    requires
        coords_key(x as int, y as int, z as int) == coords_key(p as int, q as int, r as int),
    ensures
        x == p && y == q && z == r,
{
    coords_key_round_trip(x, y, z);
    coords_key_round_trip(p, q, r);
}

fn key_of_coords(x: i32, y: i32, z: i32) -> (key: u128)
    ensures
        key == coords_key(x as int, y as int, z as int),
{
    let x: u128 = (x as i64 + 0x8000_0000) as u128;
    let y: u128 = (y as i64 + 0x8000_0000) as u128;
    let z: u128 = (z as i64 + 0x8000_0000) as u128;
    proof {
        reveal(coords_key);
    }
    (x * 0x1_0000_0000 + y) * 0x1_0000_0000 + z
}

pub fn key_of_chunk(pos: ChunkPos) -> (key: u64)
    ensures
        key == chunk_key(pos),
{
    let x: u64 = (pos.x as i64 + 0x8000_0000) as u64;
    let z: u64 = (pos.z as i64 + 0x8000_0000) as u64;
    x * 0x1_0000_0000 + z
}

/// The key stands for coordinates.
spec fn is_coords_key(key: u128) -> bool {
    exists|x: i32, y: i32, z: i32| key == #[trigger] coords_key(x as int, y as int, z as int)
}

fn coords_of_key(key: u128) -> (coords: (i32, i32, i32))
    requires
        is_coords_key(key),
    ensures
        coords_key(coords.0 as int, coords.1 as int, coords.2 as int) == key,
{
    proof {
        let (x, y, z) = choose|x: i32, y: i32, z: i32|
            key == #[trigger] coords_key(x as int, y as int, z as int);
        coords_key_round_trip(x, y, z);
        reveal(coords_key);
    }
    let x: u128 = key / 0x1_0000_0000_0000_0000;
    let y: u128 = (key / 0x1_0000_0000) % 0x1_0000_0000;
    let z: u128 = key % 0x1_0000_0000;
    (
        (x as i64 - 0x8000_0000) as i32,
        (y as i64 - 0x8000_0000) as i32,
        (z as i64 - 0x8000_0000) as i32,
    )
}

/// The changes that wait in one chunk.
pub struct PendingChunkLightUpdates {
    changed_positions: FxSet<u128>,
    changed_sections: FxMap<u128, bool>,
}

/// What waits in one chunk.
#[verifier::ext_equal]
pub struct PendingChunk {
    /// The blocks to check.
    pub positions: Set<BlockPos>,
    /// The sections that became empty or came to have blocks.
    pub sections: Map<SectionPos, bool>,
}

impl PendingChunk {
    /// Nothing waits.
    pub open spec fn is_empty(self) -> bool {
        self.positions == Set::<BlockPos>::empty() && self.sections == Map::<
            SectionPos,
            bool,
        >::empty()
    }
}

impl View for PendingChunkLightUpdates {
    type V = PendingChunk;

    closed spec fn view(&self) -> PendingChunk {
        PendingChunk {
            positions: Set::new(
                |pos: BlockPos|
                    self.changed_positions@.contains(
                        coords_key(pos.x as int, pos.y as int, pos.z as int),
                    ),
            ),
            sections: Map::new(
                |pos: SectionPos|
                    self.changed_sections@.contains_key(
                        coords_key(pos.x as int, pos.y as int, pos.z as int),
                    ),
                |pos: SectionPos|
                    self.changed_sections@[coords_key(
                        pos.x as int,
                        pos.y as int,
                        pos.z as int,
                    )],
            ),
        }
    }
}

/// A change comes before another one: by x, then by z, then from the top down.
pub open spec fn change_before(
    a: LightSectionEmptinessChange,
    b: LightSectionEmptinessChange,
) -> bool {
    let (p, q) = (a.section_pos, b.section_pos);
    p.x < q.x || p.x == q.x && (p.z < q.z || p.z == q.z && p.y > q.y)
}

fn comes_before(a: LightSectionEmptinessChange, b: LightSectionEmptinessChange) -> (result: bool)
    ensures
        result == change_before(a, b),
{
    let p: SectionPos = a.section_pos;
    let q: SectionPos = b.section_pos;
    p.x < q.x || p.x == q.x && (p.z < q.z || p.z == q.z && p.y > q.y)
}

/// Changes are in order, none twice.
pub open spec fn changes_sorted(changes: Seq<LightSectionEmptinessChange>) -> bool {
    forall|i: int, j: int|
        0 <= i < j < changes.len() ==> change_before(
            #[trigger] changes[i],
            #[trigger] changes[j],
        )
}

impl PendingChunkLightUpdates {
    /// Every key stands for a position.
    pub closed spec fn wf(&self) -> bool {
        &&& forall|key: u128| #[trigger]
            self.changed_positions@.contains(key) ==> is_coords_key(key)
        &&& forall|key: u128| #[trigger]
            self.changed_sections@.contains_key(key) ==> is_coords_key(key)
    }

    /// Creates a chunk's pending changes without any.
    #[must_use]
    pub fn new() -> (pending: Self)
        ensures
            pending.wf(),
            pending@.positions == Set::<BlockPos>::empty(),
            pending@.sections == Map::<SectionPos, bool>::empty(),
    {
        let pending = PendingChunkLightUpdates {
            changed_positions: set_new(),
            changed_sections: map_new(),
        };
        assert(pending@.positions =~= Set::<BlockPos>::empty());
        assert(pending@.sections =~= Map::<SectionPos, bool>::empty());
        pending
    }

    /// Returns whether nothing waits.
    #[must_use]
    pub fn is_empty(&self) -> (result: bool)
        requires
            self.wf(),
        ensures
            result == self@.is_empty(),
    {
        let result: bool = set_is_empty(&self.changed_positions) && map_is_empty(
            &self.changed_sections,
        );
        proof {
            if result {
                assert(self@.positions =~= Set::<BlockPos>::empty());
                assert(self@.sections =~= Map::<SectionPos, bool>::empty());
            } else {
                if self@.positions == Set::<BlockPos>::empty() {
                    assert forall|key: u128| !self.changed_positions@.contains(key) by {
                        if self.changed_positions@.contains(key) {
                            let (x, y, z) = choose|x: i32, y: i32, z: i32|
                                key == #[trigger] coords_key(x as int, y as int, z as int);
                            assert(self@.positions.contains(BlockPos { x, y, z }));
                        }
                    }
                    assert(self.changed_positions@ =~= Set::<u128>::empty());
                }
                if self@.sections == Map::<SectionPos, bool>::empty() {
                    assert forall|key: u128| !self.changed_sections@.contains_key(key) by {
                        if self.changed_sections@.contains_key(key) {
                            let (x, y, z) = choose|x: i32, y: i32, z: i32|
                                key == #[trigger] coords_key(x as int, y as int, z as int);
                            assert(self@.sections.contains_key(SectionPos { x, y, z }));
                        }
                    }
                    assert(self.changed_sections@.dom() =~= Set::<u128>::empty());
                }
            }
        }
        result
    }

    /// Notes that a block is to be checked.
    pub fn add_position(&mut self, pos: BlockPos)
        requires
            old(self).wf(),
        ensures
            final(self).wf(),
            final(self)@ == (PendingChunk {
                positions: old(self)@.positions.insert(pos),
                ..old(self)@
            }),
    {
        let key: u128 = key_of_coords(pos.x, pos.y, pos.z);
        set_insert(&mut self.changed_positions, key);
        proof {
            assert(is_coords_key(key));
            assert forall|p: BlockPos|
                self@.positions.contains(p) == old(self)@.positions.insert(pos).contains(p) by {
                if coords_key(p.x as int, p.y as int, p.z as int) == key {
                    lemma_coords_key_injective(p.x, p.y, p.z, pos.x, pos.y, pos.z);
                }
            }
            assert(self@.positions =~= old(self)@.positions.insert(pos));
        }
    }

    /// Notes that a section became empty or came to have blocks.
    pub fn add_section(&mut self, change: LightSectionEmptinessChange)
        requires
            old(self).wf(),
        ensures
            final(self).wf(),
            final(self)@ == (PendingChunk {
                sections: old(self)@.sections.insert(change.section_pos, change.empty),
                ..old(self)@
            }),
    {
        let pos: SectionPos = change.section_pos;
        let key: u128 = key_of_coords(pos.x, pos.y, pos.z);
        map_insert(&mut self.changed_sections, key, change.empty);
        proof {
            assert(is_coords_key(key));
            let expected = old(self)@.sections.insert(pos, change.empty);
            assert forall|p: SectionPos|
                #![trigger self@.sections.dom().contains(p)]
                #![trigger expected.dom().contains(p)]
                #![trigger self@.sections[p]]
                self@.sections.dom().contains(p) == expected.dom().contains(p) && (
                expected.dom().contains(p) ==> self@.sections[p] == expected[p]) by {
                if coords_key(p.x as int, p.y as int, p.z as int) == key {
                    lemma_coords_key_injective(p.x, p.y, p.z, pos.x, pos.y, pos.z);
                }
            }
            assert(self@.sections =~= expected);
        }
    }

    /// Returns the blocks to check, in no particular order.
    #[must_use]
    pub fn changed_positions(&self) -> (positions: Vec<BlockPos>)
        requires
            self.wf(),
        ensures
            positions@.no_duplicates(),
            forall|pos: BlockPos| #[trigger]
                positions@.contains(pos) <==> self@.positions.contains(pos),
    {
        let keys: Vec<u128> = set_items(&self.changed_positions);
        let mut positions: Vec<BlockPos> = Vec::new();
        let mut i: usize = 0;
        while i < keys.len()
            invariant
                self.wf(),
                i <= keys@.len(),
                forall|key: u128| #[trigger]
                    keys@.contains(key) <==> self.changed_positions@.contains(key),
                positions@.len() == i,
                forall|j: int|
                    0 <= j < i ==> coords_key(
                        (#[trigger] positions@[j]).x as int,
                        positions@[j].y as int,
                        positions@[j].z as int,
                    ) == keys@[j],
            decreases keys@.len() - i,
        {
            assert(keys@.contains(keys@[i as int]));
            let (x, y, z) = coords_of_key(keys[i]);
            positions.push(BlockPos::new(x, y, z));
            i += 1;
        }
        proof {
            assert forall|a: int, b: int|
                0 <= a < positions@.len() && 0 <= b < positions@.len() && a
                    != b implies positions@[a] != positions@[b] by {
                assert(keys@[a] != keys@[b]);
            }
            assert forall|pos: BlockPos| #[trigger]
                positions@.contains(pos) <==> self@.positions.contains(pos) by {
                let key = coords_key(pos.x as int, pos.y as int, pos.z as int);
                if positions@.contains(pos) {
                    let j = choose|j: int| 0 <= j < positions@.len() && positions@[j] == pos;
                    assert(keys@[j] == key);
                    assert(keys@.contains(key));
                }
                if self@.positions.contains(pos) {
                    assert(keys@.contains(key));
                    let j = choose|j: int| 0 <= j < keys@.len() && keys@[j] == key;
                    let other = positions@[j];
                    lemma_coords_key_injective(pos.x, pos.y, pos.z, other.x, other.y, other.z);
                    assert(positions@[j] == pos);
                }
            }
        }
        positions
    }

    /// Returns the section changes, by x, then by z, then from the top down.
    #[must_use]
    pub fn empty_section_changes(&self) -> (changes: Vec<LightSectionEmptinessChange>)
        requires
            self.wf(),
        ensures
            changes_sorted(changes@),
            forall|change: LightSectionEmptinessChange| #[trigger]
                changes@.contains(change) <==> self@.sections.contains_key(change.section_pos)
                    && self@.sections[change.section_pos] == change.empty,
    {
        let keys: Vec<u128> = map_keys(&self.changed_sections);
        let mut changes: Vec<LightSectionEmptinessChange> = Vec::new();
        let mut i: usize = 0;
        while i < keys.len()
            invariant
                self.wf(),
                i <= keys@.len(),
                keys@.no_duplicates(),
                forall|key: u128| #[trigger]
                    keys@.contains(key) <==> self.changed_sections@.contains_key(key),
                changes_sorted(changes@),
                forall|change: LightSectionEmptinessChange| #[trigger]
                    changes@.contains(change) <==> is_noted(self, change, keys@, i as int),
            decreases keys@.len() - i,
        {
            let key: u128 = keys[i];
            assert(keys@.contains(keys@[i as int]));
            let (x, y, z) = coords_of_key(key);
            if let Some(empty) = map_get(&self.changed_sections, key) {
                let change = LightSectionEmptinessChange {
                    section_pos: SectionPos::new(x, y, z),
                    empty: *empty,
                };
                let ghost before = changes@;
                proof {
                    assert forall|other: LightSectionEmptinessChange| #[trigger]
                        before.contains(other) implies other.section_pos != change.section_pos by {
                        assert(is_noted(self, other, keys@, i as int));
                        let j = choose|j: int|
                            0 <= j < i && #[trigger] keys@[j] == coords_key(
                                other.section_pos.x as int,
                                other.section_pos.y as int,
                                other.section_pos.z as int,
                            );
                        assert(keys@[j] != keys@[i as int]);
                    }
                }
                insert_change(&mut changes, change);
                proof {
                    assert forall|other: LightSectionEmptinessChange| #[trigger]
                        changes@.contains(other) <==> is_noted(
                            self,
                            other,
                            keys@,
                            i as int + 1,
                        ) by {
                        lemma_noted_next(self, other, keys@, i as int, change);
                    }
                }
            } else {
                assert(false);
            }
            i += 1;
        }
        proof {
            assert forall|change: LightSectionEmptinessChange| #[trigger]
                changes@.contains(change) <==> self@.sections.contains_key(change.section_pos)
                    && self@.sections[change.section_pos] == change.empty by {
                let key = coords_key(
                    change.section_pos.x as int,
                    change.section_pos.y as int,
                    change.section_pos.z as int,
                );
                if self.changed_sections@.contains_key(key) {
                    assert(keys@.contains(key));
                    let j = choose|j: int| 0 <= j < keys@.len() && keys@[j] == key;
                    assert(0 <= j < i && keys@[j] == key);
                }
            }
        }
        changes
    }
}

/// A change is that of one of the first `n` keys.
spec fn is_noted(
    pending: &PendingChunkLightUpdates,
    change: LightSectionEmptinessChange,
    keys: Seq<u128>,
    n: int,
) -> bool {
    let key = coords_key(
        change.section_pos.x as int,
        change.section_pos.y as int,
        change.section_pos.z as int,
    );
    &&& pending.changed_sections@.contains_key(key)
    &&& pending.changed_sections@[key] == change.empty
    &&& exists|j: int| 0 <= j < n && #[trigger] keys[j] == key
}

proof fn lemma_noted_next(
    pending: &PendingChunkLightUpdates,
    other: LightSectionEmptinessChange,
    keys: Seq<u128>,
    n: int,
    added: LightSectionEmptinessChange,
)
    requires
        0 <= n < keys.len(),
        keys[n] == coords_key(
            added.section_pos.x as int,
            added.section_pos.y as int,
            added.section_pos.z as int,
        ),
        pending.changed_sections@.contains_key(keys[n]),
        pending.changed_sections@[keys[n]] == added.empty,
    ensures
        is_noted(pending, other, keys, n + 1) <==> is_noted(pending, other, keys, n) || other
            == added,
{
    let key = coords_key(
        other.section_pos.x as int,
        other.section_pos.y as int,
        other.section_pos.z as int,
    );
    if key == keys[n] {
        lemma_coords_key_injective(
            other.section_pos.x,
            other.section_pos.y,
            other.section_pos.z,
            added.section_pos.x,
            added.section_pos.y,
            added.section_pos.z,
        );
    }
    if is_noted(pending, other, keys, n) {
        let j = choose|j: int| 0 <= j < n && #[trigger] keys[j] == key;
        assert(0 <= j < n + 1 && keys[j] == key);
    }
    if other == added {
        assert(0 <= n < n + 1 && keys[n] == key);
    }
}

/// Puts a change into its place among sorted changes.
fn insert_change(
    changes: &mut Vec<LightSectionEmptinessChange>,
    change: LightSectionEmptinessChange,
)
    requires
        changes_sorted(old(changes)@),
        forall|other: LightSectionEmptinessChange| #[trigger]
            old(changes)@.contains(other) ==> other.section_pos != change.section_pos,
    ensures
        changes_sorted(final(changes)@),
        forall|other: LightSectionEmptinessChange| #[trigger]
            final(changes)@.contains(other) <==> old(changes)@.contains(other) || other == change,
{
    let ghost before = changes@;
    let mut place: usize = 0;
    while place < changes.len() && comes_before(changes[place], change)
        invariant
            place <= changes@.len(),
            changes@ == before,
            forall|j: int| 0 <= j < place ==> change_before(#[trigger] before[j], change),
        decreases changes@.len() - place,
    {
        place += 1;
    }
    changes.insert(place, change);
    proof {
        let after = changes@;
        assert(after =~= before.insert(place as int, change));
        if place < before.len() {
            assert(before.contains(before[place as int]));
        }
        assert forall|i: int, j: int| 0 <= i < j < after.len() implies change_before(
            #[trigger] after[i],
            #[trigger] after[j],
        ) by {
            if i == place && j > place {
                let next = before[place as int];
                assert(change_before(change, next));
                if j > place + 1 {
                    assert(change_before(before[place as int], before[j - 1]));
                }
            }
        }
        assert forall|other: LightSectionEmptinessChange| #[trigger]
            after.contains(other) <==> before.contains(other) || other == change by {
            if before.contains(other) {
                let k = choose|k: int| 0 <= k < before.len() && before[k] == other;
                if k < place {
                    assert(after[k] == other);
                } else {
                    assert(after[k + 1] == other);
                }
            }
            if other == change {
                assert(after[place as int] == other);
            }
            if after.contains(other) && other != change {
                let k = choose|k: int| 0 <= k < after.len() && after[k] == other;
                if k < place {
                    assert(before[k] == other);
                } else {
                    assert(before[k - 1] == other);
                }
            }
        }
    }
}

/// The changes that wait in all chunks.
pub struct PendingLightUpdates {
    chunks: FxMap<u64, PendingChunkLightUpdates>,
    queued_chunks: Vec<ChunkPos>,
}

/// What waits in all chunks.
#[verifier::ext_equal]
pub struct PendingLight {
    /// The chunks with waiting changes.
    pub chunks: Map<ChunkPos, PendingChunk>,
    /// The chunks in the order in which they came to wait.
    pub queued: Seq<ChunkPos>,
}

impl PendingLight {
    /// Nothing waits.
    pub open spec fn empty() -> PendingLight {
        PendingLight { chunks: Map::empty(), queued: Seq::empty() }
    }

    /// What waits after one more change.
    pub open spec fn with_change(
        self,
        chunk_pos: ChunkPos,
        pos: BlockPos,
        check_block: bool,
        change: Option<LightSectionEmptinessChange>,
    ) -> PendingLight {
        let before = if self.chunks.contains_key(chunk_pos) {
            self.chunks[chunk_pos]
        } else {
            PendingChunk { positions: Set::empty(), sections: Map::empty() }
        };
        let after = PendingChunk {
            positions: if check_block {
                before.positions.insert(pos)
            } else {
                before.positions
            },
            sections: match change {
                Some(change) => before.sections.insert(change.section_pos, change.empty),
                None => before.sections,
            },
        };
        PendingLight {
            chunks: self.chunks.insert(chunk_pos, after),
            queued: if self.chunks.contains_key(chunk_pos) {
                self.queued
            } else {
                self.queued.push(chunk_pos)
            },
        }
    }

    /// The waiting chunks in the order in which they are handed out: each at
    /// the first place where it was queued.
    pub open spec fn drain_order(self) -> Seq<ChunkPos> {
        first_places(self.queued, self.chunks.dom())
    }

    /// Every waiting chunk waits for something.
    pub open spec fn has_work(self) -> bool {
        forall|pos: ChunkPos| #[trigger]
            self.chunks.contains_key(pos) ==> !self.chunks[pos].is_empty()
    }

    /// Every waiting chunk was queued.
    pub open spec fn all_queued(self) -> bool {
        forall|pos: ChunkPos| #[trigger]
            self.chunks.contains_key(pos) ==> self.queued.contains(pos)
    }
}

/// A chunk that waits keeps waiting for something: a change that asks for work
/// leaves no chunk waiting for nothing.
pub proof fn changes_leave_work(
    pending: PendingLight,
    chunk_pos: ChunkPos,
    pos: BlockPos,
    check_block: bool,
    change: Option<LightSectionEmptinessChange>,
)
    requires
        pending.has_work(),
        check_block || change is Some,
    ensures
        pending.with_change(chunk_pos, pos, check_block, change).has_work(),
{
    let after = pending.with_change(chunk_pos, pos, check_block, change);
    assert forall|p: ChunkPos| #[trigger] after.chunks.contains_key(p) implies
        !after.chunks[p].is_empty() by {
        if p == chunk_pos {
            if check_block {
                assert(after.chunks[p].positions.contains(pos));
            } else {
                assert(after.chunks[p].sections.contains_key(change->0.section_pos));
            }
        } else {
            assert(pending.chunks.contains_key(p));
        }
    }
}

/// The chunks of the set, each at its first place in the sequence.
pub open spec fn first_places(queued: Seq<ChunkPos>, waiting: Set<ChunkPos>) -> Seq<ChunkPos>
    decreases queued.len(),
{
    if queued.len() == 0 {
        Seq::empty()
    } else {
        let before = first_places(queued.drop_last(), waiting);
        if waiting.contains(queued.last()) && !queued.drop_last().contains(queued.last()) {
            before.push(queued.last())
        } else {
            before
        }
    }
}

proof fn lemma_first_places(queued: Seq<ChunkPos>, waiting: Set<ChunkPos>)
    ensures
        first_places(queued, waiting).no_duplicates(),
        forall|pos: ChunkPos| #[trigger]
            first_places(queued, waiting).contains(pos) <==> waiting.contains(pos)
                && queued.contains(pos),
    decreases queued.len(),
{
    let order = first_places(queued, waiting);
    if queued.len() > 0 {
        let init = queued.drop_last();
        let last = queued.last();
        let before = first_places(init, waiting);
        lemma_first_places(init, waiting);
        assert forall|pos: ChunkPos| #[trigger]
            queued.contains(pos) <==> init.contains(pos) || pos == last by {
            assert(queued =~= init.push(last));
            if init.contains(pos) {
                let k = choose|k: int| 0 <= k < init.len() && init[k] == pos;
                assert(queued[k] == pos);
            }
            if pos == last {
                assert(queued[queued.len() - 1] == pos);
            }
        }
        if waiting.contains(last) && !init.contains(last) {
            assert(order == before.push(last));
            assert forall|pos: ChunkPos| #[trigger]
                order.contains(pos) <==> before.contains(pos) || pos == last by {
                if before.contains(pos) {
                    let k = choose|k: int| 0 <= k < before.len() && before[k] == pos;
                    assert(order[k] == pos);
                }
                if pos == last {
                    assert(order[order.len() - 1] == pos);
                }
            }
            assert forall|a: int, b: int|
                0 <= a < order.len() && 0 <= b < order.len() && a != b implies order[a]
                != order[b] by {
                assert(!before.contains(last));
                if a < before.len() {
                    assert(before.contains(before[a]));
                }
                if b < before.len() {
                    assert(before.contains(before[b]));
                }
            }
        }
    }
}

/// Draining hands out every waiting chunk exactly once.
pub proof fn drain_is_complete(pending: PendingLight)
    requires
        pending.all_queued(),
    ensures
        pending.drain_order().no_duplicates(),
        forall|pos: ChunkPos| #[trigger]
            pending.drain_order().contains(pos) <==> pending.chunks.contains_key(pos),
{
    lemma_first_places(pending.queued, pending.chunks.dom());
}

/// Of two drained chunks the earlier one was queued before every time that the
/// later one was.
pub proof fn drain_keeps_queue_order(pending: PendingLight, i: int, j: int, k: int)
    requires
        0 <= i < j < pending.drain_order().len(),
        0 <= k < pending.queued.len(),
        pending.queued[k] == pending.drain_order()[j],
    ensures
        exists|a: int| 0 <= a < k && #[trigger] pending.queued[a] == pending.drain_order()[i],
{
    lemma_order(pending.queued, pending.chunks.dom(), i, j, k);
}

proof fn lemma_order(queued: Seq<ChunkPos>, waiting: Set<ChunkPos>, i: int, j: int, k: int)
    requires
        0 <= i < j < first_places(queued, waiting).len(),
        0 <= k < queued.len(),
        queued[k] == first_places(queued, waiting)[j],
    ensures
        exists|a: int|
            0 <= a < k && #[trigger] queued[a] == first_places(queued, waiting)[i],
    decreases queued.len(),
{
    let order = first_places(queued, waiting);
    let init = queued.drop_last();
    let last = queued.last();
    let before = first_places(init, waiting);
    lemma_first_places(init, waiting);
    if j < before.len() {
        if k < init.len() {
            lemma_order(init, waiting, i, j, k);
            let a = choose|a: int| 0 <= a < k && #[trigger] init[a] == before[i];
            assert(queued[a] == order[i]);
        } else {
            assert(before.contains(before[i]));
            assert(init.contains(before[i]));
            let a = choose|a: int| 0 <= a < init.len() && init[a] == before[i];
            assert(queued[a] == order[i]);
        }
    } else {
        assert(order == before.push(last));
        assert(before.contains(before[i]));
        let a = choose|a: int| 0 <= a < init.len() && init[a] == before[i];
        assert(queued[a] == order[i]);
        if k < init.len() {
            assert(init[k] == last);
            assert(init.contains(last));
        }
    }
}

impl View for PendingLightUpdates {
    type V = PendingLight;

    closed spec fn view(&self) -> PendingLight {
        PendingLight {
            chunks: Map::new(
                |pos: ChunkPos| self.chunks@.contains_key(chunk_key(pos)),
                |pos: ChunkPos| self.chunks@[chunk_key(pos)]@,
            ),
            queued: self.queued_chunks@,
        }
    }
}

impl PendingLightUpdates {
    /// Every waiting chunk was queued.
    pub closed spec fn wf(&self) -> bool {
        forall|key: u64| #[trigger]
            self.chunks@.contains_key(key) ==> self.chunks@[key].wf() && exists|i: int|
                0 <= i < self.queued_chunks@.len() && key == chunk_key(
                    #[trigger] self.queued_chunks@[i],
                )
    }

    /// A well-formed value has queued every chunk that waits.
    pub proof fn waiting_chunks_are_queued(&self)
        requires
            self.wf(),
        ensures
            self@.all_queued(),
    {
        assert forall|pos: ChunkPos| #[trigger] self@.chunks.contains_key(pos) implies self@
            .queued.contains(pos) by {
            let key = chunk_key(pos);
            assert(self.chunks@.contains_key(key));
            let i = choose|i: int|
                0 <= i < self.queued_chunks@.len() && key == chunk_key(
                    #[trigger] self.queued_chunks@[i],
                );
            chunk_key_injective(pos, self.queued_chunks@[i]);
        }
    }

    /// Creates pending changes without any.
    #[must_use]
    pub fn new() -> (pending: Self)
        ensures
            pending.wf(),
            pending@ == PendingLight::empty(),
    {
        let pending = PendingLightUpdates { chunks: map_new(), queued_chunks: Vec::new() };
        assert(pending@ =~= PendingLight::empty());
        pending
    }

    /// Returns whether no chunk waits.
    #[must_use]
    pub fn is_empty(&self) -> (result: bool)
        requires
            self.wf(),
        ensures
            result == (self@.chunks == Map::<ChunkPos, PendingChunk>::empty()),
    {
        let result: bool = map_is_empty(&self.chunks);
        proof {
            if result {
                assert(self@.chunks =~= Map::<ChunkPos, PendingChunk>::empty());
            } else if self@.chunks == Map::<ChunkPos, PendingChunk>::empty() {
                assert forall|key: u64| !self.chunks@.contains_key(key) by {
                    if self.chunks@.contains_key(key) {
                        let i = choose|i: int|
                            0 <= i < self.queued_chunks@.len() && key == chunk_key(
                                #[trigger] self.queued_chunks@[i],
                            );
                        assert(self@.chunks.contains_key(self.queued_chunks@[i]));
                    }
                }
                assert(self.chunks@.dom() =~= Set::<u64>::empty());
            }
        }
        result
    }

    /// Returns whether a chunk waits.
    #[must_use]
    pub fn has_chunk(&self, chunk_pos: ChunkPos) -> (result: bool)
        ensures
            result == self@.chunks.contains_key(chunk_pos),
    {
        map_contains(&self.chunks, key_of_chunk(chunk_pos))
    }

    /// Adds a change to what waits in a chunk. A chunk that did not wait is
    /// queued.
    pub fn queue_change(
        &mut self,
        chunk_pos: ChunkPos,
        pos: BlockPos,
        check_block: bool,
        empty_section_change: Option<LightSectionEmptinessChange>,
    )
        requires
            old(self).wf(),
        ensures
            final(self).wf(),
            final(self)@ == old(self)@.with_change(
                chunk_pos,
                pos,
                check_block,
                empty_section_change,
            ),
    {
        let key: u64 = key_of_chunk(chunk_pos);
        if !map_contains(&self.chunks, key) {
            self.queued_chunks.push(chunk_pos);
            map_insert(&mut self.chunks, key, PendingChunkLightUpdates::new());
        }
        let ghost queued = self.queued_chunks@;
        proof {
            if old(self).chunks@.contains_key(key) {
                let i = choose|i: int|
                    0 <= i < old(self).queued_chunks@.len() && key == chunk_key(
                        #[trigger] old(self).queued_chunks@[i],
                    );
                assert(queued[i] == old(self).queued_chunks@[i]);
            } else {
                assert(queued[queued.len() - 1] == chunk_pos);
            }
        }
        if let Some(task) = map_get_mut(&mut self.chunks, key) {
            if check_block {
                task.add_position(pos);
            }
            if let Some(change) = empty_section_change {
                task.add_section(change);
            }
        }
        proof {
            let expected = old(self)@.with_change(
                chunk_pos,
                pos,
                check_block,
                empty_section_change,
            );
            assert forall|p: ChunkPos|
                self@.chunks.contains_key(p) == expected.chunks.contains_key(p) && (
                self@.chunks.contains_key(p) ==> self@.chunks[p] == expected.chunks[p]) by {
                if chunk_key(p) == key {
                    chunk_key_injective(p, chunk_pos);
                }
            }
            assert(self@.chunks =~= expected.chunks);
            assert forall|k: u64| #[trigger]
                self.chunks@.contains_key(k) implies self.chunks@[k].wf() && exists|i: int|
                0 <= i < self.queued_chunks@.len() && k == chunk_key(
                    #[trigger] self.queued_chunks@[i],
                ) by {
                if k != key {
                    assert(old(self).chunks@.contains_key(k));
                    let i = choose|i: int|
                        0 <= i < old(self).queued_chunks@.len() && k == chunk_key(
                            #[trigger] old(self).queued_chunks@[i],
                        );
                    assert(self.queued_chunks@[i] == old(self).queued_chunks@[i]);
                }
            }
        }
    }

    /// Forgets what waits in a chunk. The chunk keeps its place in the queue.
    pub fn remove_chunk(&mut self, chunk_pos: ChunkPos)
        requires
            old(self).wf(),
        ensures
            final(self).wf(),
            final(self)@ == (PendingLight {
                chunks: old(self)@.chunks.remove(chunk_pos),
                ..old(self)@
            }),
    {
        let key: u64 = key_of_chunk(chunk_pos);
        let _ = map_remove(&mut self.chunks, key);
        proof {
            let expected = old(self)@.chunks.remove(chunk_pos);
            assert forall|p: ChunkPos|
                self@.chunks.contains_key(p) == expected.contains_key(p) && (
                self@.chunks.contains_key(p) ==> self@.chunks[p] == expected[p]) by {
                if chunk_key(p) == key {
                    chunk_key_injective(p, chunk_pos);
                }
            }
            assert(self@.chunks =~= expected);
            assert forall|k: u64| #[trigger] self.chunks@.contains_key(k) implies old(
                self,
            ).chunks@.contains_key(k) by {}
        }
    }

    /// Queues the change of a block, or of whether its section is empty, in
    /// the block's chunk.
    ///
    /// Nothing is queued where nothing is to be done, or where the chunk does
    /// not take light changes.
    pub fn queue_light_change(
        &mut self,
        pos: BlockPos,
        check_block: bool,
        empty_section_change: Option<LightSectionEmptinessChange>,
        accepts_changes: bool,
    )
        requires
            old(self).wf(),
        ensures
            final(self).wf(),
            final(self)@ == (if accepts_changes && (check_block || empty_section_change is Some) {
                old(self)@.with_change(
                    ChunkPos::of_block(pos),
                    pos,
                    check_block,
                    empty_section_change,
                )
            } else {
                old(self)@
            }),
    {
        if !check_block && empty_section_change.is_none() {
            return;
        }
        let chunk_pos = ChunkPos::from_block_pos(pos);
        if !accepts_changes {
            return;
        }
        self.queue_change(chunk_pos, pos, check_block, empty_section_change);
    }

    /// Hands out what waits in every chunk, in the order in which the chunks
    /// were first queued, and waits for nothing afterwards.
    pub fn drain(&mut self) -> (drained: Vec<(ChunkPos, PendingChunkLightUpdates)>)
        requires
            old(self).wf(),
        ensures
            final(self).wf(),
            final(self)@ == PendingLight::empty(),
            drained@.len() == old(self)@.drain_order().len(),
            forall|i: int|
                0 <= i < drained@.len() ==> (#[trigger] drained@[i]).0 == old(
                    self,
                )@.drain_order()[i] && drained@[i].1.wf() && drained@[i].1@ == old(
                    self,
                )@.chunks[drained@[i].0],
    {
        let mut chunks: FxMap<u64, PendingChunkLightUpdates> = map_new();
        let mut queued: Vec<ChunkPos> = Vec::new();
        std::mem::swap(&mut chunks, &mut self.chunks);
        std::mem::swap(&mut queued, &mut self.queued_chunks);
        assert(self@ =~= PendingLight::empty());
        let ghost all = old(self)@;
        let ghost kept = old(self).chunks@;
        let mut drained: Vec<(ChunkPos, PendingChunkLightUpdates)> = Vec::new();
        let mut i: usize = 0;
        assert(queued@.take(0) =~= Seq::empty());
        while i < queued.len()
            invariant
                i <= queued@.len(),
                all == old(self)@,
                kept == old(self).chunks@,
                old(self).wf(),
                queued@ == all.queued,
                forall|pos: ChunkPos|
                    #![trigger chunk_key(pos)]
                    chunks@.contains_key(chunk_key(pos)) <==> kept.contains_key(chunk_key(pos))
                        && !queued@.take(i as int).contains(pos),
                forall|key: u64| #[trigger] chunks@.contains_key(key) ==> chunks@[key] == kept[key],
                drained@.len() == first_places(queued@.take(i as int), all.chunks.dom()).len(),
                forall|k: int|
                    0 <= k < drained@.len() ==> (#[trigger] drained@[k]).0 == first_places(
                        queued@.take(i as int),
                        all.chunks.dom(),
                    )[k] && drained@[k].1.wf() && drained@[k].1@ == all.chunks[drained@[k].0],
            decreases queued@.len() - i,
        {
            let chunk_pos = queued[i];
            let key: u64 = key_of_chunk(chunk_pos);
            let ghost before = queued@.take(i as int);
            let ghost after = queued@.take(i as int + 1);
            proof {
                assert(after.drop_last() =~= before);
                assert(after.last() == chunk_pos);
                assert(all.chunks.dom().contains(chunk_pos) == kept.contains_key(key));
            }
            if let Some(task) = map_remove(&mut chunks, key) {
                assert(kept.contains_key(key));
                assert(task.wf());
                assert(task@ == all.chunks[chunk_pos]);
                drained.push((chunk_pos, task));
            }
            proof {
                assert forall|pos: ChunkPos|
                    #![trigger chunk_key(pos)]
                    chunks@.contains_key(chunk_key(pos)) <==> kept.contains_key(chunk_key(pos))
                        && !after.contains(pos) by {
                    if chunk_key(pos) == key {
                        chunk_key_injective(pos, chunk_pos);
                        assert(after[i as int] == pos);
                    } else {
                        assert(after.contains(pos) == before.contains(pos)) by {
                            if before.contains(pos) {
                                let k = choose|k: int| 0 <= k < before.len() && before[k] == pos;
                                assert(after[k] == pos);
                            }
                            if after.contains(pos) {
                                let k = choose|k: int| 0 <= k < after.len() && after[k] == pos;
                                assert(before[k] == pos);
                            }
                        }
                    }
                }
            }
            i += 1;
        }
        assert(queued@.take(i as int) =~= queued@);
        drained
    }
}

} // verus!
