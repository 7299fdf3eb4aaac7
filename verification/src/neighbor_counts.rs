//! Neighbor counts of section light storage stay true to the block data.
use vstd::prelude::*;

use crate::count::unit;
use crate::position::{key_injective, SectionPos};
use crate::section_range::{
    state_fields_independent, state_has_data, state_neighbor_count, state_type, state_with_count,
    state_with_data, LightSectionState, LightSectionType,
};
use crate::section_storage::empty_storage;
use crate::storage_model::{
    bump_neighbors, lemma_neighbors_packable, neighbor_at, publish, put_state, reconcile,
    update_status, StorageModel,
};
use crate::LightLayer;

verus! {

/// The section has block data.
pub open spec fn has_data(m: StorageModel, pos: SectionPos) -> bool {
    pos.packable() && state_has_data(m.state_of(pos).0)
}

/// The number of sections with block data among the first `n` places around a
/// section, the section itself left out.
pub open spec fn data_neighbors(m: StorageModel, pos: SectionPos, n: int) -> int
    decreases n,
{
    if n <= 0 {
        0
    } else {
        data_neighbors(m, pos, n - 1) + unit(n - 1 != 13 && has_data(m, neighbor_at(pos, n - 1)))
    }
}

/// Every section counts the sections with block data around it and keeps
/// nothing else beside its own data bit, and every section with block data lies
/// well within the packed range.
#[verifier::opaque]
pub open spec fn counts_match(m: StorageModel) -> bool {
    forall|pos: SectionPos|
        #![trigger m.state_of(pos)]
        pos.packable() ==> {
            &&& m.state_of(pos).0 < 64
            &&& state_neighbor_count(m.state_of(pos).0) == data_neighbors(m, pos, 27)
            &&& has_data(m, pos) ==> pos.neighborhood_packable()
        }
}

/// The section is one of the first `n` places around another, the place of
/// that one left out.
spec fn is_neighbor(pos: SectionPos, other: SectionPos, n: int) -> bool {
    exists|i: int| 0 <= i < n && i != 13 && #[trigger] neighbor_at(pos, i) == other
}

proof fn lemma_neighbor_injective(pos: SectionPos, i: int, j: int)
    requires
        pos.packable(),
        0 <= i < 27,
        0 <= j < 27,
        neighbor_at(pos, i) == neighbor_at(pos, j),
    ensures
        i == j,
{
    assert(i == (i / 9) * 9 + ((i / 3) % 3) * 3 + i % 3);
    assert(j == (j / 9) * 9 + ((j / 3) % 3) * 3 + j % 3);
}

proof fn lemma_neighbor_symmetric(pos: SectionPos, i: int)
    requires
        pos.packable(),
        0 <= i < 27,
        neighbor_at(pos, i).packable(),
    ensures
        neighbor_at(neighbor_at(pos, i), 26 - i) == pos,
{
    let j = 26 - i;
    assert(j % 3 == 2 - i % 3);
    assert((j / 3) % 3 == 2 - (i / 3) % 3);
    assert(j / 9 == 2 - i / 9);
}

proof fn lemma_is_neighbor_symmetric(a: SectionPos, b: SectionPos)
    requires
        a.packable(),
        b.packable(),
    ensures
        is_neighbor(a, b, 27) == is_neighbor(b, a, 27),
{
    if is_neighbor(a, b, 27) {
        let i = choose|i: int| 0 <= i < 27 && i != 13 && #[trigger] neighbor_at(a, i) == b;
        lemma_neighbor_symmetric(a, i);
        assert(neighbor_at(b, 26 - i) == a);
    }
    if is_neighbor(b, a, 27) {
        let i = choose|i: int| 0 <= i < 27 && i != 13 && #[trigger] neighbor_at(b, i) == a;
        lemma_neighbor_symmetric(b, i);
        assert(neighbor_at(a, 26 - i) == b);
    }
}

proof fn lemma_put_state_at(
    m: StorageModel,
    pos: SectionPos,
    state: LightSectionState,
    other: SectionPos,
)
    requires
        pos.packable(),
        other.packable(),
    ensures
        put_state(m, pos, state).state_of(other) == if other == pos {
            state
        } else {
            m.state_of(other)
        },
{
    reveal(put_state);
    if other != pos && other.key() == pos.key() {
        key_injective(other, pos);
    }
}

proof fn lemma_data_neighbors_bounds(m: StorageModel, pos: SectionPos, n: int)
    requires
        0 <= n <= 27,
    ensures
        0 <= data_neighbors(m, pos, n) <= n - unit(n > 13),
    decreases n,
{
    if n > 0 {
        lemma_data_neighbors_bounds(m, pos, n - 1);
    }
}

proof fn lemma_data_neighbors_toggle(
    before: StorageModel,
    after: StorageModel,
    toggled: SectionPos,
    pos: SectionPos,
    n: int,
)
    requires
        pos.packable(),
        toggled.packable(),
        0 <= n <= 27,
        forall|q: SectionPos|
            q.packable() && q != toggled ==> #[trigger] has_data(after, q) == has_data(before, q),
    ensures
        data_neighbors(after, pos, n) == data_neighbors(before, pos, n) + if is_neighbor(
            pos,
            toggled,
            n,
        ) {
            unit(has_data(after, toggled)) - unit(has_data(before, toggled))
        } else {
            0
        },
    decreases n,
{
    if n > 0 {
        lemma_data_neighbors_toggle(before, after, toggled, pos, n - 1);
        let q = neighbor_at(pos, n - 1);
        if n - 1 != 13 && q == toggled {
            if is_neighbor(pos, toggled, n - 1) {
                let i = choose|i: int|
                    0 <= i < n - 1 && i != 13 && #[trigger] neighbor_at(pos, i) == toggled;
                lemma_neighbor_injective(pos, i, n - 1);
            }
            assert(is_neighbor(pos, toggled, n));
        } else {
            if is_neighbor(pos, toggled, n) {
                let i = choose|i: int|
                    0 <= i < n && i != 13 && #[trigger] neighbor_at(pos, i) == toggled;
                assert(i < n - 1);
                assert(is_neighbor(pos, toggled, n - 1));
            }
            if is_neighbor(pos, toggled, n - 1) {
                let i = choose|i: int|
                    0 <= i < n - 1 && i != 13 && #[trigger] neighbor_at(pos, i) == toggled;
                assert(neighbor_at(pos, i) == toggled);
                assert(is_neighbor(pos, toggled, n));
            }
            if q.packable() && q != toggled {
                assert(has_data(after, q) == has_data(before, q));
            }
        }
    }
}

proof fn lemma_data_neighbors_same(before: StorageModel, after: StorageModel, pos: SectionPos, n: int)
    requires
        forall|q: SectionPos| #[trigger] has_data(after, q) == has_data(before, q),
    ensures
        data_neighbors(after, pos, n) == data_neighbors(before, pos, n),
    decreases n,
{
    if n > 0 {
        lemma_data_neighbors_same(before, after, pos, n - 1);
        assert(has_data(after, neighbor_at(pos, n - 1)) == has_data(
            before,
            neighbor_at(pos, n - 1),
        ));
    }
}

/// Storage after `n` neighbors were counted: their counts moved, and nothing
/// else of any state did.
spec fn counted(
    start: StorageModel,
    pos: SectionPos,
    increment: int,
    n: int,
    now: StorageModel,
) -> bool {
    forall|q: SectionPos|
        #![trigger now.state_of(q)]
        q.packable() ==> {
            &&& now.state_of(q).0 < 64 || start.state_of(q).0 >= 64
            &&& state_has_data(now.state_of(q).0) == state_has_data(start.state_of(q).0)
            &&& state_neighbor_count(now.state_of(q).0) == state_neighbor_count(
                start.state_of(q).0,
            ) + increment * unit(is_neighbor(pos, q, n))
        }
}

proof fn lemma_bump_counts(
    start: StorageModel,
    pos: SectionPos,
    increment: int,
    n: int,
)
    requires
        0 <= n <= 27,
        increment == 1 || increment == -1,
        pos.neighborhood_packable(),
        forall|q: SectionPos|
            #![trigger start.state_of(q)]
            q.packable() && is_neighbor(pos, q, 27) ==> 0 <= state_neighbor_count(
                start.state_of(q).0,
            ) + increment <= 26,
    ensures
        bump_neighbors(start, pos, increment, n).1 is None,
        counted(start, pos, increment, n, bump_neighbors(start, pos, increment, n).0),
    decreases n,
{
    if n > 0 {
        lemma_bump_counts(start, pos, increment, n - 1);
        let before = bump_neighbors(start, pos, increment, n - 1).0;
        let now = bump_neighbors(start, pos, increment, n).0;
        let i = n - 1;
        let neighbor = neighbor_at(pos, i);
        lemma_neighbors_packable(pos, i);
        if i == 13 {
            assert forall|q: SectionPos|
                #![trigger now.state_of(q)]
                q.packable() implies {
                &&& now.state_of(q).0 < 64 || start.state_of(q).0 >= 64
                &&& state_has_data(now.state_of(q).0) == state_has_data(start.state_of(q).0)
                &&& state_neighbor_count(now.state_of(q).0) == state_neighbor_count(
                    start.state_of(q).0,
                ) + increment * unit(is_neighbor(pos, q, n))
            } by {
                lemma_is_neighbor_step(pos, q, n);
                assert(before.state_of(q) == now.state_of(q));
            }
        } else {
            let state = before.state_of(neighbor);
            if is_neighbor(pos, neighbor, i) {
                let j = choose|j: int|
                    0 <= j < i && j != 13 && #[trigger] neighbor_at(pos, j) == neighbor;
                lemma_neighbor_injective(pos, i, j);
            }
            assert(is_neighbor(pos, neighbor, 27));
            let count = state_neighbor_count(state.0) + increment;
            assert(count == state_neighbor_count(start.state_of(neighbor).0) + increment);
            assert(0 <= count <= 26);
            state_fields_independent(state.0, true, count);
            let updated = LightSectionState(state_with_count(state.0, count));
            assert forall|q: SectionPos|
                #![trigger now.state_of(q)]
                q.packable() implies {
                &&& now.state_of(q).0 < 64 || start.state_of(q).0 >= 64
                &&& state_has_data(now.state_of(q).0) == state_has_data(start.state_of(q).0)
                &&& state_neighbor_count(now.state_of(q).0) == state_neighbor_count(
                    start.state_of(q).0,
                ) + increment * unit(is_neighbor(pos, q, n))
            } by {
                lemma_put_state_at(before, neighbor, updated, q);
                lemma_is_neighbor_step(pos, q, n);
                assert(state_has_data(before.state_of(q).0) == state_has_data(
                    start.state_of(q).0,
                ));
            }
        }
    } else {
        assert forall|q: SectionPos| !is_neighbor(pos, q, 0) by {}
    }
}

proof fn lemma_is_neighbor_step(pos: SectionPos, q: SectionPos, n: int)
    requires
        n > 0,
    ensures
        is_neighbor(pos, q, n) <==> is_neighbor(pos, q, n - 1) || n - 1 != 13 && neighbor_at(
            pos,
            n - 1,
        ) == q,
{
    if is_neighbor(pos, q, n - 1) {
        let i = choose|i: int| 0 <= i < n - 1 && i != 13 && #[trigger] neighbor_at(pos, i) == q;
        assert(0 <= i < n && i != 13 && neighbor_at(pos, i) == q);
    }
    if is_neighbor(pos, q, n) {
        let i = choose|i: int| 0 <= i < n && i != 13 && #[trigger] neighbor_at(pos, i) == q;
        assert(i == n - 1 || (0 <= i < n - 1 && i != 13 && neighbor_at(pos, i) == q));
    }
}

/// Storage that holds nothing counts no neighbors.
pub proof fn empty_storage_counts(layer: LightLayer)
    ensures
        counts_match(empty_storage(layer)),
{
    reveal(counts_match);
    let m = empty_storage(layer);
    assert forall|pos: SectionPos|
        #![trigger m.state_of(pos)]
        pos.packable() implies {
        &&& m.state_of(pos).0 < 64
        &&& state_neighbor_count(m.state_of(pos).0) == data_neighbors(m, pos, 27)
        &&& has_data(m, pos) ==> pos.neighborhood_packable()
    } by {
        lemma_no_data(m, pos, 27);
    }
}

proof fn lemma_no_data(m: StorageModel, pos: SectionPos, n: int)
    requires
        m.states == Map::<u64, LightSectionState>::empty(),
    ensures
        data_neighbors(m, pos, n) == 0,
    decreases n,
{
    if n > 0 {
        lemma_no_data(m, pos, n - 1);
    }
}

proof fn lemma_status_update(m: StorageModel, pos: SectionPos, section_empty: bool)
    requires
        counts_match(m),
        pos.neighborhood_packable(),
    ensures
        update_status(m, pos, section_empty).1 is None,
        counts_match(update_status(m, pos, section_empty).0),
        forall|q: SectionPos|
            q.packable() ==> #[trigger] has_data(update_status(m, pos, section_empty).0, q)
                == if q == pos {
                !section_empty
            } else {
                has_data(m, q)
            },
{
    reveal(counts_match);
    let state = m.state_of(pos);
    let new_state = LightSectionState(state_with_data(state.0, !section_empty));
    state_fields_independent(state.0, !section_empty, 0);
    assert(state.0 < 64);
    if state != new_state {
        let increment: int = if section_empty {
            -1
        } else {
            1
        };
        let start = put_state(m, pos, new_state);
        assert forall|q: SectionPos| q.packable() implies #[trigger] start.state_of(q) == if q
            == pos {
            new_state
        } else {
            m.state_of(q)
        } by {
            lemma_put_state_at(m, pos, new_state, q);
        }
        assert(state_has_data(state.0) == section_empty);
        assert forall|q: SectionPos| q.packable() && q != pos implies #[trigger] has_data(start, q)
            == has_data(m, q) by {
            assert(start.state_of(q) == m.state_of(q));
        }
        assert(has_data(start, pos) == !section_empty && has_data(m, pos) == section_empty) by {
            assert(start.state_of(pos) == new_state);
        }
        assert forall|q: SectionPos|
            #![trigger start.state_of(q)]
            q.packable() implies state_neighbor_count(start.state_of(q).0) + increment * unit(
            is_neighbor(pos, q, 27),
        ) == data_neighbors(start, q, 27) by {
            lemma_data_neighbors_toggle(m, start, pos, q, 27);
            lemma_is_neighbor_symmetric(pos, q);
            assert(state_neighbor_count(m.state_of(q).0) == data_neighbors(m, q, 27));
        }
        assert forall|q: SectionPos|
            #![trigger start.state_of(q)]
            q.packable() && is_neighbor(pos, q, 27) implies 0 <= state_neighbor_count(
            start.state_of(q).0,
        ) + increment <= 26 by {
            lemma_data_neighbors_bounds(start, q, 27);
        }
        lemma_bump_counts(start, pos, increment, 27);
        let now = bump_neighbors(start, pos, increment, 27).0;
        assert forall|q: SectionPos| #[trigger] has_data(now, q) == has_data(start, q) by {
            if q.packable() {
                assert(state_has_data(now.state_of(q).0) == state_has_data(start.state_of(q).0));
            }
        }
        assert forall|q: SectionPos|
            #![trigger now.state_of(q)]
            q.packable() implies {
            &&& now.state_of(q).0 < 64
            &&& state_neighbor_count(now.state_of(q).0) == data_neighbors(now, q, 27)
            &&& has_data(now, q) ==> q.neighborhood_packable()
        } by {
            lemma_data_neighbors_same(start, now, q, 27);
            assert(start.state_of(q) == start.state_of(q));
            assert(has_data(now, q) == has_data(start, q));
            if q != pos {
                assert(has_data(start, q) == has_data(m, q));
                assert(m.state_of(q) == m.state_of(q));
            }
        }
    }
}

/// While every section counts the sections with block data around it, a change
/// of a section's status never meets a count that cannot be stored, the counts
/// stay true, no other section's block data is touched, and the same change
/// again changes nothing.
pub proof fn status_update_succeeds(m: StorageModel, pos: SectionPos, section_empty: bool)
    requires
        counts_match(m),
        pos.neighborhood_packable(),
    ensures
        update_status(m, pos, section_empty).1 is None,
        counts_match(update_status(m, pos, section_empty).0),
        forall|q: SectionPos|
            q.packable() ==> #[trigger] has_data(update_status(m, pos, section_empty).0, q)
                == if q == pos {
                !section_empty
            } else {
                has_data(m, q)
            },
        update_status(update_status(m, pos, section_empty).0, pos, section_empty) == (
            update_status(m, pos, section_empty).0,
            None::<int>,
        ),
{
    lemma_status_update(m, pos, section_empty);
    let after = update_status(m, pos, section_empty).0;
    assert(has_data(after, pos) == !section_empty);
}

/// Giving a section block data and taking it away again restores every
/// section's data bit and neighbor count.
pub proof fn status_update_undone(m: StorageModel, pos: SectionPos, other: SectionPos)
    requires
        counts_match(m),
        pos.neighborhood_packable(),
        !has_data(m, pos),
        other.packable(),
    ensures
        ({
            let filled = update_status(m, pos, false).0;
            let emptied = update_status(filled, pos, true).0;
            &&& has_data(emptied, other) == has_data(m, other)
            &&& state_neighbor_count(emptied.state_of(other).0) == state_neighbor_count(
                m.state_of(other).0,
            )
        }),
{
    let filled = update_status(m, pos, false).0;
    let emptied = update_status(filled, pos, true).0;
    status_update_succeeds(m, pos, false);
    status_update_succeeds(filled, pos, true);
    assert forall|q: SectionPos| #[trigger] has_data(emptied, q) == has_data(m, q) by {
        if q.packable() {
            assert(has_data(filled, q) == has_data(filled, q));
        }
    }
    reveal(counts_match);
    lemma_data_neighbors_same(m, emptied, other, 27);
    assert(m.state_of(other) == m.state_of(other));
    assert(emptied.state_of(other) == emptied.state_of(other));
}

/// Reconciling and publishing leave the states, and so the counts, alone.
pub proof fn upkeep_keeps_counts(m: StorageModel)
    requires
        counts_match(m),
    ensures
        counts_match(reconcile(m)),
        counts_match(publish(m)),
{
    counts_follow_states(m, reconcile(m));
    counts_follow_states(m, publish(m));
}

/// Counts that match the states of one storage match those of every other one
/// with the same states.
pub proof fn counts_follow_states(m: StorageModel, other: StorageModel)
    requires
        counts_match(m),
        other.states == m.states,
    ensures
        counts_match(other),
{
    reveal(counts_match);
    assert forall|pos: SectionPos| #[trigger] has_data(other, pos) == has_data(m, pos) by {}
    assert forall|pos: SectionPos|
        #![trigger other.state_of(pos)]
        pos.packable() implies {
        &&& other.state_of(pos).0 < 64
        &&& state_neighbor_count(other.state_of(pos).0) == data_neighbors(other, pos, 27)
        &&& has_data(other, pos) ==> pos.neighborhood_packable()
    } by {
        lemma_data_neighbors_same(m, other, pos, 27);
        assert(m.state_of(pos) == other.state_of(pos));
        assert(has_data(other, pos) == has_data(m, pos));
    }
}

/// Calls that leave the states alone leave the counts true.
pub proof fn lemma_counts_for_states(m: StorageModel)
    requires
        counts_match(m),
    ensures
        forall|other: StorageModel|
            other.states == m.states ==> #[trigger] counts_match(other),
{
    assert forall|other: StorageModel| other.states == m.states implies #[trigger] counts_match(
        other,
    ) by {
        counts_follow_states(m, other);
    }
}

/// One of the 26 sections around a section has block data.
pub open spec fn has_data_near(m: StorageModel, pos: SectionPos) -> bool {
    exists|i: int| 0 <= i < 27 && i != 13 && has_data(m, #[trigger] neighbor_at(pos, i))
}

proof fn lemma_data_neighbors_some(m: StorageModel, pos: SectionPos, n: int)
    requires
        0 <= n <= 27,
    ensures
        data_neighbors(m, pos, n) > 0 <==> exists|i: int|
            0 <= i < n && i != 13 && has_data(m, #[trigger] neighbor_at(pos, i)),
    decreases n,
{
    if n > 0 {
        lemma_data_neighbors_some(m, pos, n - 1);
        lemma_data_neighbors_bounds(m, pos, n - 1);
        if data_neighbors(m, pos, n) > 0 {
            if data_neighbors(m, pos, n - 1) > 0 {
                let i = choose|i: int|
                    0 <= i < n - 1 && i != 13 && has_data(m, #[trigger] neighbor_at(pos, i));
                assert(0 <= i < n && i != 13 && has_data(m, neighbor_at(pos, i)));
            } else {
                assert(n - 1 != 13 && has_data(m, neighbor_at(pos, n - 1)));
            }
        }
        if exists|i: int| 0 <= i < n && i != 13 && has_data(m, #[trigger] neighbor_at(pos, i)) {
            let i = choose|i: int|
                0 <= i < n && i != 13 && has_data(m, #[trigger] neighbor_at(pos, i));
            if i < n - 1 {
                assert(0 <= i < n - 1 && i != 13 && has_data(m, neighbor_at(pos, i)));
            }
        }
    }
}

/// A section's type follows from block data alone: its own, and that of the 26
/// sections around it. Light is stored wherever the type is not empty.
pub proof fn type_follows_data(m: StorageModel, pos: SectionPos)
    requires
        counts_match(m),
        pos.packable(),
    ensures
        state_type(m.state_of(pos).0) == (if has_data(m, pos) {
            LightSectionType::LightAndData
        } else if has_data_near(m, pos) {
            LightSectionType::LightOnly
        } else {
            LightSectionType::Empty
        }),
        m.valid() && state_type(m.state_of(pos).0) != LightSectionType::Empty
            ==> m.updating.contains_key(pos.key()),
{
    let state = m.state_of(pos);
    lemma_counts_at(m, pos);
    lemma_data_neighbors_some(m, pos, 27);
    lemma_data_neighbors_bounds(m, pos, 27);
    state_fields_independent(state.0, true, 0);
    if m.valid() && m.states.contains_key(pos.key()) {
        assert(m.updating.contains_key(pos.key())) by {
            reveal(StorageModel::valid);
        }
    }
}

proof fn lemma_counts_at(m: StorageModel, pos: SectionPos)
    requires
        counts_match(m),
        pos.packable(),
    ensures
        m.state_of(pos).0 < 64,
        state_neighbor_count(m.state_of(pos).0) == data_neighbors(m, pos, 27),
{
    reveal(counts_match);
}

/// The sections that have block data after the first `n` calls: those whose
/// last change of status left them with some.
pub open spec fn filled_by(
    calls: Seq<Option<(SectionPos, bool)>>,
    pos: SectionPos,
    n: int,
) -> bool
    decreases n,
{
    if n <= 0 {
        false
    } else {
        match calls[n - 1] {
            Some((changed, section_empty)) => if changed == pos {
                !section_empty
            } else {
                filled_by(calls, pos, n - 1)
            },
            None => filled_by(calls, pos, n - 1),
        }
    }
}

/// One of the 26 sections around a section has block data after the first `n`
/// calls.
pub open spec fn filled_near(
    calls: Seq<Option<(SectionPos, bool)>>,
    pos: SectionPos,
    n: int,
) -> bool {
    exists|i: int| 0 <= i < 27 && i != 13 && filled_by(calls, #[trigger] neighbor_at(pos, i), n)
}

/// A history of storage: it starts empty, and every call changes a section's
/// status or leaves the states alone.
pub open spec fn is_history(
    layer: LightLayer,
    calls: Seq<Option<(SectionPos, bool)>>,
    models: Seq<StorageModel>,
) -> bool {
    &&& models.len() == calls.len() + 1
    &&& models[0] == empty_storage(layer)
    &&& forall|i: int| #![trigger calls[i]]
        0 <= i < calls.len() ==> match calls[i] {
            Some((pos, section_empty)) => pos.neighborhood_packable() && models[i + 1]
                == update_status(models[i], pos, section_empty).0,
            None => models[i + 1].states == models[i].states,
        }
}

/// After any history of calls no change of status has failed, and a section's
/// type is that of the changes made: it has data if its last change left it
/// with some, light only if one of the 26 sections around it has data, and is
/// empty otherwise.
pub proof fn types_follow_history(
    layer: LightLayer,
    calls: Seq<Option<(SectionPos, bool)>>,
    models: Seq<StorageModel>,
    n: int,
    pos: SectionPos,
)
    requires
        is_history(layer, calls, models),
        0 <= n < models.len(),
        pos.packable(),
    ensures
        counts_match(models[n]),
        has_data(models[n], pos) == filled_by(calls, pos, n),
        state_type(models[n].state_of(pos).0) == (if filled_by(calls, pos, n) {
            LightSectionType::LightAndData
        } else if filled_near(calls, pos, n) {
            LightSectionType::LightOnly
        } else {
            LightSectionType::Empty
        }),
        n < calls.len() ==> (calls[n] matches Some((changed, section_empty)) ==> update_status(
            models[n],
            changed,
            section_empty,
        ).1 is None),
{
    lemma_history(layer, calls, models, n);
    assert(has_data(models[n], pos) == filled_by(calls, pos, n));
    type_follows_data(models[n], pos);
    assert forall|i: int| 0 <= i < 27 && i != 13 implies has_data(
        models[n],
        #[trigger] neighbor_at(pos, i),
    ) == filled_by(calls, neighbor_at(pos, i), n) by {
        assert(has_data(models[n], neighbor_at(pos, i)) == filled_by(
            calls,
            neighbor_at(pos, i),
            n,
        ));
    }
    if has_data_near(models[n], pos) {
        let i = choose|i: int|
            0 <= i < 27 && i != 13 && has_data(models[n], #[trigger] neighbor_at(pos, i));
        assert(filled_by(calls, neighbor_at(pos, i), n));
    }
    if filled_near(calls, pos, n) {
        let i = choose|i: int|
            0 <= i < 27 && i != 13 && filled_by(calls, #[trigger] neighbor_at(pos, i), n);
        assert(has_data(models[n], neighbor_at(pos, i)));
    }
    if n < calls.len() {
        if let Some((changed, section_empty)) = calls[n] {
            status_update_succeeds(models[n], changed, section_empty);
        }
    }
}

proof fn lemma_history(
    layer: LightLayer,
    calls: Seq<Option<(SectionPos, bool)>>,
    models: Seq<StorageModel>,
    n: int,
)
    requires
        is_history(layer, calls, models),
        0 <= n < models.len(),
    ensures
        counts_match(models[n]),
        forall|pos: SectionPos| #[trigger] has_data(models[n], pos) == filled_by(calls, pos, n),
    decreases n,
{
    if n == 0 {
        empty_storage_counts(layer);
    } else {
        lemma_history(layer, calls, models, n - 1);
        let before = models[n - 1];
        let after = models[n];
        assert(models[n - 1 + 1] == after);
        match calls[n - 1] {
            Some((changed, section_empty)) => {
                status_update_succeeds(before, changed, section_empty);
                assert forall|pos: SectionPos| #[trigger] has_data(after, pos) == filled_by(
                    calls,
                    pos,
                    n,
                ) by {
                    assert(has_data(before, pos) == filled_by(calls, pos, n - 1));
                    if pos.packable() {
                        assert(has_data(update_status(before, changed, section_empty).0, pos)
                            == if pos == changed {
                            !section_empty
                        } else {
                            has_data(before, pos)
                        });
                    }
                }
            },
            None => {
                counts_follow_states(before, after);
                assert forall|pos: SectionPos| #[trigger] has_data(after, pos) == filled_by(
                    calls,
                    pos,
                    n,
                ) by {
                    assert(has_data(before, pos) == filled_by(calls, pos, n - 1));
                }
            },
        }
    }
}

} // verus!
