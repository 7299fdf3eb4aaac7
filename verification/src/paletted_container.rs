//! A paletted container is a container that can be either homogeneous or heterogeneous.
use vstd::prelude::*;

use crate::block_state::{BlockStateId, BlockStateTable};
use crate::count::{count_where, lemma_count_bounds, lemma_count_push, lemma_count_update, unit};

verus! {

/// A trait for converting a value to a global ID. Values with one ID are one
/// value.
pub trait ToGlobalId: Copy {
    /// The global ID of the value.
    spec fn global_id(&self) -> u32;

    /// Values with one ID are one value.
    proof fn global_id_injective(a: Self, b: Self)
        requires
            a.global_id() == b.global_id(),
        ensures
            a == b,
    ;

    /// Converts the value to a global ID.
    fn to_global_id(&self) -> (id: u32)
        ensures
            id == self.global_id(),
    ;
}

impl ToGlobalId for BlockStateId {
    open spec fn global_id(&self) -> u32 {
        self.0 as u32
    }

    proof fn global_id_injective(a: Self, b: Self) {
    }

    fn to_global_id(&self) -> (id: u32) {
        self.0 as u32
    }
}

impl ToGlobalId for u16 {
    open spec fn global_id(&self) -> u32 {
        *self as u32
    }

    proof fn global_id_injective(a: Self, b: Self) {
    }

    fn to_global_id(&self) -> (id: u32) {
        *self as u32
    }
}

fn same_value<V: ToGlobalId>(a: V, b: V) -> (result: bool)
    ensures
        result == (a == b),
{
    let result: bool = a.to_global_id() == b.to_global_id();
    proof {
        if result {
            V::global_id_injective(a, b);
        }
    }
    result
}

/// The number of cells in a container.
pub open spec fn volume(dim: int) -> int {
    dim * dim * dim
}

/// The position of a cell in y, z, x order.
pub open spec fn cell_index(dim: int, x: int, y: int, z: int) -> int {
    (y * dim + z) * dim + x
}

/// A dimension whose cells can be counted in 16 bits.
pub open spec fn dim_valid(dim: int) -> bool {
    0 < dim <= 40
}

/// How often a value occurs.
pub open spec fn occurrences<V>(values: Seq<V>, value: V) -> nat {
    count_where(values, |v: V| v == value)
}

/// A palette lists each value of the cells once, with the number of cells that
/// hold it.
pub open spec fn palette_matches<V>(palette: Seq<(V, u16)>, values: Seq<V>) -> bool {
    &&& forall|i: int, j: int|
        0 <= i < palette.len() && 0 <= j < palette.len() && i != j ==> (#[trigger] palette[i]).0
            != (#[trigger] palette[j]).0
    &&& forall|i: int|
        0 <= i < palette.len() ==> (#[trigger] palette[i]).1 > 0 && palette[i].1 == occurrences(
            values,
            palette[i].0,
        )
    &&& forall|c: int|
        0 <= c < values.len() ==> palette_has(palette, #[trigger] values[c])
}

/// A value stands in the palette.
pub open spec fn palette_has<V>(palette: Seq<(V, u16)>, value: V) -> bool {
    exists|i: int| 0 <= i < palette.len() && (#[trigger] palette[i]).0 == value
}

/// The position of a value in a palette.
pub open spec fn position_of<V>(palette: Seq<(V, u16)>, value: V) -> int {
    choose|i: int| 0 <= i < palette.len() && (#[trigger] palette[i]).0 == value
}

/// Palette entries stand in the order in which their values first appear.
pub open spec fn in_first_order<V>(palette: Seq<(V, u16)>, values: Seq<V>) -> bool {
    forall|i: int, j: int, c: int|
        #![trigger palette[i], palette[j], values[c]]
        0 <= i < j < palette.len() && 0 <= c < values.len() && values[c] == palette[j].0
            ==> appears_before(values, palette[i].0, c)
}

/// A value appears before a cell.
pub open spec fn appears_before<V>(values: Seq<V>, value: V, c: int) -> bool {
    exists|b: int| 0 <= b < c && #[trigger] values[b] == value
}

/// The palette after one more cell holds a value: the value's entry counts it,
/// and a new value is appended.
pub open spec fn with_added<V>(palette: Seq<(V, u16)>, value: V) -> Seq<(V, u16)> {
    if palette_has(palette, value) {
        let i = position_of(palette, value);
        palette.update(i, (value, (palette[i].1 + 1) as u16))
    } else {
        palette.push((value, 1))
    }
}

/// The palette after one cell less holds a value: the value's entry counts one
/// less, and an entry without cells gives its place to the last one.
pub open spec fn with_removed<V>(palette: Seq<(V, u16)>, value: V) -> Seq<(V, u16)> {
    let i = position_of(palette, value);
    if palette[i].1 == 1 {
        palette.update(i, palette.last()).drop_last()
    } else {
        palette.update(i, (value, (palette[i].1 - 1) as u16))
    }
}

/// The palette after a cell took one value for another.
pub open spec fn palette_after_set<V>(
    palette: Seq<(V, u16)>,
    old_value: V,
    value: V,
) -> Seq<(V, u16)> {
    with_removed(with_added(palette, value), old_value)
}

/// A palette that lists no value twice has one position for a value.
proof fn lemma_position<V>(palette: Seq<(V, u16)>, value: V, i: int)
    requires
        forall|a: int, b: int|
            0 <= a < palette.len() && 0 <= b < palette.len() && a != b ==> (
            #[trigger] palette[a]).0 != (#[trigger] palette[b]).0,
        0 <= i < palette.len(),
        palette[i].0 == value,
    ensures
        position_of(palette, value) == i,
        palette_has(palette, value),
{
    let chosen = position_of(palette, value);
    assert(0 <= chosen < palette.len() && palette[chosen].0 == value);
}

/// The palette lists exactly the values that occur.
pub proof fn palette_lists_values<V>(palette: Seq<(V, u16)>, values: Seq<V>, value: V)
    requires
        palette_matches(palette, values),
    ensures
        palette_has(palette, value) <==> values.contains(value),
        palette_has(palette, value) <==> occurrences(values, value) > 0,
{
    lemma_count_bounds(values, |v: V| v == value);
    if palette_has(palette, value) {
        let i = choose|i: int| 0 <= i < palette.len() && (#[trigger] palette[i]).0 == value;
        assert(palette[i].1 == occurrences(values, value));
    }
    if values.contains(value) {
        let c = choose|c: int| 0 <= c < values.len() && values[c] == value;
        let i = choose|i: int| 0 <= i < palette.len() && (#[trigger] palette[i]).0 == values[c];
        assert(palette[i].0 == value);
    }
}

/// What adding a value does to a palette: its entries count the cells and the
/// one about to be added, and it still lists no value twice.
proof fn lemma_added<V>(palette: Seq<(V, u16)>, values: Seq<V>, value: V)
    requires
        palette_matches(palette, values),
        values.len() <= 64000,
    ensures
        ({
            let middle = with_added(palette, value);
            &&& forall|i: int|
                0 <= i < middle.len() ==> (#[trigger] middle[i]).1 == occurrences(
                    values,
                    middle[i].0,
                ) + unit(middle[i].0 == value) && middle[i].1 > 0
            &&& forall|i: int, j: int|
                0 <= i < middle.len() && 0 <= j < middle.len() && i != j ==> (
                #[trigger] middle[i]).0 != (#[trigger] middle[j]).0
            &&& forall|v: V|
                palette_has(palette, v) || v == value ==> #[trigger] palette_has(middle, v)
        }),
{
    let middle = with_added(palette, value);
    palette_lists_values(palette, values, value);
    assert forall|v: V| #[trigger] occurrences(values, v) <= 64000 by {
        lemma_count_bounds(values, |w: V| w == v);
    }
    if palette_has(palette, value) {
        let position = position_of(palette, value);
        assert(0 <= position < palette.len() && palette[position].0 == value);
    }
    assert forall|i: int| 0 <= i < middle.len() implies (#[trigger] middle[i]).1 == occurrences(
        values,
        middle[i].0,
    ) + unit(middle[i].0 == value) && middle[i].1 > 0 by {
        if i < palette.len() {
            assert(palette[i].1 == occurrences(values, palette[i].0));
            if palette[i].0 == value {
                assert(palette_has(palette, value));
            }
        }
    }
    assert forall|i: int, j: int|
        0 <= i < middle.len() && 0 <= j < middle.len() && i != j implies (#[trigger] middle[i]).0
        != (#[trigger] middle[j]).0 by {
        if i < palette.len() {
            assert(palette[i].0 == middle[i].0);
            if !palette_has(palette, value) {
                assert(palette[i].0 != value);
            }
        }
        if j < palette.len() {
            assert(palette[j].0 == middle[j].0);
            if !palette_has(palette, value) {
                assert(palette[j].0 != value);
            }
        }
    }
    assert forall|v: V| palette_has(palette, v) || v == value implies #[trigger] palette_has(
        middle,
        v,
    ) by {
        if palette_has(palette, v) {
            let i = choose|i: int| 0 <= i < palette.len() && (#[trigger] palette[i]).0 == v;
            assert(middle[i].0 == v);
        } else {
            assert(middle[middle.len() - 1].0 == value);
        }
    }
}

/// The palette follows the cells: after a cell took one value for another, it
/// again lists each value of the cells once, with the number of cells that hold
/// it, also where the two values are the same.
pub proof fn palette_follows_cells<V>(
    palette: Seq<(V, u16)>,
    values: Seq<V>,
    index: int,
    value: V,
)
    requires
        palette_matches(palette, values),
        values.len() <= 64000,
        0 <= index < values.len(),
    ensures
        palette_matches(
            palette_after_set(palette, values[index], value),
            values.update(index, value),
        ),
        entry_sum(
            palette_after_set(palette, values[index], value),
            |v: V| true,
            palette_after_set(palette, values[index], value).len() as int,
        ) == values.len(),
{
    let old_value = values[index];
    let after = values.update(index, value);
    let middle = with_added(palette, value);
    let last = with_removed(middle, old_value);
    lemma_added(palette, values, value);
    assert forall|v: V| #[trigger]
        occurrences(after, v) == occurrences(values, v) - unit(old_value == v) + unit(
            value == v,
        ) by {
        lemma_count_update(values, index, value, |w: V| w == v);
    }
    assert(palette_has(palette, values[index]));
    assert(palette_has(middle, old_value));
    let position = position_of(middle, old_value);
    assert(0 <= position < middle.len() && middle[position].0 == old_value);
    let shrinks = middle[position].1 == 1;
    assert forall|i: int| 0 <= i < last.len() implies {
        let k = if shrinks && i == position { middle.len() - 1 } else { i };
        &&& 0 <= k < middle.len()
        &&& (#[trigger] last[i]).0 == middle[k].0
        &&& k != position ==> last[i] == middle[k]
    } by {}
    assert forall|i: int| 0 <= i < last.len() implies (#[trigger] last[i]).1 > 0 && last[i].1
        == occurrences(after, last[i].0) by {
        let k = if shrinks && i == position { middle.len() - 1 } else { i };
        assert(last[i].0 == middle[k].0);
        assert(middle[k].1 > 0);
        if k != position {
            assert(middle[k].0 != middle[position].0);
        }
    }
    assert forall|i: int, j: int|
        0 <= i < last.len() && 0 <= j < last.len() && i != j implies (#[trigger] last[i]).0 != (
    #[trigger] last[j]).0 by {
        let k = if shrinks && i == position { middle.len() - 1 } else { i };
        let l = if shrinks && j == position { middle.len() - 1 } else { j };
        assert(last[i].0 == middle[k].0);
        assert(last[j].0 == middle[l].0);
    }
    assert forall|c: int| 0 <= c < after.len() implies palette_has(last, #[trigger] after[c]) by {
        let v = after[c];
        lemma_count_bounds(after, |w: V| w == v);
        assert(occurrences(after, v) > 0);
        if c != index {
            assert(v == values[c]);
            assert(palette_has(palette, values[c]));
        }
        assert(palette_has(middle, v));
        let k = choose|k: int| 0 <= k < middle.len() && (#[trigger] middle[k]).0 == v;
        if shrinks {
            assert(middle[position].1 == occurrences(values, old_value) + unit(
                old_value == value,
            ));
            assert(v != old_value);
            if k == middle.len() - 1 {
                assert(last[position].0 == v);
            } else {
                assert(last[k].0 == v);
            }
        } else {
            assert(last[k].0 == v);
        }
    }
    palette_counts_add_up(last, after, |v: V| true);
}

/// Cells and coordinates stand for one another: every cell has coordinates, and
/// coordinates have a cell.
pub proof fn cells_have_coordinates(dim: int, i: int, x: int, y: int, z: int)
    requires
        dim_valid(dim),
    ensures
        0 <= i < volume(dim) ==> {
            &&& 0 <= i % dim < dim
            &&& 0 <= (i / dim) % dim < dim
            &&& 0 <= i / dim / dim < dim
            &&& cell_index(dim, i % dim, i / dim / dim, (i / dim) % dim) == i
        },
        0 <= x < dim && 0 <= y < dim && 0 <= z < dim ==> 0 <= cell_index(dim, x, y, z) < volume(
            dim,
        ),
{
    if 0 <= x < dim && 0 <= y < dim && 0 <= z < dim {
        lemma_cell_index(dim, x, y, z);
    }
    if 0 <= i < volume(dim) {
        let row = i / dim;
        vstd::arithmetic::div_mod::lemma_fundamental_div_mod(i, dim);
        vstd::arithmetic::div_mod::lemma_fundamental_div_mod(row, dim);
        let y = row / dim;
        assert(0 <= row < dim * dim) by (nonlinear_arith)
            requires
                0 <= i < dim * dim * dim,
                i == dim * row + i % dim,
                0 <= i % dim < dim,
                0 < dim,
        ;
        assert(0 <= y < dim) by (nonlinear_arith)
            requires
                0 <= row < dim * dim,
                row == dim * y + row % dim,
                0 <= row % dim < dim,
                0 < dim,
        ;
        assert(y * dim == dim * y && row * dim == dim * row) by (nonlinear_arith);
    }
}

proof fn lemma_cell_index(dim: int, x: int, y: int, z: int)
    requires
        dim_valid(dim),
        0 <= x < dim,
        0 <= y < dim,
        0 <= z < dim,
    ensures
        0 <= y * dim + z < dim * dim,
        0 <= cell_index(dim, x, y, z) < volume(dim),
        dim * dim <= 1600,
        0 < volume(dim) <= 64000,
{
    lemma_volume(dim);
    assert(0 <= y * dim + z < dim * dim) by (nonlinear_arith)
        requires
            0 <= y < dim,
            0 <= z < dim,
    ;
    let row = y * dim + z;
    assert(0 <= row * dim + x < dim * dim * dim) by (nonlinear_arith)
        requires
            0 <= row < dim * dim,
            0 <= x < dim,
    ;
}

proof fn lemma_volume(dim: int)
    requires
        dim_valid(dim),
    ensures
        0 < dim * dim <= 1600,
        0 < volume(dim) <= 64000,
{
    assert(0 < dim * dim <= 1600) by (nonlinear_arith)
        requires
            0 < dim <= 40,
    ;
    assert(0 < dim * dim * dim <= 64000) by (nonlinear_arith)
        requires
            0 < dim <= 40,
            0 < dim * dim <= 1600,
    ;
}

/// A palette stays in first order when one more value is counted or appended.
proof fn lemma_first_order_push<V>(
    start: Seq<(V, u16)>,
    before: Seq<V>,
    last: Seq<(V, u16)>,
    value: V,
)
    requires
        palette_matches(start, before),
        in_first_order(start, before),
        palette_has(start, value) ==> last.len() == start.len(),
        !palette_has(start, value) ==> last.len() == start.len() + 1 && last[start.len() as int].0
            == value,
        forall|i: int| 0 <= i < start.len() ==> (#[trigger] last[i]).0 == start[i].0,
    ensures
        in_first_order(last, before.push(value)),
{
    let after = before.push(value);
    assert forall|i: int, j: int, c: int|
        #![trigger last[i], last[j], after[c]]
        0 <= i < j < last.len() && 0 <= c < after.len() && after[c] == last[j].0
        implies appears_before(after, last[i].0, c) by {
        assert(last[i].0 == start[i].0);
        if c < before.len() {
            assert(after[c] == before[c]);
            if j < start.len() {
                assert(last[j].0 == start[j].0);
                assert(appears_before(before, start[i].0, c));
                let b = choose|b: int| 0 <= b < c && #[trigger] before[b] == start[i].0;
                assert(after[b] == last[i].0);
            } else {
                assert(palette_has(start, before[c]));
            }
        } else {
            palette_lists_values(start, before, start[i].0);
            assert(palette_has(start, start[i].0));
            let b = choose|b: int| 0 <= b < before.len() && before[b] == start[i].0;
            assert(after[b] == last[i].0);
        }
    }
}

fn index_of<const DIM: usize>(x: usize, y: usize, z: usize) -> (index: usize)
    requires
        dim_valid(DIM as int),
        x < DIM,
        y < DIM,
        z < DIM,
    ensures
        index == cell_index(DIM as int, x as int, y as int, z as int),
        index < volume(DIM as int),
{
    proof {
        lemma_cell_index(DIM as int, x as int, y as int, z as int);
        assert(y * DIM >= 0) by (nonlinear_arith);
        assert((y * DIM + z) * DIM >= 0) by (nonlinear_arith)
            requires
                y * DIM + z >= 0,
        ;
    }
    (y * DIM + z) * DIM + x
}

fn palette_position<V: ToGlobalId>(palette: &Vec<(V, u16)>, value: V) -> (result: Option<usize>)
    ensures
        match result {
            Some(index) => index < palette@.len() && palette@[index as int].0 == value && forall|
                j: int,
            |
                0 <= j < index ==> (#[trigger] palette@[j]).0 != value,
            None => !palette_has(palette@, value),
        },
{
    let mut index: usize = 0;
    while index < palette.len()
        invariant
            index <= palette@.len(),
            forall|j: int| 0 <= j < index ==> (#[trigger] palette@[j]).0 != value,
        decreases palette@.len() - index,
    {
        if same_value(palette[index].0, value) {
            return Some(index);
        }
        index += 1;
    }
    None
}

/// A heterogeneous palette container.
#[derive(Debug)]
pub struct HeterogeneousPalette<V: ToGlobalId, const DIM: usize> {
    /// The values in y, z, x order.
    pub(crate) cube: Vec<V>,
    /// Keeps track of how many different times each value appears in the cube. (value, count)
    pub(crate) palette: Vec<(V, u16)>,
}

impl<V: ToGlobalId, const DIM: usize> View for HeterogeneousPalette<V, DIM> {
    type V = Seq<V>;

    closed spec fn view(&self) -> Seq<V> {
        self.cube@
    }
}

impl<V: ToGlobalId, const DIM: usize> HeterogeneousPalette<V, DIM> {
    /// The palette matches the cells.
    pub closed spec fn wf(&self) -> bool {
        &&& dim_valid(DIM as int)
        &&& self.cube@.len() == volume(DIM as int)
        &&& palette_matches(self.palette@, self.cube@)
    }

    /// The palette's entries: each value with its number of cells.
    pub closed spec fn entries(&self) -> Seq<(V, u16)> {
        self.palette@
    }

    /// The view is the sequence of cells that the palette counts.
    pub proof fn entries_match(&self)
        requires
            self.wf(),
        ensures
            palette_matches(self.entries(), self@),
            self@.len() == volume(DIM as int),
            dim_valid(DIM as int),
    {
    }

    /// Returns all values in the cube in y, z, x order.
    #[must_use]
    pub fn iter_values(&self) -> (values: &Vec<V>)
        ensures
            values@ == self@,
    {
        &self.cube
    }

    fn get(&self, x: usize, y: usize, z: usize) -> (value: V)
        requires
            self.wf(),
            x < DIM,
            y < DIM,
            z < DIM,
        ensures
            value == self@[cell_index(DIM as int, x as int, y as int, z as int)],
    {
        self.cube[index_of::<DIM>(x, y, z)]
    }

    fn get_at_index(&self, index: usize) -> (value: V)
        requires
            self.wf(),
            index < volume(DIM as int),
        ensures
            value == self@[index as int],
    {
        self.cube[index]
    }

    /// Sets the value at the given coordinates, and returns the value that was
    /// there.
    ///
    /// The palette again lists each value of the cells once, with its number of
    /// cells.
    pub fn set(&mut self, x: usize, y: usize, z: usize, value: V) -> (old_value: V)
        requires
            old(self).wf(),
            x < DIM,
            y < DIM,
            z < DIM,
        ensures
            final(self).wf(),
            old_value == old(self)@[cell_index(DIM as int, x as int, y as int, z as int)],
            final(self)@ == old(self)@.update(
                cell_index(DIM as int, x as int, y as int, z as int),
                value,
            ),
            final(self).entries() == palette_after_set(old(self).entries(), old_value, value),
    {
        let index: usize = index_of::<DIM>(x, y, z);
        let old_value: V = self.cube[index];
        let ghost before = self.cube@;
        let ghost start = self.palette@;
        proof {
            lemma_volume(DIM as int);
            lemma_added(start, before, value);
            assert(palette_has(start, before[index as int]));
            palette_follows_cells(start, before, index as int, value);
        }
        match palette_position(&self.palette, value) {
            Some(position) => {
                let count: u16 = self.palette[position].1;
                proof {
                    lemma_position(start, value, position as int);
                    lemma_count_bounds(before, |w: V| w == value);
                    assert(count == occurrences(before, value));
                }
                self.palette[position] = (value, count + 1);
            },
            None => {
                self.palette.push((value, 1));
            },
        }
        let ghost middle = self.palette@;
        assert(middle == with_added(start, value));
        match palette_position(&self.palette, old_value) {
            Some(position) => {
                let count: u16 = self.palette[position].1;
                proof {
                    lemma_position(middle, old_value, position as int);
                    assert(middle[position as int].1 >= 1);
                }
                if count == 1 {
                    self.palette.swap_remove(position);
                } else {
                    self.palette[position] = (old_value, count - 1);
                }
            },
            None => {
                assert(palette_has(middle, old_value));
            },
        }
        assert(self.palette@ =~= with_removed(middle, old_value));
        self.cube[index] = value;
        old_value
    }
}

/// A paletted container.
#[derive(Debug)]
pub enum PalettedContainer<V: ToGlobalId, const DIM: usize> {
    /// A homogeneous container, where all values are the same.
    Homogeneous(V),
    /// A heterogeneous container, where values can be different.
    Heterogeneous(HeterogeneousPalette<V, DIM>),
}

/// A palette container for blocks.
pub type BlockPalette = PalettedContainer<BlockStateId, 16>;

/// A palette container for biomes.
pub type BiomePalette = PalettedContainer<u16, 4>;

impl<V: ToGlobalId, const DIM: usize> View for PalettedContainer<V, DIM> {
    type V = Seq<V>;

    /// The values in y, z, x order.
    open spec fn view(&self) -> Seq<V> {
        match self {
            PalettedContainer::Homogeneous(value) => Seq::new(
                volume(DIM as int) as nat,
                |i: int| *value,
            ),
            PalettedContainer::Heterogeneous(data) => data@,
        }
    }
}

/// How the cells of a heterogeneous container refer to their values.
#[derive(Debug, Clone, Copy, PartialEq, Eq, Structural)]
pub enum PaletteMode {
    /// By position in a short palette.
    Linear,
    /// By position in a longer palette.
    Hash,
    /// By global ID, without a palette.
    Global,
}

/// The serialized form of a container.
#[derive(Debug, PartialEq, Eq)]
pub enum PaletteEncoding {
    /// One global ID for all cells.
    Single {
        /// The ID.
        id: u32,
    },
    /// Positions in a palette.
    Indirect {
        /// Bits per cell.
        bits: u8,
        /// Global ID of each palette entry.
        palette: Vec<u32>,
        /// The packed positions.
        longs: Vec<u64>,
    },
    /// Global IDs.
    Direct {
        /// Bits per cell.
        bits: u8,
        /// The packed IDs.
        longs: Vec<u64>,
    },
}

/// Bits per cell and mode for a palette of `count` values in a container of
/// `dim` cells along an edge.
pub open spec fn strategy(dim: int, count: int) -> (u8, PaletteMode) {
    if dim == 16 {
        if count <= 16 {
            (4, PaletteMode::Linear)
        } else if count <= 32 {
            (5, PaletteMode::Hash)
        } else if count <= 64 {
            (6, PaletteMode::Hash)
        } else if count <= 128 {
            (7, PaletteMode::Hash)
        } else if count <= 256 {
            (8, PaletteMode::Hash)
        } else {
            (15, PaletteMode::Global)
        }
    } else if count <= 2 {
        (1, PaletteMode::Linear)
    } else if count <= 4 {
        (2, PaletteMode::Linear)
    } else if count <= 8 {
        (3, PaletteMode::Hash)
    } else {
        (6, PaletteMode::Global)
    }
}

/// The global IDs of the cells.
pub open spec fn cell_ids<V: ToGlobalId>(values: Seq<V>) -> Seq<u32> {
    values.map_values(|v: V| v.global_id())
}

/// The palette positions of the cells.
pub open spec fn cell_positions<V>(palette: Seq<(V, u16)>, values: Seq<V>) -> Seq<u32> {
    values.map_values(|v: V| position_of(palette, v) as u32)
}

impl<V: ToGlobalId, const DIM: usize> PalettedContainer<V, DIM> {
    /// A heterogeneous container holds at least two values.
    pub open spec fn wf(&self) -> bool {
        &&& dim_valid(DIM as int)
        &&& match self {
            PalettedContainer::Homogeneous(_) => true,
            PalettedContainer::Heterogeneous(data) => data.wf() && data.entries().len() >= 2,
        }
    }

    /// A well-formed container has one value per cell, and is homogeneous
    /// exactly when all cells hold one value.
    pub proof fn homogeneous_iff_uniform(&self)
        requires
            self.wf(),
        ensures
            self@.len() == volume(DIM as int),
            0 < self@.len() <= 64000,
            self is Homogeneous <==> forall|i: int|
                0 <= i < self@.len() ==> #[trigger] self@[i] == self@[0],
    {
        lemma_volume(DIM as int);
        if let PalettedContainer::Heterogeneous(data) = self {
            data.entries_match();
            let entries = data.entries();
            palette_lists_values(entries, data@, entries[0].0);
            palette_lists_values(entries, data@, entries[1].0);
            assert(palette_has(entries, entries[0].0));
            assert(palette_has(entries, entries[1].0));
            let a = choose|c: int| 0 <= c < data@.len() && data@[c] == entries[0].0;
            let b = choose|c: int| 0 <= c < data@.len() && data@[c] == entries[1].0;
            assert(data@[a] != data@[b]);
            if forall|i: int| 0 <= i < self@.len() ==> #[trigger] self@[i] == self@[0] {
                assert(self@[a] == self@[0]);
                assert(self@[b] == self@[0]);
            }
        }
    }

    /// Creates a container from the values of its cells in y, z, x order.
    ///
    /// The result is homogeneous exactly when all values are the same. Otherwise
    /// its palette lists the values in the order in which they first appear.
    #[must_use]
    pub fn from_cube(cube: Vec<V>) -> (container: Self)
        requires
            dim_valid(DIM as int),
            cube@.len() == volume(DIM as int),
        ensures
            container.wf(),
            container@ == cube@,
            container matches PalettedContainer::Heterogeneous(data) ==> in_first_order(
                data.entries(),
                cube@,
            ),
    {
        let ghost values = cube@;
        let mut palette: Vec<(V, u16)> = Vec::new();
        let mut c: usize = 0;
        proof {
            lemma_volume(DIM as int);
            assert(values.take(0) =~= Seq::<V>::empty());
        }
        while c < cube.len()
            invariant
                cube@ == values,
                values.len() <= 64000,
                c <= values.len(),
                palette_matches(palette@, values.take(c as int)),
                in_first_order(palette@, values.take(c as int)),
                c > 0 ==> palette@.len() > 0,
            decreases values.len() - c,
        {
            let value: V = cube[c];
            let ghost before = values.take(c as int);
            let ghost after = values.take(c as int + 1);
            let ghost start = palette@;
            proof {
                assert(after =~= before.push(value));
                palette_lists_values(start, before, value);
                assert forall|v: V| #[trigger]
                    occurrences(after, v) == occurrences(before, v) + unit(value == v) by {
                    lemma_count_push(before, value, |w: V| w == v);
                }
                assert forall|v: V| #[trigger] occurrences(before, v) <= c by {
                    lemma_count_bounds(before, |w: V| w == v);
                }
            }
            match palette_position(&palette, value) {
                Some(position) => {
                    let count: u16 = palette[position].1;
                    assert(count == occurrences(before, value));
                    palette[position] = (value, count + 1);
                },
                None => {
                    palette.push((value, 1));
                },
            }
            proof {
                let last = palette@;
                assert forall|i: int| 0 <= i < last.len() implies (#[trigger] last[i]).1 > 0
                    && last[i].1 == occurrences(after, last[i].0) by {
                    if i < start.len() {
                        assert(start[i].1 == occurrences(before, start[i].0));
                        if start[i].0 == value {
                            assert(palette_has(start, value));
                        }
                    }
                }
                assert forall|i: int, j: int|
                    0 <= i < last.len() && 0 <= j < last.len() && i != j implies (
                #[trigger] last[i]).0 != (#[trigger] last[j]).0 by {
                    if i < start.len() {
                        assert(start[i].0 == last[i].0);
                        if !palette_has(start, value) {
                            assert(start[i].0 != value);
                        }
                    }
                    if j < start.len() {
                        assert(start[j].0 == last[j].0);
                        if !palette_has(start, value) {
                            assert(start[j].0 != value);
                        }
                    }
                }
                assert forall|k: int| 0 <= k < after.len() implies palette_has(
                            last,
                            #[trigger] after[k],
                        ) by {
                    if k < c {
                        assert(after[k] == before[k]);
                        let i = choose|i: int|
                            0 <= i < start.len() && (#[trigger] start[i]).0 == before[k];
                        assert(last[i].0 == after[k]);
                    } else if palette_has(start, value) {
                        let i = choose|i: int|
                            0 <= i < start.len() && (#[trigger] start[i]).0 == value;
                        assert(last[i].0 == after[k]);
                    } else {
                        assert(last[last.len() - 1].0 == after[k]);
                    }
                }
                assert(palette_matches(last, after));
                lemma_first_order_push(start, before, last, value);
            }
            c += 1;
        }
        proof {
            assert(values.take(values.len() as int) =~= values);
        }
        if palette.len() == 1 {
            let value: V = palette[0].0;
            let container: PalettedContainer<V, DIM> = PalettedContainer::Homogeneous(value);
            proof {
                assert forall|i: int| 0 <= i < values.len() implies #[trigger] values[i]
                    == value by {
                    let k = choose|k: int|
                        0 <= k < palette@.len() && (#[trigger] palette@[k]).0 == values[i];
                    assert(k == 0);
                }
                assert(container@ =~= values);
            }
            container
        } else {
            PalettedContainer::Heterogeneous(HeterogeneousPalette { cube, palette })
        }
    }

    /// Gets the value at the given coordinates.
    #[must_use]
    pub fn get(&self, x: usize, y: usize, z: usize) -> (value: V)
        requires
            self.wf(),
            x < DIM,
            y < DIM,
            z < DIM,
        ensures
            value == self@[cell_index(DIM as int, x as int, y as int, z as int)],
    {
        proof {
            lemma_cell_index(DIM as int, x as int, y as int, z as int);
        }
        match self {
            PalettedContainer::Homogeneous(value) => *value,
            PalettedContainer::Heterogeneous(data) => data.get(x, y, z),
        }
    }

    /// Gets the value at a y,z,x linear index.
    ///
    /// The index layout is `x + z * DIM + y * DIM * DIM`, matching the flat
    /// order used when serializing palette data and the local block index used
    /// by light propagation.
    #[must_use]
    pub fn get_at_index(&self, index: usize) -> (value: V)
        requires
            self.wf(),
            index < volume(DIM as int),
        ensures
            value == self@[index as int],
    {
        match self {
            PalettedContainer::Homogeneous(value) => *value,
            PalettedContainer::Heterogeneous(data) => data.get_at_index(index),
        }
    }

    /// Returns whether a value of this container matches.
    ///
    /// This checks palette entries instead of every cell: only values that
    /// some cell holds are asked about.
    #[must_use]
    pub fn maybe_has(&self, predicate: impl Fn(V) -> bool) -> (result: bool)
        requires
            self.wf(),
            forall|i: int|
                0 <= i < self@.len() ==> call_requires(predicate, (#[trigger] self@[i],)),
        ensures
            result ==> exists|i: int|
                0 <= i < self@.len() && call_ensures(predicate, (#[trigger] self@[i],), true),
            !result ==> forall|i: int|
                0 <= i < self@.len() ==> call_ensures(predicate, (#[trigger] self@[i],), false),
    {
        proof {
            lemma_volume(DIM as int);
        }
        match self {
            PalettedContainer::Homogeneous(value) => {
                assert(self@[0] == *value);
                predicate(*value)
            },
            PalettedContainer::Heterogeneous(data) => {
                proof {
                    data.entries_match();
                }
                let mut i: usize = 0;
                while i < data.palette.len()
                    invariant
                        i <= data.palette@.len(),
                        *self == PalettedContainer::Heterogeneous(*data),
                        palette_matches(data.palette@, data@),
                        self@ == data@,
                        forall|c: int|
                            0 <= c < self@.len() ==> call_requires(
                                predicate,
                                (#[trigger] self@[c],),
                            ),
                        forall|j: int|
                            0 <= j < i ==> call_ensures(
                                predicate,
                                ((#[trigger] data.palette@[j]).0,),
                                false,
                            ),
                    decreases data.palette@.len() - i,
                {
                    let value: V = data.palette[i].0;
                    proof {
                        palette_lists_values(data.palette@, data@, value);
                        assert(palette_has(data.palette@, value)) by {
                            assert(data.palette@[i as int].0 == value);
                        }
                        let c = choose|c: int| 0 <= c < data@.len() && data@[c] == value;
                        assert(self@[c] == value);
                    }
                    if predicate(value) {
                        return true;
                    }
                    i += 1;
                }
                proof {
                    assert forall|c: int| 0 <= c < self@.len() implies call_ensures(
                        predicate,
                        (#[trigger] self@[c],),
                        false,
                    ) by {
                        let k = choose|k: int|
                            0 <= k < data.palette@.len() && (#[trigger] data.palette@[k]).0
                                == data@[c];
                        assert(data.palette@[k].0 == self@[c]);
                    }
                }
                false
            },
        }
    }

    /// Collects all values in the container in y, z, x order.
    #[must_use]
    pub fn collect_values(&self) -> (values: Vec<V>)
        requires
            self.wf(),
        ensures
            values@ == self@,
    {
        proof {
            lemma_volume(DIM as int);
            self.homogeneous_iff_uniform();
        }
        let length: usize = DIM * DIM * DIM;
        let mut values: Vec<V> = Vec::new();
        let mut i: usize = 0;
        while i < length
            invariant
                self.wf(),
                length == volume(DIM as int),
                length == self@.len(),
                i <= length,
                values@ =~= self@.take(i as int),
            decreases length - i,
        {
            values.push(self.get_at_index(i));
            i += 1;
        }
        assert(values@ =~= self@);
        values
    }

    /// Sets the value at the given coordinates, and returns the value that was
    /// there.
    ///
    /// A value that is new to the palette is appended to it, and an entry that
    /// no cell holds any more gives its place to the last one. Where all cells
    /// held one value, the palette lists both in order of first appearance.
    pub fn set(&mut self, x: usize, y: usize, z: usize, value: V) -> (original: V)
        requires
            old(self).wf(),
            x < DIM,
            y < DIM,
            z < DIM,
        ensures
            final(self).wf(),
            original == old(self)@[cell_index(DIM as int, x as int, y as int, z as int)],
            final(self)@ == old(self)@.update(
                cell_index(DIM as int, x as int, y as int, z as int),
                value,
            ),
            match (*old(self), *final(self)) {
                (
                    PalettedContainer::Heterogeneous(before),
                    PalettedContainer::Heterogeneous(after),
                ) => after.entries() == palette_after_set(before.entries(), original, value),
                (
                    PalettedContainer::Homogeneous(_),
                    PalettedContainer::Heterogeneous(after),
                ) => in_first_order(after.entries(), after@),
                _ => true,
            },
    {
        let index: usize = index_of::<DIM>(x, y, z);
        let ghost before = self@;
        proof {
            lemma_volume(DIM as int);
        }
        let original: V = match self {
            PalettedContainer::Homogeneous(original) => *original,
            PalettedContainer::Heterogeneous(data) => {
                let original: V = data.set(x, y, z, value);
                if data.palette.len() == 1 {
                    let only: V = data.palette[0].0;
                    proof {
                        data.entries_match();
                        assert forall|c: int| 0 <= c < data@.len() implies #[trigger] data@[c]
                            == only by {
                            let k = choose|k: int|
                                0 <= k < data.palette@.len() && (#[trigger] data.palette@[k]).0
                                    == data@[c];
                            assert(k == 0);
                        }
                        assert(data@ =~= Seq::new(volume(DIM as int) as nat, |i: int| only));
                    }
                    *self = PalettedContainer::Homogeneous(only);
                } else {
                    proof {
                        data.entries_match();
                        let k = choose|k: int|
                            0 <= k < data.palette@.len() && (#[trigger] data.palette@[k]).0
                                == data@[0];
                    }
                }
                return original;
            },
        };
        if same_value(value, original) {
            assert(self@ =~= before.update(index as int, value));
            return original;
        }
        let length: usize = DIM * DIM * DIM;
        let mut cube: Vec<V> = Vec::new();
        let mut i: usize = 0;
        while i < length
            invariant
                i <= length,
                length == volume(DIM as int),
                cube@ =~= Seq::new(i as nat, |j: int| if j == index { value } else { original }),
            decreases length - i,
        {
            if i == index {
                cube.push(value);
            } else {
                cube.push(original);
            }
            i += 1;
        }
        *self = Self::from_cube(cube);
        assert(self@ =~= before.update(index as int, value));
        original
    }
}

/// One 64-bit word of packed indices, after the first `n` indices were packed.
/// Each word takes `64 / bits` indices, the first in the lowest bits.
pub open spec fn packed_word(indices: Seq<u32>, bits: int, word: int, n: int) -> u64
    decreases n,
{
    if n <= 0 {
        0
    } else {
        let before = packed_word(indices, bits, word, n - 1);
        let per_word = 64int / bits;
        if (n - 1) / per_word == word {
            before | ((indices[n - 1] as u64) << ((((n - 1) % per_word) * bits) as u64))
        } else {
            before
        }
    }
}

/// The words of packed indices.
pub open spec fn packed_words(indices: Seq<u32>, bits: int) -> Seq<u64> {
    let per_word = 64int / bits;
    Seq::new(
        ((indices.len() + per_word - 1) / per_word) as nat,
        |word: int| packed_word(indices, bits, word, indices.len() as int),
    )
}

proof fn lemma_per_word(bits: int, i: int)
    requires
        1 <= bits <= 64,
        0 <= i,
    ensures
        1 <= 64int / bits <= 64,
        0 <= i % (64int / bits) < 64int / bits,
        0 <= (i % (64int / bits)) * bits,
        (i % (64int / bits)) * bits + bits <= 64,
{
    let per_word = 64int / bits;
    assert(per_word * bits <= 64 && per_word >= 1 && per_word <= 64) by (nonlinear_arith)
        requires
            1 <= bits <= 64,
            per_word == 64int / bits,
    ;
    let field = i % per_word;
    assert(0 <= field < per_word);
    assert(0 <= field * bits && field * bits + bits <= per_word * bits) by (nonlinear_arith)
        requires
            0 <= field < per_word,
            bits >= 1,
    ;
}

proof fn lemma_ceiling(length: int, per_word: int)
    requires
        0 <= length,
        1 <= per_word,
    ensures
        (length + per_word - 1) / per_word == length / per_word + if length % per_word != 0 {
            1int
        } else {
            0int
        },
        0 <= length / per_word <= length,
        length % per_word != 0 ==> length / per_word < length,
{
    let q = length / per_word;
    let r = length % per_word;
    vstd::arithmetic::div_mod::lemma_fundamental_div_mod(length, per_word);
    assert(0 <= q <= length) by (nonlinear_arith)
        requires
            length == per_word * q + r,
            0 <= r < per_word,
            1 <= per_word,
            0 <= length,
    ;
    if r != 0 {
        assert(q < length) by (nonlinear_arith)
            requires
                length == per_word * q + r,
                0 < r,
                1 <= per_word,
                0 <= q,
        ;
        assert((q + 1) * per_word == per_word * q + per_word) by (nonlinear_arith);
        vstd::arithmetic::div_mod::lemma_fundamental_div_mod_converse(
            length + per_word - 1,
            per_word,
            q + 1,
            r - 1,
        );
    } else {
        vstd::arithmetic::div_mod::lemma_fundamental_div_mod_converse(
            length + per_word - 1,
            per_word,
            q,
            per_word - 1,
        );
    }
}

/// Packs indices of `bits` bits each into 64-bit words.
#[must_use]
pub fn pack_bits(indices: &[u32], bits: usize) -> (data: Vec<u64>)
    requires
        1 <= bits <= 64,
    ensures
        data@ == packed_words(indices@, bits as int),
{
    proof {
        lemma_per_word(bits as int, 0);
    }
    let values_per_long: usize = 64 / bits;
    let whole: usize = indices.len() / values_per_long;
    proof {
        lemma_ceiling(indices@.len() as int, values_per_long as int);
    }
    let length: usize = if indices.len() % values_per_long != 0 {
        whole + 1
    } else {
        whole
    };
    let mut data: Vec<u64> = vec![0; length];
    let mut i: usize = 0;
    while i < indices.len()
        invariant
            1 <= bits <= 64,
            values_per_long == 64int / bits as int,
            1 <= values_per_long <= 64,
            i <= indices@.len(),
            length == (indices@.len() + values_per_long - 1) / values_per_long as int,
            data@.len() == length,
            forall|word: int|
                0 <= word < length ==> #[trigger] data@[word] == packed_word(
                    indices@,
                    bits as int,
                    word,
                    i as int,
                ),
        decreases indices@.len() - i,
    {
        let array_index: usize = i / values_per_long;
        proof {
            lemma_per_word(bits as int, i as int);
            assert(array_index < length) by (nonlinear_arith)
                requires
                    array_index == i as int / values_per_long as int,
                    length == (indices@.len() + values_per_long - 1) / values_per_long as int,
                    i < indices@.len(),
                    1 <= values_per_long,
            ;
        }
        let field: usize = i % values_per_long;
        proof {
            assert(field * bits + bits <= 64);
        }
        let offset: usize = field * bits;
        let index: u32 = indices[i];
        let ghost before = data@;
        data[array_index] = data[array_index] | ((index as u64) << (offset as u64));
        i += 1;
        proof {
            assert forall|word: int| 0 <= word < length implies #[trigger] data@[word]
                == packed_word(indices@, bits as int, word, i as int) by {
                assert(before[word] == packed_word(indices@, bits as int, word, i as int - 1));
            }
        }
    }
    assert(data@ =~= packed_words(indices@, bits as int));
    data
}

/// The `bits` bits of a word that start at `offset`.
pub open spec fn word_field(word: u64, bits: u64, offset: u64) -> u64 {
    (word >> offset) & !(0xffff_ffff_ffff_ffffu64 << bits)
}

/// Every index fits in its bits.
pub open spec fn indices_fit(indices: Seq<u32>, bits: int) -> bool {
    forall|i: int| 0 <= i < indices.len() ==> (#[trigger] indices[i] as u64) < 1u64 << (bits as u64)
}

proof fn lemma_field_bits(word: u64, value: u64, bits: u64, offset: u64, other: u64)
    by (bit_vector)
    requires
        1 <= bits <= 64,
        offset <= 64 - bits,
        other <= 64 - bits,
        value <= 0xffff_ffff,
        bits < 32 ==> value < 1u64 << bits,
    ensures
        word >> offset == 0 ==> word_field(word | (value << offset), bits, offset) == value,
        other + bits <= offset ==> word_field(word | (value << offset), bits, other) == word_field(
            word,
            bits,
            other,
        ),
        word >> offset == 0 && offset + bits < 64 ==> ((word | (value << offset)) >> ((offset
            + bits) as u64)) == 0,
{
}

proof fn lemma_zero_shift()
    by (bit_vector)
    ensures
        0u64 >> 0u64 == 0,
{
}

proof fn lemma_packed_word_high(indices: Seq<u32>, bits: int, word: int, n: int)
    requires
        1 <= bits <= 64,
        0 <= n <= indices.len(),
        0 <= word,
        bits < 32 ==> indices_fit(indices, bits),
    ensures
        n <= word * (64int / bits) ==> packed_word(indices, bits, word, n) == 0,
        word * (64int / bits) <= n && n - word * (64int / bits) < 64int / bits ==> packed_word(
            indices,
            bits,
            word,
            n,
        ) >> (((n - word * (64int / bits)) * bits) as u64) == 0,
    decreases n,
{
    let per = 64int / bits;
    lemma_per_word(bits, n);
    let base = word * per;
    assert(base >= 0) by (nonlinear_arith)
        requires
            base == word * per,
            word >= 0,
            per >= 1,
    ;
    if n == 0 {
        if base <= 0 {
            assert((n - base) * bits == 0) by (nonlinear_arith)
                requires
                    n == base,
            ;
            lemma_zero_shift();
        }
    } else {
        lemma_packed_word_high(indices, bits, word, n - 1);
        lemma_per_word(bits, n - 1);
        let last = n - 1;
        lemma_div_of(last, word, per);
        if base <= n && n - base < per {
            if n == base {
                assert((n - base) * bits == 0) by (nonlinear_arith)
                    requires
                        n == base,
                ;
                assert(last / per != word);
                lemma_zero_shift();
            } else {
                let field = last - base;
                assert(last / per == word && last % per == field);
                let offset = field * bits;
                assert((n - base) * bits == offset + bits) by (nonlinear_arith)
                    requires
                        n - base == field + 1,
                        offset == field * bits,
                ;
                assert((n - base) * bits + bits <= 64) by {
                    lemma_per_word(bits, n - base);
                    lemma_small(n - base, per);
                }
                lemma_field_bits(
                    packed_word(indices, bits, word, last),
                    indices[last] as u64,
                    bits as u64,
                    offset as u64,
                    0,
                );
            }
        }
    }
}

proof fn lemma_small(a: int, per: int)
    requires
        0 <= a < per,
    ensures
        a % per == a,
{
    vstd::arithmetic::div_mod::lemma_small_mod(a as nat, per as nat);
}

proof fn lemma_div_of(i: int, word: int, per: int)
    requires
        0 <= i,
        0 <= word,
        per >= 1,
    ensures
        i / per == word <==> word * per <= i < word * per + per,
        i / per == word ==> i % per == i - word * per,
{
    vstd::arithmetic::div_mod::lemma_fundamental_div_mod(i, per);
    let q = i / per;
    assert(i == per * q + i % per);
    assert(q == word ==> per * q == word * per) by (nonlinear_arith);
    if word * per <= i < word * per + per {
        assert(q == word) by (nonlinear_arith)
            requires
                i == per * q + i % per,
                0 <= i % per < per,
                word * per <= i < word * per + per,
        ;
    }
}

/// Packed indices that fit in their bits are read back: index `i` is the field
/// at its place in its word.
pub proof fn packed_indices_round_trip(indices: Seq<u32>, bits: int, i: int, n: int)
    requires
        1 <= bits <= 64,
        0 <= i < n <= indices.len(),
        bits < 32 ==> indices_fit(indices, bits),
    ensures
        word_field(
            packed_word(indices, bits, i / (64int / bits), n),
            bits as u64,
            ((i % (64int / bits)) * bits) as u64,
        ) == indices[i],
        n == indices.len() ==> packed_words(indices, bits)[i / (64int / bits)] == packed_word(
            indices,
            bits,
            i / (64int / bits),
            n,
        ),
    decreases n,
{
    let per = 64int / bits;
    let word = i / per;
    lemma_per_word(bits, i);
    lemma_per_word(bits, n - 1);
    assert(0 <= word) by (nonlinear_arith)
        requires
            word == i / per,
            i >= 0,
            per >= 1,
    ;
    lemma_div_of(i, word, per);
    let last = n - 1;
    lemma_div_of(last, word, per);
    let offset = (last % per) * bits;
    if i == last {
        lemma_packed_word_high(indices, bits, word, last);
        assert((last - word * per) * bits == offset);
        lemma_field_bits(
            packed_word(indices, bits, word, last),
            indices[last] as u64,
            bits as u64,
            offset as u64,
            0,
        );
    } else {
        packed_indices_round_trip(indices, bits, i, n - 1);
        if last / per == word {
            assert((i % per) * bits + bits <= offset) by (nonlinear_arith)
                requires
                    i % per < last % per,
                    offset == (last % per) * bits,
                    bits >= 1,
            ;
            lemma_field_bits(
                packed_word(indices, bits, word, last),
                indices[last] as u64,
                bits as u64,
                offset as u64,
                ((i % per) * bits) as u64,
            );
        }
    }
    if n == indices.len() {
        let len = indices.len() as int;
        assert(word < (len + per - 1) / per) by (nonlinear_arith)
            requires
                word == i / per,
                i < len,
                per >= 1,
        ;
    }
}

/// The number of cells whose palette entry satisfies a predicate, over the
/// first `n` entries.
pub open spec fn entry_sum<V>(palette: Seq<(V, u16)>, p: spec_fn(V) -> bool, n: int) -> int
    decreases n,
{
    if n <= 0 {
        0
    } else {
        entry_sum(palette, p, n - 1) + if p(palette[n - 1].0) {
            palette[n - 1].1 as int
        } else {
            0
        }
    }
}

spec fn value_sum<V>(palette: Seq<(V, u16)>, values: Seq<V>, p: spec_fn(V) -> bool, n: int) -> int
    decreases n,
{
    if n <= 0 {
        0
    } else {
        value_sum(palette, values, p, n - 1) + if p(palette[n - 1].0) {
            occurrences(values, palette[n - 1].0) as int
        } else {
            0
        }
    }
}

proof fn lemma_value_sum_push<V>(
    palette: Seq<(V, u16)>,
    values: Seq<V>,
    value: V,
    p: spec_fn(V) -> bool,
    n: int,
)
    requires
        0 <= n <= palette.len(),
        forall|i: int, j: int|
            0 <= i < palette.len() && 0 <= j < palette.len() && i != j ==> (
            #[trigger] palette[i]).0 != (#[trigger] palette[j]).0,
    ensures
        value_sum(palette, values.push(value), p, n) == value_sum(palette, values, p, n) + unit(
            p(value) && exists|i: int| 0 <= i < n && (#[trigger] palette[i]).0 == value,
        ),
    decreases n,
{
    if n > 0 {
        lemma_value_sum_push(palette, values, value, p, n - 1);
        let entry = palette[n - 1].0;
        lemma_count_push(values, value, |w: V| w == entry);
        if entry == value {
            assert(palette[n - 1].0 == value);
            assert forall|i: int| 0 <= i < n - 1 implies (#[trigger] palette[i]).0 != value by {
                assert(palette[i].0 != palette[n - 1].0);
            }
        } else if exists|i: int| 0 <= i < n && (#[trigger] palette[i]).0 == value {
            let i = choose|i: int| 0 <= i < n && (#[trigger] palette[i]).0 == value;
            assert(i < n - 1);
        }
    }
}

proof fn lemma_value_sum<V>(palette: Seq<(V, u16)>, values: Seq<V>, p: spec_fn(V) -> bool)
    requires
        forall|i: int, j: int|
            0 <= i < palette.len() && 0 <= j < palette.len() && i != j ==> (
            #[trigger] palette[i]).0 != (#[trigger] palette[j]).0,
        forall|c: int| 0 <= c < values.len() ==> palette_has(palette, #[trigger] values[c]),
    ensures
        value_sum(palette, values, p, palette.len() as int) == count_where(values, p),
    decreases values.len(),
{
    if values.len() == 0 {
        lemma_value_sum_empty(palette, values, p, palette.len() as int);
    } else {
        let front = values.drop_last();
        assert forall|c: int| 0 <= c < front.len() implies palette_has(
            palette,
            #[trigger] front[c],
        ) by {
            assert(front[c] == values[c]);
        }
        lemma_value_sum(palette, front, p);
        assert(values =~= front.push(values.last()));
        assert(palette_has(palette, values[values.len() - 1]));
        lemma_value_sum_push(palette, front, values.last(), p, palette.len() as int);
    }
}

proof fn lemma_value_sum_empty<V>(
    palette: Seq<(V, u16)>,
    values: Seq<V>,
    p: spec_fn(V) -> bool,
    n: int,
)
    requires
        values.len() == 0,
        0 <= n,
    ensures
        value_sum(palette, values, p, n) == 0,
    decreases n,
{
    if n > 0 {
        lemma_value_sum_empty(palette, values, p, n - 1);
    }
}

proof fn lemma_entry_sum_is_value_sum<V>(
    palette: Seq<(V, u16)>,
    values: Seq<V>,
    p: spec_fn(V) -> bool,
    n: int,
)
    requires
        palette_matches(palette, values),
        0 <= n <= palette.len(),
    ensures
        entry_sum(palette, p, n) == value_sum(palette, values, p, n),
    decreases n,
{
    if n > 0 {
        lemma_entry_sum_is_value_sum(palette, values, p, n - 1);
        assert(palette[n - 1].1 == occurrences(values, palette[n - 1].0));
    }
}

/// The counts of the palette entries that satisfy a predicate add up to the
/// number of cells that satisfy it; all counts add up to the volume.
pub proof fn palette_counts_add_up<V>(
    palette: Seq<(V, u16)>,
    values: Seq<V>,
    p: spec_fn(V) -> bool,
)
    requires
        palette_matches(palette, values),
    ensures
        entry_sum(palette, p, palette.len() as int) == count_where(values, p),
        entry_sum(palette, |v: V| true, palette.len() as int) == values.len(),
{
    lemma_entry_sum_is_value_sum(palette, values, p, palette.len() as int);
    lemma_value_sum(palette, values, p);
    let all = |v: V| true;
    lemma_entry_sum_is_value_sum(palette, values, all, palette.len() as int);
    lemma_value_sum(palette, values, all);
    lemma_count_bounds(values, all);
}

proof fn lemma_entry_sum_monotone<V>(
    palette: Seq<(V, u16)>,
    p: spec_fn(V) -> bool,
    n: int,
    m: int,
)
    requires
        0 <= n <= m <= palette.len(),
    ensures
        0 <= entry_sum(palette, p, n) <= entry_sum(palette, p, m),
    decreases m,
{
    if n < m {
        lemma_entry_sum_monotone(palette, p, n, m - 1);
    } else if m > 0 {
        lemma_entry_sum_monotone(palette, p, n - 1, m - 1);
    }
}

impl BlockPalette {
    /// Gets the number of non-empty blocks in the container.
    #[must_use]
    pub fn non_empty_block_count(&self) -> (count: u16)
        requires
            self.wf(),
        ensures
            count == count_where(self@, |state: BlockStateId| state.0 != 0),
    {
        let ghost p = |state: BlockStateId| state.0 != 0;
        proof {
            self.homogeneous_iff_uniform();
            lemma_count_bounds(self@, p);
        }
        match self {
            PalettedContainer::Homogeneous(value) => {
                if value.0 == 0 {
                    0
                } else {
                    4096
                }
            },
            PalettedContainer::Heterogeneous(data) => {
                proof {
                    data.entries_match();
                    palette_counts_add_up(data.palette@, data@, p);
                }
                let mut count: u16 = 0;
                let mut i: usize = 0;
                while i < data.palette.len()
                    invariant
                        i <= data.palette@.len(),
                        p == (|state: BlockStateId| state.0 != 0),
                        entry_sum(data.palette@, p, data.palette@.len() as int) <= 4096,
                        count == entry_sum(data.palette@, p, i as int),
                    decreases data.palette@.len() - i,
                {
                    proof {
                        lemma_entry_sum_monotone(
                            data.palette@,
                            p,
                            i as int + 1,
                            data.palette@.len() as int,
                        );
                    }
                    let (state, cells): (BlockStateId, u16) = data.palette[i];
                    if state.0 != 0 {
                        count += cells;
                    }
                    i += 1;
                }
                count
            },
        }
    }

    /// Returns `true` if this palette contains only air blocks.
    #[must_use]
    pub fn has_only_air(&self, table: &BlockStateTable) -> (result: bool)
        requires
            self.wf(),
            table.wf(),
        ensures
            result == forall|i: int|
                0 <= i < self@.len() ==> table.info(#[trigger] self@[i]).is_air,
    {
        let not_air = |state: BlockStateId| -> (result: bool)
            requires
                table.wf(),
            ensures
                result == !table.info(state).is_air,
            { !table.get(state).is_air };
        let result: bool = !self.maybe_has(not_air);
        proof {
            if result {
                assert forall|i: int| 0 <= i < self@.len() implies table.info(
                    #[trigger] self@[i],
                ).is_air by {
                    assert(call_ensures(not_air, (self@[i],), false));
                }
            } else {
                let i = choose|i: int|
                    0 <= i < self@.len() && call_ensures(not_air, (#[trigger] self@[i],), true);
                assert(!table.info(self@[i]).is_air);
            }
        }
        result
    }
}

/// Whether a serialized form is the one that a container's cells and palette
/// call for.
pub open spec fn encodes<V: ToGlobalId, const DIM: usize>(
    encoding: PaletteEncoding,
    container: PalettedContainer<V, DIM>,
) -> bool {
    match container {
        PalettedContainer::Homogeneous(value) => encoding == (PaletteEncoding::Single {
            id: value.global_id(),
        }),
        PalettedContainer::Heterogeneous(data) => {
            let (bits, mode) = strategy(DIM as int, data.entries().len() as int);
            if mode == PaletteMode::Global {
                encoding matches PaletteEncoding::Direct { bits: b, longs } && b == bits && longs@
                    == packed_words(cell_ids(data@), bits as int)
            } else {
                encoding matches PaletteEncoding::Indirect { bits: b, palette, longs } && b == bits
                    && palette@ == data.entries().map_values(|entry: (V, u16)| entry.0.global_id())
                    && longs@ == packed_words(cell_positions(data.entries(), data@), bits as int)
            }
        },
    }
}

fn calculate_strategy<const DIM: usize>(count: usize) -> (result: (u8, PaletteMode))
    requires
        count >= 2,
    ensures
        result == strategy(DIM as int, count as int),
{
    if DIM == 16 {
        if count <= 16 {
            (4, PaletteMode::Linear)
        } else if count <= 32 {
            (5, PaletteMode::Hash)
        } else if count <= 64 {
            (6, PaletteMode::Hash)
        } else if count <= 128 {
            (7, PaletteMode::Hash)
        } else if count <= 256 {
            (8, PaletteMode::Hash)
        } else {
            (15, PaletteMode::Global)
        }
    } else if count <= 2 {
        (1, PaletteMode::Linear)
    } else if count <= 4 {
        (2, PaletteMode::Linear)
    } else if count <= 8 {
        (3, PaletteMode::Hash)
    } else {
        (6, PaletteMode::Global)
    }
}

impl<V: ToGlobalId, const DIM: usize> PalettedContainer<V, DIM> {
    /// Returns the serialized form of the container: bits per cell, palette and
    /// packed cells.
    #[must_use]
    pub fn encode(&self) -> (encoding: PaletteEncoding)
        requires
            self.wf(),
        ensures
            encodes(encoding, *self),
    {
        match self {
            PalettedContainer::Homogeneous(value) => PaletteEncoding::Single {
                id: value.to_global_id(),
            },
            PalettedContainer::Heterogeneous(data) => {
                proof {
                    lemma_volume(DIM as int);
                    data.entries_match();
                }
                let (bits, mode) = calculate_strategy::<DIM>(data.palette.len());
                let mut indices: Vec<u32> = Vec::new();
                let mut c: usize = 0;
                while c < data.cube.len()
                    invariant
                        data@.len() <= 64000,
                        data@ == data.cube@,
                        c <= data@.len(),
                        palette_matches(data.palette@, data@),
                        mode != PaletteMode::Global ==> data.palette@.len() <= 256,
                        indices@.len() == c,
                        forall|j: int|
                            0 <= j < c ==> #[trigger] indices@[j] == if mode
                                == PaletteMode::Global {
                                data@[j].global_id()
                            } else {
                                position_of(data.palette@, data@[j]) as u32
                            },
                    decreases data@.len() - c,
                {
                    let value: V = data.cube[c];
                    if mode == PaletteMode::Global {
                        indices.push(value.to_global_id());
                    } else {
                        match palette_position(&data.palette, value) {
                            Some(position) => {
                                proof {
                                    let chosen = position_of(data.palette@, value);
                                    assert(data.palette@[position as int].0 == value);
                                    assert(0 <= chosen < data.palette@.len()
                                        && data.palette@[chosen].0 == value);
                                    assert(chosen == position);
                                }
                                indices.push(position as u32);
                            },
                            None => {
                                assert(palette_has(data.palette@, data@[c as int]));
                            },
                        }
                    }
                    c += 1;
                }
                let longs: Vec<u64> = pack_bits(indices.as_slice(), bits as usize);
                if mode == PaletteMode::Global {
                    assert(indices@ =~= cell_ids(data@));
                    PaletteEncoding::Direct { bits, longs }
                } else {
                    assert(indices@ =~= cell_positions(data.palette@, data@));
                    let mut palette: Vec<u32> = Vec::new();
                    let mut i: usize = 0;
                    while i < data.palette.len()
                        invariant
                            i <= data.palette@.len(),
                            palette@.len() == i,
                            forall|j: int|
                                0 <= j < i ==> #[trigger] palette@[j]
                                    == data.palette@[j].0.global_id(),
                        decreases data.palette@.len() - i,
                    {
                        palette.push(data.palette[i].0.to_global_id());
                        i += 1;
                    }
                    assert(palette@ =~= data.entries().map_values(
                        |entry: (V, u16)| entry.0.global_id(),
                    ));
                    PaletteEncoding::Indirect { bits, palette, longs }
                }
            },
        }
    }
}

/// Palette positions fit in the bits that the strategy gives them, so that the
/// cells of an indirect encoding are read back from its words.
pub proof fn indirect_positions_fit<V>(dim: int, palette: Seq<(V, u16)>, values: Seq<V>, c: int)
    requires
        palette_matches(palette, values),
        palette.len() >= 2,
        strategy(dim, palette.len() as int).1 != PaletteMode::Global,
        0 <= c < values.len(),
    ensures
        (cell_positions(palette, values)[c] as u64) < 1u64 << (strategy(
            dim,
            palette.len() as int,
        ).0 as u64),
        palette[cell_positions(palette, values)[c] as int].0 == values[c],
{
    assert(palette_has(palette, values[c]));
    let position = position_of(palette, values[c]);
    assert(0 <= position < palette.len());
    lemma_powers();
}

proof fn lemma_powers()
    by (bit_vector)
    ensures
        1u64 << 1u64 == 2,
        1u64 << 2u64 == 4,
        1u64 << 3u64 == 8,
        1u64 << 4u64 == 16,
        1u64 << 5u64 == 32,
        1u64 << 6u64 == 64,
        1u64 << 7u64 == 128,
        1u64 << 8u64 == 256,
{
}

} // verus!
