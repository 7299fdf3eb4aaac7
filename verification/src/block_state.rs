//! Block states and the properties that lighting and section counters read.
use vstd::prelude::*;

use crate::position::Direction;
use crate::{LIGHT_BLOCKED, MIN_LIGHT_OPACITY};

verus! {

/// Number of ids that a block state can have.
pub const BLOCK_STATE_COUNT: usize = 65536;

/// A block state id.
#[derive(Debug, Clone, Copy, PartialEq, Eq, Hash, Structural)]
pub struct BlockStateId(pub u16);

/// What lighting and section counters read of one block state.
#[derive(Debug, Clone, Copy, PartialEq, Eq, Structural)]
pub struct BlockStateInfo {
    /// Whether the block is air.
    pub is_air: bool,
    /// Whether the block holds a fluid.
    pub has_fluid: bool,
    /// Whether the block takes random ticks.
    pub randomly_ticking: bool,
    /// How much light is lost on the way into the block.
    pub light_dampening: u8,
    /// How much light the block emits.
    pub light_emission: u8,
    /// Whether the block can occlude at all.
    pub can_occlude: bool,
    /// Whether light is occluded by the block's shape.
    pub use_shape_for_light_occlusion: bool,
    /// Index of the block's occlusion shape; index zero is the empty shape.
    pub occlusion_shape: u16,
}

/// The properties of every block state, and which pairs of occlusion shapes
/// occlude across a face.
///
/// For each pair of shapes and each direction the table keeps two answers: one
/// for the two shapes merged at the face they share, and one for the two face
/// shapes on their own.
pub struct BlockStateTable {
    states: Vec<BlockStateInfo>,
    shape_count: usize,
    merged_face_occludes: Vec<bool>,
    face_shape_occludes: Vec<bool>,
    air: BlockStateId,
}

/// The position of a direction among the six.
pub open spec fn direction_index(direction: Direction) -> int {
    match direction {
        Direction::Down => 0,
        Direction::Up => 1,
        Direction::North => 2,
        Direction::South => 3,
        Direction::West => 4,
        Direction::East => 5,
    }
}

/// The position of a pair of shapes and a direction in the answers.
pub open spec fn face_index(shape_count: int, from: int, to: int, direction: Direction) -> int {
    (from * shape_count + to) * 6 + direction_index(direction)
}

proof fn lemma_face_index(shape_count: int, from: int, to: int, direction: Direction)
    requires
        0 <= from < shape_count,
        0 <= to < shape_count,
    ensures
        0 <= from * shape_count + to < shape_count * shape_count,
        0 <= face_index(shape_count, from, to, direction) < shape_count * shape_count * 6,
{
    assert(0 <= from * shape_count + to < shape_count * shape_count) by (nonlinear_arith)
        requires
            0 <= from < shape_count,
            0 <= to < shape_count,
    ;
}

/// A table whose parts have the lengths that the shapes and ids call for.
pub open spec fn table_parts_valid(
    states: Seq<BlockStateInfo>,
    shape_count: int,
    merged: Seq<bool>,
    faces: Seq<bool>,
) -> bool {
    &&& states.len() == 65536
    &&& 0 < shape_count <= 4096
    &&& merged.len() == shape_count * shape_count * 6
    &&& faces.len() == shape_count * shape_count * 6
    &&& forall|id: int| 0 <= id < 65536 ==> #[trigger] states[id].occlusion_shape < shape_count
}

impl BlockStateTable {
    /// Every id has an entry, and every pair of shapes has its answers.
    pub closed spec fn wf(&self) -> bool {
        table_parts_valid(
            self.states@,
            self.shape_count as int,
            self.merged_face_occludes@,
            self.face_shape_occludes@,
        )
    }

    /// The properties of a state.
    pub closed spec fn info(&self, state: BlockStateId) -> BlockStateInfo {
        self.states@[state.0 as int]
    }

    /// The state that stands where no block is known.
    pub closed spec fn spec_air(&self) -> BlockStateId {
        self.air
    }

    /// Whether two shapes together cover the face between them.
    pub closed spec fn merged(&self, from: int, to: int, direction: Direction) -> bool {
        self.merged_face_occludes@[face_index(self.shape_count as int, from, to, direction)]
    }

    /// Whether the face shapes of two shapes cover the face between them.
    pub closed spec fn faces(&self, from: int, to: int, direction: Direction) -> bool {
        self.face_shape_occludes@[face_index(self.shape_count as int, from, to, direction)]
    }

    /// Creates a table from its parts. The answers are ordered by the shape
    /// that light leaves, then by the shape it enters, then by direction.
    ///
    /// Returns `None` when the parts do not fit together.
    #[must_use]
    pub fn new(
        states: Vec<BlockStateInfo>,
        shape_count: usize,
        merged_face_occludes: Vec<bool>,
        face_shape_occludes: Vec<bool>,
        air: BlockStateId,
    ) -> (result: Option<Self>)
        ensures
            match result {
                Some(table) => {
                    &&& table_parts_valid(
                        states@,
                        shape_count as int,
                        merged_face_occludes@,
                        face_shape_occludes@,
                    )
                    &&& table.wf()
                    &&& table.spec_air() == air
                    &&& forall|state: BlockStateId| #[trigger]
                        table.info(state) == states@[state.0 as int]
                    &&& forall|from: int, to: int, direction: Direction| #[trigger]
                        table.merged(from, to, direction)
                            == merged_face_occludes@[face_index(
                            shape_count as int,
                            from,
                            to,
                            direction,
                        )]
                    &&& forall|from: int, to: int, direction: Direction| #[trigger]
                        table.faces(from, to, direction) == face_shape_occludes@[face_index(
                            shape_count as int,
                            from,
                            to,
                            direction,
                        )]
                },
                None => !table_parts_valid(
                    states@,
                    shape_count as int,
                    merged_face_occludes@,
                    face_shape_occludes@,
                ),
            },
    {
        if states.len() != BLOCK_STATE_COUNT || shape_count == 0 || shape_count > 4096 {
            return None;
        }
        assert(shape_count * shape_count * 6 <= 100663296) by (nonlinear_arith)
            requires
                0 < shape_count <= 4096,
        ;
        assert(0 <= shape_count * shape_count <= 16777216) by (nonlinear_arith)
            requires
                0 < shape_count <= 4096,
        ;
        let answers: usize = shape_count * shape_count * 6;
        if merged_face_occludes.len() != answers || face_shape_occludes.len() != answers {
            return None;
        }
        let mut id: usize = 0;
        while id < BLOCK_STATE_COUNT
            invariant
                id <= 65536,
                states@.len() == 65536,
                forall|i: int| 0 <= i < id ==> #[trigger] states@[i].occlusion_shape < shape_count,
            decreases 65536 - id,
        {
            if states[id].occlusion_shape as usize >= shape_count {
                return None;
            }
            id += 1;
        }
        Some(
            BlockStateTable {
                states,
                shape_count,
                merged_face_occludes,
                face_shape_occludes,
                air,
            },
        )
    }

    /// Returns the properties of a state.
    #[must_use]
    pub fn get(&self, state: BlockStateId) -> (info: BlockStateInfo)
        requires
            self.wf(),
        ensures
            info == self.info(state),
    {
        self.states[state.0 as usize]
    }

    /// Returns the state that stands where no block is known.
    #[must_use]
    pub fn air(&self) -> (state: BlockStateId)
        ensures
            state == self.spec_air(),
    {
        self.air
    }

    /// The shape that occludes light around a state: the empty shape unless the
    /// state can occlude and occludes by its shape.
    pub open spec fn light_shape(&self, state: BlockStateId) -> int {
        let info = self.info(state);
        if info.can_occlude && info.use_shape_for_light_occlusion {
            info.occlusion_shape as int
        } else {
            0
        }
    }

    /// The opacity of a state for light that propagates into it.
    pub open spec fn opacity(&self, state: BlockStateId) -> u8 {
        let dampening = self.info(state).light_dampening;
        if dampening < 1 {
            1
        } else {
            dampening
        }
    }

    /// What light loses on its way from one state into another: it is blocked
    /// where their shapes together cover the face between them.
    pub open spec fn light_block_into(
        &self,
        from_state: BlockStateId,
        to_state: BlockStateId,
        direction: Direction,
        simple_opacity: u8,
    ) -> u8 {
        let from_shape = self.light_shape(from_state);
        let to_shape = self.light_shape(to_state);
        if (from_shape != 0 || to_shape != 0) && self.merged(from_shape, to_shape, direction) {
            16
        } else {
            simple_opacity
        }
    }

    /// Whether the face shapes of two states cover the face between them.
    pub open spec fn face_occludes(
        &self,
        from_state: BlockStateId,
        to_state: BlockStateId,
        direction: Direction,
    ) -> bool {
        self.faces(self.light_shape(from_state), self.light_shape(to_state), direction)
    }

    /// Whether a change between two states can change light.
    pub open spec fn light_differs(
        &self,
        old_state: BlockStateId,
        new_state: BlockStateId,
    ) -> bool {
        let old_info = self.info(old_state);
        let new_info = self.info(new_state);
        &&& old_state != new_state
        &&& old_info.light_dampening != new_info.light_dampening || old_info.light_emission
            != new_info.light_emission || old_info.use_shape_for_light_occlusion
            || new_info.use_shape_for_light_occlusion
    }
}

/// Returns whether lighting must be checked again after a block-state change.
#[must_use]
pub fn has_different_light_properties(
    table: &BlockStateTable,
    old_state: BlockStateId,
    new_state: BlockStateId,
) -> (result: bool)
    requires
        table.wf(),
    ensures
        result == table.light_differs(old_state, new_state),
{
    let old_info: BlockStateInfo = table.get(old_state);
    let new_info: BlockStateInfo = table.get(new_state);
    old_state != new_state && (old_info.light_dampening != new_info.light_dampening
        || old_info.light_emission != new_info.light_emission
        || old_info.use_shape_for_light_occlusion || new_info.use_shape_for_light_occlusion)
}

/// Returns the simple opacity for light propagation.
///
/// Light dampening is clamped to at least one while propagating through
/// neighbors.
#[must_use]
pub fn get_light_opacity(table: &BlockStateTable, state: BlockStateId) -> (opacity: u8)
    requires
        table.wf(),
    ensures
        opacity == table.opacity(state),
{
    let dampening: u8 = table.get(state).light_dampening;
    if dampening < MIN_LIGHT_OPACITY {
        MIN_LIGHT_OPACITY
    } else {
        dampening
    }
}

/// Returns the index of the occlusion shape that lighting uses for a block
/// state; zero is the empty shape.
#[must_use]
pub fn light_occlusion_shape(table: &BlockStateTable, state: BlockStateId) -> (shape: u16)
    requires
        table.wf(),
    ensures
        shape == table.light_shape(state),
{
    let info: BlockStateInfo = table.get(state);
    if !info.can_occlude || !info.use_shape_for_light_occlusion {
        return 0;
    }
    info.occlusion_shape
}

/// Returns what light loses on its way from one state into another.
#[must_use]
pub fn get_light_block_into(
    table: &BlockStateTable,
    from_state: BlockStateId,
    to_state: BlockStateId,
    direction: Direction,
    simple_opacity: u8,
) -> (opacity: u8)
    requires
        table.wf(),
    ensures
        opacity == table.light_block_into(from_state, to_state, direction, simple_opacity),
{
    let from_shape: u16 = light_occlusion_shape(table, from_state);
    let to_shape: u16 = light_occlusion_shape(table, to_state);
    if from_shape == 0 && to_shape == 0 {
        return simple_opacity;
    }
    let index: usize = table.answer_index(from_shape, to_shape, direction, from_state, to_state);
    if table.merged_face_occludes[index] {
        LIGHT_BLOCKED
    } else {
        simple_opacity
    }
}

/// Returns whether the selected state faces fully occlude light.
#[must_use]
pub fn light_face_occludes(
    table: &BlockStateTable,
    from_state: BlockStateId,
    to_state: BlockStateId,
    direction: Direction,
) -> (result: bool)
    requires
        table.wf(),
    ensures
        result == table.face_occludes(from_state, to_state, direction),
{
    let from_shape: u16 = light_occlusion_shape(table, from_state);
    let to_shape: u16 = light_occlusion_shape(table, to_state);
    let index: usize = table.answer_index(from_shape, to_shape, direction, from_state, to_state);
    table.face_shape_occludes[index]
}

impl BlockStateTable {
    fn answer_index(
        &self,
        from_shape: u16,
        to_shape: u16,
        direction: Direction,
        from_state: BlockStateId,
        to_state: BlockStateId,
    ) -> (index: usize)
        requires
            self.wf(),
            from_shape == self.light_shape(from_state),
            to_shape == self.light_shape(to_state),
        ensures
            index == face_index(
                self.shape_count as int,
                from_shape as int,
                to_shape as int,
                direction,
            ),
            index < self.merged_face_occludes@.len(),
            index < self.face_shape_occludes@.len(),
    {
        let direction_offset: usize = match direction {
            Direction::Down => 0,
            Direction::Up => 1,
            Direction::North => 2,
            Direction::South => 3,
            Direction::West => 4,
            Direction::East => 5,
        };
        proof {
            assert(self.states@[from_state.0 as int].occlusion_shape < self.shape_count);
            assert(self.states@[to_state.0 as int].occlusion_shape < self.shape_count);
            lemma_face_index(
                self.shape_count as int,
                from_shape as int,
                to_shape as int,
                direction,
            );
            assert(self.shape_count * self.shape_count <= 16777216) by (nonlinear_arith)
                requires
                    0 < self.shape_count <= 4096,
            ;
            assert(from_shape * self.shape_count >= 0) by (nonlinear_arith)
                requires
                    from_shape >= 0,
                    self.shape_count > 0,
            ;
        }
        (from_shape as usize * self.shape_count + to_shape as usize) * 6 + direction_offset
    }
}

/// Light that may pass between two states loses at least one level.
pub proof fn propagation_loses_light(
    table: &BlockStateTable,
    from_state: BlockStateId,
    to_state: BlockStateId,
    direction: Direction,
)
    ensures
        table.light_block_into(from_state, to_state, direction, table.opacity(to_state)) >= 1,
{
}

} // verus!
