//! Light nibbles of one section, with an updating and a visible view.
use vstd::prelude::*;

use crate::data_layer::{filled_content, stored_content, DataLayer, DataLayerLengthError};
use crate::packed::{
    data_from_slice, filled_data, levels_valid, local_index, nibble_at, pack, pack_of_unpack,
    read_nibble, section_local_index, uniform, unpack, unpack_of_pack, write_nibble,
};
use crate::{DATA_LAYER_BLOCK_COUNT, DATA_LAYER_EDGE, DATA_LAYER_SIZE, DATA_LAYER_Y_STRIDE};

verus! {

/// Light nibble state for one 16x16x16 light section.
#[derive(Debug, Clone, Copy, PartialEq, Eq, Structural)]
pub enum LightNibbleState {
    /// No light data exists for this section; reads behave as zero.
    Null,
    /// Section exists but stores only zeroes without backing bytes.
    Uninitialized,
    /// Section stores concrete nibble bytes.
    Initialized,
    /// Section stores concrete bytes but should be treated as missing externally.
    Hidden,
}

/// Error returned when trying to extrude from a null light section.
#[derive(Debug, Clone, Copy, PartialEq, Eq, Structural)]
pub struct LightNibbleExtrudeNullSourceError;

/// Save representation of one visible light nibble section.
#[derive(Debug, PartialEq, Eq)]
pub struct LightNibbleSaveState {
    /// State to persist for this light section.
    pub state: LightNibbleState,
    /// Packed nibble bytes when the section has non-zero initialized data.
    pub data: Option<Box<[u8; DATA_LAYER_SIZE]>>,
}

/// One of the two views of a nibble section.
#[verifier::ext_equal]
pub struct NibblePlane {
    /// How the section is kept.
    pub state: LightNibbleState,
    /// The 4096 levels; all zero where no bytes are kept.
    pub levels: Seq<u8>,
}

/// What a nibble section holds.
#[verifier::ext_equal]
pub struct NibbleView {
    /// What writes change.
    pub updating: NibblePlane,
    /// What outside readers see.
    pub visible: NibblePlane,
    /// Whether bytes were written since the views were last made equal.
    pub written: bool,
}

impl LightNibbleState {
    /// The section keeps bytes in this state.
    pub open spec fn keeps_bytes(self) -> bool {
        self == LightNibbleState::Initialized || self == LightNibbleState::Hidden
    }

    /// The state after a write to the bytes.
    pub open spec fn after_write(self) -> LightNibbleState {
        if self == LightNibbleState::Hidden {
            LightNibbleState::Hidden
        } else {
            LightNibbleState::Initialized
        }
    }
}

/// A view without bytes.
pub open spec fn zero_plane(state: LightNibbleState) -> NibblePlane {
    NibblePlane { state, levels: uniform(0) }
}

/// A section both of whose views are the given one.
pub open spec fn clean_view(plane: NibblePlane) -> NibbleView {
    NibbleView { updating: plane, visible: plane, written: false }
}

/// The levels that repeat the bottom row of `levels` in every row.
pub open spec fn repeat_bottom_row(levels: Seq<u8>) -> Seq<u8> {
    Seq::new(4096, |index: int| levels[index % 256])
}

/// The save form of a visible view: all-zero bytes are saved as uninitialized
/// when initialized, and not at all when hidden.
pub open spec fn canonical_state(plane: NibblePlane) -> Option<(LightNibbleState, bool)> {
    if plane.state == LightNibbleState::Null {
        None
    } else if plane.state == LightNibbleState::Uninitialized {
        Some((LightNibbleState::Uninitialized, false))
    } else if plane.levels == uniform(0) {
        if plane.state == LightNibbleState::Hidden {
            None
        } else {
            Some((LightNibbleState::Uninitialized, false))
        }
    } else {
        Some((plane.state, true))
    }
}

/// Single-writer, multi-reader light nibbles with visible and updating state.
///
/// Writes mutate the updating view, `update_visible` publishes it, and reads
/// choose either visible or updating values explicitly.
#[derive(Debug)]
pub struct LightNibbleArray {
    updating_state: LightNibbleState,
    visible_state: LightNibbleState,
    updating_data: Option<Box<[u8; DATA_LAYER_SIZE]>>,
    visible_data: Option<Box<[u8; DATA_LAYER_SIZE]>>,
    updating_dirty: bool,
}

spec fn data_levels(data: Option<Box<[u8; DATA_LAYER_SIZE]>>) -> Seq<u8> {
    match data {
        Some(data) => unpack(data@),
        None => uniform(0),
    }
}

fn copy_data(data: &Option<Box<[u8; DATA_LAYER_SIZE]>>) -> (copied: Option<
    Box<[u8; DATA_LAYER_SIZE]>,
>)
    ensures
        copied is Some <==> data is Some,
        data_levels(copied) == data_levels(*data),
{
    match data {
        Some(data) => Some(Box::new(**data)),
        None => None,
    }
}

fn is_all_zero(data: &[u8; DATA_LAYER_SIZE]) -> (result: bool)
    ensures
        result == (unpack(data@) == uniform(0)),
{
    let mut i: usize = 0;
    while i < DATA_LAYER_SIZE
        invariant
            i <= 2048,
            forall|j: int| 0 <= j < i ==> data@[j] == 0,
        decreases 2048 - i,
    {
        if data[i] != 0 {
            proof {
                let low = nibble_at(data@, 2 * i as int);
                let high = nibble_at(data@, 2 * i as int + 1);
                assert(low != 0 || high != 0);
                assert(unpack(data@)[2 * i as int] == low);
                assert(unpack(data@)[2 * i as int + 1] == high);
                assert(uniform(0)[2 * i as int] == 0);
                assert(uniform(0)[2 * i as int + 1] == 0);
            }
            return false;
        }
        i += 1;
    }
    assert(unpack(data@) =~= uniform(0));
    true
}

impl View for LightNibbleArray {
    type V = NibbleView;

    closed spec fn view(&self) -> NibbleView {
        NibbleView {
            updating: NibblePlane {
                state: self.updating_state,
                levels: data_levels(self.updating_data),
            },
            visible: NibblePlane {
                state: self.visible_state,
                levels: data_levels(self.visible_data),
            },
            written: self.updating_dirty,
        }
    }
}

impl LightNibbleArray {
    /// Bytes are kept exactly in the initialized and hidden states, and the two
    /// views agree unless a write or a change of state set them apart.
    pub closed spec fn wf(&self) -> bool {
        &&& self.updating_state.keeps_bytes() <==> self.updating_data is Some
        &&& self.visible_state.keeps_bytes() <==> self.visible_data is Some
        &&& !self.updating_dirty && self.updating_state.keeps_bytes()
            && self.visible_state.keeps_bytes() ==> data_levels(self.updating_data) == data_levels(
            self.visible_data,
        )
    }

    /// The views differ, or bytes were written since they were made equal.
    pub open spec fn dirty(&self) -> bool {
        self@.written || self@.updating.state != self@.visible.state
    }

    /// Both views hold 4096 levels of four bits, all zero where no bytes are
    /// kept, and a section that is not dirty has equal views.
    pub proof fn views_valid(&self)
        requires
            self.wf(),
        ensures
            levels_valid(self@.updating.levels),
            levels_valid(self@.visible.levels),
            !self@.updating.state.keeps_bytes() ==> self@.updating.levels == uniform(0),
            !self@.visible.state.keeps_bytes() ==> self@.visible.levels == uniform(0),
            !self.dirty() ==> self@.updating == self@.visible,
    {
        if let Some(data) = self.updating_data {
            pack_of_unpack(data@);
        }
        if let Some(data) = self.visible_data {
            pack_of_unpack(data@);
        }
    }

    /// Creates a null nibble section.
    #[must_use]
    pub fn null() -> (nibble: Self)
        ensures
            nibble.wf(),
            nibble@ == clean_view(zero_plane(LightNibbleState::Null)),
    {
        LightNibbleArray {
            updating_state: LightNibbleState::Null,
            visible_state: LightNibbleState::Null,
            updating_data: None,
            visible_data: None,
            updating_dirty: false,
        }
    }

    /// Creates an uninitialized, all-zero nibble section.
    #[must_use]
    pub fn uninitialized() -> (nibble: Self)
        ensures
            nibble.wf(),
            nibble@ == clean_view(zero_plane(LightNibbleState::Uninitialized)),
    {
        LightNibbleArray {
            updating_state: LightNibbleState::Uninitialized,
            visible_state: LightNibbleState::Uninitialized,
            updating_data: None,
            visible_data: None,
            updating_dirty: false,
        }
    }

    /// Creates an initialized nibble section from packed bytes.
    pub fn initialized_from_bytes(bytes: Box<[u8]>) -> (result: Result<Self, DataLayerLengthError>)
        ensures
            match result {
                Ok(nibble) => {
                    &&& bytes@.len() == DATA_LAYER_SIZE
                    &&& nibble.wf()
                    &&& nibble@ == clean_view(
                        (NibblePlane {
                            state: LightNibbleState::Initialized,
                            levels: unpack(bytes@),
                        }),
                    )
                },
                Err(error) => bytes@.len() != DATA_LAYER_SIZE && error.actual == bytes@.len(),
            },
    {
        let actual: usize = bytes.len();
        if actual != DATA_LAYER_SIZE {
            return Err(DataLayerLengthError { actual });
        }
        Ok(Self::from_packed_data(data_from_slice(&bytes)))
    }

    /// Creates a hidden initialized nibble section from packed bytes.
    pub fn hidden_from_bytes(bytes: Box<[u8]>) -> (result: Result<Self, DataLayerLengthError>)
        ensures
            match result {
                Ok(nibble) => {
                    &&& bytes@.len() == DATA_LAYER_SIZE
                    &&& nibble.wf()
                    &&& nibble@ == clean_view(
                        (NibblePlane { state: LightNibbleState::Hidden, levels: unpack(bytes@) }),
                    )
                },
                Err(error) => bytes@.len() != DATA_LAYER_SIZE && error.actual == bytes@.len(),
            },
    {
        let mut nibble: LightNibbleArray = match Self::initialized_from_bytes(bytes) {
            Ok(nibble) => nibble,
            Err(error) => {
                return Err(error);
            },
        };
        nibble.updating_state = LightNibbleState::Hidden;
        nibble.visible_state = LightNibbleState::Hidden;
        Ok(nibble)
    }

    /// Creates a nibble section from optional layer data.
    #[must_use]
    pub fn from_data_layer(layer: Option<&DataLayer>) -> (nibble: Self)
        ensures
            nibble.wf(),
            nibble@ == clean_view(
                match layer {
                    None => zero_plane(LightNibbleState::Null),
                    Some(layer) => if layer@ == filled_content(0) {
                        zero_plane(LightNibbleState::Uninitialized)
                    } else {
                        NibblePlane {
                            state: LightNibbleState::Initialized,
                            levels: layer@.levels,
                        }
                    },
                },
            ),
    {
        match layer {
            None => Self::null(),
            Some(layer) => {
                if layer.is_empty() {
                    Self::uninitialized()
                } else {
                    Self::from_packed_data(layer.to_bytes())
                }
            },
        }
    }

    /// Creates an initialized homogeneous nibble section.
    #[must_use]
    pub fn filled(value: u8) -> (nibble: Self)
        ensures
            nibble.wf(),
            nibble@ == clean_view(
                (NibblePlane {
                    state: LightNibbleState::Initialized,
                    levels: uniform((value % 16) as u8),
                }),
            ),
    {
        Self::from_packed_data(filled_data(value))
    }

    /// Returns the updating state.
    #[must_use]
    pub fn updating_state(&self) -> (state: LightNibbleState)
        ensures
            state == self@.updating.state,
    {
        self.updating_state
    }

    /// Returns the visible state.
    #[must_use]
    pub fn visible_state(&self) -> (state: LightNibbleState)
        ensures
            state == self@.visible.state,
    {
        self.visible_state
    }

    /// Returns whether updating and visible views differ, or bytes were written
    /// since they were made equal.
    #[must_use]
    pub fn is_dirty(&self) -> (result: bool)
        requires
            self.wf(),
        ensures
            result == self.dirty(),
            !result ==> self@.updating == self@.visible,
    {
        proof {
            self.views_valid();
        }
        self.updating_dirty || self.updating_state != self.visible_state
    }

    /// Returns true when the updating view is null.
    #[must_use]
    pub fn is_null_updating(&self) -> (result: bool)
        ensures
            result == (self@.updating.state == LightNibbleState::Null),
    {
        self.updating_state == LightNibbleState::Null
    }

    /// Returns true when the visible view is null.
    #[must_use]
    pub fn is_null_visible(&self) -> (result: bool)
        ensures
            result == (self@.visible.state == LightNibbleState::Null),
    {
        self.visible_state == LightNibbleState::Null
    }

    /// Returns true when the updating view is initialized.
    #[must_use]
    pub fn is_initialized_updating(&self) -> (result: bool)
        ensures
            result == (self@.updating.state == LightNibbleState::Initialized),
    {
        self.updating_state == LightNibbleState::Initialized
    }

    /// Returns true when the visible view is initialized.
    #[must_use]
    pub fn is_initialized_visible(&self) -> (result: bool)
        ensures
            result == (self@.visible.state == LightNibbleState::Initialized),
    {
        self.visible_state == LightNibbleState::Initialized
    }

    /// Marks the updating view as non-null without allocating storage.
    pub fn set_non_null(&mut self)
        requires
            old(self).wf(),
        ensures
            final(self).wf(),
            final(self)@ == (NibbleView {
                updating: NibblePlane {
                    state: match old(self)@.updating.state {
                        LightNibbleState::Hidden => LightNibbleState::Initialized,
                        LightNibbleState::Null => LightNibbleState::Uninitialized,
                        state => state,
                    },
                    levels: old(self)@.updating.levels,
                },
                ..old(self)@
            }),
    {
        match self.updating_state {
            LightNibbleState::Hidden => {
                self.updating_state = LightNibbleState::Initialized;
            },
            LightNibbleState::Null => {
                self.updating_state = LightNibbleState::Uninitialized;
            },
            LightNibbleState::Uninitialized | LightNibbleState::Initialized => {},
        }
    }

    /// Marks the updating view as null and drops updating bytes.
    pub fn set_null(&mut self)
        requires
            old(self).wf(),
        ensures
            final(self).wf(),
            final(self)@ == (NibbleView {
                updating: zero_plane(LightNibbleState::Null),
                visible: old(self)@.visible,
                written: false,
            }),
    {
        self.updating_state = LightNibbleState::Null;
        self.updating_data = None;
        self.updating_dirty = false;
    }

    /// Marks the updating view as uninitialized and drops updating bytes.
    pub fn set_uninitialized(&mut self)
        requires
            old(self).wf(),
        ensures
            final(self).wf(),
            final(self)@ == (NibbleView {
                updating: zero_plane(LightNibbleState::Uninitialized),
                visible: old(self)@.visible,
                written: false,
            }),
    {
        self.updating_state = LightNibbleState::Uninitialized;
        self.updating_data = None;
        self.updating_dirty = false;
    }

    /// Hides initialized updating bytes from external conversion.
    pub fn set_hidden(&mut self)
        requires
            old(self).wf(),
        ensures
            final(self).wf(),
            final(self)@ == (if old(self)@.updating.state.keeps_bytes() {
                NibbleView {
                    updating: NibblePlane {
                        state: LightNibbleState::Hidden,
                        levels: old(self)@.updating.levels,
                    },
                    ..old(self)@
                }
            } else {
                NibbleView {
                    updating: zero_plane(LightNibbleState::Null),
                    visible: old(self)@.visible,
                    written: false,
                }
            }),
    {
        match self.updating_state {
            LightNibbleState::Hidden => {},
            LightNibbleState::Initialized => {
                self.updating_state = LightNibbleState::Hidden;
            },
            LightNibbleState::Null | LightNibbleState::Uninitialized => self.set_null(),
        }
    }

    /// Fills the updating view with one light value.
    pub fn fill(&mut self, value: u8)
        requires
            old(self).wf(),
        ensures
            final(self).wf(),
            final(self)@ == (NibbleView {
                updating: NibblePlane {
                    state: old(self)@.updating.state.after_write(),
                    levels: uniform((value % 16) as u8),
                },
                visible: old(self)@.visible,
                written: true,
            }),
    {
        self.ensure_updating_data();
        self.updating_data = Some(filled_data(value));
    }

    /// Extrudes the first updating row of `above` into every row of this updating view.
    pub fn extrude_lower(&mut self, above: &Self) -> (result: Result<
        (),
        LightNibbleExtrudeNullSourceError,
    >)
        requires
            old(self).wf(),
            above.wf(),
        ensures
            final(self).wf(),
            result is Err <==> above@.updating.state == LightNibbleState::Null,
            final(self)@ == (match above@.updating.state {
                LightNibbleState::Null => old(self)@,
                LightNibbleState::Uninitialized => NibbleView {
                    updating: zero_plane(LightNibbleState::Uninitialized),
                    visible: old(self)@.visible,
                    written: false,
                },
                _ => NibbleView {
                    updating: NibblePlane {
                        state: old(self)@.updating.state.after_write(),
                        levels: repeat_bottom_row(above@.updating.levels),
                    },
                    visible: old(self)@.visible,
                    written: true,
                },
            }),
    {
        let row: Option<[u8; DATA_LAYER_Y_STRIDE]> = match above.lower_row_for_extrusion() {
            Ok(row) => row,
            Err(error) => {
                return Err(error);
            },
        };
        self.extrude_lower_row(row);
        proof {
            if let Some(bytes) = row {
                assert(repeat_bottom_row(Seq::new(256, |i: int| nibble_at(bytes@, i)))
                    =~= repeat_bottom_row(above@.updating.levels));
            }
        }
        Ok(())
    }

    /// Returns the bottom row used when another nibble extrudes from this one.
    pub fn lower_row_for_extrusion(&self) -> (result: Result<
        Option<[u8; DATA_LAYER_Y_STRIDE]>,
        LightNibbleExtrudeNullSourceError,
    >)
        requires
            self.wf(),
        ensures
            match result {
                Err(_) => self@.updating.state == LightNibbleState::Null,
                Ok(None) => self@.updating.state == LightNibbleState::Uninitialized,
                Ok(Some(row)) => {
                    &&& self@.updating.state.keeps_bytes()
                    &&& forall|index: int|
                        0 <= index < 256 ==> nibble_at(row@, index)
                            == #[trigger] self@.updating.levels[index]
                },
            },
    {
        if self.updating_state == LightNibbleState::Null {
            return Err(LightNibbleExtrudeNullSourceError);
        }
        match &self.updating_data {
            None => Ok(None),
            Some(source) => {
                let mut row: [u8; DATA_LAYER_Y_STRIDE] = [0u8; DATA_LAYER_Y_STRIDE];
                let mut i: usize = 0;
                while i < DATA_LAYER_Y_STRIDE
                    invariant
                        i <= 128,
                        forall|j: int| 0 <= j < i ==> row@[j] == source@[j],
                    decreases 128 - i,
                {
                    row[i] = source[i];
                    i += 1;
                }
                Ok(Some(row))
            },
        }
    }

    /// Extrudes one bottom row into every row of this updating view.
    pub fn extrude_lower_row(&mut self, row: Option<[u8; DATA_LAYER_Y_STRIDE]>)
        requires
            old(self).wf(),
        ensures
            final(self).wf(),
            final(self)@ == (match row {
                None => NibbleView {
                    updating: zero_plane(LightNibbleState::Uninitialized),
                    visible: old(self)@.visible,
                    written: false,
                },
                Some(row) => NibbleView {
                    updating: NibblePlane {
                        state: old(self)@.updating.state.after_write(),
                        levels: repeat_bottom_row(Seq::new(256, |i: int| nibble_at(row@, i))),
                    },
                    visible: old(self)@.visible,
                    written: true,
                },
            }),
    {
        let row: [u8; DATA_LAYER_Y_STRIDE] = match row {
            Some(row) => row,
            None => {
                self.set_uninitialized();
                return ;
            },
        };
        self.ensure_updating_data();
        self.updating_data = Some(repeat_row(&row));
    }

    /// Returns an updating light value at local section coordinates.
    #[must_use]
    pub fn get_updating(&self, x: usize, y: usize, z: usize) -> (level: u8)
        requires
            x < DATA_LAYER_EDGE,
            y < DATA_LAYER_EDGE,
            z < DATA_LAYER_EDGE,
        ensures
            level == self@.updating.levels[local_index(x as int, y as int, z as int)],
            level < 16,
    {
        self.get_updating_at_index(section_local_index(x, y, z))
    }

    /// Returns an updating light value at a local section index.
    #[must_use]
    pub fn get_updating_at_index(&self, index: usize) -> (level: u8)
        requires
            index < DATA_LAYER_BLOCK_COUNT,
        ensures
            level == self@.updating.levels[index as int],
            level < 16,
    {
        match &self.updating_data {
            Some(data) => read_nibble(data, index),
            None => 0,
        }
    }

    /// Returns a visible light value at local section coordinates.
    #[must_use]
    pub fn get_visible(&self, x: usize, y: usize, z: usize) -> (level: u8)
        requires
            x < DATA_LAYER_EDGE,
            y < DATA_LAYER_EDGE,
            z < DATA_LAYER_EDGE,
        ensures
            level == self@.visible.levels[local_index(x as int, y as int, z as int)],
            level < 16,
    {
        self.get_visible_at_index(section_local_index(x, y, z))
    }

    /// Returns a visible light value at a local section index.
    #[must_use]
    pub fn get_visible_at_index(&self, index: usize) -> (level: u8)
        requires
            index < DATA_LAYER_BLOCK_COUNT,
        ensures
            level == self@.visible.levels[index as int],
            level < 16,
    {
        match &self.visible_data {
            Some(data) => read_nibble(data, index),
            None => 0,
        }
    }

    /// Sets an updating light value at local section coordinates.
    pub fn set(&mut self, x: usize, y: usize, z: usize, value: u8)
        requires
            old(self).wf(),
            x < DATA_LAYER_EDGE,
            y < DATA_LAYER_EDGE,
            z < DATA_LAYER_EDGE,
        ensures
            final(self).wf(),
            final(self)@ == nibble_set(
                old(self)@,
                local_index(x as int, y as int, z as int),
                value,
            ),
    {
        self.set_at_index(section_local_index(x, y, z), value);
    }

    /// Sets an updating light value at a local section index.
    pub fn set_at_index(&mut self, index: usize, value: u8)
        requires
            old(self).wf(),
            index < DATA_LAYER_BLOCK_COUNT,
        ensures
            final(self).wf(),
            final(self)@ == nibble_set(old(self)@, index as int, value),
    {
        self.ensure_updating_data();
        match &mut self.updating_data {
            Some(data) => write_nibble(data, index, value),
            None => {},
        }
    }

    /// Publishes the updating view and returns whether the section was dirty.
    pub fn update_visible(&mut self) -> (changed: bool)
        requires
            old(self).wf(),
        ensures
            final(self).wf(),
            changed == old(self).dirty(),
            final(self)@ == clean_view(old(self)@.updating),
    {
        if !self.is_dirty() {
            return false;
        }
        self.visible_state = self.updating_state;
        self.visible_data = copy_data(&self.updating_data);
        self.updating_dirty = false;
        true
    }

    /// Converts the visible view into `DataLayer` packet and save data.
    #[must_use]
    pub fn to_data_layer(&self) -> (result: Option<DataLayer>)
        requires
            self.wf(),
        ensures
            match result {
                None => self@.visible.state == LightNibbleState::Null || self@.visible.state
                    == LightNibbleState::Hidden,
                Some(layer) => match self@.visible.state {
                    LightNibbleState::Uninitialized => layer@ == filled_content(0),
                    LightNibbleState::Initialized => layer@ == stored_content(self@.visible.levels),
                    _ => false,
                },
            },
    {
        match self.visible_state {
            LightNibbleState::Null | LightNibbleState::Hidden => None,
            LightNibbleState::Uninitialized => Some(DataLayer::new()),
            LightNibbleState::Initialized => {
                match &self.visible_data {
                    Some(data) => Some(DataLayer::from_packed_data(Box::new(**data))),
                    None => None,
                }
            },
        }
    }

    /// Converts the visible view into its save state.
    ///
    /// All-zero initialized sections are persisted as uninitialized, and all-zero
    /// hidden sections are omitted.
    #[must_use]
    pub fn to_save_state(&self) -> (result: Option<LightNibbleSaveState>)
        requires
            self.wf(),
        ensures
            match canonical_state(self@.visible) {
                None => result is None,
                Some((state, has_data)) => {
                    &&& result matches Some(save)
                    &&& save.state == state
                    &&& save.data is Some <==> has_data
                    &&& save.data matches Some(data) ==> data@ == pack(self@.visible.levels)
                        && unpack(data@) == self@.visible.levels
                },
            },
    {
        match self.visible_state {
            LightNibbleState::Null => None,
            LightNibbleState::Uninitialized => Some(
                LightNibbleSaveState { state: LightNibbleState::Uninitialized, data: None },
            ),
            LightNibbleState::Initialized | LightNibbleState::Hidden => {
                match &self.visible_data {
                    None => None,
                    Some(data) => {
                        if is_all_zero(data) {
                            if self.visible_state == LightNibbleState::Hidden {
                                return None;
                            }
                            return Some(
                                LightNibbleSaveState {
                                    state: LightNibbleState::Uninitialized,
                                    data: None,
                                },
                            );
                        }
                        proof {
                            pack_of_unpack(data@);
                        }
                        Some(
                            LightNibbleSaveState {
                                state: self.visible_state,
                                data: Some(Box::new(**data)),
                            },
                        )
                    },
                }
            },
        }
    }

    fn from_packed_data(data: Box<[u8; DATA_LAYER_SIZE]>) -> (nibble: Self)
        ensures
            nibble.wf(),
            nibble@ == clean_view(
                (NibblePlane { state: LightNibbleState::Initialized, levels: unpack(data@) }),
            ),
    {
        LightNibbleArray {
            updating_state: LightNibbleState::Initialized,
            visible_state: LightNibbleState::Initialized,
            updating_data: Some(Box::new(*data)),
            visible_data: Some(data),
            updating_dirty: false,
        }
    }

    fn ensure_updating_data(&mut self)
        requires
            old(self).wf(),
        ensures
            final(self).wf(),
            final(self).updating_data is Some,
            final(self)@ == (NibbleView {
                updating: NibblePlane {
                    state: old(self)@.updating.state.after_write(),
                    levels: old(self)@.updating.levels,
                },
                visible: old(self)@.visible,
                written: true,
            }),
    {
        if self.updating_state != LightNibbleState::Hidden {
            self.updating_state = LightNibbleState::Initialized;
        }
        if self.updating_data.is_none() {
            self.updating_data = Some(filled_data(0));
        }
        self.updating_dirty = true;
    }
}

/// A section after one updating level was set.
pub open spec fn nibble_set(before: NibbleView, index: int, value: u8) -> NibbleView {
    NibbleView {
        updating: NibblePlane {
            state: before.updating.state.after_write(),
            levels: before.updating.levels.update(index, (value % 16) as u8),
        },
        visible: before.visible,
        written: true,
    }
}

/// Returns packed data that repeats one row in every row.
pub(crate) fn repeat_row(row: &[u8; DATA_LAYER_Y_STRIDE]) -> (data: Box<[u8; DATA_LAYER_SIZE]>)
    ensures
        unpack(data@) == repeat_bottom_row(Seq::new(256, |i: int| nibble_at(row@, i))),
{
    let mut data: Box<[u8; DATA_LAYER_SIZE]> = Box::new([0u8; DATA_LAYER_SIZE]);
    let mut i: usize = 0;
    while i < DATA_LAYER_SIZE
        invariant
            i <= 2048,
            forall|j: int| 0 <= j < i ==> data@[j] == row@[j % 128],
        decreases 2048 - i,
    {
        data[i] = row[i % DATA_LAYER_Y_STRIDE];
        i += 1;
    }
    proof {
        let repeated = repeat_bottom_row(Seq::new(256, |i: int| nibble_at(row@, i)));
        assert forall|index: int| 0 <= index < 4096 implies #[trigger] unpack(data@)[index]
            == repeated[index] by {
            assert((index / 2) % 128 == (index % 256) / 2);
            assert((index % 256) % 2 == index % 2);
        }
        assert(unpack(data@) =~= repeated);
    }
    data
}

impl Default for LightNibbleArray {
    fn default() -> (nibble: Self)
        ensures
            nibble.wf(),
            nibble@ == clean_view(zero_plane(LightNibbleState::Null)),
    {
        LightNibbleArray::null()
    }
}

/// Publishing twice changes nothing the second time.
pub proof fn publish_is_idempotent(view: NibbleView)
    ensures
        clean_view(clean_view(view.updating).updating) == clean_view(view.updating),
        !clean_view(view.updating).written,
        clean_view(view.updating).updating == clean_view(view.updating).visible,
{
}

/// A write reaches the updating view at its index alone, and the visible view
/// only with the next publication.
pub proof fn write_then_publish(before: NibbleView, index: int, value: u8, other: int)
    requires
        levels_valid(before.updating.levels),
        0 <= index < 4096,
        0 <= other < 4096,
    ensures
        nibble_set(before, index, value).visible == before.visible,
        nibble_set(before, index, value).updating.levels[index] == value % 16,
        other != index ==> nibble_set(before, index, value).updating.levels[other]
            == before.updating.levels[other],
        clean_view(nibble_set(before, index, value).updating).visible.levels[index] == value % 16,
{
}

/// The visible view of a section that was saved and loaded again.
pub open spec fn reloaded(plane: NibblePlane) -> NibblePlane {
    match canonical_state(plane) {
        None => zero_plane(LightNibbleState::Null),
        Some((state, has_data)) => if has_data {
            NibblePlane { state, levels: unpack(pack(plane.levels)) }
        } else {
            zero_plane(state)
        },
    }
}

/// Saving and loading keeps every level, and saving again saves the same.
pub proof fn saving_keeps_levels(plane: NibblePlane)
    requires
        levels_valid(plane.levels),
        !plane.state.keeps_bytes() ==> plane.levels == uniform(0),
    ensures
        reloaded(plane).levels == plane.levels,
        canonical_state(reloaded(plane)) == canonical_state(plane),
{
    unpack_of_pack(plane.levels);
}

} // verus!
