//! Packed light of one section, and the map of sections to their light.
use vstd::prelude::*;

use crate::packed::{
    data_from_slice, filled_data, levels_valid, local_index, mask_level, pack, pack_of_unpack,
    read_nibble, section_local_index, uniform, unpack, write_nibble,
};
use crate::{DATA_LAYER_EDGE, DATA_LAYER_SIZE};

verus! {

/// Error returned when packed light data has the wrong length.
#[derive(Debug, Clone, Copy, PartialEq, Eq, Structural)]
pub struct DataLayerLengthError {
    /// Actual number of bytes provided.
    pub actual: usize,
}

/// What a light layer holds.
#[verifier::ext_equal]
pub struct LayerContent {
    /// The 4096 levels, in `y`, `z`, `x` order.
    pub levels: Seq<u8>,
    /// Whether one stored value stands for all of them.
    pub homogeneous: bool,
}

/// The content of a layer that stores one value.
pub open spec fn filled_content(value: u8) -> LayerContent {
    LayerContent { levels: uniform((value % 16) as u8), homogeneous: true }
}

/// The content of a layer that stores each of the levels.
pub open spec fn stored_content(levels: Seq<u8>) -> LayerContent {
    LayerContent { levels, homogeneous: false }
}

/// Packed 4-bit light values for one 16x16x16 light section.
///
/// Values are indexed as `y << 8 | z << 4 | x`, with two light nibbles packed
/// into each byte. A homogeneous layer stores only a default value until bytes
/// are needed.
#[derive(Debug, PartialEq, Eq)]
pub struct DataLayer {
    data: Option<Box<[u8; DATA_LAYER_SIZE]>>,
    default_value: u8,
}

impl View for DataLayer {
    type V = LayerContent;

    closed spec fn view(&self) -> LayerContent {
        match self.data {
            Some(data) => stored_content(unpack(data@)),
            None => filled_content(self.default_value),
        }
    }
}

impl DataLayer {
    /// Every layer holds 4096 levels of four bits.
    pub proof fn content_valid(&self)
        ensures
            levels_valid(self@.levels),
            self@.homogeneous ==> self@.levels == uniform(self@.levels[0]),
    {
        if let Some(data) = self.data {
            pack_of_unpack(data@);
        }
    }

    /// Creates an empty all-zero layer.
    #[must_use]
    pub fn new() -> (layer: Self)
        ensures
            layer@ == filled_content(0),
    {
        DataLayer { data: None, default_value: 0 }
    }

    /// Creates a homogeneous layer filled with `value`.
    #[must_use]
    pub fn filled(value: u8) -> (layer: Self)
        ensures
            layer@ == filled_content(value),
    {
        DataLayer { data: None, default_value: mask_level(value) }
    }

    /// Creates a layer from packed bytes, in low-nibble-first order.
    pub fn from_bytes(bytes: Box<[u8]>) -> (result: Result<Self, DataLayerLengthError>)
        ensures
            match result {
                Ok(layer) => bytes@.len() == DATA_LAYER_SIZE && layer@ == stored_content(
                    unpack(bytes@),
                ),
                Err(error) => bytes@.len() != DATA_LAYER_SIZE && error.actual == bytes@.len(),
            },
    {
        let actual: usize = bytes.len();
        if actual != DATA_LAYER_SIZE {
            return Err(DataLayerLengthError { actual });
        }
        Ok(Self::from_packed_data(data_from_slice(&bytes)))
    }

    /// Returns the light value at local section coordinates.
    #[must_use]
    pub fn get(&self, x: usize, y: usize, z: usize) -> (level: u8)
        requires
            x < DATA_LAYER_EDGE,
            y < DATA_LAYER_EDGE,
            z < DATA_LAYER_EDGE,
        ensures
            level == self@.levels[local_index(x as int, y as int, z as int)],
            level < 16,
    {
        self.get_at_index(section_local_index(x, y, z))
    }

    /// Sets the light value at local section coordinates.
    pub fn set(&mut self, x: usize, y: usize, z: usize, value: u8)
        requires
            x < DATA_LAYER_EDGE,
            y < DATA_LAYER_EDGE,
            z < DATA_LAYER_EDGE,
        ensures
            final(self)@ == stored_content(
                old(self)@.levels.update(
                    local_index(x as int, y as int, z as int),
                    (value % 16) as u8,
                ),
            ),
    {
        self.set_at_index(section_local_index(x, y, z), value);
    }

    /// Fills the layer with one homogeneous value.
    pub fn fill(&mut self, value: u8)
        ensures
            final(self)@ == filled_content(value),
    {
        *self = Self::filled(value);
    }

    /// Returns true when the layer is represented by one homogeneous value.
    #[must_use]
    pub fn is_homogeneous(&self) -> (result: bool)
        ensures
            result == self@.homogeneous,
    {
        self.data.is_none()
    }

    /// Returns true when the layer is known to be filled with `value`.
    #[must_use]
    pub fn is_filled_with(&self, value: u8) -> (result: bool)
        ensures
            result == (self@ == filled_content(value)),
    {
        proof {
            assert(self@.levels[0] == uniform(self@.levels[0])[0]);
            assert(filled_content(value).levels[0] == value % 16);
        }
        self.data.is_none() && mask_level(self.default_value) == mask_level(value)
    }

    /// Returns true when this layer is an all-zero homogeneous layer.
    #[must_use]
    pub fn is_empty(&self) -> (result: bool)
        ensures
            result == (self@ == filled_content(0)),
    {
        self.is_filled_with(0)
    }

    /// Returns a deep copy of this layer.
    #[must_use]
    pub fn copy(&self) -> (copied: Self)
        ensures
            copied@ == self@,
    {
        let data: Option<Box<[u8; DATA_LAYER_SIZE]>> = match &self.data {
            Some(data) => Some(Box::new(**data)),
            None => None,
        };
        DataLayer { data, default_value: self.default_value }
    }

    /// Returns packed bytes without changing the layer representation.
    #[must_use]
    pub fn to_bytes(&self) -> (bytes: Box<[u8; DATA_LAYER_SIZE]>)
        ensures
            bytes@ == pack(self@.levels),
            unpack(bytes@) == self@.levels,
    {
        let bytes: Box<[u8; DATA_LAYER_SIZE]> = match &self.data {
            Some(data) => Box::new(**data),
            None => filled_data(self.default_value),
        };
        proof {
            pack_of_unpack(bytes@);
        }
        bytes
    }

    pub(crate) fn from_packed_data(data: Box<[u8; DATA_LAYER_SIZE]>) -> (layer: Self)
        ensures
            layer@ == stored_content(unpack(data@)),
    {
        DataLayer { data: Some(data), default_value: 0 }
    }

    fn get_at_index(&self, index: usize) -> (level: u8)
        requires
            index < 4096,
        ensures
            level == self@.levels[index as int],
            level < 16,
    {
        match &self.data {
            Some(data) => read_nibble(data, index),
            None => mask_level(self.default_value),
        }
    }

    fn set_at_index(&mut self, index: usize, value: u8)
        requires
            index < 4096,
        ensures
            final(self)@ == stored_content(
                old(self)@.levels.update(index as int, (value % 16) as u8),
            ),
    {
        if self.data.is_none() {
            self.data = Some(filled_data(self.default_value));
        }
        match &mut self.data {
            Some(data) => write_nibble(data, index, value),
            None => {},
        }
    }
}

impl Default for DataLayer {
    fn default() -> (layer: Self)
        ensures
            layer@ == filled_content(0),
    {
        DataLayer::new()
    }
}

/// A level that was set is read back, masked to four bits, and every other
/// level stays.
pub proof fn set_then_get(before: Seq<u8>, index: int, value: u8, other: int)
    requires
        levels_valid(before),
        0 <= index < 4096,
        0 <= other < 4096,
    ensures
        levels_valid(before.update(index, (value % 16) as u8)),
        before.update(index, (value % 16) as u8)[other] == if other == index {
            (value % 16) as u8
        } else {
            before[other]
        },
{
}

} // verus!
