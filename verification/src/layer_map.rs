//! Light layers keyed by packed section position.
use vstd::prelude::*;

use crate::data_layer::{DataLayer, LayerContent};
use crate::fx::{
    map_contains, map_get, map_get_mut, map_insert, map_is_empty, map_keys, map_len, map_new,
    map_remove, FxMap,
};
use crate::position::{section_of_key, PackedSectionPos, SectionPos};
use crate::storage_model::stores_at_or_below;

verus! {

/// `DataLayer` storage keyed by packed section position.
///
/// It owns the section light layers and offers explicit `copy_*` methods for
/// the split between a visible and an updating map.
pub struct DataLayerStorageMap {
    layers: FxMap<u64, DataLayer>,
}

/// What each section's layer holds.
pub open spec fn contents(layers: Map<u64, DataLayer>) -> Map<u64, LayerContent> {
    layers.map_values(|layer: DataLayer| layer@)
}

impl View for DataLayerStorageMap {
    type V = Map<u64, LayerContent>;

    closed spec fn view(&self) -> Map<u64, LayerContent> {
        contents(self.layers@)
    }
}

impl DataLayerStorageMap {
    /// Creates an empty section light storage map.
    #[must_use]
    pub fn new() -> (result: Self)
        ensures
            result@ == Map::<u64, LayerContent>::empty(),
    {
        let result = DataLayerStorageMap { layers: map_new() };
        assert(result@ =~= Map::<u64, LayerContent>::empty());
        result
    }

    /// Returns true when no light layers are stored.
    #[must_use]
    pub fn is_empty(&self) -> (result: bool)
        ensures
            result == self@.is_empty(),
    {
        assert(self@.dom() =~= self.layers@.dom());
        map_is_empty(&self.layers)
    }

    /// Returns the number of stored section light layers.
    #[must_use]
    pub fn len(&self) -> (result: usize)
        ensures
            result == self@.len(),
    {
        assert(self@.dom() =~= self.layers@.dom());
        map_len(&self.layers)
    }

    /// Returns true when a section has a stored light layer.
    #[must_use]
    pub fn has_layer(&self, section_pos: SectionPos) -> (result: bool)
        ensures
            result == self@.contains_key(section_pos.key()),
    {
        map_contains(&self.layers, Self::key(section_pos))
    }

    /// Returns true when some section at or below a height has a stored light layer.
    pub(crate) fn has_layer_at_or_below(&self, section_y: i32) -> (result: bool)
        ensures
            result == stores_at_or_below(self@.dom(), section_y as int),
    {
        let keys: Vec<u64> = map_keys(&self.layers);
        let mut i: usize = 0;
        while i < keys.len()
            invariant
                i <= keys@.len(),
                forall|key: u64| #[trigger] keys@.contains(key) <==> self.layers@.contains_key(key),
                forall|j: int| 0 <= j < i ==> section_of_key(#[trigger] keys@[j]).y > section_y,
            decreases keys@.len() - i,
        {
            if PackedSectionPos(keys[i]).to_section_pos().y <= section_y {
                assert(keys@.contains(keys@[i as int]));
                assert(self@.dom().contains(keys@[i as int]));
                return true;
            }
            i += 1;
        }
        assert forall|key: u64| #[trigger] self@.dom().contains(key) implies section_of_key(key).y
            > section_y by {
            assert(keys@.contains(key));
            let j = choose|j: int| 0 <= j < keys@.len() && keys@[j] == key;
            assert(keys@[j] == key);
        }
        false
    }

    /// Returns the light layer for a section.
    #[must_use]
    pub fn get_layer(&self, section_pos: SectionPos) -> (result: Option<&DataLayer>)
        ensures
            match result {
                Some(layer) => self@.contains_key(section_pos.key()) && layer@
                    == self@[section_pos.key()],
                None => !self@.contains_key(section_pos.key()),
            },
    {
        map_get(&self.layers, Self::key(section_pos))
    }

    /// Returns a mutable light layer for a section.
    #[must_use]
    pub fn get_layer_mut(&mut self, section_pos: SectionPos) -> (result: Option<&mut DataLayer>)
        ensures
            match result {
                Some(layer) => {
                    &&& old(self)@.contains_key(section_pos.key())
                    &&& layer@ == old(self)@[section_pos.key()]
                    &&& final(self)@ == old(self)@.insert(section_pos.key(), final(layer)@)
                },
                None => !old(self)@.contains_key(section_pos.key()) && final(self)@ == old(self)@,
            },
    {
        let key: u64 = Self::key(section_pos);
        let ghost before = self.layers@;
        proof {
            assert forall|layer: DataLayer| #[trigger]
                contents(before.insert(key, layer)) == contents(before).insert(key, layer@) by {
                assert(contents(before.insert(key, layer)) =~= contents(before).insert(
                    key,
                    layer@,
                ));
            }
        }
        map_get_mut(&mut self.layers, key)
    }

    /// Inserts a light layer for a section, returning the old layer if present.
    pub fn set_layer(&mut self, section_pos: SectionPos, layer: DataLayer) -> (result: Option<
        DataLayer,
    >)
        ensures
            final(self)@ == old(self)@.insert(section_pos.key(), layer@),
            match result {
                Some(previous) => old(self)@.contains_key(section_pos.key()) && previous@ == old(
                    self,
                )@[section_pos.key()],
                None => !old(self)@.contains_key(section_pos.key()),
            },
    {
        let key: u64 = Self::key(section_pos);
        let result = map_insert(&mut self.layers, key, layer);
        assert(self@ =~= old(self)@.insert(key, layer@));
        result
    }

    /// Removes a light layer for a section.
    pub fn remove_layer(&mut self, section_pos: SectionPos) -> (result: Option<DataLayer>)
        ensures
            final(self)@ == old(self)@.remove(section_pos.key()),
            match result {
                Some(previous) => old(self)@.contains_key(section_pos.key()) && previous@ == old(
                    self,
                )@[section_pos.key()],
                None => !old(self)@.contains_key(section_pos.key()),
            },
    {
        let key: u64 = Self::key(section_pos);
        let result = map_remove(&mut self.layers, key);
        assert(self@ =~= old(self)@.remove(key));
        result
    }

    /// Copies a section's light layer in place and returns the mutable copy.
    pub fn copy_data_layer(&mut self, section_pos: SectionPos) -> (result: Option<&mut DataLayer>)
        ensures
            match result {
                Some(layer) => {
                    &&& old(self)@.contains_key(section_pos.key())
                    &&& layer@ == old(self)@[section_pos.key()]
                    &&& final(self)@ == old(self)@.insert(section_pos.key(), final(layer)@)
                },
                None => !old(self)@.contains_key(section_pos.key()) && final(self)@ == old(self)@,
            },
    {
        let copied: DataLayer = match self.get_layer(section_pos) {
            Some(layer) => layer.copy(),
            None => {
                return None;
            },
        };
        let ghost before = self@;
        let ghost key = section_pos.key();
        self.set_layer(section_pos, copied);
        proof {
            assert(self@ =~= before);
        }
        self.get_layer_mut(section_pos)
    }

    /// Returns a deep copy of this storage map.
    #[must_use]
    pub fn copy_map(&self) -> (copied: Self)
        ensures
            copied@ == self@,
    {
        let mut layers: FxMap<u64, DataLayer> = map_new();
        let keys: Vec<u64> = map_keys(&self.layers);
        let mut i: usize = 0;
        while i < keys.len()
            invariant
                i <= keys@.len(),
                forall|key: u64| #[trigger]
                    keys@.contains(key) <==> self.layers@.contains_key(key),
                forall|j: int|
                    0 <= j < i ==> layers@.contains_key(#[trigger] keys@[j]) && layers@[keys@[j]]@
                        == self.layers@[keys@[j]]@,
                forall|key: u64| #[trigger]
                    layers@.contains_key(key) ==> self.layers@.contains_key(key)
                        && layers@[key]@ == self.layers@[key]@,
            decreases keys@.len() - i,
        {
            let key: u64 = keys[i];
            assert(keys@.contains(keys@[i as int]));
            match map_get(&self.layers, key) {
                Some(layer) => {
                    map_insert(&mut layers, key, layer.copy());
                },
                None => {},
            }
            i += 1;
        }
        let copied = DataLayerStorageMap { layers };
        proof {
            assert forall|key: u64| copied@.contains_key(key) <==> self@.contains_key(key) by {
                if self.layers@.contains_key(key) {
                    assert(keys@.contains(key));
                }
            }
            assert(copied@ =~= self@);
        }
        copied
    }

    /// Returns every key that has a layer, in no particular order.
    pub(crate) fn keys(&self) -> (keys: Vec<u64>)
        ensures
            keys@.no_duplicates(),
            forall|key: u64| #[trigger] keys@.contains(key) <==> self@.contains_key(key),
    {
        map_keys(&self.layers)
    }

    fn key(section_pos: SectionPos) -> (key: u64)
        ensures
            key == section_pos.key(),
    {
        PackedSectionPos::from_section_pos(section_pos).0
    }
}

impl Default for DataLayerStorageMap {
    fn default() -> (result: Self)
        ensures
            result@ == Map::<u64, LayerContent>::empty(),
    {
        DataLayerStorageMap::new()
    }
}

} // verus!
