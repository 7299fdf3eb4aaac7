//! Light update packets.
use vstd::prelude::*;

use crate::bit_set::BitSet;
use crate::chunk_light::{ChunkLightData, ChunkLightLayerStorage, LayerStorageView};
use crate::data_layer::{filled_content, LayerContent};
use crate::layer_map::DataLayerStorageMap;
use crate::nibble::{LightNibbleArray, LightNibbleState};
use crate::packed::{levels_valid, pack, unpack, unpack_of_pack};
use crate::position::{ChunkPos, SectionPos};
use crate::section_range::LightSectionRange;
use crate::{DATA_LAYER_SIZE, LightLayer};

verus! {

/// The light data of a chunk as clients receive it.
#[derive(Debug, PartialEq, Eq)]
pub struct LightUpdatePacketData {
    /// Sections with sky light bytes.
    pub sky_y_mask: BitSet,
    /// Sections with block light bytes.
    pub block_y_mask: BitSet,
    /// Sections without sky light.
    pub empty_sky_y_mask: BitSet,
    /// Sections without block light.
    pub empty_block_y_mask: BitSet,
    /// Sky light bytes of each section in the sky mask, from the lowest up.
    pub sky_updates: Vec<Vec<u8>>,
    /// Block light bytes of each section in the block mask, from the lowest up.
    pub block_updates: Vec<Vec<u8>>,
}

/// What a packet says of one section.
#[verifier::ext_equal]
pub enum SectionUpdate {
    /// Nothing.
    Omit,
    /// That it has no light.
    Empty,
    /// Its packed bytes.
    Data(Seq<u8>),
}

/// What is written of one section.
enum SectionPayload {
    Omit,
    Empty,
    Data(Vec<u8>),
}

impl SectionPayload {
    spec fn says(&self) -> SectionUpdate {
        match self {
            SectionPayload::Omit => SectionUpdate::Omit,
            SectionPayload::Empty => SectionUpdate::Empty,
            SectionPayload::Data(bytes) => SectionUpdate::Data(bytes@),
        }
    }
}

/// What is said of each section.
pub type SectionUpdates = spec_fn(int) -> SectionUpdate;

/// The bytes of the first `n` sections that have any, from the lowest up.
pub open spec fn update_bytes(updates: SectionUpdates, n: int) -> Seq<Seq<u8>>
    decreases n,
{
    if n <= 0 {
        Seq::empty()
    } else {
        let before = update_bytes(updates, n - 1);
        match updates(n - 1) {
            SectionUpdate::Data(bytes) => before.push(bytes),
            _ => before,
        }
    }
}

/// The bytes of a packet's updates.
pub open spec fn payload_bytes(payloads: Seq<Vec<u8>>) -> Seq<Seq<u8>> {
    payloads.map_values(|bytes: Vec<u8>| bytes@)
}

/// Masks and bytes say of each of the first `n` sections what they should, and
/// nothing of others.
pub open spec fn layer_says(
    mask: &BitSet,
    empty_mask: &BitSet,
    payloads: Seq<Vec<u8>>,
    updates: SectionUpdates,
    n: int,
) -> bool {
    &&& forall|i: int| #[trigger] mask.has(i) <==> 0 <= i < n && updates(i) is Data
    &&& forall|i: int| #[trigger] empty_mask.has(i) <==> 0 <= i < n && updates(i) is Empty
    &&& payload_bytes(payloads) == update_bytes(updates, n)
}

/// A mask has just the words that `n` sections need.
pub open spec fn mask_fits(mask: &BitSet, n: int) -> bool {
    mask.0@.len() == (n + 63) / 64
}

/// What a packet says of the sky light and the block light of `n` sections. Its
/// masks have just the words that they need.
pub open spec fn packet_says(
    packet: LightUpdatePacketData,
    sky: SectionUpdates,
    block: SectionUpdates,
    n: int,
) -> bool {
    &&& mask_fits(&packet.sky_y_mask, n)
    &&& mask_fits(&packet.empty_sky_y_mask, n)
    &&& mask_fits(&packet.block_y_mask, n)
    &&& mask_fits(&packet.empty_block_y_mask, n)
    &&& layer_says(
        &packet.sky_y_mask,
        &packet.empty_sky_y_mask,
        packet.sky_updates@,
        sky,
        n,
    )
    &&& layer_says(
        &packet.block_y_mask,
        &packet.empty_block_y_mask,
        packet.block_updates@,
        block,
        n,
    )
}

/// A section is in at most one of a layer's two masks, and the number of
/// payloads is the number of sections in the mask.
pub proof fn masks_are_disjoint(
    mask: &BitSet,
    empty_mask: &BitSet,
    payloads: Seq<Vec<u8>>,
    updates: SectionUpdates,
    n: int,
    i: int,
)
    requires
        layer_says(mask, empty_mask, payloads, updates, n),
    ensures
        !(mask.has(i) && empty_mask.has(i)),
        payloads.len() == data_count(updates, n),
{
    lemma_update_count(updates, n);
    assert(payload_bytes(payloads).len() == payloads.len());
}

/// The number of sections with bytes among the first `n`.
pub open spec fn data_count(updates: SectionUpdates, n: int) -> nat
    decreases n,
{
    if n <= 0 {
        0
    } else {
        data_count(updates, n - 1) + if updates(n - 1) is Data {
            1nat
        } else {
            0nat
        }
    }
}

proof fn lemma_update_count(updates: SectionUpdates, n: int)
    ensures
        update_bytes(updates, n).len() == data_count(updates, n),
    decreases n,
{
    if n > 0 {
        lemma_update_count(updates, n - 1);
    }
}

proof fn lemma_update_at(updates: SectionUpdates, n: int, i: int)
    requires
        0 <= i < n,
        updates(i) is Data,
    ensures
        data_count(updates, i) < update_bytes(updates, n).len(),
        update_bytes(updates, n)[data_count(updates, i) as int] == updates(i)->Data_0,
    decreases n,
{
    lemma_update_count(updates, n);
    lemma_update_count(updates, n - 1);
    if i < n - 1 {
        lemma_update_at(updates, n - 1, i);
    }
}

/// Who receives a packet reads back the levels of every section with bytes: the
/// payloads stand in the order of the mask's sections.
pub proof fn payloads_read_back(
    mask: &BitSet,
    empty_mask: &BitSet,
    payloads: Seq<Vec<u8>>,
    updates: SectionUpdates,
    n: int,
    i: int,
    levels: Seq<u8>,
)
    requires
        layer_says(mask, empty_mask, payloads, updates, n),
        0 <= i < n,
        levels_valid(levels),
        updates(i) == SectionUpdate::Data(pack(levels)),
    ensures
        mask.has(i),
        data_count(updates, i) < payloads.len(),
        unpack(payloads[data_count(updates, i) as int]@) == levels,
{
    lemma_update_at(updates, n, i);
    unpack_of_pack(levels);
    assert(payload_bytes(payloads).len() == payloads.len());
    assert(payload_bytes(payloads)[data_count(updates, i) as int]
        == payloads[data_count(updates, i) as int]@);
}

/// The number of a mask's bits below an index.
pub open spec fn mask_rank(mask: &BitSet, i: int) -> nat
    decreases i,
{
    if i <= 0 {
        0
    } else {
        mask_rank(mask, i - 1) + if mask.has(i - 1) {
            1nat
        } else {
            0nat
        }
    }
}

/// A layer of a packet holds the levels of a section: the section is in the
/// mask, and the payload at its place among the mask's sections unpacks to them.
pub open spec fn sends_levels(
    mask: &BitSet,
    empty_mask: &BitSet,
    payloads: Seq<Vec<u8>>,
    i: int,
    levels: Seq<u8>,
) -> bool {
    &&& mask.has(i)
    &&& !empty_mask.has(i)
    &&& mask_rank(mask, i) < payloads.len()
    &&& payloads[mask_rank(mask, i) as int]@.len() == 2048
    &&& forall|index: int|
        0 <= index < 4096 ==> #[trigger] levels[index] == if index % 2 == 0 {
            payloads[mask_rank(mask, i) as int]@[index / 2] % 16
        } else {
            payloads[mask_rank(mask, i) as int]@[index / 2] / 16
        }
}

/// A layer of a packet says that a section is dark.
pub open spec fn sends_dark(mask: &BitSet, empty_mask: &BitSet, i: int) -> bool {
    !mask.has(i) && empty_mask.has(i)
}

/// A layer of a packet says nothing of a section.
pub open spec fn sends_nothing(mask: &BitSet, empty_mask: &BitSet, i: int) -> bool {
    !mask.has(i) && !empty_mask.has(i)
}

proof fn lemma_mask_rank(
    mask: &BitSet,
    empty_mask: &BitSet,
    payloads: Seq<Vec<u8>>,
    updates: SectionUpdates,
    n: int,
    i: int,
)
    requires
        layer_says(mask, empty_mask, payloads, updates, n),
        0 <= i <= n,
    ensures
        mask_rank(mask, i) == data_count(updates, i),
    decreases i,
{
    if i > 0 {
        lemma_mask_rank(mask, empty_mask, payloads, updates, n, i - 1);
        assert(mask.has(i - 1) <==> updates(i - 1) is Data);
    }
}

proof fn lemma_sends(
    mask: &BitSet,
    empty_mask: &BitSet,
    payloads: Seq<Vec<u8>>,
    updates: SectionUpdates,
    n: int,
    i: int,
    levels: Seq<u8>,
)
    requires
        layer_says(mask, empty_mask, payloads, updates, n),
        0 <= i < n,
        levels_valid(levels),
    ensures
        updates(i) == SectionUpdate::Data(pack(levels)) ==> sends_levels(
            mask,
            empty_mask,
            payloads,
            i,
            levels,
        ),
        updates(i) == SectionUpdate::Empty ==> sends_dark(mask, empty_mask, i),
        updates(i) == SectionUpdate::Omit ==> sends_nothing(mask, empty_mask, i),
{
    assert(mask.has(i) <==> updates(i) is Data);
    assert(empty_mask.has(i) <==> updates(i) is Empty);
    if updates(i) == SectionUpdate::Data(pack(levels)) {
        lemma_mask_rank(mask, empty_mask, payloads, updates, n, i);
        lemma_update_at(updates, n, i);
        assert(payload_bytes(payloads).len() == payloads.len());
        let bytes = payloads[mask_rank(mask, i) as int]@;
        assert(payload_bytes(payloads)[mask_rank(mask, i) as int] == bytes);
        assert(bytes == pack(levels));
        assert forall|index: int| 0 <= index < 4096 implies #[trigger] levels[index] == if index % 2
            == 0 {
            bytes[index / 2] % 16
        } else {
            bytes[index / 2] / 16
        } by {
            let byte = index / 2;
            assert(levels[2 * byte] < 16 && levels[2 * byte + 1] < 16);
        }
    }
}

/// A chunk section at or next to a light section is known to have blocks.
pub open spec fn is_near_blocks(storage: LayerStorageView, i: int) -> bool {
    storage.emptiness matches Some(map) && exists|j: int|
        0 <= j < map.len() && i - 2 <= j <= i && !#[trigger] map[j]
}

/// A chunk section at or above a light section, or the one below it, is known
/// to have blocks.
pub open spec fn is_below_blocks(storage: LayerStorageView, i: int, distance: int) -> bool {
    storage.emptiness matches Some(map) && exists|j: int|
        0 <= j < map.len() && i <= j + 1 + distance && !#[trigger] map[j]
}

/// Some chunk section is known to have blocks.
pub open spec fn has_blocks(storage: LayerStorageView) -> bool {
    storage.emptiness matches Some(map) && exists|j: int|
        0 <= j < map.len() && !#[trigger] map[j]
}

/// The light sections are the chunk sections and one more on either side.
pub open spec fn is_padded(storage: LayerStorageView) -> bool {
    &&& storage.range.count() == storage.chunk_section_count + 2
    &&& storage.emptiness matches Some(map) ==> map.len() == storage.chunk_section_count
}

/// A layer of a packet tells a client what it is to know of a section: its
/// levels where it has any, that it is dark where it is not initialized, and of
/// a section without visible light that it is dark if blocks are next to it, in
/// sky light only if it does not lie above all blocks.
pub open spec fn tells_section(
    storage: LayerStorageView,
    mask: &BitSet,
    empty_mask: &BitSet,
    payloads: Seq<Vec<u8>>,
    i: int,
) -> bool {
    let plane = storage.nibbles[i].visible;
    match plane.state {
        LightNibbleState::Initialized => sends_levels(
            mask,
            empty_mask,
            payloads,
            i,
            plane.levels,
        ),
        LightNibbleState::Uninitialized => sends_dark(mask, empty_mask, i),
        _ => is_padded(storage) ==> if is_near_blocks(storage, i) && (storage.layer
            == LightLayer::Block || is_below_blocks(storage, i, 0)) {
            sends_dark(mask, empty_mask, i)
        } else {
            sends_nothing(mask, empty_mask, i)
        },
    }
}

/// A section is fully lit by the sky, and no block light is visible in it.
pub open spec fn is_plain_sky(sky: LayerStorageView, block: LayerStorageView, i: int) -> bool {
    &&& forall|index: int|
        0 <= index < 4096 ==> #[trigger] sky.nibbles[i].visible.levels[index] == 15
    &&& i < block.nibbles.len() ==> block.nibbles[i].visible.state == LightNibbleState::Null
        || block.nibbles[i].visible.state == LightNibbleState::Hidden
}

/// A packet of a whole chunk tells a client what it is to know of a section of
/// sky light. A section is left out that the sky lights fully, without block
/// light, if it lies more than one section above all blocks of a chunk that has
/// some.
pub open spec fn tells_sky_section(
    sky: LayerStorageView,
    block: LayerStorageView,
    mask: &BitSet,
    empty_mask: &BitSet,
    payloads: Seq<Vec<u8>>,
    i: int,
) -> bool {
    if sky.nibbles[i].visible.state == LightNibbleState::Initialized && is_plain_sky(
        sky,
        block,
        i,
    ) && has_blocks(sky) && !is_below_blocks(sky, i, 1) {
        is_padded(sky) ==> sends_nothing(mask, empty_mask, i)
    } else {
        tells_section(sky, mask, empty_mask, payloads, i)
    }
}

proof fn lemma_last_filled(map: Seq<bool>, n: int)
    requires
        0 <= n <= map.len(),
    ensures
        last_filled(map, n) is None <==> forall|j: int| 0 <= j < n ==> #[trigger] map[j],
        last_filled(map, n) matches Some(last) ==> 0 <= last < n && !map[last] && forall|j: int|
            last < j < n ==> #[trigger] map[j],
    decreases n,
{
    if n > 0 {
        lemma_last_filled(map, n - 1);
    }
}

proof fn lemma_update_told(storage: LayerStorageView, i: int)
    requires
        0 <= i < storage.nibbles.len(),
        i < storage.range.count(),
        is_padded(storage),
    ensures
        storage.reports_empty(i) <==> is_near_blocks(storage, i) && (storage.layer
            == LightLayer::Block || is_below_blocks(storage, i, 0)),
{
    if let Some(map) = storage.emptiness {
        lemma_last_filled(map, map.len() as int);
        if is_near_blocks(storage, i) {
            let j = choose|j: int| 0 <= j < map.len() && i - 2 <= j <= i && !#[trigger] map[j];
            assert(storage.known_emptiness(storage.range.min_y() + 1 + j) == Some(false));
        }
        let y = storage.range.min_y() + i;
        if storage.known_emptiness(y - 1) == Some(false) {
            assert(!map[i - 2]);
        }
        if storage.known_emptiness(y) == Some(false) {
            assert(!map[i - 1]);
        }
        if storage.known_emptiness(y + 1) == Some(false) {
            assert(!map[i]);
        }
        if is_below_blocks(storage, i, 0) {
            let j = choose|j: int| 0 <= j < map.len() && i <= j + 1 && !#[trigger] map[j];
            assert(last_filled(map, map.len() as int)->0 >= j);
        }
    }
}

/// A layer whose masks and payloads follow its sections tells a client what it
/// is to know of each.
pub proof fn layer_is_told(
    storage: LayerStorageView,
    mask: &BitSet,
    empty_mask: &BitSet,
    payloads: Seq<Vec<u8>>,
    updates: SectionUpdates,
    n: int,
    i: int,
)
    requires
        layer_says(mask, empty_mask, payloads, updates, n),
        updates(i) == storage.nibble_update(i),
        0 <= i < n,
        i < storage.nibbles.len(),
        storage.nibbles.len() == storage.range.count(),
        levels_valid(storage.nibbles[i].visible.levels),
    ensures
        tells_section(storage, mask, empty_mask, payloads, i),
{
    lemma_sends(
        mask,
        empty_mask,
        payloads,
        updates,
        n,
        i,
        storage.nibbles[i].visible.levels,
    );
    if is_padded(storage) {
        lemma_update_told(storage, i);
    }
}

/// The sky layer of a whole chunk's packet tells a client what it is to know of
/// each section.
pub proof fn sky_is_told(
    sky: LayerStorageView,
    block: LayerStorageView,
    mask: &BitSet,
    empty_mask: &BitSet,
    payloads: Seq<Vec<u8>>,
    updates: SectionUpdates,
    n: int,
    i: int,
)
    requires
        layer_says(mask, empty_mask, payloads, updates, n),
        updates(i) == sky_nibble_update(sky, block, i),
        0 <= i < n,
        i < sky.nibbles.len(),
        sky.nibbles.len() == sky.range.count(),
        levels_valid(sky.nibbles[i].visible.levels),
    ensures
        tells_sky_section(sky, block, mask, empty_mask, payloads, i),
{
    let levels = sky.nibbles[i].visible.levels;
    lemma_sends(mask, empty_mask, payloads, updates, n, i, levels);
    if is_padded(sky) {
        lemma_update_told(sky, i);
    }
    assert((forall|index: int| 0 <= index < 4096 ==> #[trigger] levels[index] == 15) <==> levels
        == crate::packed::uniform(15)) by {
        if forall|index: int| 0 <= index < 4096 ==> #[trigger] levels[index] == 15 {
            assert(levels =~= crate::packed::uniform(15));
        }
    }
    if let Some(map) = sky.emptiness {
        lemma_last_filled(map, map.len() as int);
        if is_below_blocks(sky, i, 1) {
            let j = choose|j: int| 0 <= j < map.len() && i <= j + 2 && !#[trigger] map[j];
            assert(last_filled(map, map.len() as int)->0 >= j);
        }
        if has_blocks(sky) {
            let j = choose|j: int| 0 <= j < map.len() && !#[trigger] map[j];
            assert(last_filled(map, map.len() as int) is Some);
        }
    }
}

/// What is said of a stored layer: nothing where there is none, that it is
/// empty where it is dark and homogeneous, and its bytes otherwise.
pub open spec fn stored_update(
    layers: Option<Map<u64, LayerContent>>,
    key: u64,
) -> SectionUpdate {
    match layers {
        None => SectionUpdate::Omit,
        Some(layers) => if !layers.contains_key(key) {
            SectionUpdate::Omit
        } else if layers[key] == filled_content(0) {
            SectionUpdate::Empty
        } else {
            SectionUpdate::Data(pack(layers[key].levels))
        },
    }
}

/// What is said of each section of a chunk column in a map of layers.
pub open spec fn stored_updates(
    chunk_pos: ChunkPos,
    range: LightSectionRange,
    layers: Option<Map<u64, LayerContent>>,
) -> SectionUpdates {
    |i: int|
        stored_update(
            layers,
            SectionPos { x: chunk_pos.x, y: (range.min_y() + i) as i32, z: chunk_pos.z }.key(),
        )
}

/// The highest index below `n` that is not marked as empty.
pub open spec fn last_filled(map: Seq<bool>, n: int) -> Option<int>
    decreases n,
{
    if n <= 0 {
        None
    } else if !map[n - 1] {
        Some(n - 1)
    } else {
        last_filled(map, n - 1)
    }
}

impl LayerStorageView {
    /// The highest chunk section that is known to have blocks.
    pub open spec fn highest_filled_y(self) -> Option<int> {
        match self.emptiness {
            None => None,
            Some(map) => match last_filled(map, map.len() as int) {
                Some(index) => if index < self.range.count() - 2 {
                    Some(self.range.min_y() + 1 + index)
                } else {
                    None
                },
                None => None,
            },
        }
    }

    /// A section without visible light is reported as empty: next to a section
    /// with blocks, but in sky light not above all of those.
    pub open spec fn reports_empty(self, i: int) -> bool {
        let y = self.range.min_y() + i;
        &&& 0 <= i < self.range.count()
        &&& !(self.layer == LightLayer::Sky && (self.highest_filled_y() matches Some(highest) && y
            > highest))
        &&& (self.known_emptiness(y - 1) == Some(false) || self.known_emptiness(y) == Some(false)
            || self.known_emptiness(y + 1) == Some(false))
    }

    /// What is said of a section of this layer.
    pub open spec fn nibble_update(self, i: int) -> SectionUpdate {
        if !(0 <= i < self.nibbles.len()) {
            SectionUpdate::Omit
        } else {
            let plane = self.nibbles[i].visible;
            match plane.state {
                LightNibbleState::Initialized => SectionUpdate::Data(pack(plane.levels)),
                LightNibbleState::Uninitialized => SectionUpdate::Empty,
                _ => if self.reports_empty(i) {
                    SectionUpdate::Empty
                } else {
                    SectionUpdate::Omit
                },
            }
        }
    }
}

/// A fully lit sky section is left out: it lies more than one section above all
/// sections with blocks, and no block light is visible in it.
pub open spec fn omits_full_sky(sky: LayerStorageView, block: LayerStorageView, i: int) -> bool {
    &&& sky.nibbles[i].visible.levels == crate::packed::uniform(15)
    &&& sky.highest_filled_y() matches Some(highest) && sky.range.min_y() + i > highest + 1
    &&& !(0 <= i < block.nibbles.len()) || block.nibbles[i].visible.state == LightNibbleState::Null
        || block.nibbles[i].visible.state == LightNibbleState::Hidden
}

/// What is said of a chunk's sky section when the whole chunk is sent.
pub open spec fn sky_nibble_update(
    sky: LayerStorageView,
    block: LayerStorageView,
    i: int,
) -> SectionUpdate {
    let update = sky.nibble_update(i);
    if update is Data && omits_full_sky(sky, block, i) {
        SectionUpdate::Omit
    } else {
        update
    }
}

/// What is said of the sections of a layer that changed.
pub open spec fn changed_updates(
    chunk_pos: ChunkPos,
    range: LightSectionRange,
    storage: LayerStorageView,
    changed: Seq<SectionPos>,
) -> SectionUpdates {
    |i: int|
        if changed.contains(
            SectionPos { x: chunk_pos.x, y: (range.min_y() + i) as i32, z: chunk_pos.z },
        ) {
            storage.nibble_update(i)
        } else {
            SectionUpdate::Omit
        }
}

/// A packet of changed sections tells a client of a section if it changed.
pub open spec fn tells_change(
    storage: LayerStorageView,
    chunk_pos: ChunkPos,
    min_section_y: int,
    changed: Seq<SectionPos>,
    mask: &BitSet,
    empty_mask: &BitSet,
    payloads: Seq<Vec<u8>>,
    i: int,
) -> bool {
    if changed.contains(
        SectionPos { x: chunk_pos.x, y: (min_section_y + i) as i32, z: chunk_pos.z },
    ) {
        tells_section(storage, mask, empty_mask, payloads, i)
    } else {
        sends_nothing(mask, empty_mask, i)
    }
}

/// A packet of changed sections tells a client of the sections that changed and
/// of no others.
pub proof fn changes_are_told(
    storage: LayerStorageView,
    chunk_pos: ChunkPos,
    range: LightSectionRange,
    changed: Seq<SectionPos>,
    mask: &BitSet,
    empty_mask: &BitSet,
    payloads: Seq<Vec<u8>>,
    n: int,
    i: int,
)
    requires
        layer_says(
            mask,
            empty_mask,
            payloads,
            changed_updates(chunk_pos, range, storage, changed),
            n,
        ),
        0 <= i < n,
        i < storage.nibbles.len(),
        storage.nibbles.len() == storage.range.count(),
        levels_valid(storage.nibbles[i].visible.levels),
    ensures
        tells_change(
            storage,
            chunk_pos,
            range.min_y(),
            changed,
            mask,
            empty_mask,
            payloads,
            i,
        ),
{
    let updates = changed_updates(chunk_pos, range, storage, changed);
    lemma_sends(mask, empty_mask, payloads, updates, n, i, storage.nibbles[i].visible.levels);
    if is_padded(storage) {
        lemma_update_told(storage, i);
    }
}

/// A packet tells a client of a stored layer: its levels, or that it is dark
/// where all of it is.
pub open spec fn tells_layer(
    layers: Map<u64, LayerContent>,
    key: u64,
    mask: &BitSet,
    empty_mask: &BitSet,
    payloads: Seq<Vec<u8>>,
    i: int,
) -> bool {
    if !layers.contains_key(key) {
        sends_nothing(mask, empty_mask, i)
    } else if layers[key] == filled_content(0) {
        sends_dark(mask, empty_mask, i)
    } else {
        sends_levels(mask, empty_mask, payloads, i, layers[key].levels)
    }
}

/// A packet of a column of stored layers tells a client of each of them.
pub proof fn stored_layers_are_told(
    chunk_pos: ChunkPos,
    range: LightSectionRange,
    layers: Map<u64, LayerContent>,
    mask: &BitSet,
    empty_mask: &BitSet,
    payloads: Seq<Vec<u8>>,
    n: int,
    i: int,
)
    requires
        layer_says(
            mask,
            empty_mask,
            payloads,
            stored_updates(chunk_pos, range, Some(layers)),
            n,
        ),
        0 <= i < n,
        forall|key: u64| #[trigger] layers.contains_key(key) ==> levels_valid(layers[key].levels),
    ensures
        tells_layer(
            layers,
            SectionPos { x: chunk_pos.x, y: (range.min_y() + i) as i32, z: chunk_pos.z }.key(),
            mask,
            empty_mask,
            payloads,
            i,
        ),
{
    let updates = stored_updates(chunk_pos, range, Some(layers));
    let key = SectionPos {
        x: chunk_pos.x,
        y: (range.min_y() + i) as i32,
        z: chunk_pos.z,
    }.key();
    let levels = if layers.contains_key(key) {
        layers[key].levels
    } else {
        crate::packed::uniform(0)
    };
    lemma_sends(mask, empty_mask, payloads, updates, n, i, levels);
}

struct LayerWriter {
    mask: BitSet,
    empty_mask: BitSet,
    payloads: Vec<Vec<u8>>,
}

impl LayerWriter {
    spec fn fits(&self, count: int) -> bool {
        mask_fits(&self.mask, count) && mask_fits(&self.empty_mask, count)
    }

    spec fn says(&self, updates: SectionUpdates, n: int) -> bool {
        layer_says(&self.mask, &self.empty_mask, self.payloads@, updates, n)
    }

    fn new(range: LightSectionRange) -> (writer: Self)
        requires
            range.wf(),
        ensures
            writer.fits(range.count()),
            forall|updates: SectionUpdates| #[trigger] writer.says(updates, 0),
    {
        let writer = LayerWriter {
            mask: range.empty_bit_set(),
            empty_mask: range.empty_bit_set(),
            payloads: Vec::new(),
        };
        proof {
            assert forall|updates: SectionUpdates| #[trigger] writer.says(updates, 0) by {
                assert(payload_bytes(writer.payloads@) =~= update_bytes(updates, 0));
            }
        }
        writer
    }

    fn write(&mut self, index: usize, payload: SectionPayload, updates: Ghost<SectionUpdates>)
        requires
            index < old(self).mask.0@.len() * 64,
            index < old(self).empty_mask.0@.len() * 64,
            old(self).says(updates@, index as int),
            payload.says() == updates@(index as int),
        ensures
            final(self).mask.0@.len() == old(self).mask.0@.len(),
            final(self).empty_mask.0@.len() == old(self).empty_mask.0@.len(),
            final(self).says(updates@, index + 1),
    {
        let ghost before = self.payloads@;
        match payload {
            SectionPayload::Omit => {},
            SectionPayload::Empty => {
                self.empty_mask.set(index, true);
            },
            SectionPayload::Data(bytes) => {
                self.mask.set(index, true);
                self.payloads.push(bytes);
                assert(payload_bytes(self.payloads@) =~= payload_bytes(before).push(bytes@));
            },
        }
    }
}

fn bytes_to_vec(bytes: &[u8; DATA_LAYER_SIZE]) -> (copied: Vec<u8>)
    ensures
        copied@ == bytes@,
{
    let mut copied: Vec<u8> = Vec::new();
    let mut i: usize = 0;
    while i < DATA_LAYER_SIZE
        invariant
            i <= 2048,
            copied@ =~= bytes@.take(i as int),
        decreases 2048 - i,
    {
        copied.push(bytes[i]);
        i += 1;
    }
    assert(copied@ =~= bytes@);
    copied
}

fn is_full(bytes: &[u8; DATA_LAYER_SIZE]) -> (result: bool)
    ensures
        result == (unpack(bytes@) == crate::packed::uniform(15)),
{
    let mut i: usize = 0;
    while i < DATA_LAYER_SIZE
        invariant
            i <= 2048,
            forall|j: int| 0 <= j < i ==> bytes@[j] == 255,
        decreases 2048 - i,
    {
        if bytes[i] != 255 {
            proof {
                let low = unpack(bytes@)[2 * i as int];
                let high = unpack(bytes@)[2 * i as int + 1];
                assert(low != 15 || high != 15);
                assert(crate::packed::uniform(15)[2 * i as int] == 15);
                assert(crate::packed::uniform(15)[2 * i as int + 1] == 15);
            }
            return false;
        }
        i += 1;
    }
    assert(unpack(bytes@) =~= crate::packed::uniform(15));
    true
}

fn prepare_section_data(layers: Option<&DataLayerStorageMap>, section_pos: SectionPos) -> (payload:
    SectionPayload)
    ensures
        payload.says() == stored_update(
            match layers {
                Some(layers) => Some(layers@),
                None => None,
            },
            section_pos.key(),
        ),
{
    match layers {
        None => SectionPayload::Omit,
        Some(layers) => match layers.get_layer(section_pos) {
            None => SectionPayload::Omit,
            Some(layer) => {
                if layer.is_empty() {
                    SectionPayload::Empty
                } else {
                    SectionPayload::Data(bytes_to_vec(&layer.to_bytes()))
                }
            },
        },
    }
}

fn highest_non_empty_section_y(layers: &ChunkLightLayerStorage) -> (result: Option<i32>)
    requires
        layers.wf(),
    ensures
        match result {
            Some(y) => layers@.highest_filled_y() == Some(y as int),
            None => layers@.highest_filled_y() is None,
        },
        result matches Some(y) ==> -134217729 <= y <= 134217729,
{
    proof {
        layers.view_lengths();
    }
    let map: &Vec<bool> = match layers.emptiness_map() {
        Some(map) => map,
        None => {
            return None;
        },
    };
    let mut n: usize = map.len();
    while n > 0
        invariant
            layers.wf(),
            layers@.range.wf(),
            layers@.emptiness == Some(map@),
            n <= map@.len(),
            last_filled(map@, map@.len() as int) == last_filled(map@, n as int),
        decreases n,
    {
        if !map[n - 1] {
            return layers.range().chunk_section_y(n - 1);
        }
        n -= 1;
    }
    None
}

fn should_send_empty_nibble_section(layers: &ChunkLightLayerStorage, section_index: usize) -> (result:
    bool)
    requires
        layers.wf(),
    ensures
        result == layers@.reports_empty(section_index as int),
{
    proof {
        layers.view_lengths();
    }
    let section_y: i32 = match layers.range().section_y(section_index) {
        Some(section_y) => section_y,
        None => {
            return false;
        },
    };
    if layers.layer() == LightLayer::Sky {
        if let Some(highest) = highest_non_empty_section_y(layers) {
            if section_y > highest {
                return false;
            }
        }
    }
    let below: Option<bool> = layers.section_empty(section_y - 1);
    let here: Option<bool> = layers.section_empty(section_y);
    let above: Option<bool> = layers.section_empty(section_y + 1);
    is_known_filled(below) || is_known_filled(here) || is_known_filled(above)
}

fn is_known_filled(empty: Option<bool>) -> (result: bool)
    ensures
        result == (empty == Some(false)),
{
    match empty {
        Some(empty) => !empty,
        None => false,
    }
}

fn prepare_nibble_section_data(layers: &ChunkLightLayerStorage, section_index: usize) -> (payload:
    SectionPayload)
    requires
        layers.wf(),
    ensures
        payload.says() == layers@.nibble_update(section_index as int),
{
    let nibbles: &Vec<LightNibbleArray> = layers.nibbles();
    proof {
        layers.view_lengths();
        assert(crate::chunk_light::nibble_views(nibbles@).len() == nibbles@.len());
    }
    if section_index >= nibbles.len() {
        return SectionPayload::Omit;
    }
    assert(nibbles@[section_index as int].wf());
    assert(layers@.nibbles[section_index as int] == nibbles@[section_index as int]@);
    match nibbles[section_index].to_data_layer() {
        None => {
            if should_send_empty_nibble_section(layers, section_index) {
                SectionPayload::Empty
            } else {
                SectionPayload::Omit
            }
        },
        Some(layer) => {
            if layer.is_empty() {
                SectionPayload::Empty
            } else {
                SectionPayload::Data(bytes_to_vec(&layer.to_bytes()))
            }
        },
    }
}

fn should_omit_full_sky_section_above_local_sources(
    light: &ChunkLightData,
    section_index: usize,
) -> (result: bool)
    requires
        light.wf(),
        section_index < light.sky@.nibbles.len(),
        light.sky@.nibbles[section_index as int].visible.state == LightNibbleState::Initialized,
    ensures
        result == omits_full_sky(light.sky@, light.block@, section_index as int),
{
    let nibbles: &Vec<LightNibbleArray> = light.sky.nibbles();
    proof {
        light.sky.view_lengths();
        light.block.view_lengths();
        assert(crate::chunk_light::nibble_views(nibbles@).len() == nibbles@.len());
        assert(nibbles@[section_index as int].wf());
        assert(light.sky@.nibbles[section_index as int] == nibbles@[section_index as int]@);
    }
    match nibbles[section_index].to_data_layer() {
        Some(layer) => {
            if !is_full(&layer.to_bytes()) {
                return false;
            }
        },
        None => {
            return false;
        },
    }
    let section_y: i32 = match light.sky.range().section_y(section_index) {
        Some(section_y) => section_y,
        None => {
            return false;
        },
    };
    let highest: i32 = match highest_non_empty_section_y(&light.sky) {
        Some(highest) => highest,
        None => {
            return false;
        },
    };
    if section_y <= highest + 1 {
        return false;
    }
    let block_nibbles: &Vec<LightNibbleArray> = light.block.nibbles();
    assert(crate::chunk_light::nibble_views(block_nibbles@).len() == block_nibbles@.len());
    if section_index >= block_nibbles.len() {
        return true;
    }
    assert(light.block@.nibbles[section_index as int] == block_nibbles@[section_index as int]@);
    let state: LightNibbleState = block_nibbles[section_index].visible_state();
    state == LightNibbleState::Null || state == LightNibbleState::Hidden
}

fn prepare_chunk_sky_nibble_section_data(light: &ChunkLightData, section_index: usize) -> (payload:
    SectionPayload)
    requires
        light.wf(),
    ensures
        payload.says() == sky_nibble_update(light.sky@, light.block@, section_index as int),
{
    let payload: SectionPayload = prepare_nibble_section_data(&light.sky, section_index);
    match payload {
        SectionPayload::Data(bytes) => {
            if should_omit_full_sky_section_above_local_sources(light, section_index) {
                SectionPayload::Omit
            } else {
                SectionPayload::Data(bytes)
            }
        },
        other => other,
    }
}

/// Builds protocol light-update data for one chunk column.
///
/// Missing layers are omitted, empty layers use the empty mask, and non-empty
/// layers are copied into the update payload.
#[must_use]
pub fn build_light_update_packet(
    chunk_pos: ChunkPos,
    range: LightSectionRange,
    sky_layers: Option<&DataLayerStorageMap>,
    block_layers: Option<&DataLayerStorageMap>,
) -> (packet: LightUpdatePacketData)
    requires
        range.wf(),
    ensures
        packet_says(
            packet,
            stored_updates(
                chunk_pos,
                range,
                match sky_layers {
                    Some(layers) => Some(layers@),
                    None => None,
                },
            ),
            stored_updates(
                chunk_pos,
                range,
                match block_layers {
                    Some(layers) => Some(layers@),
                    None => None,
                },
            ),
            range.count(),
        ),
{
    let ghost sky_updates = stored_updates(
        chunk_pos,
        range,
        match sky_layers {
            Some(layers) => Some(layers@),
            None => None,
        },
    );
    let ghost block_updates = stored_updates(
        chunk_pos,
        range,
        match block_layers {
            Some(layers) => Some(layers@),
            None => None,
        },
    );
    let count: usize = range.section_count();
    let mut sky: LayerWriter = LayerWriter::new(range);
    let mut block: LayerWriter = LayerWriter::new(range);
    let mut index: usize = 0;
    while index < count
        invariant
            index <= count,
            range.wf(),
            count == range.count(),
            sky.fits(count as int),
            block.fits(count as int),
            sky.says(sky_updates, index as int),
            block.says(block_updates, index as int),
            sky_updates == stored_updates(
                chunk_pos,
                range,
                match sky_layers {
                    Some(layers) => Some(layers@),
                    None => None,
                },
            ),
            block_updates == stored_updates(
                chunk_pos,
                range,
                match block_layers {
                    Some(layers) => Some(layers@),
                    None => None,
                },
            ),
        decreases count - index,
    {
        if let Some(section_y) = range.section_y(index) {
            let section_pos: SectionPos = range.section_pos(chunk_pos, section_y);
            sky.write(index, prepare_section_data(sky_layers, section_pos), Ghost(sky_updates));
            block.write(
                index,
                prepare_section_data(block_layers, section_pos),
                Ghost(block_updates),
            );
        }
        index += 1;
    }
    LightUpdatePacketData {
        sky_y_mask: sky.mask,
        block_y_mask: block.mask,
        empty_sky_y_mask: sky.empty_mask,
        empty_block_y_mask: block.empty_mask,
        sky_updates: sky.payloads,
        block_updates: block.payloads,
    }
}

/// Builds protocol light-update data from chunk-owned nibbles.
#[must_use]
pub fn build_chunk_light_update_packet(light: &ChunkLightData) -> (packet: LightUpdatePacketData)
    requires
        light.wf(),
    ensures
        packet_says(
            packet,
            |i: int| sky_nibble_update(light.sky@, light.block@, i),
            |i: int| light.block@.nibble_update(i),
            light.sky@.range.count(),
        ),
        forall|i: int|
            0 <= i < light.sky@.range.count() ==> tells_sky_section(
                light.sky@,
                light.block@,
                &packet.sky_y_mask,
                &packet.empty_sky_y_mask,
                packet.sky_updates@,
                i,
            ),
        forall|i: int|
            0 <= i < light.sky@.range.count() && i < light.block@.range.count() ==> tells_section(
                light.block@,
                &packet.block_y_mask,
                &packet.empty_block_y_mask,
                packet.block_updates@,
                i,
            ),
{
    let ghost sky_updates = |i: int| sky_nibble_update(light.sky@, light.block@, i);
    let ghost block_updates = |i: int| light.block@.nibble_update(i);
    proof {
        light.sky.view_lengths();
    }
    let range: LightSectionRange = light.sky.range();
    let count: usize = range.section_count();
    let mut sky: LayerWriter = LayerWriter::new(range);
    let mut block: LayerWriter = LayerWriter::new(range);
    let mut index: usize = 0;
    while index < count
        invariant
            index <= count,
            light.wf(),
            count == range.count(),
            sky.fits(count as int),
            block.fits(count as int),
            sky_updates == (|i: int| sky_nibble_update(light.sky@, light.block@, i)),
            block_updates == (|i: int| light.block@.nibble_update(i)),
            sky.says(sky_updates, index as int),
            block.says(block_updates, index as int),
        decreases count - index,
    {
        sky.write(
            index,
            prepare_chunk_sky_nibble_section_data(light, index),
            Ghost(sky_updates),
        );
        block.write(
            index,
            prepare_nibble_section_data(&light.block, index),
            Ghost(block_updates),
        );
        index += 1;
    }
    let packet = LightUpdatePacketData {
        sky_y_mask: sky.mask,
        block_y_mask: block.mask,
        empty_sky_y_mask: sky.empty_mask,
        empty_block_y_mask: block.empty_mask,
        sky_updates: sky.payloads,
        block_updates: block.payloads,
    };
    proof {
        light.block.view_lengths();
        light.sky.view_levels();
        light.block.view_levels();
        let n = light.sky@.range.count();
        assert forall|i: int| 0 <= i < n implies tells_sky_section(
            light.sky@,
            light.block@,
            &packet.sky_y_mask,
            &packet.empty_sky_y_mask,
            packet.sky_updates@,
            i,
        ) by {
            sky_is_told(
                light.sky@,
                light.block@,
                &packet.sky_y_mask,
                &packet.empty_sky_y_mask,
                packet.sky_updates@,
                sky_updates,
                n,
                i,
            );
        }
        assert forall|i: int| 0 <= i < n && i < light.block@.range.count() implies tells_section(
            light.block@,
            &packet.block_y_mask,
            &packet.empty_block_y_mask,
            packet.block_updates@,
            i,
        ) by {
            layer_is_told(
                light.block@,
                &packet.block_y_mask,
                &packet.empty_block_y_mask,
                packet.block_updates@,
                block_updates,
                n,
                i,
            );
        }
    }
    packet
}

fn contains_section(sections: &[SectionPos], section_pos: SectionPos) -> (result: bool)
    ensures
        result == sections@.contains(section_pos),
{
    let mut i: usize = 0;
    while i < sections.len()
        invariant
            i <= sections@.len(),
            forall|j: int| 0 <= j < i ==> sections@[j] != section_pos,
        decreases sections@.len() - i,
    {
        if sections[i] == section_pos {
            assert(sections@[i as int] == section_pos);
            return true;
        }
        i += 1;
    }
    false
}

/// Builds protocol light-update data for the changed sections of one chunk column.
///
/// Update payloads are in ascending light-section-index order, in whatever
/// order the changed sections come.
#[must_use]
pub fn build_chunk_light_update_packet_for_sections(
    chunk_pos: ChunkPos,
    light: &ChunkLightData,
    sky_sections: &[SectionPos],
    block_sections: &[SectionPos],
) -> (packet: LightUpdatePacketData)
    requires
        light.wf(),
    ensures
        packet_says(
            packet,
            changed_updates(chunk_pos, light.sky@.range, light.sky@, sky_sections@),
            changed_updates(chunk_pos, light.sky@.range, light.block@, block_sections@),
            light.sky@.range.count(),
        ),
        forall|i: int|
            0 <= i < light.sky@.range.count() ==> tells_change(
                light.sky@,
                chunk_pos,
                light.sky@.range.min_y(),
                sky_sections@,
                &packet.sky_y_mask,
                &packet.empty_sky_y_mask,
                packet.sky_updates@,
                i,
            ),
        forall|i: int|
            0 <= i < light.sky@.range.count() && i < light.block@.range.count() ==> tells_change(
                light.block@,
                chunk_pos,
                light.sky@.range.min_y(),
                block_sections@,
                &packet.block_y_mask,
                &packet.empty_block_y_mask,
                packet.block_updates@,
                i,
            ),
{
    proof {
        light.sky.view_lengths();
    }
    let range: LightSectionRange = light.sky.range();
    let ghost sky_updates = changed_updates(chunk_pos, range, light.sky@, sky_sections@);
    let ghost block_updates = changed_updates(chunk_pos, range, light.block@, block_sections@);
    let count: usize = range.section_count();
    let mut sky: LayerWriter = LayerWriter::new(range);
    let mut block: LayerWriter = LayerWriter::new(range);
    let mut index: usize = 0;
    while index < count
        invariant
            index <= count,
            light.wf(),
            range.wf(),
            count == range.count(),
            sky.fits(count as int),
            block.fits(count as int),
            sky_updates == changed_updates(chunk_pos, range, light.sky@, sky_sections@),
            block_updates == changed_updates(chunk_pos, range, light.block@, block_sections@),
            sky.says(sky_updates, index as int),
            block.says(block_updates, index as int),
        decreases count - index,
    {
        if let Some(section_y) = range.section_y(index) {
            let section_pos: SectionPos = range.section_pos(chunk_pos, section_y);
            let sky_payload: SectionPayload = if contains_section(sky_sections, section_pos) {
                prepare_nibble_section_data(&light.sky, index)
            } else {
                SectionPayload::Omit
            };
            sky.write(index, sky_payload, Ghost(sky_updates));
            let block_payload: SectionPayload = if contains_section(block_sections, section_pos) {
                prepare_nibble_section_data(&light.block, index)
            } else {
                SectionPayload::Omit
            };
            block.write(index, block_payload, Ghost(block_updates));
        }
        index += 1;
    }
    let packet = LightUpdatePacketData {
        sky_y_mask: sky.mask,
        block_y_mask: block.mask,
        empty_sky_y_mask: sky.empty_mask,
        empty_block_y_mask: block.empty_mask,
        sky_updates: sky.payloads,
        block_updates: block.payloads,
    };
    proof {
        light.block.view_lengths();
        light.sky.view_levels();
        light.block.view_levels();
        let n = light.sky@.range.count();
        assert forall|i: int| 0 <= i < n implies tells_change(
            light.sky@,
            chunk_pos,
            range.min_y(),
            sky_sections@,
            &packet.sky_y_mask,
            &packet.empty_sky_y_mask,
            packet.sky_updates@,
            i,
        ) by {
            changes_are_told(
                light.sky@,
                chunk_pos,
                range,
                sky_sections@,
                &packet.sky_y_mask,
                &packet.empty_sky_y_mask,
                packet.sky_updates@,
                n,
                i,
            );
        }
        assert forall|i: int| 0 <= i < n && i < light.block@.range.count() implies tells_change(
            light.block@,
            chunk_pos,
            range.min_y(),
            block_sections@,
            &packet.block_y_mask,
            &packet.empty_block_y_mask,
            packet.block_updates@,
            i,
        ) by {
            changes_are_told(
                light.block@,
                chunk_pos,
                range,
                block_sections@,
                &packet.block_y_mask,
                &packet.empty_block_y_mask,
                packet.block_updates@,
                n,
                i,
            );
        }
    }
    packet
}

} // verus!
