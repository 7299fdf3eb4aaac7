//! Moving the light of chunks into a window and back.
use vstd::prelude::*;

use crate::cache::LightCacheLayout;
use crate::chunk_light::{ChunkLightLayerStorage, LayerStorageView};
use crate::light_cache::{same_frame, section_view, update_section, LightLayerWriteCache, SlotView};
use crate::nibble::{clean_view, zero_plane, LightNibbleArray, LightNibbleState, NibbleView};
use crate::position::{ChunkPos, SectionPos};
use crate::section_range::LightSectionRange;

verus! {

/// The section belongs to the light sections of a chunk.
pub open spec fn is_light_section(
    layout: LightCacheLayout,
    chunk_pos: ChunkPos,
    pos: SectionPos,
) -> bool {
    pos.x == chunk_pos.x && pos.z == chunk_pos.z && layout.section_range.contains(pos.y as int)
}

/// What a window holds of a section after a chunk's light was moved there.
pub open spec fn lent_section(
    layout: LightCacheLayout,
    chunk_pos: ChunkPos,
    nibbles: Seq<NibbleView>,
    before: SlotView,
    pos: SectionPos,
) -> SlotView {
    if is_light_section(layout, chunk_pos, pos) {
        SlotView::Cached(nibbles[pos.y - layout.section_range.min_y()], None)
    } else {
        before
    }
}

/// What a chunk gets back of a section.
pub open spec fn returned_nibble(slot: SlotView, before: NibbleView) -> NibbleView {
    match slot.held() {
        Some(nibble) => nibble,
        None => before,
    }
}

/// What a chunk gets back of the emptiness of its sections: a map that covers
/// them.
pub open spec fn returned_emptiness(known: Option<Seq<bool>>, before: LayerStorageView) -> Option<
    Seq<bool>,
> {
    match known {
        Some(map) => if map.len() == before.chunk_section_count {
            Some(map)
        } else {
            before.emptiness
        },
        None => before.emptiness,
    }
}

/// A light section of a chunk.
pub open spec fn light_section(
    layout: LightCacheLayout,
    chunk_pos: ChunkPos,
    index: int,
) -> SectionPos {
    SectionPos {
        x: chunk_pos.x,
        y: (layout.section_range.min_y() + index) as i32,
        z: chunk_pos.z,
    }
}

proof fn lemma_update_section(
    layout: LightCacheLayout,
    slots: Seq<SlotView>,
    pos: SectionPos,
    slot: SlotView,
    other: SectionPos,
)
    requires
        layout.wf(),
        slots.len() == layout.slots(),
    ensures
        section_view(layout, update_section(layout, slots, pos, slot), other) == (if other == pos
            && layout.has_section(pos) {
            slot
        } else {
            section_view(layout, slots, other)
        }),
{
    layout.slot_round_trip(pos, 0);
    layout.slot_round_trip(other, 0);
}

/// Light that is moved into a window and back without a change is the light
/// that it was, wherever the chunk lies in the window.
pub proof fn lending_keeps_light(
    layout: LightCacheLayout,
    chunk_pos: ChunkPos,
    nibbles: Seq<NibbleView>,
    before: SlotView,
    left: NibbleView,
    index: int,
)
    requires
        layout.wf(),
        nibbles.len() == layout.section_range.count(),
        0 <= index < nibbles.len(),
    ensures
        returned_nibble(
            lent_section(
                layout,
                chunk_pos,
                nibbles,
                before,
                light_section(layout, chunk_pos, index),
            ),
            left,
        ) == nibbles[index],
{
}

impl LightLayerWriteCache {
    /// Moves a chunk's light into the window, with what is known of its
    /// sections' emptiness. The chunk keeps null nibble sections meanwhile.
    ///
    /// Chunks outside of the window keep their light.
    pub fn lend_chunk(&mut self, chunk_pos: ChunkPos, storage: &mut ChunkLightLayerStorage)
        requires
            old(self).wf(),
            old(storage).wf(),
            old(storage)@.range == old(self).spec_layout().section_range,
        ensures
            final(self).wf(),
            final(storage).wf(),
            final(self).spec_layout() == old(self).spec_layout(),
            final(self).spec_layer() == old(self).spec_layer(),
            old(self).spec_layout().has_chunk(chunk_pos.x as int, chunk_pos.z as int) ==> {
                &&& final(storage)@.emptiness == old(storage)@.emptiness
                &&& final(storage)@.layer == old(storage)@.layer
                &&& final(storage)@.range == old(storage)@.range
                &&& final(storage)@.chunk_section_count == old(storage)@.chunk_section_count
                &&& forall|index: int|
                    0 <= index < old(storage)@.nibbles.len() ==> #[trigger] final(storage)@.nibbles[index] == clean_view(zero_plane(LightNibbleState::Null))
                &&& forall|pos: SectionPos| #[trigger]
                    final(self).section(pos) == lent_section(
                        old(self).spec_layout(),
                        chunk_pos,
                        old(storage)@.nibbles,
                        old(self).section(pos),
                        pos,
                    )
                &&& final(self).known() == (match old(storage)@.emptiness {
                    Some(map) => old(self).known().update(
                        old(self).spec_layout().chunk_slot_at(
                            chunk_pos.x as int,
                            chunk_pos.z as int,
                        ),
                        Some(map),
                    ),
                    None => old(self).known(),
                })
            },
            !old(self).spec_layout().has_chunk(chunk_pos.x as int, chunk_pos.z as int) ==> final(self)@ == old(self)@ && final(self).known() == old(self).known() && final(storage)@ == old(storage)@,
    {
        let ghost layout = self.spec_layout();
        let ghost nibbles = storage@.nibbles;
        proof {
            self.view_valid();
            storage.view_lengths();
        }
        let range: LightSectionRange = self.layout().range();
        if self.layout().chunk_slot(chunk_pos).is_none() {
            return;
        }
        match storage.emptiness_map() {
            Some(map) => {
                let copied: Vec<bool> = map.clone();
                assert(copied@ =~= map@);
                self.set_emptiness_map(chunk_pos, copied);
            },
            None => {},
        }
        let ghost known = self.known();
        let count: usize = range.section_count();
        let mut index: usize = 0;
        while index < count
            invariant
                index <= count,
                self.wf(),
                storage.wf(),
                range.wf(),
                range == layout.section_range,
                count == range.count(),
                layout == old(self).spec_layout(),
                layout.wf(),
                layout.has_chunk(chunk_pos.x as int, chunk_pos.z as int),
                self.spec_layout() == layout,
                self.spec_layer() == old(self).spec_layer(),
                self.known() == known,
                nibbles == old(storage)@.nibbles,
                nibbles.len() == count,
                storage@.range == range,
                storage@.emptiness == old(storage)@.emptiness,
                storage@.layer == old(storage)@.layer,
                storage@.chunk_section_count == old(storage)@.chunk_section_count,
                storage@.nibbles.len() == count,
                forall|i: int|
                    0 <= i < index ==> #[trigger] storage@.nibbles[i] == clean_view(
                        zero_plane(LightNibbleState::Null),
                    ),
                forall|i: int| index <= i < count ==> #[trigger] storage@.nibbles[i] == nibbles[i],
                forall|pos: SectionPos| #[trigger]
                    self.section(pos) == (if pos.y - range.min_y() < index {
                        lent_section(layout, chunk_pos, nibbles, old(self).section(pos), pos)
                    } else {
                        old(self).section(pos)
                    }),
            decreases count - index,
        {
            let ghost start = *self;
            let ghost slots = self@;
            proof {
                self.view_valid();
            }
            match range.section_y(index) {
                Some(section_y) => {
                    let section_pos: SectionPos = range.section_pos(chunk_pos, section_y);
                    if let Some(place) = storage.nibble_mut(section_y) {
                        let mut taken: LightNibbleArray = LightNibbleArray::null();
                        std::mem::swap(place, &mut taken);
                        self.insert(section_pos, taken);
                    } else {
                        assert(false);
                    }
                    proof {
                        assert(layout.has_section(section_pos));
                        assert forall|pos: SectionPos| #[trigger]
                            self.section(pos) == (if pos.y - range.min_y() < index + 1 {
                                lent_section(
                                    layout,
                                    chunk_pos,
                                    nibbles,
                                    old(self).section(pos),
                                    pos,
                                )
                            } else {
                                old(self).section(pos)
                            }) by {
                            lemma_update_section(
                                layout,
                                slots,
                                section_pos,
                                SlotView::Cached(nibbles[index as int], None),
                                pos,
                            );
                            assert(start.section(pos) == (if pos.y - range.min_y() < index {
                                lent_section(
                                    layout,
                                    chunk_pos,
                                    nibbles,
                                    old(self).section(pos),
                                    pos,
                                )
                            } else {
                                old(self).section(pos)
                            }));
                        }
                    }
                },
                None => {
                    assert(false);
                },
            }
            index += 1;
        }
        proof {
            assert forall|pos: SectionPos| #[trigger]
                self.section(pos) == lent_section(
                    layout,
                    chunk_pos,
                    nibbles,
                    old(self).section(pos),
                    pos,
                ) by {
                assert(pos.y - range.min_y() < count || !range.contains(pos.y as int));
            }
        }
    }

    /// Moves a chunk's light back, with what is known of its sections'
    /// emptiness.
    ///
    /// Chunks outside of the window get nothing.
    pub fn return_chunk(&mut self, chunk_pos: ChunkPos, storage: &mut ChunkLightLayerStorage)
        requires
            old(self).wf(),
            old(storage).wf(),
            old(storage)@.range == old(self).spec_layout().section_range,
        ensures
            final(self).wf(),
            final(storage).wf(),
            same_frame(final(self), old(self)),
            old(self).spec_layout().has_chunk(chunk_pos.x as int, chunk_pos.z as int) ==> {
                &&& final(storage)@.layer == old(storage)@.layer
                &&& final(storage)@.range == old(storage)@.range
                &&& final(storage)@.chunk_section_count == old(storage)@.chunk_section_count
                &&& final(storage)@.emptiness == returned_emptiness(
                    old(self).known()[old(self).spec_layout().chunk_slot_at(
                        chunk_pos.x as int,
                        chunk_pos.z as int,
                    )],
                    old(storage)@,
                )
                &&& forall|index: int|
                    0 <= index < old(storage)@.nibbles.len() ==> #[trigger] final(storage)@.nibbles[
                        index] == returned_nibble(
                        old(self).section(
                            light_section(old(self).spec_layout(), chunk_pos, index),
                        ),
                        old(storage)@.nibbles[index],
                    )
                &&& forall|pos: SectionPos| #[trigger]
                    final(self).section(pos) == (if is_light_section(
                        old(self).spec_layout(),
                        chunk_pos,
                        pos,
                    ) {
                        SlotView::Absent
                    } else {
                        old(self).section(pos)
                    })
            },
            !old(self).spec_layout().has_chunk(chunk_pos.x as int, chunk_pos.z as int) ==> final(
                self)@ == old(self)@ && final(storage)@ == old(storage)@,
    {
        let ghost layout = self.spec_layout();
        let ghost nibbles = storage@.nibbles;
        proof {
            self.view_valid();
            storage.view_lengths();
        }
        let range: LightSectionRange = self.layout().range();
        if self.layout().chunk_slot(chunk_pos).is_none() {
            return;
        }
        match self.emptiness_map(chunk_pos) {
            Some(map) => {
                let copied: Vec<bool> = map.clone();
                assert(copied@ =~= map@);
                let _ = storage.set_emptiness_map(copied);
            },
            None => {},
        }
        let ghost emptiness = storage@.emptiness;
        let count: usize = range.section_count();
        let mut index: usize = 0;
        while index < count
            invariant
                index <= count,
                self.wf(),
                storage.wf(),
                range.wf(),
                range == layout.section_range,
                count == range.count(),
                layout == old(self).spec_layout(),
                layout.wf(),
                layout.has_chunk(chunk_pos.x as int, chunk_pos.z as int),
                same_frame(self, old(self)),
                nibbles == old(storage)@.nibbles,
                nibbles.len() == count,
                storage@.range == range,
                storage@.emptiness == emptiness,
                storage@.layer == old(storage)@.layer,
                storage@.chunk_section_count == old(storage)@.chunk_section_count,
                storage@.nibbles.len() == count,
                forall|i: int|
                    0 <= i < index ==> #[trigger] storage@.nibbles[i] == returned_nibble(
                        old(self).section(light_section(layout, chunk_pos, i)),
                        nibbles[i],
                    ),
                forall|i: int| index <= i < count ==> #[trigger] storage@.nibbles[i] == nibbles[i],
                forall|pos: SectionPos| #[trigger]
                    self.section(pos) == (if is_light_section(layout, chunk_pos, pos) && pos.y
                        - range.min_y() < index {
                        SlotView::Absent
                    } else {
                        old(self).section(pos)
                    }),
            decreases count - index,
        {
            let ghost start = *self;
            let ghost slots = self@;
            proof {
                self.view_valid();
            }
            match range.section_y(index) {
                Some(section_y) => {
                    let section_pos: SectionPos = range.section_pos(chunk_pos, section_y);
                    assert(section_pos == light_section(layout, chunk_pos, index as int));
                    assert(start.section(section_pos) == old(self).section(section_pos));
                    if let Some(taken) = self.take(section_pos) {
                        if let Some(place) = storage.nibble_mut(section_y) {
                            *place = taken;
                        } else {
                            assert(false);
                        }
                    }
                    proof {
                        assert(layout.has_section(section_pos));
                        assert forall|pos: SectionPos| #[trigger]
                            self.section(pos) == (if is_light_section(layout, chunk_pos, pos)
                                && pos.y - range.min_y() < index + 1 {
                                SlotView::Absent
                            } else {
                                old(self).section(pos)
                            }) by {
                            lemma_update_section(
                                layout,
                                slots,
                                section_pos,
                                SlotView::Absent,
                                pos,
                            );
                            assert(start.section(pos) == (if is_light_section(
                                layout,
                                chunk_pos,
                                pos,
                            ) && pos.y - range.min_y() < index {
                                SlotView::Absent
                            } else {
                                old(self).section(pos)
                            }));
                        }
                    }
                },
                None => {
                    assert(false);
                },
            }
            index += 1;
        }
    }
}

} // verus!
