//! Which cached sections are to be told of light updates.
use vstd::prelude::*;

use crate::cache::LightCacheLayout;
use crate::count::{count_where, lemma_count_update};
use crate::position::{BlockPos, SectionPos};

verus! {

/// Section-slot notification flags used while publishing visible light updates.
///
/// The cached sections touched by a block's one-block lighting neighborhood are
/// marked; the same section slots are scanned later while dirty nibbles are
/// published and clients are notified.
#[derive(Debug)]
pub struct LightUpdateNotificationCache {
    layout: LightCacheLayout,
    marked: Vec<bool>,
}

/// The number of marks.
pub open spec fn mark_count(marked: Seq<bool>) -> nat {
    count_where(marked, |mark: bool| mark)
}

/// The sections of the first `n` slots that are marked, in slot order.
pub open spec fn marked_sections(layout: LightCacheLayout, marked: Seq<bool>, n: int) -> Seq<
    SectionPos,
>
    decreases n,
{
    if n <= 0 {
        Seq::empty()
    } else {
        let before = marked_sections(layout, marked, n - 1);
        if marked[n - 1] {
            before.push(layout.section_at(n - 1))
        } else {
            before
        }
    }
}

/// Some section in the slot of which a block's neighborhood lies.
pub open spec fn slot_is_around(layout: LightCacheLayout, block_pos: BlockPos, slot: int) -> bool {
    exists|pos: SectionPos|
        pos.is_around(block_pos) && layout.has_section(pos) && #[trigger] layout.slot_at(pos)
            == slot
}

/// Every section that a block's neighborhood touches is cached.
pub open spec fn neighborhood_cached(layout: LightCacheLayout, block_pos: BlockPos) -> bool {
    forall|pos: SectionPos| pos.is_around(block_pos) ==> #[trigger] layout.has_section(pos)
}

impl View for LightUpdateNotificationCache {
    type V = Seq<bool>;

    /// Whether each slot is marked.
    closed spec fn view(&self) -> Seq<bool> {
        self.marked@
    }
}

impl LightUpdateNotificationCache {
    /// The layout that the marks are indexed by.
    pub closed spec fn spec_layout(&self) -> LightCacheLayout {
        self.layout
    }

    /// There is a mark for every slot.
    pub open spec fn wf(&self) -> bool {
        self.spec_layout().wf() && self@.len() == self.spec_layout().slots()
    }

    /// Creates an empty notification cache for a light-engine cache window.
    #[must_use]
    pub fn new(layout: LightCacheLayout) -> (cache: Self)
        requires
            layout.wf(),
        ensures
            cache.wf(),
            cache.spec_layout() == layout,
            forall|slot: int| 0 <= slot < layout.slots() ==> !#[trigger] cache@[slot],
    {
        LightUpdateNotificationCache { layout, marked: vec![false; layout.section_slot_count()] }
    }

    /// Returns the layout this notification cache is indexed by.
    #[must_use]
    pub fn layout(&self) -> (layout: LightCacheLayout)
        ensures
            layout == self.spec_layout(),
    {
        self.layout
    }

    /// Returns true when no section slots are marked for notification.
    #[must_use]
    pub fn is_empty(&self) -> (result: bool)
        ensures
            result == (forall|slot: int| 0 <= slot < self@.len() ==> !#[trigger] self@[slot]),
    {
        let mut slot: usize = 0;
        while slot < self.marked.len()
            invariant
                slot <= self.marked@.len(),
                forall|s: int| 0 <= s < slot ==> !#[trigger] self@[s],
            decreases self.marked@.len() - slot,
        {
            if self.marked[slot] {
                assert(self@[slot as int]);
                return false;
            }
            slot += 1;
        }
        true
    }

    /// Removes every pending section notification.
    pub fn clear(&mut self)
        requires
            old(self).wf(),
        ensures
            final(self).wf(),
            final(self).spec_layout() == old(self).spec_layout(),
            forall|slot: int| 0 <= slot < final(self)@.len() ==> !#[trigger] final(self)@[slot],
    {
        self.marked = vec![false; self.layout.section_slot_count()];
    }

    /// Marks a cached section, returning true only when it was newly marked.
    pub fn mark_section(&mut self, section_pos: SectionPos) -> (newly_marked: bool)
        requires
            old(self).wf(),
        ensures
            final(self).wf(),
            final(self).spec_layout() == old(self).spec_layout(),
            ({
                let layout = old(self).spec_layout();
                let slot = layout.slot_at(section_pos);
                if layout.has_section(section_pos) {
                    &&& 0 <= slot < old(self)@.len()
                    &&& newly_marked == !old(self)@[slot]
                    &&& final(self)@ == old(self)@.update(slot, true)
                } else {
                    !newly_marked && final(self)@ == old(self)@
                }
            }),
    {
        match self.layout.section_slot(section_pos) {
            Some(section_slot) => self.mark_section_slot(section_slot),
            None => false,
        }
    }

    /// Marks every cached section touched by a block's lighting neighborhood,
    /// and returns how many were newly marked.
    ///
    /// Returns `None` if the full one-block neighborhood is not inside this
    /// cache window, so callers do not accidentally publish a partial update.
    pub fn mark_block_neighborhood(&mut self, block_pos: BlockPos) -> (result: Option<usize>)
        requires
            old(self).wf(),
            block_pos.has_neighbors(),
        ensures
            final(self).wf(),
            final(self).spec_layout() == old(self).spec_layout(),
            match result {
                None => !neighborhood_cached(old(self).spec_layout(), block_pos) && final(self)@
                    == old(self)@,
                Some(newly_marked) => {
                    &&& neighborhood_cached(old(self).spec_layout(), block_pos)
                    &&& newly_marked == mark_count(final(self)@) - mark_count(old(self)@)
                    &&& forall|slot: int|
                        0 <= slot < final(self)@.len() ==> #[trigger] final(self)@[slot] == (old(
                            self,
                        )@[slot] || slot_is_around(old(self).spec_layout(), block_pos, slot))
                },
            },
    {
        let sections: Vec<SectionPos> = SectionPos::around_and_at_block_pos(block_pos);
        let ghost layout = self.layout;
        let mut i: usize = 0;
        while i < sections.len()
            invariant
                i <= sections@.len(),
                self.wf(),
                *self == *old(self),
                layout == self.spec_layout(),
                forall|pos: SectionPos| #[trigger]
                    sections@.contains(pos) <==> pos.is_around(block_pos),
                forall|j: int| 0 <= j < i ==> layout.has_section(#[trigger] sections@[j]),
            decreases sections@.len() - i,
        {
            if self.layout.section_slot(sections[i]).is_none() {
                proof {
                    assert(sections@.contains(sections@[i as int]));
                    assert(!layout.has_section(sections@[i as int]));
                }
                return None;
            }
            i += 1;
        }
        proof {
            assert forall|pos: SectionPos| pos.is_around(block_pos) implies #[trigger]
            layout.has_section(pos) by {
                assert(sections@.contains(pos));
                let j = choose|j: int| 0 <= j < sections@.len() && sections@[j] == pos;
                assert(layout.has_section(sections@[j]));
            }
        }
        let ghost before = self@;
        let mut newly_marked: usize = 0;
        let mut i: usize = 0;
        while i < sections.len()
            invariant
                i <= sections@.len(),
                self.wf(),
                layout == self.spec_layout(),
                layout == old(self).spec_layout(),
                before == old(self)@,
                self@.len() == before.len(),
                newly_marked <= i,
                newly_marked == mark_count(self@) - mark_count(before),
                forall|j: int|
                    0 <= j < sections@.len() ==> layout.has_section(#[trigger] sections@[j]),
                forall|slot: int|
                    0 <= slot < self@.len() ==> #[trigger] self@[slot] == (before[slot] || exists|
                        j: int,
                    |
                        0 <= j < i && layout.slot_at(#[trigger] sections@[j]) == slot),
            decreases sections@.len() - i,
        {
            let ghost previous = self@;
            let section_pos: SectionPos = sections[i];
            let ghost slot_now = layout.slot_at(section_pos);
            proof {
                layout.slot_round_trip(section_pos, 0);
                lemma_count_update(previous, slot_now, true, |mark: bool| mark);
            }
            if self.mark_section(section_pos) {
                newly_marked += 1;
            }
            proof {
                assert forall|slot: int| 0 <= slot < self@.len() implies #[trigger] self@[slot] == (
                before[slot] || exists|j: int|
                    0 <= j < i + 1 && layout.slot_at(#[trigger] sections@[j]) == slot) by {
                    assert(self@[slot] == (previous[slot] || slot == slot_now));
                    if previous[slot] && !before[slot] {
                        let j = choose|j: int|
                            0 <= j < i && layout.slot_at(#[trigger] sections@[j]) == slot;
                        assert(0 <= j < i + 1 && layout.slot_at(sections@[j]) == slot);
                    }
                    if slot == slot_now {
                        assert(layout.slot_at(sections@[i as int]) == slot);
                    }
                }
            }
            i += 1;
        }
        proof {
            assert forall|slot: int| 0 <= slot < self@.len() implies #[trigger] self@[slot] == (old(
                self,
            )@[slot] || slot_is_around(layout, block_pos, slot)) by {
                if exists|j: int| 0 <= j < i && layout.slot_at(#[trigger] sections@[j]) == slot {
                    let j = choose|j: int|
                        0 <= j < i && layout.slot_at(#[trigger] sections@[j]) == slot;
                    assert(sections@.contains(sections@[j]));
                    assert(slot_is_around(layout, block_pos, slot));
                }
                if slot_is_around(layout, block_pos, slot) {
                    let pos = choose|pos: SectionPos|
                        pos.is_around(block_pos) && layout.has_section(pos) && #[trigger]
                        layout.slot_at(pos) == slot;
                    assert(sections@.contains(pos));
                    let j = choose|j: int| 0 <= j < sections@.len() && sections@[j] == pos;
                    assert(layout.slot_at(sections@[j]) == slot);
                }
            }
        }
        Some(newly_marked)
    }

    /// Returns whether a cached section is marked for notification.
    #[must_use]
    pub fn is_marked_section(&self, section_pos: SectionPos) -> (result: bool)
        requires
            self.wf(),
        ensures
            result == (self.spec_layout().has_section(section_pos)
                && self@[self.spec_layout().slot_at(section_pos)]),
    {
        match self.layout.section_slot(section_pos) {
            Some(section_slot) => self.is_marked_section_slot(section_slot),
            None => false,
        }
    }

    /// Returns whether a section slot is marked for notification.
    #[must_use]
    pub fn is_marked_section_slot(&self, section_slot: usize) -> (result: bool)
        ensures
            result == (section_slot < self@.len() && self@[section_slot as int]),
    {
        section_slot < self.marked.len() && self.marked[section_slot]
    }

    /// Returns marked section positions in cache-slot order.
    #[must_use]
    pub fn marked_section_positions(&self) -> (sections: Vec<SectionPos>)
        requires
            self.wf(),
            i32::MIN + 2 <= self.spec_layout().center.x <= i32::MAX - 2,
            i32::MIN + 2 <= self.spec_layout().center.z <= i32::MAX - 2,
        ensures
            sections@ == marked_sections(self.spec_layout(), self@, self@.len() as int),
    {
        let mut sections: Vec<SectionPos> = Vec::new();
        let mut slot: usize = 0;
        while slot < self.marked.len()
            invariant
                self.wf(),
                i32::MIN + 2 <= self.layout.center.x <= i32::MAX - 2,
                i32::MIN + 2 <= self.layout.center.z <= i32::MAX - 2,
                slot <= self@.len(),
                sections@ == marked_sections(self.layout, self@, slot as int),
            decreases self@.len() - slot,
        {
            if self.marked[slot] {
                if let Some(pos) = self.layout.section_pos_for_slot(slot) {
                    sections.push(pos);
                }
            }
            slot += 1;
        }
        sections
    }

    fn mark_section_slot(&mut self, section_slot: usize) -> (newly_marked: bool)
        requires
            old(self).wf(),
            section_slot < old(self)@.len(),
        ensures
            final(self).wf(),
            final(self).spec_layout() == old(self).spec_layout(),
            newly_marked == !old(self)@[section_slot as int],
            final(self)@ == old(self)@.update(section_slot as int, true),
    {
        let newly_marked: bool = !self.marked[section_slot];
        self.marked[section_slot] = true;
        newly_marked
    }
}

} // verus!
