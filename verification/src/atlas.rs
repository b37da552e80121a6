//! The tile atlas: a bounded-capacity, shared cache of tile slots.
//!
//! The atlas is the single source of truth for which coordinates are
//! currently resident for one terrain. Every frame it aggregates the request
//! set of all observers, admits new tiles into free slots, evicts the
//! least-recently-used slot whose coordinate nobody requested this frame,
//! dispatches loads and applies loader completions. A slot whose coordinate
//! is requested in the current frame is never evicted, and a slot with a
//! load in flight is never disturbed.

use vstd::prelude::*;

use crate::attachment::AttachmentConfig;
use crate::config::TerrainConfig;
use crate::coordinate::TileCoordinate;

verus! {

/// Lifecycle state of one tile slot.
#[derive(Clone, Copy, PartialEq, Eq, Structural, Debug)]
pub enum SlotState {
    /// The slot holds no tile.
    Unloaded,
    /// Admitted this frame; a load is about to be dispatched.
    Requested,
    /// A load is in flight for this slot.
    Loading,
    /// The tile's data is resident and may be referenced by resolution
    /// entries.
    Loaded,
    /// The last load for this coordinate failed; retried only on an
    /// explicit re-request after the cool-down.
    Failed,
}

/// One entry of the tile slot table.
#[derive(Clone, Copy, Debug)]
pub struct TileSlot {
    /// The coordinate the slot is assigned to; nothing when unloaded.
    pub coordinate: Option<TileCoordinate>,
    /// Lifecycle state of the slot.
    pub state: SlotState,
    /// Frame of the last request touching this slot; for a failed slot, the
    /// frame the failure was recorded, anchoring the retry cool-down.
    pub last_used_frame: u64,
    /// Smallest height sample of the resident tile's height payload.
    pub height_min: u16,
    /// Largest height sample of the resident tile's height payload.
    pub height_max: u16,
}

/// What the atlas answers to a per-frame request for one coordinate.
#[derive(Clone, Copy, PartialEq, Eq, Structural, Debug)]
pub enum SlotStatus {
    /// Not in the table; admission is decided after all observers have
    /// submitted their requests, and may defer under capacity pressure.
    Pending,
    /// Admitted; the load is not dispatched yet.
    Requested { slot: usize },
    /// A load is in flight.
    Loading { slot: usize },
    /// Resident; the slot may be referenced for rendering.
    Loaded { slot: usize },
    /// The last load failed; a re-request after the cool-down retries it.
    Failed { slot: usize },
}

/// Whether slot `i` is free for immediate admission.
pub open spec fn free_at(slots: Seq<TileSlot>, i: int) -> bool {
    0 <= i < slots.len() && slots[i].state is Unloaded
}

/// Whether slot `i` may be evicted against the aggregated request set
/// `requests`: it holds settled data (loaded or failed) and its coordinate
/// is not wanted by any observer this frame. Slots with a load in flight
/// are never eviction candidates.
pub open spec fn evictable_at(
    slots: Seq<TileSlot>,
    requests: Seq<TileCoordinate>,
    i: int,
) -> bool {
    &&& 0 <= i < slots.len()
    &&& (slots[i].state is Loaded || slots[i].state is Failed)
    &&& (slots[i].coordinate matches Some(c) ==> !requests.contains(c))
}

/// Whether slot `i` could receive a new admission against `requests`:
/// free, or evictable.
pub open spec fn admissible_at(
    slots: Seq<TileSlot>,
    requests: Seq<TileCoordinate>,
    i: int,
) -> bool {
    free_at(slots, i) || evictable_at(slots, requests, i)
}

/// Whether the table offers no slot at all for a new admission against
/// `requests`: capacity pressure, resolved by retrying next frame.
pub open spec fn saturated(slots: Seq<TileSlot>, requests: Seq<TileCoordinate>) -> bool {
    forall|i: int| 0 <= i < slots.len() ==> !(#[trigger] admissible_at(slots, requests, i))
}

/// The tile atlas of one terrain: the slot table, the current frame's
/// aggregated request set, and the frame counter.
///
/// One slot spans every attachment channel of its tile: each channel's
/// texture array uses the same slot index, so admission, eviction and
/// residency are decided once per coordinate, and a completion carries
/// one payload per channel.
pub struct TileAtlas {
    /// The attachment channels of the terrain.
    pub attachments: Vec<AttachmentConfig>,
    /// The fixed-capacity slot table, shared by all observers.
    pub slots: Vec<TileSlot>,
    /// The current frame index.
    pub frame: u64,
    /// Coordinates requested in the current frame, across all observers,
    /// deduplicated.
    pub requests: Vec<TileCoordinate>,
    /// Frames a failed tile rests before an explicit re-request retries it.
    pub cooldown_frames: u64,
}

impl TileAtlas {
    /// Slot `i` exists and is assigned to coordinate `c`.
    pub open spec fn holds_at(self, c: TileCoordinate, i: int) -> bool {
        0 <= i < self.slots@.len() && self.slots@[i].coordinate == Some(c)
    }

    /// Some slot is assigned to coordinate `c`.
    pub open spec fn has_tile(self, c: TileCoordinate) -> bool {
        exists|i: int| self.holds_at(c, i)
    }

    /// The slot assigned to coordinate `c`; meaningful only when
    /// `has_tile(c)` holds, and then unique by well-formedness.
    pub open spec fn slot_of(self, c: TileCoordinate) -> int {
        choose|i: int| self.holds_at(c, i)
    }

    /// Coordinate `c` is resident: its slot is loaded.
    pub open spec fn resident_spec(self, c: TileCoordinate) -> bool {
        self.has_tile(c) && self.slots@[self.slot_of(c)].state is Loaded
    }

    /// Internal consistency of the slot table: a slot has a coordinate
    /// exactly when it holds a tile, coordinates are well formed, and no
    /// coordinate occupies two slots.
    pub open spec fn slots_wf(self) -> bool {
        &&& forall|i: int|
            0 <= i < self.slots@.len() ==> ((#[trigger] self.slots@[i]).coordinate is None
                <==> self.slots@[i].state is Unloaded)
        &&& forall|i: int|
            0 <= i < self.slots@.len() ==> ((#[trigger] self.slots@[i]).coordinate matches Some(c)
                ==> c.wf())
        &&& forall|i: int, j: int|
            0 <= i < self.slots@.len() && 0 <= j < self.slots@.len() && i != j
                && (#[trigger] self.slots@[i]).coordinate is Some ==> self.slots@[i].coordinate
                != (#[trigger] self.slots@[j]).coordinate
    }

    /// Internal consistency of the aggregated request set: well-formed
    /// coordinates, no duplicates.
    pub open spec fn requests_wf(self) -> bool {
        &&& forall|i: int|
            0 <= i < self.requests@.len() ==> (#[trigger] self.requests@[i]).wf()
        &&& forall|i: int, j: int|
            0 <= i < j < self.requests@.len() ==> self.requests@[i] != self.requests@[j]
    }

    /// Well-formedness of the whole atlas.
    pub open spec fn wf(self) -> bool {
        &&& self.slots@.len() >= 1
        &&& 1 <= self.attachments@.len() <= crate::config::MAX_ATTACHMENTS
        &&& forall|i: int|
            0 <= i < self.attachments@.len() ==> (#[trigger] self.attachments@[i]).wf()
        &&& self.slots_wf()
        &&& self.requests_wf()
    }

    /// The status the table currently gives for coordinate `c`.
    pub open spec fn status_spec(self, c: TileCoordinate) -> SlotStatus {
        if !self.has_tile(c) {
            SlotStatus::Pending
        } else {
            let i = self.slot_of(c) as usize;
            match self.slots@[self.slot_of(c)].state {
                SlotState::Unloaded => SlotStatus::Pending,
                SlotState::Requested => SlotStatus::Requested { slot: i },
                SlotState::Loading => SlotStatus::Loading { slot: i },
                SlotState::Loaded => SlotStatus::Loaded { slot: i },
                SlotState::Failed => SlotStatus::Failed { slot: i },
            }
        }
    }

    /// Any slot assigned to `c` is the unique one `slot_of` names.
    pub proof fn lemma_slot_unique(self, c: TileCoordinate, i: int)
        requires
            self.slots_wf(),
            self.holds_at(c, i),
        ensures
            self.slot_of(c) == i,
    {
        let j = self.slot_of(c);
        assert(self.holds_at(c, j));
    }

    /// Two atlas values with the same slot table agree on lookups.
    pub proof fn lemma_same_slots(a: TileAtlas, b: TileAtlas, c: TileCoordinate)
        requires
            a.slots@ == b.slots@,
            a.slots_wf(),
        ensures
            a.has_tile(c) <==> b.has_tile(c),
            a.has_tile(c) ==> a.slot_of(c) == b.slot_of(c),
            a.status_spec(c) == b.status_spec(c),
            a.resident_spec(c) <==> b.resident_spec(c),
    {
        assert(b.slots_wf());
        if a.has_tile(c) {
            let i = a.slot_of(c);
            assert(a.holds_at(c, i));
            assert(b.holds_at(c, i));
            b.lemma_slot_unique(c, i);
        }
        if b.has_tile(c) {
            let i = b.slot_of(c);
            assert(b.holds_at(c, i));
            assert(a.holds_at(c, i));
            a.lemma_slot_unique(c, i);
        }
    }

    /// Request deduplication, on the table side: however many observers
    /// requested a coordinate, it occupies at most one slot, so at most
    /// one load is ever in flight for it.
    pub proof fn lemma_single_flight(self, c: TileCoordinate, i: int, j: int)
        requires
            self.wf(),
            self.holds_at(c, i),
            self.holds_at(c, j),
        ensures
            i == j,
    {
        self.lemma_slot_unique(c, i);
        self.lemma_slot_unique(c, j);
    }

    /// Saturation needs as many live coordinates as slots. While the
    /// frame's request set is smaller than the table and every in-flight
    /// slot serves a coordinate requested this frame, admission cannot be
    /// refused: with enough capacity, every request makes progress.
    pub proof fn lemma_capacity_prevents_saturation(self)
        requires
            self.wf(),
            forall|i: int|
                0 <= i < self.slots@.len() && (((#[trigger] self.slots@[i]).state is Requested)
                    || (self.slots@[i].state is Loading)) ==> (self.slots@[i].coordinate matches
                    Some(c) && self.requests@.contains(c)),
            self.requests@.len() < self.slots@.len(),
        ensures
            !saturated(self.slots@, self.requests@),
    {
        broadcast use vstd::set::group_set_axioms;

        if saturated(self.slots@, self.requests@) {
            let n = self.slots@.len() as int;
            let x = vstd::set_lib::set_int_range(0, n);
            vstd::set_lib::lemma_int_range(0, n);
            let f = |i: int| self.slots@[i].coordinate->Some_0;
            // under saturation, every slot holds a coordinate requested
            // this frame
            assert forall|i: int|
                x.contains(i) implies self.slots@[i].coordinate == Some(f(i))
                && self.requests@.contains(f(i)) by {
                assert(!admissible_at(self.slots@, self.requests@, i));
                assert(!(self.slots@[i].state is Unloaded));
                assert(self.slots@[i].coordinate is Some);
                match self.slots@[i].state {
                    SlotState::Loaded | SlotState::Failed => {
                        assert(!evictable_at(self.slots@, self.requests@, i));
                    },
                    _ => {},
                }
            }
            assert(vstd::relations::injective_on(f, x)) by {
                assert forall|i1: int, i2: int|
                    x.contains(i1) && x.contains(i2) && #[trigger] f(i1) == #[trigger] f(
                        i2,
                    ) implies i1 == i2 by {
                    if i1 != i2 {
                        assert(self.slots@[i1].coordinate == Some(f(i1)));
                        assert(self.slots@[i2].coordinate == Some(f(i2)));
                    }
                }
            }
            let y = x.map(f);
            vstd::set_lib::lemma_map_size(x, y, f);
            assert(y.subset_of(self.requests@.to_set())) by {
                assert forall|c: TileCoordinate|
                    y.contains(c) implies self.requests@.to_set().contains(c) by {
                    let i = choose|i: int| x.contains(i) && f(i) == c;
                    assert(self.requests@.contains(c));
                }
            }
            assert(self.requests@.no_duplicates()) by {
                assert forall|i1: int, i2: int|
                    0 <= i1 < self.requests@.len() && 0 <= i2 < self.requests@.len() && i1
                        != i2 implies self.requests@[i1] != self.requests@[i2] by {
                    if i1 < i2 {
                        assert(self.requests@[i1] != self.requests@[i2]);
                    } else {
                        assert(self.requests@[i2] != self.requests@[i1]);
                    }
                }
            }
            self.requests@.unique_seq_to_set();
            vstd::set_lib::lemma_len_subset(y, self.requests@.to_set());
            assert(false);
        }
    }

    /// Creates the atlas of one terrain: every slot unloaded, frame zero,
    /// no requests yet.
    pub fn new(config: TerrainConfig) -> (r: TileAtlas)
        requires
            config.wf(),
        ensures
            r.wf(),
            r.attachments@ == config.attachments@,
            r.slots@.len() == config.atlas_capacity as nat,
            forall|i: int| 0 <= i < r.slots@.len() ==> (#[trigger] r.slots@[i]).state is Unloaded,
            r.frame == 0,
            r.requests@.len() == 0,
            r.cooldown_frames == config.cooldown_frames,
    {
        let capacity = config.atlas_capacity as usize;
        let mut slots: Vec<TileSlot> = Vec::new();
        while slots.len() < capacity
            invariant
                slots@.len() <= capacity as nat,
                forall|i: int|
                    0 <= i < slots@.len() ==> (#[trigger] slots@[i]) == (TileSlot {
                        coordinate: None,
                        state: SlotState::Unloaded,
                        last_used_frame: 0,
                        height_min: 0,
                        height_max: 0,
                    }),
            decreases capacity - slots@.len(),
        {
            slots.push(TileSlot {
                coordinate: None,
                state: SlotState::Unloaded,
                last_used_frame: 0,
                height_min: 0,
                height_max: 0,
            });
        }
        TileAtlas {
            attachments: config.attachments,
            slots,
            frame: 0,
            requests: Vec::new(),
            cooldown_frames: config.cooldown_frames,
        }
    }

    /// Finds the slot assigned to `c`, if any.
    fn find_slot(&self, c: TileCoordinate) -> (r: Option<usize>)
        requires
            self.slots_wf(),
        ensures
            match r {
                Option::Some(i) => self.holds_at(c, i as int) && self.slot_of(c) == i as int,
                Option::None => !self.has_tile(c),
            },
    {
        let mut i: usize = 0;
        while i < self.slots.len()
            invariant
                self.slots_wf(),
                i <= self.slots@.len(),
                forall|j: int| 0 <= j < i ==> !self.holds_at(c, j),
            decreases self.slots@.len() - i,
        {
            let slot = &self.slots[i];
            match slot.coordinate {
                Some(sc) => {
                    if sc == c {
                        proof {
                            self.lemma_slot_unique(c, i as int);
                        }
                        return Some(i);
                    }
                },
                None => {},
            }
            i = i + 1;
        }
        None
    }

    /// Read-only residency lookup: the slot index of `c` when its tile is
    /// loaded. Observers use this to resolve ancestor fallback; they hold
    /// the index only for the current frame.
    pub fn resident(&self, c: TileCoordinate) -> (r: Option<usize>)
        requires
            self.wf(),
        ensures
            match r {
                Option::Some(i) => self.resident_spec(c) && self.slot_of(c) == i as int
                    && self.holds_at(c, i as int) && self.slots@[i as int].state is Loaded,
                Option::None => !self.resident_spec(c),
            },
    {
        match self.find_slot(c) {
            Some(i) => {
                if matches!(self.slots[i].state, SlotState::Loaded) {
                    Some(i)
                } else {
                    None
                }
            },
            None => None,
        }
    }

    /// Opens a new frame: advances the frame counter and clears the
    /// aggregated request set. The slot table is untouched.
    pub fn begin_frame(&mut self)
        requires
            old(self).wf(),
            old(self).frame < u64::MAX,
        ensures
            final(self).wf(),
            final(self).frame == old(self).frame + 1,
            final(self).requests@.len() == 0,
            final(self).slots@ == old(self).slots@,
            final(self).attachments@ == old(self).attachments@,
            final(self).cooldown_frames == old(self).cooldown_frames,
    {
        self.frame = self.frame + 1;
        self.requests = Vec::new();
    }

    /// Submits one observer's request for a coordinate this frame.
    ///
    /// The coordinate joins the frame's aggregated request set exactly once,
    /// however many observers ask for it. A loaded tile's slot is touched
    /// (its recency refreshed). The returned status reflects the table as it
    /// stands; admission of absent coordinates happens in
    /// [`Self::admit_requests`] once all observers have submitted.
    pub fn request(&mut self, c: TileCoordinate) -> (r: SlotStatus)
        requires
            old(self).wf(),
            c.wf(),
        ensures
            final(self).wf(),
            r == old(self).status_spec(c),
            // request aggregation deduplicates
            old(self).requests@.contains(c) ==> final(self).requests@ == old(self).requests@,
            !old(self).requests@.contains(c) ==> final(self).requests@ == old(self).requests@.push(c),
            final(self).requests@.contains(c),
            // the table changes only by refreshing the recency of c's loaded slot
            old(self).resident_spec(c) ==> final(self).slots@ == old(self).slots@.update(
                old(self).slot_of(c),
                TileSlot {
                    last_used_frame: old(self).frame,
                    ..old(self).slots@[old(self).slot_of(c)]
                },
            ),
            !old(self).resident_spec(c) ==> final(self).slots@ == old(self).slots@,
            final(self).frame == old(self).frame,
            final(self).attachments@ == old(self).attachments@,
            final(self).cooldown_frames == old(self).cooldown_frames,
    {
        let mut known: bool = false;
        let mut k: usize = 0;
        while k < self.requests.len()
            invariant
                k <= self.requests@.len(),
                known <==> exists|j: int| 0 <= j < k && self.requests@[j] == c,
            decreases self.requests@.len() - k,
        {
            if self.requests[k] == c {
                known = true;
            }
            k = k + 1;
        }
        proof {
            if known {
                assert(old(self).requests@.contains(c));
            } else {
                assert(!old(self).requests@.contains(c));
            }
        }
        if !known {
            self.requests.push(c);
            proof {
                assert(self.requests@[self.requests@.len() - 1] == c);
                assert(self.requests@.contains(c));
                assert forall|x: int, y: int|
                    0 <= x < y < self.requests@.len() implies self.requests@[x]
                    != self.requests@[y] by {
                    if y == self.requests@.len() - 1 {
                        if self.requests@[x] == c {
                            assert(old(self).requests@[x] == c);
                            assert(old(self).requests@.contains(c));
                        }
                    }
                }
            }
        } else {
            proof {
                let j = choose|j: int|
                    0 <= j < old(self).requests@.len() && old(self).requests@[j] == c;
                assert(self.requests@[j] == c);
                assert(self.requests@.contains(c));
            }
        }
        let r = match self.find_slot(c) {
            Some(i) => {
                proof {
                    assert(old(self).holds_at(c, i as int));
                    old(self).lemma_slot_unique(c, i as int);
                }
                let st = self.slots[i].state;
                match st {
                    SlotState::Loaded => {
                        proof {
                            assert(old(self).resident_spec(c));
                        }
                        let refreshed = TileSlot { last_used_frame: self.frame, ..self.slots[i] };
                        self.slots.set(i, refreshed);
                        SlotStatus::Loaded { slot: i }
                    },
                    SlotState::Requested => SlotStatus::Requested { slot: i },
                    SlotState::Loading => SlotStatus::Loading { slot: i },
                    SlotState::Failed => SlotStatus::Failed { slot: i },
                    SlotState::Unloaded => SlotStatus::Pending,
                }
            },
            None => {
                proof {
                    assert forall|j: int| !old(self).holds_at(c, j) by {
                        if 0 <= j < old(self).slots@.len() {
                            assert(!self.holds_at(c, j));
                        }
                    }
                }
                SlotStatus::Pending
            },
        };
        r
    }
    /// Whether `c` is in the current frame's aggregated request set.
    fn requests_contain(&self, c: TileCoordinate) -> (r: bool)
        ensures
            r <==> self.requests@.contains(c),
    {
        let mut k: usize = 0;
        while k < self.requests.len()
            invariant
                k <= self.requests@.len(),
                forall|j: int| 0 <= j < k ==> self.requests@[j] != c,
            decreases self.requests@.len() - k,
        {
            if self.requests[k] == c {
                return true;
            }
            k = k + 1;
        }
        false
    }

    /// Picks the slot a new admission will use: a free slot if one exists,
    /// otherwise the least-recently-used slot among those whose coordinate
    /// nobody requested this frame; nothing under saturation. Ties go to
    /// the lower slot index — the one tunable point of the eviction
    /// policy, plain recency otherwise.
    pub fn select_victim(&self) -> (r: Option<usize>)
        requires
            self.wf(),
        ensures
            match r {
                Option::None => saturated(self.slots@, self.requests@),
                Option::Some(v) => {
                    &&& (v as int) < self.slots@.len()
                    &&& (free_at(self.slots@, v as int) || evictable_at(
                        self.slots@,
                        self.requests@,
                        v as int,
                    ))
                    &&& ((exists|i: int| free_at(self.slots@, i)) ==> free_at(
                        self.slots@,
                        v as int,
                    ))
                    &&& (!free_at(self.slots@, v as int) ==> forall|j: int|
                        evictable_at(self.slots@, self.requests@, j)
                            ==> self.slots@[v as int].last_used_frame
                            < self.slots@[j].last_used_frame || (self.slots@[
                            v as int
                        ].last_used_frame == self.slots@[j].last_used_frame && v as int <= j))
                },
            },
    {
        let mut i: usize = 0;
        while i < self.slots.len()
            invariant
                i <= self.slots@.len(),
                forall|j: int| 0 <= j < i ==> !free_at(self.slots@, j),
            decreases self.slots@.len() - i,
        {
            if matches!(self.slots[i].state, SlotState::Unloaded) {
                return Some(i);
            }
            i = i + 1;
        }
        let mut best: Option<usize> = None;
        i = 0;
        #[verifier::loop_isolation(false)]
        while i < self.slots.len()
            invariant
                i <= self.slots@.len(),
                match best {
                    Option::None => forall|j: int|
                        0 <= j < i ==> !evictable_at(self.slots@, self.requests@, j),
                    Option::Some(b) => {
                        &&& (b as int) < i
                        &&& evictable_at(self.slots@, self.requests@, b as int)
                        &&& forall|j: int|
                            0 <= j < i && evictable_at(self.slots@, self.requests@, j)
                                ==> self.slots@[b as int].last_used_frame
                                < self.slots@[j].last_used_frame || (self.slots@[
                                b as int
                            ].last_used_frame == self.slots@[j].last_used_frame && b as int <= j)
                    },
                },
            decreases self.slots@.len() - i,
        {
            let s = &self.slots[i];
            let candidate = match s.state {
                SlotState::Loaded | SlotState::Failed => {
                    match s.coordinate {
                        Some(c) => !self.requests_contain(c),
                        None => true,
                    }
                },
                _ => false,
            };
            if candidate {
                match best {
                    None => {
                        best = Some(i);
                    },
                    Some(b) => {
                        if self.slots[i].last_used_frame < self.slots[b].last_used_frame {
                            best = Some(i);
                        }
                    },
                }
            }
            i = i + 1;
        }
        match best {
            None => {
                proof {
                    assert forall|j: int|
                        0 <= j < self.slots@.len() implies !(#[trigger] admissible_at(
                        self.slots@,
                        self.requests@,
                        j,
                    )) by {
                        assert(!free_at(self.slots@, j));
                        assert(!evictable_at(self.slots@, self.requests@, j));
                    }
                }
                None
            },
            Some(b) => Some(b),
        }
    }

    /// Runs admission and eviction for the frame's aggregated request set,
    /// once every observer has submitted its requests.
    ///
    /// Each requested coordinate that is absent from the table is assigned
    /// a slot — a free one, else the table evicts the least-recently-used
    /// slot whose coordinate nobody requested this frame — or stays pending
    /// under saturation, to be retried next frame. A failed tile that is
    /// re-requested after the cool-down becomes requested again. Slots with
    /// a load in flight and slots holding a coordinate requested this frame
    /// are never disturbed.
    #[verifier::loop_isolation(false)]
    pub fn admit_requests(&mut self)
        requires
            old(self).wf(),
        ensures
            final(self).wf(),
            final(self).frame == old(self).frame,
            final(self).requests@ == old(self).requests@,
            final(self).attachments@ == old(self).attachments@,
            final(self).cooldown_frames == old(self).cooldown_frames,
            final(self).slots@.len() == old(self).slots@.len(),
            // eviction safety: a requested coordinate keeps its slot
            forall|c: TileCoordinate, i: int|
                old(self).holds_at(c, i) && old(self).requests@.contains(c) ==> final(self).holds_at(c, i),
            // slots already admitted or with a load in flight are untouched
            forall|i: int|
                0 <= i < old(self).slots@.len() && ((old(self).slots@[i].state is Requested) || (
                old(self).slots@[i].state is Loading)) ==> final(self).slots@[i] == old(self).slots@[i],
            // a loaded slot whose coordinate is requested stays exactly as it is
            forall|i: int|
                0 <= i < old(self).slots@.len() && old(self).slots@[i].state is Loaded && (old(self).slots@[i].coordinate matches Some(c) && old(self).requests@.contains(c))
                    ==> final(self).slots@[i] == old(self).slots@[i],
            // every change serves a coordinate requested this frame
            forall|i: int|
                0 <= i < old(self).slots@.len() && final(self).slots@[i] != old(self).slots@[i]
                    ==> (final(self).slots@[i].state is Requested && final(self).slots@[i].last_used_frame == old(self).frame && (final(self).slots@[i].coordinate matches Some(c) && old(self).requests@.contains(c))),
            // a failed tile that is re-requested retries exactly after the cool-down
            forall|i: int|
                0 <= i < old(self).slots@.len() && old(self).slots@[i].state is Failed && (old(self).slots@[i].coordinate matches Some(c) && old(self).requests@.contains(c)) ==> {
                    let s = old(self).slots@[i];
                    if old(self).frame >= s.last_used_frame + old(self).cooldown_frames {
                        final(self).slots@[i] == (TileSlot {
                            state: SlotState::Requested,
                            last_used_frame: old(self).frame,
                            ..s
                        })
                    } else {
                        final(self).slots@[i] == s
                    }
                },
            // admission completeness: a requested coordinate is in the table
            // afterwards, unless the table is saturated
            forall|c: TileCoordinate|
                old(self).requests@.contains(c) ==> final(self).has_tile(c) || saturated(
                    final(self).slots@,
                    old(self).requests@,
                ),
    {
        let ghost orig = *self;
        let mut k: usize = 0;
        while k < self.requests.len()
            invariant
                admit_inv(orig, *self, k as int),
            decreases self.requests@.len() - k,
        {
            let c = self.requests[k];
            proof {
                assert(orig.requests@[k as int] == c);
                assert(orig.requests@.contains(c));
            }
            let ghost prev = *self;
            match self.find_slot(c) {
                Some(i) => {
                    proof {
                        assert(prev.holds_at(c, i as int));
                    }
                    let s = self.slots[i];
                    if matches!(s.state, SlotState::Failed) {
                        let due = self.frame >= s.last_used_frame && self.frame
                            - s.last_used_frame >= self.cooldown_frames;
                        if due {
                            self.slots.set(
                                i,
                                TileSlot {
                                    state: SlotState::Requested,
                                    last_used_frame: self.frame,
                                    ..s
                                },
                            );
                        }
                    }
                    proof {
                        lemma_step_retry(orig, prev, *self, c, i as int, k as int);
                    }
                },
                None => {
                    proof {
                        assert(!prev.has_tile(c));
                    }
                    match self.select_victim() {
                        Some(v) => {
                            proof {
                                assert(free_at(prev.slots@, v as int) || evictable_at(
                                    prev.slots@,
                                    prev.requests@,
                                    v as int,
                                ));
                            }
                            self.slots.set(
                                v,
                                TileSlot {
                                    coordinate: Some(c),
                                    state: SlotState::Requested,
                                    last_used_frame: self.frame,
                                    height_min: 0,
                                    height_max: 0,
                                },
                            );
                            proof {
                                lemma_step_assign(orig, prev, *self, c, v as int, k as int);
                            }
                        },
                        None => {
                            proof {
                                lemma_step_defer(orig, prev, *self, c, k as int);
                            }
                        },
                    }
                },
            }
            k = k + 1;
        }
        proof {
            assert forall|c: TileCoordinate|
                orig.requests@.contains(c) implies self.has_tile(c) || saturated(
                self.slots@,
                orig.requests@,
            ) by {
                let j = choose|j: int|
                    0 <= j < orig.requests@.len() && orig.requests@[j] == c;
                assert(self.has_tile(orig.requests@[j]) || saturated(
                    self.slots@,
                    orig.requests@,
                ));
            }
        }
    }

    /// The status the table currently gives for `c`, without touching
    /// anything.
    pub fn status(&self, c: TileCoordinate) -> (r: SlotStatus)
        requires
            self.wf(),
        ensures
            r == self.status_spec(c),
    {
        match self.find_slot(c) {
            Some(i) => {
                match self.slots[i].state {
                    SlotState::Loaded => SlotStatus::Loaded { slot: i },
                    SlotState::Requested => SlotStatus::Requested { slot: i },
                    SlotState::Loading => SlotStatus::Loading { slot: i },
                    SlotState::Failed => SlotStatus::Failed { slot: i },
                    SlotState::Unloaded => SlotStatus::Pending,
                }
            },
            None => SlotStatus::Pending,
        }
    }

    /// Moves up to `max` admitted slots into flight and hands their
    /// coordinates to the loader.
    ///
    /// Each returned coordinate came from a slot that was `Requested` and
    /// is now `Loading`; nothing else changes, no coordinate is returned
    /// twice, and fewer than `max` jobs are returned only when no admitted
    /// slot remains.
    #[verifier::loop_isolation(false)]
    pub fn take_load_requests(&mut self, max: usize) -> (r: Vec<TileCoordinate>)
        requires
            old(self).wf(),
        ensures
            final(self).wf(),
            final(self).frame == old(self).frame,
            final(self).requests@ == old(self).requests@,
            final(self).attachments@ == old(self).attachments@,
            final(self).cooldown_frames == old(self).cooldown_frames,
            final(self).slots@.len() == old(self).slots@.len(),
            r@.len() <= max,
            forall|k: int|
                0 <= k < r@.len() ==> (#[trigger] r@[k]).wf() && exists|i: int|
                    {
                        &&& 0 <= i < old(self).slots@.len()
                        &&& old(self).slots@[i].coordinate == Some(r@[k])
                        &&& old(self).slots@[i].state is Requested
                        &&& final(self).slots@[i] == (TileSlot {
                            state: SlotState::Loading,
                            ..old(self).slots@[i]
                        })
                    },
            forall|x: int, y: int| 0 <= x < y < r@.len() ==> r@[x] != r@[y],
            forall|i: int|
                0 <= i < old(self).slots@.len() && final(self).slots@[i] != old(self).slots@[i]
                    ==> old(self).slots@[i].state is Requested && final(self).slots@[i] == (
                TileSlot { state: SlotState::Loading, ..old(self).slots@[i] }),
            r@.len() < max ==> forall|i: int|
                0 <= i < final(self).slots@.len() ==> !((#[trigger] final(self).slots@[i]).state
                    is Requested),
    {
        let ghost orig = *self;
        let mut out: Vec<TileCoordinate> = Vec::new();
        let ghost mut idxs: Seq<int> = Seq::empty();
        let mut i: usize = 0;
        while i < self.slots.len()
            invariant
                0 <= i <= self.slots@.len(),
                self.wf(),
                self.frame == orig.frame,
                self.requests@ == orig.requests@,
                self.attachments@ == orig.attachments@,
                self.cooldown_frames == orig.cooldown_frames,
                self.slots@.len() == orig.slots@.len(),
                out@.len() <= max,
                idxs.len() == out@.len(),
                forall|k: int|
                    0 <= k < out@.len() ==> {
                        &&& 0 <= #[trigger] idxs[k] < i
                        &&& orig.slots@[idxs[k]].coordinate == Some(out@[k])
                        &&& orig.slots@[idxs[k]].state is Requested
                        &&& self.slots@[idxs[k]] == (TileSlot {
                            state: SlotState::Loading,
                            ..orig.slots@[idxs[k]]
                        })
                    },
                forall|x: int, y: int| 0 <= x < y < idxs.len() ==> idxs[x] != idxs[y],
                forall|j: int|
                    0 <= j < orig.slots@.len() && self.slots@[j] != orig.slots@[j]
                        ==> orig.slots@[j].state is Requested && self.slots@[j] == (TileSlot {
                        state: SlotState::Loading,
                        ..orig.slots@[j]
                    }),
                out@.len() < max ==> forall|j: int|
                    0 <= j < i ==> !((#[trigger] self.slots@[j]).state is Requested),
            decreases self.slots@.len() - i,
        {
            if out.len() < max {
                let s = self.slots[i];
                if matches!(s.state, SlotState::Requested) {
                    match s.coordinate {
                        Some(c) => {
                            self.slots.set(i, TileSlot { state: SlotState::Loading, ..s });
                            out.push(c);
                            proof {
                                idxs = idxs.push(i as int);
                                assert(orig.slots@[i as int] == s);
                            }
                        },
                        None => {
                            proof {
                                assert(false);
                            }
                        },
                    }
                }
            }
            i = i + 1;
        }
        proof {
            assert forall|x: int, y: int| 0 <= x < y < out@.len() implies out@[x] != out@[y] by {
                assert(orig.slots@[idxs[x]].coordinate == Some(out@[x]));
                assert(orig.slots@[idxs[y]].coordinate == Some(out@[y]));
                assert(idxs[x] != idxs[y]);
            }
            assert forall|k: int| 0 <= k < out@.len() implies (#[trigger] out@[k]).wf()
                && exists|j: int|
                {
                    &&& 0 <= j < orig.slots@.len()
                    &&& orig.slots@[j].coordinate == Some(out@[k])
                    &&& orig.slots@[j].state is Requested
                    &&& self.slots@[j] == (TileSlot {
                        state: SlotState::Loading,
                        ..orig.slots@[j]
                    })
                } by {
                let j = idxs[k];
                assert(0 <= j < orig.slots@.len());
                assert(orig.slots@[j].coordinate == Some(out@[k]));
                assert(orig.slots@[j].coordinate matches Some(d) ==> d.wf());
            }
        }
        out
    }

    /// Whether `payloads` carries one byte buffer per attachment channel,
    /// each of exactly the length the channel's format and size demand.
    pub open spec fn payloads_match_spec(
        attachments: Seq<AttachmentConfig>,
        payloads: Seq<Vec<u8>>,
    ) -> bool {
        &&& payloads.len() == attachments.len()
        &&& forall|i: int|
            0 <= i < attachments.len() ==> (#[trigger] payloads[i])@.len()
                == attachments[i].expected_byte_len_spec()
    }

    /// Checks a decoded tile against the terrain's attachment declarations.
    fn payloads_match(&self, payloads: &Vec<Vec<u8>>) -> (r: bool)
        requires
            self.wf(),
        ensures
            r <==> Self::payloads_match_spec(self.attachments@, payloads@),
    {
        if payloads.len() != self.attachments.len() {
            return false;
        }
        let mut i: usize = 0;
        #[verifier::loop_isolation(false)]
        while i < self.attachments.len()
            invariant
                0 <= i <= self.attachments@.len(),
                forall|j: int|
                    0 <= j < i ==> (#[trigger] payloads@[j])@.len()
                        == self.attachments@[j].expected_byte_len_spec(),
            decreases self.attachments@.len() - i,
        {
            if !self.attachments[i].payload_matches(payloads[i].len() as u64) {
                return false;
            }
            i = i + 1;
        }
        true
    }

    /// Applies one drained loader completion.
    ///
    /// If the coordinate has a slot with a load in flight, the slot becomes
    /// `Loaded` when the payloads match every attachment's declared byte
    /// length — recording the height interval of the height channel — and
    /// `Failed` otherwise (read error or size mismatch), anchoring the
    /// retry cool-down at the current frame. A completion for a coordinate
    /// that is no longer loading is ignored.
    pub fn complete_load(&mut self, coordinate: TileCoordinate, payloads: &Option<Vec<Vec<u8>>>)
        -> (r: CompletionOutcome)
        requires
            old(self).wf(),
        ensures
            final(self).wf(),
            final(self).frame == old(self).frame,
            final(self).requests@ == old(self).requests@,
            final(self).attachments@ == old(self).attachments@,
            final(self).cooldown_frames == old(self).cooldown_frames,
            final(self).slots@.len() == old(self).slots@.len(),
            !(old(self).has_tile(coordinate) && old(self).slots@[old(self).slot_of(
                coordinate,
            )].state is Loading) ==> r == CompletionOutcome::Ignored && final(self).slots@ == old(
                self,
            ).slots@,
            (old(self).has_tile(coordinate) && old(self).slots@[old(self).slot_of(
                coordinate,
            )].state is Loading) ==> {
                let i = old(self).slot_of(coordinate);
                let ok = payloads matches Some(p) && Self::payloads_match_spec(
                    old(self).attachments@,
                    p@,
                );
                &&& (forall|j: int|
                    0 <= j < old(self).slots@.len() && j != i ==> final(self).slots@[j] == old(
                        self,
                    ).slots@[j])
                &&& final(self).slots@[i].coordinate == old(self).slots@[i].coordinate
                &&& (ok ==> {
                    let samples = crate::surface::samples_spec(
                        old(self).attachments@[0].format,
                        payloads->Some_0@[0]@,
                    );
                    &&& r == (CompletionOutcome::Loaded { slot: i as usize })
                    &&& final(self).slots@[i].state is Loaded
                    &&& final(self).slots@[i].last_used_frame == old(self).frame
                    &&& (samples.len() > 0 ==> (forall|k: int|
                        0 <= k < samples.len() ==> final(self).slots@[i].height_min
                            <= #[trigger] samples[k] <= final(self).slots@[i].height_max))
                })
                &&& (!ok ==> {
                    &&& r == (CompletionOutcome::Failed { slot: i as usize })
                    &&& final(self).slots@[i].state is Failed
                    &&& final(self).slots@[i].last_used_frame == old(self).frame
                })
            },
    {
        let i = match self.find_slot(coordinate) {
            Some(i) => i,
            None => {
                return CompletionOutcome::Ignored;
            },
        };
        proof {
            old(self).lemma_slot_unique(coordinate, i as int);
        }
        let s = self.slots[i];
        if !matches!(s.state, SlotState::Loading) {
            return CompletionOutcome::Ignored;
        }
        let ok = match payloads {
            Some(p) => self.payloads_match(p),
            None => false,
        };
        if ok {
            let hb = match payloads {
                Some(p) => crate::surface::height_bounds(self.attachments[0].format, &p[0]),
                None => (0, 0xffff),
            };
            self.slots.set(
                i,
                TileSlot {
                    state: SlotState::Loaded,
                    last_used_frame: self.frame,
                    height_min: hb.0,
                    height_max: hb.1,
                    ..s
                },
            );
            CompletionOutcome::Loaded { slot: i }
        } else {
            self.slots.set(
                i,
                TileSlot { state: SlotState::Failed, last_used_frame: self.frame, ..s },
            );
            CompletionOutcome::Failed { slot: i }
        }
    }
}

/// What applying a loader completion did to the table.
#[derive(Clone, Copy, PartialEq, Eq, Structural, Debug)]
pub enum CompletionOutcome {
    /// The tile's data matched its declaration; the slot is resident.
    Loaded { slot: usize },
    /// Read error or format/size mismatch; the slot is failed and rests
    /// for the cool-down.
    Failed { slot: usize },
    /// No load was in flight for the coordinate; nothing changed.
    Ignored,
}

/// Invariant of the admission pass after the first `k` requests have been
/// decided, relating the table `cur` to its state `orig` at the start of
/// the pass.
pub open spec fn admit_inv(orig: TileAtlas, cur: TileAtlas, k: int) -> bool {
    &&& cur.wf()
    &&& cur.frame == orig.frame
    &&& cur.requests@ == orig.requests@
    &&& cur.attachments@ == orig.attachments@
    &&& cur.cooldown_frames == orig.cooldown_frames
    &&& cur.slots@.len() == orig.slots@.len()
    &&& 0 <= k <= orig.requests@.len()
    // eviction safety: a requested coordinate keeps its slot
    &&& forall|c: TileCoordinate, i: int|
        #[trigger] orig.holds_at(c, i) && orig.requests@.contains(c) ==> cur.holds_at(c, i)
    // slots already admitted or with a load in flight are untouched
    &&& forall|i: int|
        0 <= i < orig.slots@.len() && (((#[trigger] orig.slots@[i]).state is Requested) || (
        orig.slots@[i].state is Loading)) ==> cur.slots@[i] == orig.slots@[i]
    // a loaded slot whose coordinate is requested stays exactly as it is
    &&& forall|i: int|
        0 <= i < orig.slots@.len() && (#[trigger] orig.slots@[i]).state is Loaded && (
        orig.slots@[i].coordinate matches Some(c) && orig.requests@.contains(c))
            ==> cur.slots@[i] == orig.slots@[i]
    // every change serves a coordinate requested this frame
    &&& forall|i: int|
        0 <= i < orig.slots@.len() && (#[trigger] cur.slots@[i]) != orig.slots@[i] ==> (
        cur.slots@[i].state is Requested && cur.slots@[i].last_used_frame == orig.frame && (
        cur.slots@[i].coordinate matches Some(c) && orig.requests@.contains(c)))
    // a failed tile that is re-requested retries exactly after the cool-down,
    // once its coordinate's turn in the pass has come
    &&& forall|i: int|
        0 <= i < orig.slots@.len() && (#[trigger] orig.slots@[i]).state is Failed && (
        orig.slots@[i].coordinate matches Some(c) && orig.requests@.contains(c)) ==> {
            let s = orig.slots@[i];
            let c = s.coordinate->Some_0;
            if exists|j: int| 0 <= j < k && orig.requests@[j] == c {
                if orig.frame >= s.last_used_frame + orig.cooldown_frames {
                    cur.slots@[i] == (TileSlot {
                        state: SlotState::Requested,
                        last_used_frame: orig.frame,
                        ..s
                    })
                } else {
                    cur.slots@[i] == s
                }
            } else {
                cur.slots@[i] == s
            }
        }
    // admission completeness over the decided prefix
    &&& forall|j: int|
        0 <= j < k ==> cur.has_tile(#[trigger] orig.requests@[j]) || saturated(
            cur.slots@,
            orig.requests@,
        )
}

/// Saturation persists when slots only harden: each slot is unchanged or
/// has moved to a protected in-flight state.
pub proof fn lemma_saturation_monotone(
    slots0: Seq<TileSlot>,
    slots1: Seq<TileSlot>,
    requests: Seq<TileCoordinate>,
)
    requires
        saturated(slots0, requests),
        slots1.len() == slots0.len(),
        forall|i: int|
            0 <= i < slots1.len() ==> #[trigger] slots1[i] == slots0[i] || slots1[i].state
                is Requested || slots1[i].state is Loading,
    ensures
        saturated(slots1, requests),
{
    assert forall|i: int|
        0 <= i < slots1.len() implies !(#[trigger] admissible_at(slots1, requests, i)) by {
        assert(!admissible_at(slots0, requests, i));
        assert(slots1[i] == slots0[i] || slots1[i].state is Requested || slots1[i].state
            is Loading);
        if slots1[i] == slots0[i] {
            assert(!(slots1[i].state is Unloaded));
        }
        assert(!free_at(slots1, i));
        assert(!evictable_at(slots1, requests, i));
    }
}

/// Step of the admission pass that found request `k`'s coordinate already
/// in the table: at most the failed-retry transition happened.
proof fn lemma_step_retry(
    orig: TileAtlas,
    prev: TileAtlas,
    cur: TileAtlas,
    c: TileCoordinate,
    i: int,
    k: int,
)
    requires
        admit_inv(orig, prev, k),
        0 <= k < orig.requests@.len(),
        orig.requests@[k] == c,
        prev.holds_at(c, i),
        cur.frame == prev.frame,
        cur.requests@ == prev.requests@,
        cur.attachments@ == prev.attachments@,
        cur.cooldown_frames == prev.cooldown_frames,
        (prev.slots@[i].state is Failed && prev.frame >= prev.slots@[i].last_used_frame
            + prev.cooldown_frames) ==> cur.slots@ == prev.slots@.update(
            i,
            TileSlot {
                state: SlotState::Requested,
                last_used_frame: prev.frame,
                ..prev.slots@[i]
            },
        ),
        !(prev.slots@[i].state is Failed && prev.frame >= prev.slots@[i].last_used_frame
            + prev.cooldown_frames) ==> cur.slots@ == prev.slots@,
    ensures
        admit_inv(orig, cur, k + 1),
{
    assert(orig.requests@.contains(c));
    // the pass has not met c before: requests are duplicate-free
    assert forall|j: int| 0 <= j < k implies orig.requests@[j] != c by {
        assert(prev.requests_wf());
    }
    if prev.slots@[i].state is Failed && prev.frame >= prev.slots@[i].last_used_frame
        + prev.cooldown_frames {
        let s0 = prev.slots@[i];
        let s1 = TileSlot {
            state: SlotState::Requested,
            last_used_frame: prev.frame,
            ..s0
        };
        assert(cur.slots@ == prev.slots@.update(i, s1));
        // the touched slot was unchanged so far: a changed slot would be in
        // state `Requested`, not `Failed`
        assert(prev.slots@[i] == orig.slots@[i]);
        assert(cur.slots_wf()) by {
            assert(prev.slots_wf());
            assert forall|x: int|
                0 <= x < cur.slots@.len() implies (((#[trigger] cur.slots@[x]).coordinate
                is None <==> cur.slots@[x].state is Unloaded) && (cur.slots@[x].coordinate
            matches Some(d) ==> d.wf())) by {
                if x != i {
                    assert(cur.slots@[x] == prev.slots@[x]);
                }
            }
            assert forall|x: int, y: int|
                0 <= x < cur.slots@.len() && 0 <= y < cur.slots@.len() && x != y && (
                #[trigger] cur.slots@[x]).coordinate is Some implies cur.slots@[x].coordinate
                != (#[trigger] cur.slots@[y]).coordinate by {
                assert(cur.slots@[x].coordinate == prev.slots@[x].coordinate);
                assert(cur.slots@[y].coordinate == prev.slots@[y].coordinate);
            }
        }
        // the retried slot keeps its coordinate, so residency of every
        // coordinate is untouched
        assert forall|d: TileCoordinate, x: int|
            #[trigger] orig.holds_at(d, x) && orig.requests@.contains(d) implies cur.holds_at(
            d,
            x,
        ) by {
            assert(prev.holds_at(d, x));
            if x == i {
                assert(cur.slots@[x].coordinate == prev.slots@[x].coordinate);
            }
        }
        // completeness: existing tiles persist, saturation persists
        assert forall|j: int|
            0 <= j < k + 1 implies cur.has_tile(#[trigger] orig.requests@[j]) || saturated(
            cur.slots@,
            orig.requests@,
        ) by {
            if j == k {
                assert(cur.holds_at(c, i));
            } else {
                if prev.has_tile(orig.requests@[j]) {
                    let x = choose|x: int| prev.holds_at(orig.requests@[j], x);
                    assert(cur.holds_at(orig.requests@[j], x));
                } else {
                    assert(saturated(prev.slots@, orig.requests@));
                    lemma_saturation_monotone(prev.slots@, cur.slots@, orig.requests@);
                }
            }
        }
        // the retry clause moves to the decided prefix
        assert forall|x: int|
            0 <= x < orig.slots@.len() && (#[trigger] orig.slots@[x]).state is Failed && (
            orig.slots@[x].coordinate matches Some(d) && orig.requests@.contains(d))
                implies {
            let s = orig.slots@[x];
            let d = s.coordinate->Some_0;
            if exists|j: int| 0 <= j < k + 1 && orig.requests@[j] == d {
                if orig.frame >= s.last_used_frame + orig.cooldown_frames {
                    cur.slots@[x] == (TileSlot {
                        state: SlotState::Requested,
                        last_used_frame: orig.frame,
                        ..s
                    })
                } else {
                    cur.slots@[x] == s
                }
            } else {
                cur.slots@[x] == s
            }
        } by {
            let s = orig.slots@[x];
            let d = s.coordinate->Some_0;
            if d == c {
                // unprocessed until now, so the slot is as the pass found it
                assert(!(exists|j: int| 0 <= j < k && orig.requests@[j] == d));
                assert(prev.slots@[x] == orig.slots@[x]);
                assert(prev.holds_at(c, x));
                prev.lemma_slot_unique(c, x);
                prev.lemma_slot_unique(c, i);
                assert(x == i);
            } else {
                if x == i {
                    // slot i holds c, so its coordinate cannot be d
                    assert(prev.slots@[i].coordinate == Some(c));
                    assert(orig.slots@[x].coordinate == Some(c));
                    assert(false);
                }
                assert(cur.slots@[x] == prev.slots@[x]);
                assert forall|j: int|
                    0 <= j < k + 1 && orig.requests@[j] == d implies 0 <= j < k by {
                    if j == k {
                        assert(d == c);
                    }
                }
                if exists|j: int| 0 <= j < k + 1 && orig.requests@[j] == d {
                    let j = choose|j: int| 0 <= j < k + 1 && orig.requests@[j] == d;
                    assert(0 <= j < k);
                    assert(exists|j2: int| 0 <= j2 < k && orig.requests@[j2] == d);
                }
            }
        }
    } else {
        assert(cur.slots@ == prev.slots@);
        assert forall|j: int|
            0 <= j < k + 1 implies cur.has_tile(#[trigger] orig.requests@[j]) || saturated(
            cur.slots@,
            orig.requests@,
        ) by {
            if j == k {
                assert(cur.holds_at(c, i));
            } else {
                if prev.has_tile(orig.requests@[j]) {
                    let x = choose|x: int| prev.holds_at(orig.requests@[j], x);
                    assert(cur.holds_at(orig.requests@[j], x));
                }
            }
        }
        assert forall|d: TileCoordinate, x: int|
            #[trigger] orig.holds_at(d, x) && orig.requests@.contains(d) implies cur.holds_at(
            d,
            x,
        ) by {
            assert(prev.holds_at(d, x));
        }
        // the untaken retry: for the slot holding c, if it is failed and
        // re-requested, the cool-down has not passed, so it stays as it is
        assert forall|x: int|
            0 <= x < orig.slots@.len() && (#[trigger] orig.slots@[x]).state is Failed && (
            orig.slots@[x].coordinate matches Some(d) && orig.requests@.contains(d))
                implies {
            let s = orig.slots@[x];
            let d = s.coordinate->Some_0;
            if exists|j: int| 0 <= j < k + 1 && orig.requests@[j] == d {
                if orig.frame >= s.last_used_frame + orig.cooldown_frames {
                    cur.slots@[x] == (TileSlot {
                        state: SlotState::Requested,
                        last_used_frame: orig.frame,
                        ..s
                    })
                } else {
                    cur.slots@[x] == s
                }
            } else {
                cur.slots@[x] == s
            }
        } by {
            let s = orig.slots@[x];
            let d = s.coordinate->Some_0;
            if exists|j: int| 0 <= j < k + 1 && orig.requests@[j] == d {
                if !(exists|j: int| 0 <= j < k && orig.requests@[j] == d) {
                    // first processed now: d == c, held by slot i
                    assert(d == c);
                    assert(prev.slots@[x] == orig.slots@[x]);
                    assert(prev.holds_at(d, x));
                    prev.lemma_slot_unique(c, x);
                    prev.lemma_slot_unique(c, i);
                    assert(x == i);
                    // the step did not retry, so the cool-down has not passed
                    assert(!(orig.frame >= s.last_used_frame + orig.cooldown_frames));
                }
            }
        }
    }
}

/// Step of the admission pass that assigned request `k`'s coordinate to a
/// free or evicted slot `v`.
proof fn lemma_step_assign(
    orig: TileAtlas,
    prev: TileAtlas,
    cur: TileAtlas,
    c: TileCoordinate,
    v: int,
    k: int,
)
    requires
        admit_inv(orig, prev, k),
        0 <= k < orig.requests@.len(),
        orig.requests@[k] == c,
        !prev.has_tile(c),
        free_at(prev.slots@, v) || evictable_at(prev.slots@, orig.requests@, v),
        cur.frame == prev.frame,
        cur.requests@ == prev.requests@,
        cur.attachments@ == prev.attachments@,
        cur.cooldown_frames == prev.cooldown_frames,
        cur.slots@ == prev.slots@.update(
            v,
            TileSlot {
                coordinate: Some(c),
                state: SlotState::Requested,
                last_used_frame: prev.frame,
                height_min: 0,
                height_max: 0,
            },
        ),
    ensures
        admit_inv(orig, cur, k + 1),
{
    assert(orig.requests@.contains(c));
    assert(c.wf()) by {
        assert(prev.requests_wf());
        assert(prev.requests@[k] == c);
    }
    // the victim holds no requested coordinate
    assert forall|d: TileCoordinate|
        prev.slots@[v].coordinate == Some(d) implies !orig.requests@.contains(d) by {
        assert(!free_at(prev.slots@, v));
        assert(evictable_at(prev.slots@, orig.requests@, v));
    }
    // no other slot holds c
    assert forall|x: int| 0 <= x < prev.slots@.len() implies prev.slots@[x].coordinate
        != Some(c) by {
        assert(!prev.holds_at(c, x));
    }
    assert(cur.slots_wf()) by {
        assert(prev.slots_wf());
        assert forall|x: int|
            0 <= x < cur.slots@.len() implies (((#[trigger] cur.slots@[x]).coordinate is None
            <==> cur.slots@[x].state is Unloaded) && (cur.slots@[x].coordinate matches Some(
            d,
        ) ==> d.wf())) by {
            if x != v {
                assert(cur.slots@[x] == prev.slots@[x]);
            }
        }
        assert forall|x: int, y: int|
            0 <= x < cur.slots@.len() && 0 <= y < cur.slots@.len() && x != y && (
            #[trigger] cur.slots@[x]).coordinate is Some implies cur.slots@[x].coordinate != (
            #[trigger] cur.slots@[y]).coordinate by {
            if x == v {
                assert(cur.slots@[y] == prev.slots@[y]);
                assert(prev.slots@[y].coordinate != Some(c));
            } else if y == v {
                assert(cur.slots@[x] == prev.slots@[x]);
                assert(prev.slots@[x].coordinate != Some(c));
            } else {
                assert(cur.slots@[x] == prev.slots@[x]);
                assert(cur.slots@[y] == prev.slots@[y]);
            }
        }
    }
    // the victim was not protected: its state at the start of the pass
    assert(!(orig.slots@[v].state is Requested) && !(orig.slots@[v].state is Loading)) by {
        if orig.slots@[v].state is Requested || orig.slots@[v].state is Loading {
            assert(prev.slots@[v] == orig.slots@[v]);
            assert(!free_at(prev.slots@, v));
            assert(!evictable_at(prev.slots@, orig.requests@, v));
        }
    }
    // eviction safety
    assert forall|d: TileCoordinate, x: int|
        #[trigger] orig.holds_at(d, x) && orig.requests@.contains(d) implies cur.holds_at(
        d,
        x,
    ) by {
        assert(prev.holds_at(d, x));
        if x == v {
            assert(prev.slots@[v].coordinate == Some(d));
            assert(!orig.requests@.contains(d));
        }
    }
    // loaded requested slots untouched
    assert forall|x: int|
        0 <= x < orig.slots@.len() && (#[trigger] orig.slots@[x]).state is Loaded && (
        orig.slots@[x].coordinate matches Some(d) && orig.requests@.contains(d)) implies
        cur.slots@[x] == orig.slots@[x] by {
        if x == v {
            assert(prev.slots@[v] == orig.slots@[v]);
            assert(prev.slots@[v].coordinate matches Some(d) && orig.requests@.contains(d));
        }
    }
    // the retry clause: the assigned slot held no failed requested coordinate
    assert forall|x: int|
        0 <= x < orig.slots@.len() && (#[trigger] orig.slots@[x]).state is Failed && (
        orig.slots@[x].coordinate matches Some(d) && orig.requests@.contains(d)) implies {
        let s = orig.slots@[x];
        let d = s.coordinate->Some_0;
        if exists|j: int| 0 <= j < k + 1 && orig.requests@[j] == d {
            if orig.frame >= s.last_used_frame + orig.cooldown_frames {
                cur.slots@[x] == (TileSlot {
                    state: SlotState::Requested,
                    last_used_frame: orig.frame,
                    ..s
                })
            } else {
                cur.slots@[x] == s
            }
        } else {
            cur.slots@[x] == s
        }
    } by {
        let s = orig.slots@[x];
        let d = s.coordinate->Some_0;
        // d is not c: a slot holding c would contradict `!prev.has_tile(c)`
        if d == c {
            assert(!(exists|j: int| 0 <= j < k && orig.requests@[j] == d)) by {
                assert(prev.requests_wf());
            }
            assert(prev.slots@[x] == orig.slots@[x]);
            assert(prev.holds_at(c, x));
            assert(false);
        }
        if x == v {
            // the victim cannot hold a requested coordinate
            if prev.slots@[x] != orig.slots@[x] {
                assert(prev.slots@[x].state is Requested);
                assert(!free_at(prev.slots@, v));
                assert(!evictable_at(prev.slots@, orig.requests@, v));
            } else {
                assert(prev.slots@[v].coordinate == Some(d));
                assert(!orig.requests@.contains(d));
            }
            assert(false);
        }
        assert(cur.slots@[x] == prev.slots@[x]);
        assert forall|j: int|
            0 <= j < k + 1 && orig.requests@[j] == d implies 0 <= j < k by {
            if j == k {
                assert(d == c);
            }
        }
        if exists|j: int| 0 <= j < k + 1 && orig.requests@[j] == d {
            let j = choose|j: int| 0 <= j < k + 1 && orig.requests@[j] == d;
            assert(0 <= j < k);
            assert(exists|j2: int| 0 <= j2 < k && orig.requests@[j2] == d);
        }
    }
    // completeness
    assert forall|j: int|
        0 <= j < k + 1 implies cur.has_tile(#[trigger] orig.requests@[j]) || saturated(
        cur.slots@,
        orig.requests@,
    ) by {
        if j == k {
            assert(cur.holds_at(c, v));
        } else {
            if prev.has_tile(orig.requests@[j]) {
                let x = choose|x: int| prev.holds_at(orig.requests@[j], x);
                if x == v {
                    assert(prev.slots@[v].coordinate == Some(orig.requests@[j]));
                    assert(orig.requests@.contains(orig.requests@[j]));
                    assert(false);
                }
                assert(cur.holds_at(orig.requests@[j], x));
            } else {
                // the table was saturated, yet a victim was found
                assert(saturated(prev.slots@, orig.requests@));
                assert(!admissible_at(prev.slots@, orig.requests@, v));
                assert(false);
            }
        }
    }
}

/// Step of the admission pass that deferred request `k`'s coordinate: the
/// table is saturated and nothing changed.
proof fn lemma_step_defer(orig: TileAtlas, prev: TileAtlas, cur: TileAtlas, c: TileCoordinate, k: int)
    requires
        admit_inv(orig, prev, k),
        0 <= k < orig.requests@.len(),
        orig.requests@[k] == c,
        !prev.has_tile(c),
        saturated(prev.slots@, prev.requests@),
        cur == prev,
    ensures
        admit_inv(orig, cur, k + 1),
{
    assert(orig.requests@.contains(c));
    assert(saturated(cur.slots@, orig.requests@)) by {
        assert(cur.requests@ == orig.requests@);
    }
    assert forall|j: int|
        0 <= j < k + 1 implies cur.has_tile(#[trigger] orig.requests@[j]) || saturated(
        cur.slots@,
        orig.requests@,
    ) by {
    }
    // the retry clause: no failed slot holds c, since no slot holds c at all
    assert forall|x: int|
        0 <= x < orig.slots@.len() && (#[trigger] orig.slots@[x]).state is Failed && (
        orig.slots@[x].coordinate matches Some(d) && orig.requests@.contains(d)) implies {
        let s = orig.slots@[x];
        let d = s.coordinate->Some_0;
        if exists|j: int| 0 <= j < k + 1 && orig.requests@[j] == d {
            if orig.frame >= s.last_used_frame + orig.cooldown_frames {
                cur.slots@[x] == (TileSlot {
                    state: SlotState::Requested,
                    last_used_frame: orig.frame,
                    ..s
                })
            } else {
                cur.slots@[x] == s
            }
        } else {
            cur.slots@[x] == s
        }
    } by {
        let s = orig.slots@[x];
        let d = s.coordinate->Some_0;
        if d == c {
            assert(!(exists|j: int| 0 <= j < k && orig.requests@[j] == d)) by {
                assert(prev.requests_wf());
            }
            assert(prev.slots@[x] == orig.slots@[x]);
            assert(prev.holds_at(c, x));
            assert(false);
        }
        assert forall|j: int|
            0 <= j < k + 1 && orig.requests@[j] == d implies 0 <= j < k by {
            if j == k {
                assert(d == c);
            }
        }
        if exists|j: int| 0 <= j < k + 1 && orig.requests@[j] == d {
            let j = choose|j: int| 0 <= j < k + 1 && orig.requests@[j] == d;
            assert(0 <= j < k);
            assert(exists|j2: int| 0 <= j2 < k && orig.requests@[j2] == d);
        }
    }
}

} // verus!
