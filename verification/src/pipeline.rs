//! The per-frame pipeline of one terrain.
//!
//! Per frame, in a fixed single-writer order: drain loader completions
//! into the atlas, run every observer's traversal against the updated
//! resident set, admit or evict for the aggregated request set of all
//! observers, dispatch new loads, and publish resolution entries and
//! surface approximations. Eviction decisions therefore always see the
//! complete request set: one observer's traversal can never evict a tile
//! another observer still needs this frame.

use vstd::prelude::*;

use crate::atlas::{saturated, SlotState, TileAtlas, TileSlot};
use crate::coordinate::TileCoordinate;
use crate::tree::{
    approximate, approximation_of, resolve_entries, resolve_entries_spec, ObserverPosition,
    ResolutionEntry, SelectedNode, SurfaceApproximation, TileTree,
};

verus! {

/// One drained loader completion: the job's coordinate and its decoded
/// payloads, one per attachment channel — or nothing when the backing
/// store read failed.
pub struct LoadCompletion {
    /// The coordinate the load was dispatched for.
    pub coordinate: TileCoordinate,
    /// Decoded payload per attachment channel; nothing on a read error.
    pub payloads: Option<Vec<Vec<u8>>>,
}

/// Everything one frame publishes: per observer the resolution table and
/// the surface approximations, and the load jobs for the loader pool.
pub struct FrameOutput {
    /// Per observer, the published resolution entries.
    pub entries: Vec<Vec<ResolutionEntry>>,
    /// Per observer, one surface approximation per selected node.
    pub approximations: Vec<Vec<SurfaceApproximation>>,
    /// The coordinates whose loads were dispatched this frame.
    pub load_jobs: Vec<TileCoordinate>,
}

/// Whether a completion will turn its coordinate's slot resident: a load
/// was in flight and the payloads match every attachment declaration.
pub open spec fn completion_applies(a: TileAtlas, comp: LoadCompletion) -> bool {
    &&& a.has_tile(comp.coordinate)
    &&& a.slots@[a.slot_of(comp.coordinate)].state is Loading
    &&& (comp.payloads matches Some(p) && TileAtlas::payloads_match_spec(a.attachments@, p@))
}

/// The selected set of observer `t`, as the traversal spec gives it.
pub open spec fn selected_of(
    trees: Seq<TileTree>,
    observers: Seq<Vec<ObserverPosition>>,
    t: int,
) -> Seq<SelectedNode> {
    trees[t].traverse_upto_spec(observers[t]@, trees[t].face_count as int).0
}

/// Runs one frame of a terrain, in the fixed pipeline order.
///
/// The published output of each observer is a pure function of its tree,
/// its transform and the final slot table; every published entry
/// references a loaded slot; a successful completion whose coordinate is
/// requested this frame ends the frame resident; and every requested
/// coordinate has a slot afterwards unless the table is saturated.
#[verifier::rlimit(100)]
pub fn process_frame(
    atlas: &mut TileAtlas,
    trees: &Vec<TileTree>,
    observers: &Vec<Vec<ObserverPosition>>,
    completions: &Vec<LoadCompletion>,
    max_dispatch: usize,
) -> (r: FrameOutput)
    requires
        old(atlas).wf(),
        old(atlas).frame < u64::MAX,
        trees@.len() == observers@.len(),
        forall|t: int| 0 <= t < trees@.len() ==> (#[trigger] trees@[t]).wf(),
        forall|t: int|
            0 <= t < trees@.len() ==> (#[trigger] observers@[t])@.len() == trees@[t].face_count,
        forall|t: int, i: int|
            0 <= t < trees@.len() && 0 <= i < observers@[t]@.len() ==> (
            #[trigger] observers@[t]@[i]).wf(),
        // one completion per coordinate: the atlas keeps at most one load
        // in flight per coordinate
        forall|j1: int, j2: int|
            0 <= j1 < j2 < completions@.len() ==> (#[trigger] completions@[j1]).coordinate != (
            #[trigger] completions@[j2]).coordinate,
    ensures
        final(atlas).wf(),
        final(atlas).frame == old(atlas).frame + 1,
        final(atlas).attachments@ == old(atlas).attachments@,
        final(atlas).cooldown_frames == old(atlas).cooldown_frames,
        final(atlas).slots@.len() == old(atlas).slots@.len(),
        r.entries@.len() == trees@.len(),
        r.approximations@.len() == trees@.len(),
        // determinism: each observer's published output is a function of
        // its tree, its transform and the final slot table
        forall|t: int|
            0 <= t < trees@.len() ==> {
                let sel = selected_of(trees@, observers@, t);
                &&& (#[trigger] r.entries@[t])@ == resolve_entries_spec(*final(atlas), sel)
                &&& r.approximations@[t]@.len() == sel.len()
                &&& (forall|k: int|
                    0 <= k < sel.len() ==> r.approximations@[t]@[k] == approximation_of(
                        *final(atlas),
                        sel[k],
                    ))
            },
        // fallback invariant: everything published references a loaded slot
        forall|t: int, k: int|
            0 <= t < r.entries@.len() && 0 <= k < r.entries@[t]@.len() ==> ((#[trigger] r.entries@[
                t
            ]@[k]).slot as int) < final(atlas).slots@.len() && final(atlas).slots@[r.entries@[
                t
            ]@[k].slot as int].state is Loaded,
        // progress: a successful completion for a coordinate requested this
        // frame leaves that coordinate resident
        forall|j: int|
            0 <= j < completions@.len() && completion_applies(*old(atlas), #[trigger] completions@[
                j
            ]) && final(atlas).requests@.contains(completions@[j].coordinate) ==> final(
                atlas).resident_spec(completions@[j].coordinate),
        // admission completeness: every coordinate requested this frame has
        // a slot afterwards, unless the table is saturated
        forall|c: TileCoordinate|
            final(atlas).requests@.contains(c) ==> final(atlas).has_tile(c) || saturated(
                final(atlas).slots@,
                final(atlas).requests@,
            ),
        // eviction safety: a coordinate requested this frame that had a
        // slot when the frame began still has the same slot at publish
        forall|c: TileCoordinate, i: int|
            old(atlas).holds_at(c, i) && final(atlas).requests@.contains(c) ==> final(
                atlas).holds_at(c, i),
{
    let ghost a0 = *atlas;
    atlas.begin_frame();

    // 1. drain loader completions into the atlas
    let mut j: usize = 0;
    while j < completions.len()
        invariant
            0 <= j <= completions@.len(),
            a0.wf(),
            atlas.wf(),
            atlas.frame == a0.frame + 1,
            atlas.requests@.len() == 0,
            atlas.attachments@ == a0.attachments@,
            atlas.cooldown_frames == a0.cooldown_frames,
            atlas.slots@.len() == a0.slots@.len(),
            forall|j1: int, j2: int|
                0 <= j1 < j2 < completions@.len() ==> (#[trigger] completions@[j1]).coordinate
                    != (#[trigger] completions@[j2]).coordinate,
            // coordinates never move during the drain
            forall|x: int|
                0 <= x < a0.slots@.len() ==> (#[trigger] atlas.slots@[x]).coordinate
                    == a0.slots@[x].coordinate,
            // only slots of already-drained coordinates have changed
            forall|x: int|
                0 <= x < a0.slots@.len() && #[trigger] atlas.slots@[x] != a0.slots@[x] ==> (
                a0.slots@[x].state is Loading && exists|j2: int|
                    0 <= j2 < j && a0.slots@[x].coordinate == Some(
                        (#[trigger] completions@[j2]).coordinate,
                    )),
            // drained successful completions are resident
            forall|j2: int|
                0 <= j2 < j && completion_applies(a0, #[trigger] completions@[j2])
                    ==> atlas.resident_spec(completions@[j2].coordinate),
        decreases completions@.len() - j,
    {
        let ghost prev = *atlas;
        let comp = &completions[j];
        atlas.complete_load(comp.coordinate, &comp.payloads);
        proof {
            lemma_drain_step(a0, prev, *atlas, completions@, j as int);
        }
        j = j + 1;
    }

    // 2. every observer's traversal against the updated resident set
    let ghost a1 = *atlas;
    let mut sel_all: Vec<Vec<SelectedNode>> = Vec::new();
    let mut t: usize = 0;
    while t < trees.len()
        invariant
            0 <= t <= trees@.len(),
            trees@.len() == observers@.len(),
            forall|t2: int| 0 <= t2 < trees@.len() ==> (#[trigger] trees@[t2]).wf(),
            forall|t2: int|
                0 <= t2 < trees@.len() ==> (#[trigger] observers@[t2])@.len()
                    == trees@[t2].face_count,
            forall|t2: int, i: int|
                0 <= t2 < trees@.len() && 0 <= i < observers@[t2]@.len() ==> (
                #[trigger] observers@[t2]@[i]).wf(),
            atlas.wf(),
            atlas.frame == a1.frame,
            atlas.attachments@ == a1.attachments@,
            atlas.cooldown_frames == a1.cooldown_frames,
            atlas.slots@.len() == a1.slots@.len(),
            // requests only touch recency: slots keep coordinate and state
            forall|x: int|
                0 <= x < a1.slots@.len() ==> (#[trigger] atlas.slots@[x]).coordinate
                    == a1.slots@[x].coordinate && atlas.slots@[x].state == a1.slots@[x].state,
            sel_all@.len() == t,
            forall|t2: int|
                0 <= t2 < t ==> (#[trigger] sel_all@[t2])@ == selected_of(
                    trees@,
                    observers@,
                    t2,
                ),
        decreases trees@.len() - t,
    {
        let tree = trees[t];
        let (sel, req) = tree.traverse(&observers[t]);
        let mut k: usize = 0;
        while k < req.len()
            invariant
                0 <= k <= req@.len(),
                forall|k2: int| 0 <= k2 < req@.len() ==> (#[trigger] req@[k2]).wf(),
                atlas.wf(),
                atlas.frame == a1.frame,
                atlas.attachments@ == a1.attachments@,
                atlas.cooldown_frames == a1.cooldown_frames,
                atlas.slots@.len() == a1.slots@.len(),
                forall|x: int|
                    0 <= x < a1.slots@.len() ==> (#[trigger] atlas.slots@[x]).coordinate
                        == a1.slots@[x].coordinate && atlas.slots@[x].state
                        == a1.slots@[x].state,
            decreases req@.len() - k,
        {
            let ghost prev = *atlas;
            atlas.request(req[k]);
            proof {
                if prev.resident_spec(req@[k as int]) {
                    let i = prev.slot_of(req@[k as int]);
                    assert(atlas.slots@ == prev.slots@.update(
                        i,
                        TileSlot { last_used_frame: prev.frame, ..prev.slots@[i] },
                    ));
                }
            }
            k = k + 1;
        }
        sel_all.push(sel);
        t = t + 1;
    }

    // 3. admission and eviction against the complete request set
    let ghost a2 = *atlas;
    atlas.admit_requests();

    // 4. dispatch new loads
    let ghost a3 = *atlas;
    let load_jobs = atlas.take_load_requests(max_dispatch);

    proof {
        lemma_publish_state(a0, a1, a2, a3, *atlas, completions@);
        assert forall|c: TileCoordinate, i: int|
            a0.holds_at(c, i) && atlas.requests@.contains(c) implies atlas.holds_at(c, i) by {
            assert(a1.slots@[i].coordinate == a0.slots@[i].coordinate);
            assert(a2.slots@[i].coordinate == a1.slots@[i].coordinate);
            assert(a2.holds_at(c, i));
            assert(a2.requests@.contains(c));
            assert(a3.holds_at(c, i));
            assert(atlas.slots@[i].coordinate == a3.slots@[i].coordinate) by {
                if atlas.slots@[i] != a3.slots@[i] {
                }
            }
        }
    }

    // 5. publish resolution entries and surface approximations
    let ghost a4 = *atlas;
    let mut entries: Vec<Vec<ResolutionEntry>> = Vec::new();
    let mut approximations: Vec<Vec<SurfaceApproximation>> = Vec::new();
    let mut t2: usize = 0;
    while t2 < sel_all.len()
        invariant
            0 <= t2 <= sel_all@.len(),
            sel_all@.len() == trees@.len(),
            *atlas == a4,
            atlas.wf(),
            forall|t3: int|
                0 <= t3 < trees@.len() ==> (#[trigger] sel_all@[t3])@ == selected_of(
                    trees@,
                    observers@,
                    t3,
                ),
            entries@.len() == t2,
            approximations@.len() == t2,
            forall|t3: int|
                0 <= t3 < t2 ==> (#[trigger] entries@[t3])@ == resolve_entries_spec(
                    a4,
                    selected_of(trees@, observers@, t3),
                ),
            forall|t3: int, k: int|
                0 <= t3 < t2 && 0 <= k < entries@[t3]@.len() ==> ((#[trigger] entries@[t3]@[
                    k
                ]).slot as int) < a4.slots@.len() && a4.slots@[entries@[t3]@[k].slot as int].state
                    is Loaded,
            forall|t3: int|
                0 <= t3 < t2 ==> (#[trigger] approximations@[t3])@.len() == selected_of(
                    trees@,
                    observers@,
                    t3,
                ).len(),
            forall|t3: int, k: int|
                0 <= t3 < t2 && 0 <= k < selected_of(trees@, observers@, t3).len() ==> (
                #[trigger] approximations@[t3]@[k]) == approximation_of(
                    a4,
                    selected_of(trees@, observers@, t3)[k],
                ),
        decreases sel_all@.len() - t2,
    {
        let e = resolve_entries(atlas, &sel_all[t2]);
        let a = approximate(atlas, &sel_all[t2]);
        entries.push(e);
        approximations.push(a);
        t2 = t2 + 1;
    }
    FrameOutput { entries: entries, approximations: approximations, load_jobs: load_jobs }
}

/// One drain step preserves the drain invariants: distinct completion
/// coordinates keep every already-resident tile resident, and the slot a
/// completion touched keeps its coordinate.
proof fn lemma_drain_step(
    a0: TileAtlas,
    prev: TileAtlas,
    cur: TileAtlas,
    completions: Seq<LoadCompletion>,
    j: int,
)
    requires
        0 <= j < completions.len(),
        a0.wf(),
        prev.wf(),
        cur.wf(),
        forall|j1: int, j2: int|
            0 <= j1 < j2 < completions.len() ==> (#[trigger] completions[j1]).coordinate != (
            #[trigger] completions[j2]).coordinate,
        prev.attachments@ == a0.attachments@,
        cur.attachments@ == prev.attachments@,
        cur.slots@.len() == prev.slots@.len(),
        prev.slots@.len() == a0.slots@.len(),
        forall|x: int|
            0 <= x < a0.slots@.len() ==> (#[trigger] prev.slots@[x]).coordinate
                == a0.slots@[x].coordinate,
        forall|x: int|
            0 <= x < a0.slots@.len() && #[trigger] prev.slots@[x] != a0.slots@[x] ==> (
            a0.slots@[x].state is Loading && exists|j2: int|
                0 <= j2 < j && a0.slots@[x].coordinate == Some(
                    (#[trigger] completions[j2]).coordinate,
                )),
        forall|j2: int|
            0 <= j2 < j && completion_applies(a0, #[trigger] completions[j2])
                ==> prev.resident_spec(completions[j2].coordinate),
        // the effect of the drain call on `prev`, as `complete_load` ensures
        !(prev.has_tile(completions[j].coordinate) && prev.slots@[prev.slot_of(
            completions[j].coordinate,
        )].state is Loading) ==> cur.slots@ == prev.slots@,
        (prev.has_tile(completions[j].coordinate) && prev.slots@[prev.slot_of(
            completions[j].coordinate,
        )].state is Loading) ==> {
            let i = prev.slot_of(completions[j].coordinate);
            let ok = completions[j].payloads matches Some(p)
                && TileAtlas::payloads_match_spec(prev.attachments@, p@);
            &&& (forall|x: int|
                0 <= x < prev.slots@.len() && x != i ==> cur.slots@[x] == prev.slots@[x])
            &&& cur.slots@[i].coordinate == prev.slots@[i].coordinate
            &&& (ok ==> cur.slots@[i].state is Loaded)
            &&& (!ok ==> cur.slots@[i].state is Failed)
        },
    ensures
        forall|x: int|
            0 <= x < a0.slots@.len() ==> (#[trigger] cur.slots@[x]).coordinate
                == a0.slots@[x].coordinate,
        forall|x: int|
            0 <= x < a0.slots@.len() && #[trigger] cur.slots@[x] != a0.slots@[x] ==> (
            a0.slots@[x].state is Loading && exists|j2: int|
                0 <= j2 < j + 1 && a0.slots@[x].coordinate == Some(
                    (#[trigger] completions[j2]).coordinate,
                )),
        forall|j2: int|
            0 <= j2 < j + 1 && completion_applies(a0, #[trigger] completions[j2])
                ==> cur.resident_spec(completions[j2].coordinate),
{
    let c = completions[j].coordinate;
    if prev.has_tile(c) && prev.slots@[prev.slot_of(c)].state is Loading {
        let i = prev.slot_of(c);
        assert(prev.holds_at(c, i));
        // changed-slot bookkeeping
        assert forall|x: int|
            0 <= x < a0.slots@.len() && #[trigger] cur.slots@[x] != a0.slots@[x] implies (
        a0.slots@[x].state is Loading && exists|j2: int|
            0 <= j2 < j + 1 && a0.slots@[x].coordinate == Some(
                (#[trigger] completions[j2]).coordinate,
            )) by {
            if x == i {
                if prev.slots@[x] == a0.slots@[x] {
                    assert(a0.slots@[x].state is Loading);
                    assert(a0.slots@[x].coordinate == Some(completions[j].coordinate));
                    assert(0 <= j < j + 1 && a0.slots@[x].coordinate == Some(
                        completions[j].coordinate,
                    ));
                } else {
                    let j2 = choose|j2: int|
                        0 <= j2 < j && a0.slots@[x].coordinate == Some(
                            (completions[j2]).coordinate,
                        );
                    assert(0 <= j2 < j + 1);
                }
            } else {
                assert(cur.slots@[x] == prev.slots@[x]);
            }
        }
        // residency of earlier completions persists: their slots hold other
        // coordinates, and only slot `i` changed
        assert forall|j2: int|
            0 <= j2 < j + 1 && completion_applies(a0, #[trigger] completions[j2]) implies
        cur.resident_spec(completions[j2].coordinate) by {
            let d = completions[j2].coordinate;
            if j2 < j {
                assert(prev.resident_spec(d));
                let x = prev.slot_of(d);
                assert(prev.holds_at(d, x));
                assert(d != c);
                assert(x != i) by {
                    if x == i {
                        assert(prev.slots@[i].coordinate == Some(d));
                        assert(prev.slots@[i].coordinate == Some(c));
                    }
                }
                assert(cur.slots@[x] == prev.slots@[x]);
                assert(cur.holds_at(d, x));
                cur.lemma_slot_unique(d, x);
            } else {
                // the completion just drained: it applied, and it was good
                assert(d == c);
                assert(completion_applies(a0, completions[j]));
                // `prev` still shows the load in flight at the same slot
                assert(a0.has_tile(c));
                let x0 = a0.slot_of(c);
                assert(a0.holds_at(c, x0));
                assert(prev.holds_at(c, x0));
                prev.lemma_slot_unique(c, x0);
                assert(x0 == i);
                assert(completions[j].payloads matches Some(p)
                    && TileAtlas::payloads_match_spec(prev.attachments@, p@));
                assert(cur.slots@[i].state is Loaded);
                assert(cur.holds_at(c, i));
                cur.lemma_slot_unique(c, i);
            }
        }
    } else {
        assert(cur.slots@ == prev.slots@);
        assert forall|j2: int|
            0 <= j2 < j + 1 && completion_applies(a0, #[trigger] completions[j2]) implies
        cur.resident_spec(completions[j2].coordinate) by {
            let d = completions[j2].coordinate;
            if j2 < j {
                assert(prev.resident_spec(d));
                let x = prev.slot_of(d);
                assert(prev.holds_at(d, x));
                assert(cur.holds_at(d, x));
                cur.lemma_slot_unique(d, x);
            } else {
                // the completion claims a load in flight, yet `prev` shows
                // none: impossible, since earlier drains touched other
                // coordinates
                assert(d == c);
                assert(a0.has_tile(c));
                let x0 = a0.slot_of(c);
                assert(a0.holds_at(c, x0));
                assert(prev.holds_at(c, x0));
                prev.lemma_slot_unique(c, x0);
                assert(prev.slots@[x0].state is Loading) by {
                    if prev.slots@[x0] != a0.slots@[x0] {
                        let j2b = choose|j2b: int|
                            0 <= j2b < j && a0.slots@[x0].coordinate == Some(
                                (completions[j2b]).coordinate,
                            );
                        assert(completions[j2b].coordinate == c);
                    }
                }
                assert(false);
            }
        }
    }
}

/// Residency, admission completeness and the drain results carry through
/// admission and dispatch to the published state.
proof fn lemma_publish_state(
    a0: TileAtlas,
    a1: TileAtlas,
    a2: TileAtlas,
    a3: TileAtlas,
    a4: TileAtlas,
    completions: Seq<LoadCompletion>,
)
    requires
        a1.wf(),
        a2.wf(),
        a3.wf(),
        a4.wf(),
        a1.slots@.len() == a2.slots@.len(),
        a2.slots@.len() == a3.slots@.len(),
        a3.slots@.len() == a4.slots@.len(),
        // drains left these resident
        forall|j2: int|
            0 <= j2 < completions.len() && completion_applies(a0, #[trigger] completions[j2])
                ==> a1.resident_spec(completions[j2].coordinate),
        // traversal requests only touched recency
        forall|x: int|
            0 <= x < a1.slots@.len() ==> (#[trigger] a2.slots@[x]).coordinate
                == a1.slots@[x].coordinate && a2.slots@[x].state == a1.slots@[x].state,
        // admission: loaded requested slots untouched, requests kept
        a3.requests@ == a2.requests@,
        forall|x: int|
            0 <= x < a2.slots@.len() && a2.slots@[x].state is Loaded && ((
            #[trigger] a2.slots@[x]).coordinate matches Some(c) && a2.requests@.contains(c))
                ==> a3.slots@[x] == a2.slots@[x],
        forall|c: TileCoordinate|
            a2.requests@.contains(c) ==> a3.has_tile(c) || saturated(a3.slots@, a2.requests@),
        // dispatch: only admitted slots moved into flight, requests kept
        a4.requests@ == a3.requests@,
        forall|x: int|
            0 <= x < a3.slots@.len() && #[trigger] a4.slots@[x] != a3.slots@[x]
                ==> a3.slots@[x].state is Requested && a4.slots@[x] == (TileSlot {
                state: SlotState::Loading,
                ..a3.slots@[x]
            }),
    ensures
        // progress: successful drains that are requested stay resident
        forall|j2: int|
            0 <= j2 < completions.len() && completion_applies(a0, #[trigger] completions[j2])
                && a4.requests@.contains(completions[j2].coordinate) ==> a4.resident_spec(
                completions[j2].coordinate,
            ),
        // admission completeness survives dispatch
        forall|c: TileCoordinate|
            a4.requests@.contains(c) ==> a4.has_tile(c) || saturated(a4.slots@, a4.requests@),
{
    assert forall|j2: int|
        0 <= j2 < completions.len() && completion_applies(a0, #[trigger] completions[j2])
            && a4.requests@.contains(completions[j2].coordinate) implies a4.resident_spec(
        completions[j2].coordinate,
    ) by {
        let c = completions[j2].coordinate;
        assert(a1.resident_spec(c));
        let x = a1.slot_of(c);
        assert(a1.holds_at(c, x));
        assert(a2.slots@[x].coordinate == Some(c) && a2.slots@[x].state is Loaded);
        assert(a2.holds_at(c, x));
        assert(a3.slots@[x] == a2.slots@[x]);
        assert(a4.slots@[x] == a3.slots@[x]) by {
            if a4.slots@[x] != a3.slots@[x] {
                assert(a3.slots@[x].state is Requested);
            }
        }
        assert(a4.holds_at(c, x));
        a4.lemma_slot_unique(c, x);
    }
    assert forall|c: TileCoordinate|
        a4.requests@.contains(c) implies a4.has_tile(c) || saturated(a4.slots@, a4.requests@) by {
        assert(a2.requests@.contains(c));
        if a3.has_tile(c) {
            let x = a3.slot_of(c);
            assert(a3.holds_at(c, x));
            assert(a4.slots@[x].coordinate == a3.slots@[x].coordinate) by {
                if a4.slots@[x] != a3.slots@[x] {
                }
            }
            assert(a4.holds_at(c, x));
        } else {
            assert(saturated(a3.slots@, a2.requests@));
            crate::atlas::lemma_saturation_monotone(a3.slots@, a4.slots@, a2.requests@);
        }
    }
}

} // verus!
