//! The per-observer tile tree: distance-based quadtree traversal,
//! request emission, and resolution against the atlas.
//!
//! Each frame the tree walks the quadtree of every face top-down. A node
//! whose distance to the observer falls below its level's subdivision
//! threshold is refined into its four children; otherwise it is selected,
//! with a cross-fade factor toward the next finer level. Selected nodes
//! and prefetched path nodes are requested from the atlas; afterwards
//! every selected node is resolved to its nearest loaded ancestor, so the
//! published table never references unloaded data.

use vstd::prelude::*;

use crate::atlas::TileAtlas;
use crate::config::TerrainConfig;
use crate::coordinate::{grid_size_spec, lemma_grid_is_pow2, lemma_grid_size_bound, TileCoordinate};

verus! {

/// Full scale of the cross-fade factor: the fixed-point value standing
/// for one. A blend of this value means the node is fully morphed toward
/// the next finer level; zero means no cross-fade at all.
pub const BLEND_SCALE: u32 = 1024;

/// Magnitude bound on face-local observer positions, in world units; far
/// beyond any face while keeping every distance computation in range.
pub const MAX_OBSERVER_RANGE: i64 = 0x100_0000_0000;

/// The observer's position relative to one face: face-local plane
/// coordinates and the height above the face plane.
#[derive(Clone, Copy, PartialEq, Eq, Structural, Debug)]
pub struct ObserverPosition {
    /// Face-local position along the first axis.
    pub x: i64,
    /// Face-local position along the second axis.
    pub y: i64,
    /// Distance above the face plane.
    pub height: u64,
}

impl ObserverPosition {
    /// In-range observer position.
    pub open spec fn wf(self) -> bool {
        &&& -MAX_OBSERVER_RANGE <= self.x <= MAX_OBSERVER_RANGE
        &&& -MAX_OBSERVER_RANGE <= self.y <= MAX_OBSERVER_RANGE
        &&& 0 <= self.height <= MAX_OBSERVER_RANGE
    }
}

/// One node the traversal selected for rendering this frame.
#[derive(Clone, Copy, PartialEq, Eq, Structural, Debug)]
pub struct SelectedNode {
    /// The selected quadtree node.
    pub coordinate: TileCoordinate,
    /// The observer's distance to the node's footprint.
    pub distance: u64,
    /// Cross-fade factor toward the next finer level, `0..=BLEND_SCALE`.
    pub blend: u32,
}

/// One published record: a desired node resolved against the atlas to a
/// loaded slot, possibly of a coarser ancestor.
#[derive(Clone, Copy, PartialEq, Eq, Structural, Debug)]
pub struct ResolutionEntry {
    /// The node the traversal selected.
    pub coordinate: TileCoordinate,
    /// The level whose tile actually backs the node; at most the node's
    /// own level.
    pub resolved_lod: u32,
    /// The loaded slot of the resolved ancestor-or-self.
    pub slot: usize,
    /// Cross-fade factor; zero whenever the node fell back to an ancestor,
    /// so rendering never blends against unloaded data.
    pub blend: u32,
    /// The observer's distance to the node's footprint.
    pub distance: u64,
}

/// Conservative height interval of one selected node, taken from its
/// coarsest loaded ancestor.
#[derive(Clone, Copy, PartialEq, Eq, Structural, Debug)]
pub struct SurfaceApproximation {
    /// The node the interval belongs to.
    pub coordinate: TileCoordinate,
    /// Lower height bound.
    pub height_min: u16,
    /// Upper height bound.
    pub height_max: u16,
}

/// The per-observer tree of one terrain: the quadtree shape and the
/// traversal distance thresholds, all fixed between reconfigurations.
#[derive(Clone, Copy, PartialEq, Eq, Structural, Debug)]
pub struct TileTree {
    /// The count of level-of-detail layers; levels run `0..lod_count`.
    pub lod_count: u32,
    /// Number of quadtree root faces.
    pub face_count: u32,
    /// Characteristic edge length of one face in world units.
    pub face_size: u64,
    /// Observers closer than this (halved per level) subdivide a node.
    pub subdivision_distance: u64,
    /// Nodes within this distance (halved per level) are prefetched.
    pub load_distance: u64,
    /// Below this distance (halved per level) a node is fully morphed.
    pub morph_distance: u64,
    /// Below this distance (halved per level) the cross-fade begins.
    pub blend_distance: u64,
}

impl TileTree {
    /// Well-formedness: the bounds terrain creation enforces.
    pub open spec fn wf(self) -> bool {
        &&& 1 <= self.lod_count <= crate::coordinate::MAX_LOD_COUNT
        &&& 1 <= self.face_count <= crate::config::MAX_FACE_COUNT
        &&& 1 <= self.face_size <= crate::config::MAX_FACE_SIZE
    }

    /// Creates the tree of one observer from the terrain's configuration.
    pub fn new(config: &TerrainConfig) -> (r: TileTree)
        requires
            config.wf(),
        ensures
            r.wf(),
            r.lod_count == config.lod_count,
            r.face_count == config.face_count,
            r.face_size == config.face_size,
            r.subdivision_distance == config.subdivision_distance,
            r.load_distance == config.load_distance,
            r.morph_distance == config.morph_distance,
            r.blend_distance == config.blend_distance,
    {
        TileTree {
            lod_count: config.lod_count,
            face_count: config.face_count,
            face_size: config.face_size,
            subdivision_distance: config.subdivision_distance,
            load_distance: config.load_distance,
            morph_distance: config.morph_distance,
            blend_distance: config.blend_distance,
        }
    }

    /// Edge length of one node's footprint at level `lod`: the face edge
    /// divided by the level's grid size.
    pub open spec fn node_side_spec(self, lod: u32) -> int {
        self.face_size as int / grid_size_spec(lod as nat) as int
    }

    /// A level-0 distance threshold, halved per level to match the
    /// halving node footprint.
    pub open spec fn threshold_spec(base: u64, lod: u32) -> int {
        base as int / grid_size_spec(lod as nat) as int
    }

    /// Halves `base` once per level: the shifted value is exactly the
    /// division the specifications speak of.
    fn shr_level(base: u64, lod: u32) -> (r: u64)
        requires
            lod < crate::coordinate::MAX_LOD_COUNT,
        ensures
            r == base as int / grid_size_spec(lod as nat) as int,
    {
        proof {
            lemma_grid_is_pow2(lod as nat);
            vstd::bits::lemma_u64_shr_is_div(base, lod as u64);
        }
        base >> (lod as u64)
    }

    /// Distance from a plane coordinate to the interval `[lo, hi]`.
    pub open spec fn axis_gap_spec(p: i64, lo: int, hi: int) -> int {
        if p < lo {
            lo - p
        } else if p > hi {
            p - hi
        } else {
            0
        }
    }

    /// Chebyshev distance from the observer to the node's bounding box:
    /// the largest of the two plane-axis gaps to the node footprint and
    /// the height above the face plane.
    pub open spec fn node_distance_spec(self, pos: ObserverPosition, c: TileCoordinate) -> int {
        let side = self.node_side_spec(c.lod);
        let gx = Self::axis_gap_spec(pos.x, c.x * side, (c.x + 1) * side);
        let gy = Self::axis_gap_spec(pos.y, c.y * side, (c.y + 1) * side);
        let gh = pos.height as int;
        if gx >= gy && gx >= gh {
            gx
        } else if gy >= gh {
            gy
        } else {
            gh
        }
    }

    /// A node's footprint never reaches past the face edge.
    pub proof fn lemma_footprint_bound(self, lod: u32, x: u32)
        requires
            self.wf(),
            lod < 32,
            x < grid_size_spec(lod as nat),
        ensures
            0 <= self.node_side_spec(lod) <= self.face_size,
            0 <= x * self.node_side_spec(lod),
            (x + 1) * self.node_side_spec(lod) <= self.face_size,
    {
        let side = self.node_side_spec(lod);
        let p = grid_size_spec(lod as nat) as int;
        lemma_grid_size_bound(lod as nat);
        vstd::arithmetic::div_mod::lemma_fundamental_div_mod(self.face_size as int, p);
        assert(p * side <= self.face_size);
        vstd::arithmetic::div_mod::lemma_div_pos_is_pos(self.face_size as int, p);
        vstd::arithmetic::mul::lemma_mul_inequality(1, p, side);
        vstd::arithmetic::mul::lemma_mul_inequality(x + 1, p, side);
        assert((x + 1) * side <= p * side);
        vstd::arithmetic::mul::lemma_mul_inequality(0, x as int, side);
    }

    /// Chebyshev distance from the observer to the node's bounding box.
    pub fn node_distance(&self, pos: &ObserverPosition, c: TileCoordinate) -> (r: u64)
        requires
            self.wf(),
            pos.wf(),
            c.wf(),
        ensures
            r == self.node_distance_spec(*pos, c),
            r <= 2 * MAX_OBSERVER_RANGE,
    {
        proof {
            lemma_grid_size_bound(c.lod as nat);
            self.lemma_footprint_bound(c.lod, c.x);
            self.lemma_footprint_bound(c.lod, c.y);
            vstd::arithmetic::mul::lemma_mul_inequality(
                c.x as int,
                c.x as int + 1,
                self.node_side_spec(c.lod),
            );
            vstd::arithmetic::mul::lemma_mul_inequality(
                c.y as int,
                c.y as int + 1,
                self.node_side_spec(c.lod),
            );
        }
        let side = Self::shr_level(self.face_size, c.lod);
        let lo_x: u64 = (c.x as u64) * side;
        let hi_x: u64 = (c.x as u64 + 1) * side;
        let lo_y: u64 = (c.y as u64) * side;
        let hi_y: u64 = (c.y as u64 + 1) * side;
        let gx: u64 = Self::axis_gap(pos.x, lo_x, hi_x);
        let gy: u64 = Self::axis_gap(pos.y, lo_y, hi_y);
        let gh: u64 = pos.height;
        if gx >= gy && gx >= gh {
            gx
        } else if gy >= gh {
            gy
        } else {
            gh
        }
    }

    /// Distance from a plane coordinate to the interval `[lo, hi]`.
    fn axis_gap(p: i64, lo: u64, hi: u64) -> (r: u64)
        requires
            -MAX_OBSERVER_RANGE <= p <= MAX_OBSERVER_RANGE,
            lo <= hi <= crate::config::MAX_FACE_SIZE,
        ensures
            r == Self::axis_gap_spec(p, lo as int, hi as int),
            r <= 2 * MAX_OBSERVER_RANGE,
    {
        if p < 0 || (p as u64) < lo {
            let d = lo as i128 - p as i128;
            d as u64
        } else if (p as u64) > hi {
            (p as u64) - hi
        } else {
            0
        }
    }

    /// Cross-fade factor for a selected node at level `lod` and distance
    /// `d`: zero outside the blend threshold, full inside the morph
    /// threshold, and interpolated linearly between them.
    pub open spec fn blend_spec(self, lod: u32, d: int) -> u32 {
        let b = Self::threshold_spec(self.blend_distance, lod) as int;
        let m = Self::threshold_spec(self.morph_distance, lod) as int;
        if d >= b {
            0
        } else if b <= m || d <= m {
            BLEND_SCALE
        } else {
            (((b - d) * BLEND_SCALE) / (b - m)) as u32
        }
    }

    /// Cross-fade factor for a selected node.
    pub fn blend(&self, lod: u32, d: u64) -> (r: u32)
        requires
            lod < crate::coordinate::MAX_LOD_COUNT,
        ensures
            r == self.blend_spec(lod, d as int),
            r <= BLEND_SCALE,
    {
        let b: u64 = Self::shr_level(self.blend_distance, lod);
        let m: u64 = Self::shr_level(self.morph_distance, lod);
        if d >= b {
            0
        } else if b <= m || d <= m {
            BLEND_SCALE
        } else {
            let num: u128 = (b - d) as u128 * BLEND_SCALE as u128;
            let den: u128 = (b - m) as u128;
            let q: u128 = num / den;
            proof {
                assert((b - d) * BLEND_SCALE <= (b - m) * BLEND_SCALE) by (nonlinear_arith)
                    requires
                        0 < b - d <= b - m,
                ;
                vstd::arithmetic::div_mod::lemma_div_is_ordered(
                    (b - d) * BLEND_SCALE,
                    (b - m) * BLEND_SCALE,
                    (b - m) as int,
                );
                vstd::arithmetic::div_mod::lemma_div_by_multiple(
                    BLEND_SCALE as int,
                    (b - m) as int,
                );
                assert(((b - m) * BLEND_SCALE) / ((b - m) as int) == BLEND_SCALE);
                vstd::arithmetic::div_mod::lemma_div_pos_is_pos(
                    ((b - d) * BLEND_SCALE) as int,
                    (b - m) as int,
                );
            }
            q as u32
        }
    }

    /// The quadtree root of face `f`.
    pub open spec fn face_root_spec(f: u32) -> TileCoordinate {
        TileCoordinate { face: f, lod: 0, x: 0, y: 0 }
    }

    /// What the traversal produces at one node and below: the nodes it
    /// selects, in fixed quadrant order, and the coordinates it requests.
    ///
    /// A node too coarse for the observer's distance — and not at the
    /// finest level — is refined into its four children; on the way it is
    /// itself requested when within the prefetch distance (the root
    /// unconditionally), keeping the fallback chain resident. Any other
    /// node is selected, with its cross-fade factor, and requested.
    pub open spec fn traverse_node_spec(self, pos: ObserverPosition, c: TileCoordinate) -> (
        Seq<SelectedNode>,
        Seq<TileCoordinate>,
    )
        decreases self.lod_count - c.lod,
    {
        let d = self.node_distance_spec(pos, c);
        if c.lod + 1 < self.lod_count && d < Self::threshold_spec(
            self.subdivision_distance,
            c.lod,
        ) {
            let r0 = self.traverse_node_spec(pos, c.child_spec(0));
            let r1 = self.traverse_node_spec(pos, c.child_spec(1));
            let r2 = self.traverse_node_spec(pos, c.child_spec(2));
            let r3 = self.traverse_node_spec(pos, c.child_spec(3));
            let own: Seq<TileCoordinate> = if c.lod == 0 || d < Self::threshold_spec(
                self.load_distance,
                c.lod,
            ) {
                seq![c]
            } else {
                Seq::empty()
            };
            (r0.0 + r1.0 + r2.0 + r3.0, own + r0.1 + r1.1 + r2.1 + r3.1)
        } else {
            let node = SelectedNode {
                coordinate: c,
                distance: d as u64,
                blend: self.blend_spec(c.lod, d),
            };
            (seq![node], seq![c])
        }
    }

    /// Traverses one node and everything below it, appending the selected
    /// nodes and the requested coordinates in the fixed traversal order.
    pub fn traverse_node(
        &self,
        pos: &ObserverPosition,
        c: TileCoordinate,
        sel: &mut Vec<SelectedNode>,
        req: &mut Vec<TileCoordinate>,
    )
        requires
            self.wf(),
            pos.wf(),
            c.wf(),
            c.lod < self.lod_count,
        ensures
            final(sel)@ == old(sel)@ + self.traverse_node_spec(*pos, c).0,
            final(req)@ == old(req)@ + self.traverse_node_spec(*pos, c).1,
        decreases self.lod_count - c.lod,
    {
        let ghost t = self.traverse_node_spec(*pos, c);
        let d = self.node_distance(pos, c);
        let subdiv = Self::shr_level(self.subdivision_distance, c.lod);
        if c.lod + 1 < self.lod_count && d < subdiv {
            if c.lod == 0 || d < Self::shr_level(self.load_distance, c.lod) {
                req.push(c);
            }
            self.traverse_node(pos, c.child(0), sel, req);
            self.traverse_node(pos, c.child(1), sel, req);
            self.traverse_node(pos, c.child(2), sel, req);
            self.traverse_node(pos, c.child(3), sel, req);
            proof {
                assert(sel@ =~= old(sel)@ + t.0);
                assert(req@ =~= old(req)@ + t.1);
            }
        } else {
            let blend = self.blend(c.lod, d);
            sel.push(SelectedNode { coordinate: c, distance: d, blend: blend });
            req.push(c);
            proof {
                assert(sel@ =~= old(sel)@ + t.0);
                assert(req@ =~= old(req)@ + t.1);
            }
        }
    }

    /// Everything the traversal emits below a well-formed node is well
    /// formed and stays within the configured levels.
    pub proof fn lemma_traverse_node_wf(self, pos: ObserverPosition, c: TileCoordinate)
        requires
            self.wf(),
            c.wf(),
            c.lod < self.lod_count,
        ensures
            forall|k: int|
                0 <= k < self.traverse_node_spec(pos, c).1.len() ==> (
                #[trigger] self.traverse_node_spec(pos, c).1[k]).wf(),
            forall|k: int|
                0 <= k < self.traverse_node_spec(pos, c).0.len() ==> (
                #[trigger] self.traverse_node_spec(pos, c).0[k]).coordinate.wf() && self.traverse_node_spec(
                    pos,
                    c,
                ).0[k].coordinate.lod < self.lod_count,
        decreases self.lod_count - c.lod,
    {
        let d = self.node_distance_spec(pos, c);
        let t = self.traverse_node_spec(pos, c);
        if c.lod + 1 < self.lod_count && d < Self::threshold_spec(
            self.subdivision_distance,
            c.lod,
        ) {
            c.lemma_child_wf(0);
            c.lemma_child_wf(1);
            c.lemma_child_wf(2);
            c.lemma_child_wf(3);
            self.lemma_traverse_node_wf(pos, c.child_spec(0));
            self.lemma_traverse_node_wf(pos, c.child_spec(1));
            self.lemma_traverse_node_wf(pos, c.child_spec(2));
            self.lemma_traverse_node_wf(pos, c.child_spec(3));
            let r0 = self.traverse_node_spec(pos, c.child_spec(0));
            let r1 = self.traverse_node_spec(pos, c.child_spec(1));
            let r2 = self.traverse_node_spec(pos, c.child_spec(2));
            let r3 = self.traverse_node_spec(pos, c.child_spec(3));
            let own: Seq<TileCoordinate> = if c.lod == 0 || d < Self::threshold_spec(
                self.load_distance,
                c.lod,
            ) {
                seq![c]
            } else {
                Seq::empty()
            };
            assert forall|k: int| 0 <= k < t.1.len() implies (#[trigger] t.1[k]).wf() by {
                let n0 = own.len() as int;
                let n1 = n0 + r0.1.len();
                let n2 = n1 + r1.1.len();
                let n3 = n2 + r2.1.len();
                if k < n0 {
                    assert(t.1[k] == c);
                } else if k < n1 {
                    assert(t.1[k] == r0.1[k - n0]);
                } else if k < n2 {
                    assert(t.1[k] == r1.1[k - n1]);
                } else if k < n3 {
                    assert(t.1[k] == r2.1[k - n2]);
                } else {
                    assert(t.1[k] == r3.1[k - n3]);
                }
            }
            assert forall|k: int|
                0 <= k < t.0.len() implies (#[trigger] t.0[k]).coordinate.wf()
                && t.0[k].coordinate.lod < self.lod_count by {
                let n0 = r0.0.len() as int;
                let n1 = n0 + r1.0.len();
                let n2 = n1 + r2.0.len();
                if k < n0 {
                    assert(t.0[k] == r0.0[k]);
                } else if k < n1 {
                    assert(t.0[k] == r1.0[k - n0]);
                } else if k < n2 {
                    assert(t.0[k] == r2.0[k - n1]);
                } else {
                    assert(t.0[k] == r3.0[k - n2]);
                }
            }
        }
    }

    /// The traversal output over the first `f` faces.
    pub open spec fn traverse_upto_spec(self, positions: Seq<ObserverPosition>, f: int) -> (
        Seq<SelectedNode>,
        Seq<TileCoordinate>,
    )
        decreases f,
    {
        if f <= 0 {
            (Seq::<SelectedNode>::empty(), Seq::<TileCoordinate>::empty())
        } else {
            let prev = self.traverse_upto_spec(positions, f - 1);
            let r = self.traverse_node_spec(positions[f - 1], Self::face_root_spec((f - 1) as u32));
            (prev.0 + r.0, prev.1 + r.1)
        }
    }

    /// Well-formedness of everything the first `f` faces emit.
    pub proof fn lemma_traverse_upto_wf(self, positions: Seq<ObserverPosition>, f: int)
        requires
            self.wf(),
        ensures
            forall|k: int|
                0 <= k < self.traverse_upto_spec(positions, f).1.len() ==> (
                #[trigger] self.traverse_upto_spec(positions, f).1[k]).wf(),
            forall|k: int|
                0 <= k < self.traverse_upto_spec(positions, f).0.len() ==> (
                #[trigger] self.traverse_upto_spec(positions, f).0[k]).coordinate.wf()
                    && self.traverse_upto_spec(positions, f).0[k].coordinate.lod
                    < self.lod_count,
        decreases f,
    {
        if f > 0 {
            self.lemma_traverse_upto_wf(positions, f - 1);
            let root = Self::face_root_spec((f - 1) as u32);
            assert(grid_size_spec(0) == 1);
            assert(root.wf());
            self.lemma_traverse_node_wf(positions[f - 1], root);
            let t = self.traverse_upto_spec(positions, f);
            let prev = self.traverse_upto_spec(positions, f - 1);
            let r = self.traverse_node_spec(positions[f - 1], root);
            assert forall|k: int| 0 <= k < t.1.len() implies (#[trigger] t.1[k]).wf() by {
                if k < prev.1.len() {
                    assert(t.1[k] == prev.1[k]);
                } else {
                    assert(t.1[k] == r.1[k - prev.1.len()]);
                }
            }
            assert forall|k: int|
                0 <= k < t.0.len() implies (#[trigger] t.0[k]).coordinate.wf()
                && t.0[k].coordinate.lod < self.lod_count by {
                if k < prev.0.len() {
                    assert(t.0[k] == prev.0[k]);
                } else {
                    assert(t.0[k] == r.0[k - prev.0.len()]);
                }
            }
        }
    }

    /// Traverses every face of the terrain for one observer and returns
    /// the selected nodes and the coordinates to request, in a fixed
    /// order that depends on nothing but this tree and the observer.
    pub fn traverse(&self, positions: &Vec<ObserverPosition>) -> (r: (
        Vec<SelectedNode>,
        Vec<TileCoordinate>,
    ))
        requires
            self.wf(),
            positions@.len() == self.face_count,
            forall|i: int| 0 <= i < positions@.len() ==> (#[trigger] positions@[i]).wf(),
        ensures
            r.0@ == self.traverse_upto_spec(positions@, self.face_count as int).0,
            r.1@ == self.traverse_upto_spec(positions@, self.face_count as int).1,
            forall|k: int| 0 <= k < r.1@.len() ==> (#[trigger] r.1@[k]).wf(),
            forall|k: int|
                0 <= k < r.0@.len() ==> (#[trigger] r.0@[k]).coordinate.wf()
                    && r.0@[k].coordinate.lod < self.lod_count,
    {
        proof {
            self.lemma_traverse_upto_wf(positions@, self.face_count as int);
        }
        let mut sel: Vec<SelectedNode> = Vec::new();
        let mut req: Vec<TileCoordinate> = Vec::new();
        let mut f: usize = 0;
        #[verifier::loop_isolation(false)]
        while f < positions.len()
            invariant
                0 <= f <= positions@.len(),
                sel@ == self.traverse_upto_spec(positions@, f as int).0,
                req@ == self.traverse_upto_spec(positions@, f as int).1,
            decreases positions@.len() - f,
        {
            let root = TileCoordinate { face: f as u32, lod: 0, x: 0, y: 0 };
            proof {
                assert(grid_size_spec(0) == 1);
                assert(root.wf());
            }
            self.traverse_node(&positions[f], root, &mut sel, &mut req);
            f = f + 1;
        }
        (sel, req)
    }

    /// Determinism of traversal: an identical tree configuration and an
    /// identical observer transform produce the identical output — the
    /// same desired set, distances and blend factors — with no dependence
    /// on any iteration or hashing order, nor on the atlas at all.
    pub proof fn lemma_traversal_deterministic(
        t1: TileTree,
        t2: TileTree,
        p1: Seq<ObserverPosition>,
        p2: Seq<ObserverPosition>,
    )
        requires
            t1 == t2,
            p1 == p2,
        ensures
            t1.traverse_upto_spec(p1, t1.face_count as int) == t2.traverse_upto_spec(
                p2,
                t2.face_count as int,
            ),
    {
    }
}

/// The nearest loaded ancestor-or-self of `c` in the atlas: the level and
/// slot the ancestor walk stops at, or nothing when not even the face
/// root is loaded.
pub open spec fn resolve_coord_spec(atlas: TileAtlas, c: TileCoordinate) -> Option<(u32, int)>
    decreases c.lod,
{
    if atlas.resident_spec(c) {
        Some((c.lod, atlas.slot_of(c)))
    } else if c.lod == 0 {
        None
    } else {
        resolve_coord_spec(atlas, c.parent_spec())
    }
}

/// Walks up the ancestor chain of `c` until a loaded slot is found.
pub fn resolve_coord(atlas: &TileAtlas, c: TileCoordinate) -> (r: Option<(u32, usize)>)
    requires
        atlas.wf(),
    ensures
        match r {
            Option::Some(p) => resolve_coord_spec(*atlas, c) == Some((p.0, p.1 as int)),
            Option::None => resolve_coord_spec(*atlas, c) is None,
        },
    decreases c.lod,
{
    match atlas.resident(c) {
        Some(i) => Some((c.lod, i)),
        None => {
            if c.lod == 0 {
                None
            } else {
                resolve_coord(atlas, c.parent())
            }
        },
    }
}

/// Whatever the ancestor walk returns references a loaded slot holding
/// exactly the resolved ancestor, at a level no finer than the node's own.
pub proof fn lemma_resolution_loaded(atlas: TileAtlas, c: TileCoordinate)
    requires
        atlas.wf(),
    ensures
        resolve_coord_spec(atlas, c) matches Some(p) ==> {
            &&& 0 <= p.1 < atlas.slots@.len()
            &&& atlas.slots@[p.1].state is Loaded
            &&& p.0 <= c.lod
            &&& atlas.slots@[p.1].coordinate == Some(c.ancestor_spec(p.0))
            &&& (c.wf() ==> c.ancestor_spec(p.0).wf())
        },
    decreases c.lod,
{
    if atlas.resident_spec(c) {
        let i = atlas.slot_of(c);
        assert(atlas.holds_at(c, i));
        c.lemma_ancestor_self();
    } else if c.lod > 0 {
        lemma_resolution_loaded(atlas, c.parent_spec());
        if c.wf() {
            let r = resolve_coord_spec(atlas, c);
            if r is Some {
                c.lemma_ancestor_wf(r->Some_0.0);
            }
        }
    }
}

/// Once the face root is loaded, the ancestor walk always succeeds: the
/// published set is complete.
pub proof fn lemma_resolution_total(atlas: TileAtlas, c: TileCoordinate)
    requires
        atlas.wf(),
        atlas.resident_spec(c.ancestor_spec(0)),
    ensures
        resolve_coord_spec(atlas, c) is Some,
    decreases c.lod,
{
    if !atlas.resident_spec(c) {
        if c.lod == 0 {
            assert(c.ancestor_spec(0) == c);
        } else {
            lemma_resolution_total(atlas, c.parent_spec());
        }
    }
}

/// The ancestor walk depends only on the slot table, not on any other
/// atlas bookkeeping.
pub proof fn lemma_resolve_coord_same(a1: TileAtlas, a2: TileAtlas, c: TileCoordinate)
    requires
        a1.wf(),
        a1.slots@ == a2.slots@,
    ensures
        resolve_coord_spec(a1, c) == resolve_coord_spec(a2, c),
    decreases c.lod,
{
    TileAtlas::lemma_same_slots(a1, a2, c);
    if !a1.resident_spec(c) && c.lod > 0 {
        lemma_resolve_coord_same(a1, a2, c.parent_spec());
    }
}

/// The published resolution entries for a selected set, in selection
/// order: each node resolved to its nearest loaded ancestor, nodes with
/// no loaded ancestor omitted, and the cross-fade zeroed whenever a node
/// fell back to a coarser level.
pub open spec fn resolve_entries_spec(atlas: TileAtlas, sel: Seq<SelectedNode>) -> Seq<
    ResolutionEntry,
>
    decreases sel.len(),
{
    if sel.len() == 0 {
        Seq::empty()
    } else {
        let rest = resolve_entries_spec(atlas, sel.drop_last());
        let n = sel.last();
        match resolve_coord_spec(atlas, n.coordinate) {
            Option::None => rest,
            Option::Some(p) => rest.push(
                ResolutionEntry {
                    coordinate: n.coordinate,
                    resolved_lod: p.0,
                    slot: p.1 as usize,
                    blend: if p.0 == n.coordinate.lod {
                        n.blend
                    } else {
                        0
                    },
                    distance: n.distance,
                },
            ),
        }
    }
}

/// Every entry of the published resolution table references a loaded
/// slot — the fallback invariant — and a coarsened entry carries no
/// cross-fade.
pub proof fn lemma_entries_loaded(atlas: TileAtlas, sel: Seq<SelectedNode>)
    requires
        atlas.wf(),
    ensures
        forall|k: int|
            0 <= k < resolve_entries_spec(atlas, sel).len() ==> {
                let e = #[trigger] resolve_entries_spec(atlas, sel)[k];
                &&& (e.slot as int) < atlas.slots@.len()
                &&& atlas.slots@[e.slot as int].state is Loaded
                &&& atlas.slots@[e.slot as int].coordinate == Some(
                    e.coordinate.ancestor_spec(e.resolved_lod),
                )
                &&& e.resolved_lod <= e.coordinate.lod
                &&& (e.resolved_lod < e.coordinate.lod ==> e.blend == 0)
            },
    decreases sel.len(),
{
    assert(vstd::std_specs::vec::spec_vec_len(&atlas.slots) == atlas.slots@.len());
    if sel.len() > 0 {
        lemma_entries_loaded(atlas, sel.drop_last());
        lemma_resolution_loaded(atlas, sel.last().coordinate);
        let whole = resolve_entries_spec(atlas, sel);
        let rest = resolve_entries_spec(atlas, sel.drop_last());
        assert forall|k: int|
            0 <= k < whole.len() implies {
            let e = #[trigger] whole[k];
            &&& (e.slot as int) < atlas.slots@.len()
            &&& atlas.slots@[e.slot as int].state is Loaded
            &&& atlas.slots@[e.slot as int].coordinate == Some(
                e.coordinate.ancestor_spec(e.resolved_lod),
            )
            &&& e.resolved_lod <= e.coordinate.lod
            &&& (e.resolved_lod < e.coordinate.lod ==> e.blend == 0)
        } by {
            if k < rest.len() {
                assert(whole[k] == rest[k]);
            } else {
                assert(resolve_coord_spec(atlas, sel.last().coordinate) is Some);
                let p = resolve_coord_spec(atlas, sel.last().coordinate)->Some_0;
                assert(whole[k] == whole.last());
                assert(0 <= p.1 < atlas.slots@.len());
                assert(whole[k].slot == p.1 as usize);
            }
        }
    }
}

/// Once every face root in sight is loaded, no selected node is omitted
/// from the published table.
pub proof fn lemma_entries_total(atlas: TileAtlas, sel: Seq<SelectedNode>)
    requires
        atlas.wf(),
        forall|k: int|
            0 <= k < sel.len() ==> atlas.resident_spec(
                (#[trigger] sel[k]).coordinate.ancestor_spec(0),
            ),
    ensures
        resolve_entries_spec(atlas, sel).len() == sel.len(),
    decreases sel.len(),
{
    if sel.len() > 0 {
        assert(forall|k: int|
            0 <= k < sel.drop_last().len() ==> #[trigger] sel.drop_last()[k] == sel[k]);
        lemma_entries_total(atlas, sel.drop_last());
        lemma_resolution_total(atlas, sel.last().coordinate);
    }
}

/// Determinism of resolution: an identical selected set resolved against
/// an identical slot table yields the identical published entries.
pub proof fn lemma_resolution_deterministic(
    a1: TileAtlas,
    a2: TileAtlas,
    sel1: Seq<SelectedNode>,
    sel2: Seq<SelectedNode>,
)
    requires
        a1.wf(),
        a1.slots@ == a2.slots@,
        sel1 == sel2,
    ensures
        resolve_entries_spec(a1, sel1) == resolve_entries_spec(a2, sel2),
    decreases sel1.len(),
{
    if sel1.len() > 0 {
        lemma_resolution_deterministic(a1, a2, sel1.drop_last(), sel2.drop_last());
        lemma_resolve_coord_same(a1, a2, sel1.last().coordinate);
    }
}

/// Resolves every selected node against the atlas and publishes the
/// frame's resolution table.
pub fn resolve_entries(atlas: &TileAtlas, sel: &Vec<SelectedNode>) -> (r: Vec<ResolutionEntry>)
    requires
        atlas.wf(),
    ensures
        r@ == resolve_entries_spec(*atlas, sel@),
        // fallback invariant: every published entry references a loaded slot
        forall|k: int|
            0 <= k < r@.len() ==> {
                let e = #[trigger] r@[k];
                &&& (e.slot as int) < atlas.slots@.len()
                &&& atlas.slots@[e.slot as int].state is Loaded
                &&& atlas.slots@[e.slot as int].coordinate == Some(
                    e.coordinate.ancestor_spec(e.resolved_lod),
                )
                &&& e.resolved_lod <= e.coordinate.lod
                &&& (e.resolved_lod < e.coordinate.lod ==> e.blend == 0)
            },
        // completeness: with every face root loaded, nothing is omitted
        (forall|k: int|
            0 <= k < sel@.len() ==> atlas.resident_spec(
                (#[trigger] sel@[k]).coordinate.ancestor_spec(0),
            )) ==> r@.len() == sel@.len(),
{
    let mut out: Vec<ResolutionEntry> = Vec::new();
    let mut i: usize = 0;
    #[verifier::loop_isolation(false)]
    while i < sel.len()
        invariant
            0 <= i <= sel@.len(),
            out@ == resolve_entries_spec(*atlas, sel@.take(i as int)),
        decreases sel@.len() - i,
    {
        let n = sel[i];
        proof {
            assert(sel@.take(i as int + 1).drop_last() =~= sel@.take(i as int));
            assert(sel@.take(i as int + 1).last() == n);
        }
        match resolve_coord(atlas, n.coordinate) {
            Some(p) => {
                let blend: u32 = if p.0 == n.coordinate.lod {
                    n.blend
                } else {
                    0
                };
                out.push(
                    ResolutionEntry {
                        coordinate: n.coordinate,
                        resolved_lod: p.0,
                        slot: p.1,
                        blend: blend,
                        distance: n.distance,
                    },
                );
            },
            None => {},
        }
        i = i + 1;
    }
    proof {
        assert(sel@.take(sel@.len() as int) =~= sel@);
        lemma_entries_loaded(*atlas, sel@);
        if forall|k: int|
            0 <= k < sel@.len() ==> atlas.resident_spec(
                (#[trigger] sel@[k]).coordinate.ancestor_spec(0),
            ) {
            lemma_entries_total(*atlas, sel@);
        }
    }
    out
}

/// The coarsest loaded ancestor-or-self of `c`: the first loaded slot met
/// walking down from the face root.
pub open spec fn coarsest_loaded_spec(atlas: TileAtlas, c: TileCoordinate) -> Option<int>
    decreases c.lod,
{
    if c.lod == 0 {
        if atlas.resident_spec(c) {
            Some(atlas.slot_of(c))
        } else {
            None
        }
    } else {
        match coarsest_loaded_spec(atlas, c.parent_spec()) {
            Option::Some(i) => Some(i),
            Option::None => if atlas.resident_spec(c) {
                Some(atlas.slot_of(c))
            } else {
                None
            },
        }
    }
}

/// Finds the coarsest loaded ancestor-or-self of `c`.
pub fn coarsest_loaded(atlas: &TileAtlas, c: TileCoordinate) -> (r: Option<usize>)
    requires
        atlas.wf(),
    ensures
        match r {
            Option::Some(i) => coarsest_loaded_spec(*atlas, c) == Some(i as int) && (i as int)
                < atlas.slots@.len() && atlas.slots@[i as int].state is Loaded,
            Option::None => coarsest_loaded_spec(*atlas, c) is None,
        },
    decreases c.lod,
{
    if c.lod == 0 {
        atlas.resident(c)
    } else {
        match coarsest_loaded(atlas, c.parent()) {
            Some(i) => Some(i),
            None => atlas.resident(c),
        }
    }
}

/// The height interval published for one selected node: the interval its
/// coarsest loaded ancestor recorded, or the full conservative range
/// while nothing of the chain is resident.
pub open spec fn approximation_of(atlas: TileAtlas, n: SelectedNode) -> SurfaceApproximation {
    match coarsest_loaded_spec(atlas, n.coordinate) {
        Option::Some(i) => SurfaceApproximation {
            coordinate: n.coordinate,
            height_min: atlas.slots@[i].height_min,
            height_max: atlas.slots@[i].height_max,
        },
        Option::None => SurfaceApproximation {
            coordinate: n.coordinate,
            height_min: 0,
            height_max: 0xffff,
        },
    }
}

/// Publishes one surface approximation per selected node, recomputed
/// from scratch and never persisted.
pub fn approximate(atlas: &TileAtlas, sel: &Vec<SelectedNode>) -> (r: Vec<SurfaceApproximation>)
    requires
        atlas.wf(),
    ensures
        r@.len() == sel@.len(),
        forall|k: int|
            0 <= k < sel@.len() ==> #[trigger] r@[k] == approximation_of(*atlas, sel@[k]),
{
    let mut out: Vec<SurfaceApproximation> = Vec::new();
    let mut i: usize = 0;
    #[verifier::loop_isolation(false)]
    while i < sel.len()
        invariant
            0 <= i <= sel@.len(),
            out@.len() == i,
            forall|k: int| 0 <= k < i ==> #[trigger] out@[k] == approximation_of(*atlas, sel@[k]),
        decreases sel@.len() - i,
    {
        let n = sel[i];
        match coarsest_loaded(atlas, n.coordinate) {
            Some(s) => {
                let slot = atlas.slots[s];
                out.push(
                    SurfaceApproximation {
                        coordinate: n.coordinate,
                        height_min: slot.height_min,
                        height_max: slot.height_max,
                    },
                );
            },
            None => {
                out.push(
                    SurfaceApproximation { coordinate: n.coordinate, height_min: 0, height_max: 0xffff },
                );
            },
        }
        i = i + 1;
    }
    out
}

} // verus!
