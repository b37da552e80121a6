//! Quadtree node coordinates.
//!
//! A coordinate names one node of the terrain quadtree: a face of the
//! terrain, a level of detail (level 0 is the coarsest), and an integer grid
//! position within that face. The grid doubles along each edge per level, so
//! a node's parent sits at the previous level with halved grid position.

use vstd::prelude::*;

verus! {

/// The deepest level of detail any terrain may configure. Grid positions at
/// this level still fit comfortably in `u32` and node side lengths in `u64`.
pub const MAX_LOD_COUNT: u32 = 32;

/// Identifies one quadtree node: face index, level of detail and grid
/// position within the face at that level.
#[derive(Clone, Copy, PartialEq, Eq, Structural, Debug, Hash)]
pub struct TileCoordinate {
    pub face: u32,
    pub lod: u32,
    pub x: u32,
    pub y: u32,
}

/// Number of grid cells along one edge of a face at level `lod`; one at the
/// root and doubling with every level.
pub open spec fn grid_size_spec(lod: nat) -> nat
    decreases lod,
{
    if lod == 0 {
        1
    } else {
        2 * grid_size_spec((lod - 1) as nat)
    }
}

/// The grid size is exactly two to the power of the level.
pub proof fn lemma_grid_is_pow2(lod: nat)
    ensures
        grid_size_spec(lod) == vstd::arithmetic::power2::pow2(lod),
    decreases lod,
{
    if lod == 0 {
        vstd::arithmetic::power2::lemma2_to64();
    } else {
        lemma_grid_is_pow2((lod - 1) as nat);
        vstd::arithmetic::power2::lemma_pow2_unfold(lod);
    }
}

/// The grid of a level never outgrows two to the power of the level.
pub proof fn lemma_grid_size_bound(lod: nat)
    ensures
        grid_size_spec(lod) >= 1,
        lod <= 30 ==> grid_size_spec(lod) <= 0x4000_0000,
        lod <= 32 ==> grid_size_spec(lod) <= 0x1_0000_0000,
{
    lemma_grid_is_pow2(lod);
    vstd::arithmetic::power2::lemma_pow2_pos(lod);
    vstd::arithmetic::power2::lemma2_to64();
    if lod < 32 {
        vstd::arithmetic::power2::lemma_pow2_strictly_increases(lod, 32);
    }
    if lod < 30 {
        vstd::arithmetic::power2::lemma_pow2_strictly_increases(lod, 30);
    }
}

/// Cells along one edge of a face at level `lod`.
pub fn grid_size(lod: u32) -> (r: u64)
    requires
        lod < MAX_LOD_COUNT,
    ensures
        r == grid_size_spec(lod as nat),
        1 <= r <= 0x1_0000_0000,
    decreases lod,
{
    proof {
        lemma_grid_size_bound(lod as nat);
    }
    if lod == 0 {
        1
    } else {
        proof {
            lemma_grid_size_bound((lod - 1) as nat);
        }
        2 * grid_size(lod - 1)
    }
}

impl TileCoordinate {
    /// A coordinate is well formed when its grid position lies on its face's
    /// grid and its level stays below the supported maximum.
    pub open spec fn wf(self) -> bool {
        &&& self.lod < MAX_LOD_COUNT
        &&& self.x < grid_size_spec(self.lod as nat)
        &&& self.y < grid_size_spec(self.lod as nat)
    }

    /// The node one level coarser that contains this node.
    pub open spec fn parent_spec(self) -> TileCoordinate {
        TileCoordinate {
            face: self.face,
            lod: (self.lod - 1) as u32,
            x: self.x / 2,
            y: self.y / 2,
        }
    }

    /// The ancestor of this node at level `a`; the node itself when `a` is
    /// not coarser than its own level.
    pub open spec fn ancestor_spec(self, a: u32) -> TileCoordinate
        decreases self.lod,
    {
        if self.lod <= a {
            self
        } else {
            self.parent_spec().ancestor_spec(a)
        }
    }

    /// The `i`-th child of this node, one level finer, in fixed row-major
    /// order of the four quadrants.
    pub open spec fn child_spec(self, i: u32) -> TileCoordinate {
        TileCoordinate {
            face: self.face,
            lod: (self.lod + 1) as u32,
            x: (2 * self.x + i % 2) as u32,
            y: (2 * self.y + i / 2) as u32,
        }
    }

    /// The node one level coarser that contains this node.
    pub fn parent(self) -> (r: TileCoordinate)
        requires
            self.lod > 0,
        ensures
            r == self.parent_spec(),
    {
        TileCoordinate { face: self.face, lod: self.lod - 1, x: self.x / 2, y: self.y / 2 }
    }

    /// Walks the parent chain up to the ancestor at level `a`.
    pub fn ancestor_at(self, a: u32) -> (r: TileCoordinate)
        ensures
            r == self.ancestor_spec(a),
    {
        let mut cur = self;
        while cur.lod > a
            invariant
                cur.ancestor_spec(a) == self.ancestor_spec(a),
            decreases cur.lod,
        {
            cur = cur.parent();
        }
        cur
    }

    /// The `i`-th child of this node in fixed quadrant order.
    pub fn child(self, i: u32) -> (r: TileCoordinate)
        requires
            self.wf(),
            self.lod + 1 < MAX_LOD_COUNT,
            i < 4,
        ensures
            r == self.child_spec(i),
            r.wf(),
    {
        proof {
            lemma_grid_size_bound(self.lod as nat);
            self.lemma_child_wf(i);
            assert(2 * self.x + i % 2 < 0x1_0000_0000);
            assert(2 * self.y + i / 2 < 0x1_0000_0000);
        }
        TileCoordinate {
            face: self.face,
            lod: self.lod + 1,
            x: 2 * self.x + i % 2,
            y: 2 * self.y + i / 2,
        }
    }

    /// A well-formed node's parent is well formed and one level coarser.
    pub proof fn lemma_parent_wf(self)
        requires
            self.wf(),
            self.lod > 0,
        ensures
            self.parent_spec().wf(),
            self.parent_spec().lod == self.lod - 1,
            self.parent_spec().face == self.face,
    {
    }

    /// A well-formed node's children are well formed, one level finer, and
    /// each child's parent is the node itself.
    pub proof fn lemma_child_wf(self, i: u32)
        requires
            self.wf(),
            self.lod + 1 < MAX_LOD_COUNT,
            i < 4,
        ensures
            self.child_spec(i).wf(),
            self.child_spec(i).lod == self.lod + 1,
            self.child_spec(i).parent_spec() == self,
    {
        lemma_grid_size_bound(self.lod as nat);
        assert(grid_size_spec((self.lod + 1) as nat) == 2 * grid_size_spec(self.lod as nat));
    }

    /// The ancestor at level `a` is well formed, sits at level `a` (for `a`
    /// at or above the node's own level) and shares the node's face.
    pub proof fn lemma_ancestor_wf(self, a: u32)
        requires
            self.wf(),
        ensures
            self.ancestor_spec(a).wf(),
            self.ancestor_spec(a).face == self.face,
            a <= self.lod ==> self.ancestor_spec(a).lod == a,
            a >= self.lod ==> self.ancestor_spec(a) == self,
        decreases self.lod,
    {
        if self.lod > a {
            self.lemma_parent_wf();
            self.parent_spec().lemma_ancestor_wf(a);
        }
    }

    /// The ancestor of a node at the node's own level is the node itself.
    pub proof fn lemma_ancestor_self(self)
        ensures
            self.ancestor_spec(self.lod) == self,
    {
    }
}

} // verus!
