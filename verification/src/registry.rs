//! Explicit registry of terrains and their observers.
//!
//! Atlas and tree instances are owned by a registry and addressed by
//! plain integer handles, passed explicitly to every operation. A handle
//! is the index at which the terrain or observer was created. Terrains
//! are fully independent of one another. Teardown is ownership: dropping
//! the registry, or a terrain taken out of it, reclaims every slot at
//! once.

use vstd::prelude::*;

use crate::atlas::TileAtlas;
use crate::config::{ConfigError, TerrainConfig};
use crate::coordinate::TileCoordinate;
use crate::pipeline::{process_frame, selected_of, FrameOutput, LoadCompletion};
use crate::tree::{resolve_entries_spec, ObserverPosition, TileTree};

verus! {

/// One terrain: its shared atlas, the traversal parameters, and one tree
/// per registered observer.
pub struct Terrain {
    /// The bounded tile cache shared by all observers of this terrain.
    pub atlas: TileAtlas,
    /// The traversal parameters every observer's tree is created from.
    pub params: TileTree,
    /// One tree per observer, in registration order.
    pub trees: Vec<TileTree>,
}

impl Terrain {
    /// Internal consistency: every observer tree carries the terrain's
    /// parameters.
    pub open spec fn wf(self) -> bool {
        &&& self.atlas.wf()
        &&& self.params.wf()
        &&& forall|i: int| 0 <= i < self.trees@.len() ==> #[trigger] self.trees@[i] == self.params
    }
}

/// The registry: all live terrains, addressed by handle.
pub struct TerrainRegistry {
    /// The registered terrains, in creation order.
    pub terrains: Vec<Terrain>,
}

impl TerrainRegistry {
    /// Every registered terrain is internally consistent.
    pub open spec fn wf(self) -> bool {
        forall|i: int| 0 <= i < self.terrains@.len() ==> (#[trigger] self.terrains@[i]).wf()
    }

    /// An empty registry.
    pub fn new() -> (r: TerrainRegistry)
        ensures
            r.wf(),
            r.terrains@.len() == 0,
    {
        TerrainRegistry { terrains: Vec::new() }
    }

    /// Creates a terrain from a configuration, rejecting a malformed one
    /// with the first offending parameter; the rejection is fatal for
    /// this terrain only and leaves the registry untouched.
    pub fn create_terrain(&mut self, config: TerrainConfig) -> (r: Result<usize, ConfigError>)
        requires
            old(self).wf(),
        ensures
            final(self).wf(),
            config.wf() ==> r == Ok::<usize, ConfigError>(old(self).terrains@.len() as usize)
                && final(self).terrains@.len() == old(self).terrains@.len() + 1,
            !config.wf() ==> final(self).terrains@ == old(self).terrains@ && (r matches Err(e)
                && Some(e) == config.first_error_spec()),
    {
        match config.validate() {
            Ok(()) => {
                let params = TileTree::new(&config);
                let atlas = TileAtlas::new(config);
                let id = self.terrains.len();
                self.terrains.push(Terrain { atlas: atlas, params: params, trees: Vec::new() });
                Ok(id)
            },
            Err(e) => Err(e),
        }
    }

    /// Replaces a terrain's configuration between frames — the only time
    /// reconfiguration is safe, never mid-traversal. A malformed
    /// configuration is rejected and changes nothing. The atlas is
    /// rebuilt at the new capacity, reclaiming every slot immediately;
    /// registered observers stay registered, with the new parameters.
    pub fn reconfigure_terrain(&mut self, terrain: usize, config: TerrainConfig) -> (r: Result<
        (),
        ConfigError,
    >)
        requires
            old(self).wf(),
            terrain < old(self).terrains@.len(),
        ensures
            final(self).wf(),
            final(self).terrains@.len() == old(self).terrains@.len(),
            !config.wf() ==> final(self).terrains@ == old(self).terrains@ && (r matches Err(e)
                && Some(e) == config.first_error_spec()),
            config.wf() ==> r == Ok::<(), ConfigError>(()) && {
                let t = final(self).terrains@[terrain as int];
                &&& t.trees@.len() == old(self).terrains@[terrain as int].trees@.len()
                &&& t.params.lod_count == config.lod_count
                &&& t.params.face_count == config.face_count
                &&& t.atlas.slots@.len() == config.atlas_capacity as nat
                &&& forall|i: int|
                    0 <= i < t.atlas.slots@.len() ==> (#[trigger] t.atlas.slots@[i]).state
                        is Unloaded
            },
    {
        match config.validate() {
            Ok(()) => {
                let mut t = self.terrains.remove(terrain);
                let observer_count = t.trees.len();
                let params = TileTree::new(&config);
                let mut trees: Vec<TileTree> = Vec::new();
                while trees.len() < observer_count
                    invariant
                        trees@.len() <= observer_count,
                        params.wf(),
                        forall|i: int| 0 <= i < trees@.len() ==> #[trigger] trees@[i] == params,
                    decreases observer_count - trees@.len(),
                {
                    trees.push(params);
                }
                t = Terrain { atlas: TileAtlas::new(config), params: params, trees: trees };
                self.terrains.insert(terrain, t);
                proof {
                    assert forall|i: int|
                        0 <= i < self.terrains@.len() implies (
                    #[trigger] self.terrains@[i]).wf() by {
                        if i != terrain {
                            assert(self.terrains@[i] == old(self).terrains@[i]);
                        }
                    }
                }
                Ok(())
            },
            Err(e) => Err(e),
        }
    }

    /// Registers one more observer of a terrain and hands out its handle;
    /// nothing for an unknown terrain handle.
    pub fn add_observer(&mut self, terrain: usize) -> (r: Option<usize>)
        requires
            old(self).wf(),
        ensures
            final(self).wf(),
            final(self).terrains@.len() == old(self).terrains@.len(),
            terrain < old(self).terrains@.len() ==> r == Some(
                old(self).terrains@[terrain as int].trees@.len() as usize,
            ) && final(self).terrains@[terrain as int].trees@.len() == old(self).terrains@[
                terrain as int
            ].trees@.len() + 1,
            terrain >= old(self).terrains@.len() ==> r is None && final(self).terrains@ == old(
                self,
            ).terrains@,
    {
        if terrain >= self.terrains.len() {
            return None;
        }
        let mut t = self.terrains.remove(terrain);
        let id = t.trees.len();
        t.trees.push(t.params);
        self.terrains.insert(terrain, t);
        proof {
            assert forall|i: int|
                0 <= i < self.terrains@.len() implies (#[trigger] self.terrains@[i]).wf() by {
                if i != terrain {
                    assert(self.terrains@[i] == old(self).terrains@[i]);
                }
            }
            assert(self.terrains@ =~= old(self).terrains@.update(
                terrain as int,
                self.terrains@[terrain as int],
            ));
        }
        Some(id)
    }

    /// Runs one frame of one terrain: drains the given completions, runs
    /// every observer's traversal, admits, dispatches up to
    /// `max_dispatch` loads, and publishes the frame's output.
    pub fn run_frame(
        &mut self,
        terrain: usize,
        observers: &Vec<Vec<ObserverPosition>>,
        completions: &Vec<LoadCompletion>,
        max_dispatch: usize,
    ) -> (r: FrameOutput)
        requires
            old(self).wf(),
            terrain < old(self).terrains@.len(),
            old(self).terrains@[terrain as int].atlas.frame < u64::MAX,
            observers@.len() == old(self).terrains@[terrain as int].trees@.len(),
            forall|t: int|
                0 <= t < observers@.len() ==> (#[trigger] observers@[t])@.len() == old(
                    self,
                ).terrains@[terrain as int].params.face_count,
            forall|t: int, i: int|
                0 <= t < observers@.len() && 0 <= i < observers@[t]@.len() ==> (
                #[trigger] observers@[t]@[i]).wf(),
            forall|j1: int, j2: int|
                0 <= j1 < j2 < completions@.len() ==> (#[trigger] completions@[j1]).coordinate
                    != (#[trigger] completions@[j2]).coordinate,
        ensures
            final(self).wf(),
            final(self).terrains@.len() == old(self).terrains@.len(),
            r.entries@.len() == observers@.len(),
            r.approximations@.len() == observers@.len(),
            // determinism at the registry surface: each observer's table is
            // a function of its tree, its transform and the final slot table
            forall|t: int|
                0 <= t < observers@.len() ==> (#[trigger] r.entries@[t])@ == resolve_entries_spec(
                    final(self).terrains@[terrain as int].atlas,
                    selected_of(old(self).terrains@[terrain as int].trees@, observers@, t),
                ),
            // eviction safety at the registry surface: a coordinate
            // requested this frame keeps the slot it had when it began
            forall|c: TileCoordinate, i: int|
                old(self).terrains@[terrain as int].atlas.holds_at(c, i) && final(
                    self).terrains@[terrain as int].atlas.requests@.contains(c) ==> final(
                    self).terrains@[terrain as int].atlas.holds_at(c, i),
            // the fallback invariant at the registry surface: everything
            // published references a loaded slot of this terrain's atlas
            forall|t: int, k: int|
                0 <= t < r.entries@.len() && 0 <= k < r.entries@[t]@.len() ==> ((
                #[trigger] r.entries@[t]@[k]).slot as int) < final(self).terrains@[
                    terrain as int
                ].atlas.slots@.len() && final(self).terrains@[terrain as int].atlas.slots@[
                    r.entries@[t]@[k].slot as int
                ].state is Loaded,
    {
        let mut t = self.terrains.remove(terrain);
        let out = process_frame(&mut t.atlas, &t.trees, observers, completions, max_dispatch);
        self.terrains.insert(terrain, t);
        proof {
            assert forall|i: int|
                0 <= i < self.terrains@.len() implies (#[trigger] self.terrains@[i]).wf() by {
                if i != terrain {
                    assert(self.terrains@[i] == old(self).terrains@[i]);
                }
            }
        }
        out
    }

    /// Read-only residency lookup on one terrain's atlas.
    pub fn resident(&self, terrain: usize, coordinate: TileCoordinate) -> (r: Option<usize>)
        requires
            self.wf(),
            terrain < self.terrains@.len(),
        ensures
            match r {
                Option::Some(i) => self.terrains@[terrain as int].atlas.resident_spec(coordinate)
                    && self.terrains@[terrain as int].atlas.slots@[i as int].state is Loaded,
                Option::None => !self.terrains@[terrain as int].atlas.resident_spec(coordinate),
            },
    {
        self.terrains[terrain].atlas.resident(coordinate)
    }
}

} // verus!
