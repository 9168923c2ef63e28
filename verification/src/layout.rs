//! The shared layout state the gravity models operate on.

use vstd::prelude::*;

use crate::coord::{rat_le, rat_lt, rat_wf, rat_zero, Coord, Rat};

verus! {

/// Read-only configuration of a gravity pass.
pub struct Settings {
    /// The attraction target. Must be at least as long as every node's
    /// position vector.
    pub center: Vec<Coord>,
    /// Global gravity strength.
    pub kg: Coord,
    /// Secondary strength constant, read only by the Fruchterman-Reingold
    /// model.
    pub ka: Coord,
}

/// Per-node state of the embedding: one mass, position vector and velocity
/// vector per node, plus the settings. A gravity pass reads masses, positions
/// and settings and updates the velocities in place.
pub struct Layout {
    pub masses: Vec<Coord>,
    pub points: Vec<Vec<Coord>>,
    pub speeds: Vec<Vec<Coord>>,
    pub settings: Settings,
}

/// The error of a gravity pass: the center vector is shorter than the named
/// node's position vector, so that node has no center coordinate to pull
/// toward in every dimension.
#[derive(Clone, Copy, Debug, PartialEq, Eq, Structural)]
pub enum GravityError {
    CenterTooShort { node: usize },
}

/// The values of a sequence of scalars.
pub open spec fn seq_view(s: Seq<Coord>) -> Seq<Rat> {
    s.map_values(|c: Coord| c@)
}

/// The values of a sequence of scalar vectors.
pub open spec fn grid_view(s: Seq<Vec<Coord>>) -> Seq<Seq<Rat>> {
    s.map_values(|v: Vec<Coord>| seq_view(v@))
}

impl Layout {
    /// Structural soundness: one mass, position and velocity per node,
    /// positions and velocities of equal dimension per node, every scalar a
    /// well-formed fraction, and every mass nonnegative.
    pub open spec fn wf(&self) -> bool {
        &&& self.masses@.len() == self.points@.len()
        &&& self.masses@.len() == self.speeds@.len()
        &&& forall|i: int|
            0 <= i < self.points@.len() ==> (#[trigger] self.points@[i])@.len()
                == self.speeds@[i]@.len()
        &&& forall|i: int|
            0 <= i < self.masses@.len() ==> rat_wf((#[trigger] self.masses@[i])@) && rat_le(
                rat_zero(),
                self.masses@[i]@,
            )
        &&& forall|i: int, j: int|
            0 <= i < self.points@.len() && 0 <= j < self.points@[i]@.len() ==> rat_wf(
                (#[trigger] self.points@[i]@[j])@,
            )
        &&& forall|i: int, j: int|
            0 <= i < self.speeds@.len() && 0 <= j < self.speeds@[i]@.len() ==> rat_wf(
                (#[trigger] self.speeds@[i]@[j])@,
            )
        &&& forall|j: int|
            0 <= j < self.settings.center@.len() ==> rat_wf((#[trigger] self.settings.center@[j])@)
        &&& rat_wf(self.settings.kg@)
        &&& rat_wf(self.settings.ka@)
    }

    /// The caller contract of every model: the center vector covers every
    /// dimension of every node's position.
    pub open spec fn center_ok(&self) -> bool {
        forall|i: int|
            0 <= i < self.points@.len() ==> (#[trigger] self.points@[i])@.len()
                <= self.settings.center@.len()
    }

    /// Every node's mass is strictly positive; demanded by the linear model,
    /// which divides by the mass.
    pub open spec fn masses_positive(&self) -> bool {
        forall|i: int|
            0 <= i < self.masses@.len() ==> rat_lt(rat_zero(), (#[trigger] self.masses@[i])@)
    }
}

} // verus!
