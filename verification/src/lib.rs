//! Gravity forces for force-directed graph layout.
//!
//! For every node of a layout, these functions accumulate a pull toward a
//! configured center point into the node's velocity vector. Four models are
//! offered: a linear pull divided by node mass, a damped
//! Fruchterman-Reingold-style pull, the ForceAtlas2 pull (attenuated by the
//! node's distance from the coordinate-space origin), and the ForceAtlas2
//! strong-gravity pull (no attenuation). Scalars are exact fractions of
//! machine integers, so every velocity update is pinned exactly by its
//! contract.

pub mod coord;
pub mod gravity;
pub mod layout;
pub mod laws;
