//! Physics: the kinds of rigid bodies.

use vstd::prelude::*;

verus! {

/// How a rigid body takes part in the simulation.
#[derive(Debug, Clone, Copy, PartialEq, Eq, Structural)]
pub enum RigidBodyType {
    /// Moved by forces and collisions.
    Dynamic,
    /// Moved by the game, pushes dynamic bodies.
    Kinematic,
    /// Never moves.
    Static,
}

impl Default for RigidBodyType {
    /// The default is `Dynamic`.
    fn default() -> (v: RigidBodyType)
        ensures
            v == RigidBodyType::Dynamic,
    {
        RigidBodyType::Dynamic
    }
}

} // verus!
