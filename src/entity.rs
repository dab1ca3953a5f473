use vstd::prelude::*;

verus! {

/// The kind of a moving entity of the world.
#[derive(Clone, Copy, Debug, PartialEq, Eq, Structural)]
pub enum EntityType {
    Player,
    Enemy,
}

} // verus!
