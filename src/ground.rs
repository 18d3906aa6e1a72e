use vstd::prelude::*;

verus! {

/// What a cell is made of; it decides which seeds take root there.
#[derive(Debug, Clone, Copy, PartialEq, Eq, Structural)]
pub enum Ground {
    Dirt,
    Tiled,
    Sand,
    Water,
    Stone,
}

} // verus!
