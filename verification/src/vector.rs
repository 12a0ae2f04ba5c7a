use vstd::prelude::*;

verus! {

/// A two-component integer vector: viewport sizes, tile coordinates and
/// fixed-point vertex positions.
#[derive(Clone, Copy, PartialEq, Eq, Structural, Debug)]
pub struct IVec2 {
    pub x: i32,
    pub y: i32,
}

/// Builds an `IVec2` from its components.
pub fn vec2(x: i32, y: i32) -> (r: IVec2)
    ensures
        r == (IVec2 { x, y }),
{
    IVec2 { x, y }
}

} // verus!
