use vstd::prelude::*;

verus! {

/// Uniform arguments handed to shaders by value. Shared references are
/// uniforms; the unit type and tuples of references, which are uniforms too,
/// cannot be given this impl here because the verifier does not know them to
/// be `Copy`.
pub trait Uniforms: Copy {}

impl<T> Uniforms for &T {}

} // verus!
