use vstd::prelude::*;

verus! {

/// Data that shaders may read from several threads at once.
pub trait Uniform: Sync {}

impl<T: Sync> Uniform for T {}

const UNIT_TYPE_BUF: [(); 1] = [()];

/// A one-element buffer of `()`, for the uniform slots a pipeline leaves unused.
pub fn unit_type_buf() -> (r: &'static [()])
    ensures
        r@.len() == 1,
{
    &UNIT_TYPE_BUF
}

/// The four uniform buffers bound to a render pass.
pub struct Uniforms<'a, U0: Uniform, U1: Uniform, U2: Uniform, U3: Uniform> {
    buffer0: &'a [U0],
    buffer1: &'a [U1],
    buffer2: &'a [U2],
    buffer3: &'a [U3],
}

impl<'a, U0: Uniform, U1: Uniform, U2: Uniform, U3: Uniform> Uniforms<'a, U0, U1, U2, U3> {
    /// The first buffer.
    pub closed spec fn buf0(&self) -> Seq<U0> {
        self.buffer0@
    }

    /// The second buffer.
    pub closed spec fn buf1(&self) -> Seq<U1> {
        self.buffer1@
    }

    /// The third buffer.
    pub closed spec fn buf2(&self) -> Seq<U2> {
        self.buffer2@
    }

    /// The fourth buffer.
    pub closed spec fn buf3(&self) -> Seq<U3> {
        self.buffer3@
    }

    /// Whether `indices` selects an element of each of the four buffers.
    pub open spec fn indices_in_bounds(&self, indices: [u32; 4]) -> bool {
        &&& (indices[0] as int) < self.buf0().len()
        &&& (indices[1] as int) < self.buf1().len()
        &&& (indices[2] as int) < self.buf2().len()
        &&& (indices[3] as int) < self.buf3().len()
    }

    /// Binds the four buffers.
    pub fn new(buffer0: &'a [U0], buffer1: &'a [U1], buffer2: &'a [U2], buffer3: &'a [U3]) -> (r: Self)
        ensures
            r.buf0() == buffer0@,
            r.buf1() == buffer1@,
            r.buf2() == buffer2@,
            r.buf3() == buffer3@,
    {
        Self { buffer0, buffer1, buffer2, buffer3 }
    }

    /// Whether `indices` selects an element of each of the four buffers.
    pub fn in_bounds(&self, indices: [u32; 4]) -> (r: bool)
        ensures
            r == self.indices_in_bounds(indices),
    {
        (indices[0] as usize) < self.buffer0.len() && (indices[1] as usize) < self.buffer1.len()
            && (indices[2] as usize) < self.buffer2.len() && (indices[3] as usize) < self.buffer3.len()
    }

    /// One element of each buffer, chosen by `indices`.
    pub fn get(&self, indices: [u32; 4]) -> (r: (&U0, &U1, &U2, &U3))
        requires
            self.indices_in_bounds(indices),
        ensures
            *r.0 == self.buf0()[indices[0] as int],
            *r.1 == self.buf1()[indices[1] as int],
            *r.2 == self.buf2()[indices[2] as int],
            *r.3 == self.buf3()[indices[3] as int],
    {
        (
            &self.buffer0[indices[0] as usize],
            &self.buffer1[indices[1] as usize],
            &self.buffer2[indices[2] as usize],
            &self.buffer3[indices[3] as usize],
        )
    }
}

} // verus!
