use vstd::prelude::*;

use crate::image::format::DepthFormat;
use crate::image::view::{index_in_image, pixel_index, ImageView, ImageViewMut};

verus! {

/// When a new fragment's depth passes against the depth already stored.
#[derive(Clone, Copy, PartialEq, Eq, Structural, Debug)]
pub enum DepthTest {
    Less,
    Greater,
    LessEqual,
    GreaterEqual,
    Equal,
}

impl DepthTest {
    /// Whether `new` passes this test against the stored `old`.
    pub open spec fn passes<D: DepthFormat>(self, old: D, new: D) -> bool {
        match self {
            DepthTest::Less => D::less_spec(&new, &old),
            DepthTest::Greater => D::greater_spec(&new, &old),
            DepthTest::LessEqual => D::less_equal_spec(&new, &old),
            DepthTest::GreaterEqual => D::greater_equal_spec(&new, &old),
            DepthTest::Equal => D::equal_spec(&new, &old),
        }
    }

    /// Compares the new depth with the stored one, new on the left.
    pub fn compare<D: DepthFormat>(&self, old: &D, new: &D) -> (r: bool)
        ensures
            r == self.passes(*old, *new),
    {
        match self {
            Self::Less => D::compare_less(new, old),
            Self::Greater => D::compare_greater(new, old),
            Self::LessEqual => D::compare_less_equal(new, old),
            Self::GreaterEqual => D::compare_greater_equal(new, old),
            Self::Equal => D::compare_equal(new, old),
        }
    }
}

/// How a pipeline uses its depth buffer.
pub enum DepthState<'a, D: DepthFormat> {
    CompareOnly(ImageView<'a, D>, DepthTest),
    WriteOnly(ImageViewMut<'a, D>),
    CompareAndWrite(ImageViewMut<'a, D>, DepthTest),
    Disabled,
}

impl<'a, D: DepthFormat> DepthState<'a, D> {
    /// The depth buffer holds pixel `(x, y)`.
    pub open spec fn addresses(&self, x: u32, y: u32) -> bool {
        match self {
            DepthState::CompareOnly(view, _) => view.wf() && index_in_image(
                view.spec_width(),
                view.spec_height(),
                x,
                y,
            ),
            DepthState::WriteOnly(view) => view.wf() && index_in_image(view.width, view.height, x, y),
            DepthState::CompareAndWrite(view, _) => view.wf() && index_in_image(
                view.width,
                view.height,
                x,
                y,
            ),
            DepthState::Disabled => true,
        }
    }

    /// What `keep_fragment(x, y, new)` returns from state `self`.
    pub open spec fn keeps(&self, x: u32, y: u32, new: D) -> bool {
        match self {
            DepthState::CompareOnly(view, test) => test.passes(
                view.pixels()[pixel_index(view.spec_width(), x, y)],
                new,
            ),
            DepthState::WriteOnly(_) => true,
            DepthState::CompareAndWrite(view, test) => test.passes(
                view.pixels()[pixel_index(view.width, x, y)],
                new,
            ),
            DepthState::Disabled => true,
        }
    }

    /// The state after `keep_fragment(x, y, new)` returned `kept`: a writing
    /// state stores `new` at `(x, y)` when the fragment is kept; nothing else
    /// changes.
    pub open spec fn after_fragment(&self, post: &Self, x: u32, y: u32, new: D, kept: bool) -> bool {
        match (self, post) {
            (DepthState::CompareOnly(view, test), DepthState::CompareOnly(view2, test2)) => view2
                == view && test2 == test,
            (DepthState::WriteOnly(view), DepthState::WriteOnly(view2)) => {
                &&& view2.width == view.width
                &&& view2.height == view.height
                &&& view2.pixels() == view.pixels().update(pixel_index(view.width, x, y), new)
            },
            (DepthState::CompareAndWrite(view, test), DepthState::CompareAndWrite(view2, test2)) => {
                &&& test2 == test
                &&& view2.width == view.width
                &&& view2.height == view.height
                &&& view2.pixels() == if kept {
                    view.pixels().update(pixel_index(view.width, x, y), new)
                } else {
                    view.pixels()
                }
            },
            (DepthState::Disabled, DepthState::Disabled) => true,
            _ => false,
        }
    }

    /// Runs the depth stage for a fragment at `(x, y)` with depth `new`:
    /// whether the fragment is kept, writing its depth when the state writes
    /// and the fragment is kept.
    pub fn keep_fragment(&mut self, x: u32, y: u32, new: D) -> (kept: bool)
        requires
            old(self).addresses(x, y),
        ensures
            kept == old(self).keeps(x, y, new),
            old(self).after_fragment(&*final(self), x, y, new, kept),
            match (*old(self), *final(self)) {
                (DepthState::WriteOnly(view), DepthState::WriteOnly(view2)) => final(view2.data)@
                    == final(view.data)@,
                (DepthState::CompareAndWrite(view, _), DepthState::CompareAndWrite(view2, _)) =>
                    final(view2.data)@ == final(view.data)@,
                _ => true,
            },
    {
        match self {
            Self::CompareOnly(image_view, depth_test) => depth_test.compare(image_view.get(x, y), &new),
            Self::WriteOnly(image_view) => {
                *image_view.get_mut(x, y) = new;
                true
            },
            Self::CompareAndWrite(image_view, depth_test) => {
                if depth_test.compare(image_view.get(x, y), &new) {
                    *image_view.get_mut(x, y) = new;
                    true
                } else {
                    false
                }
            },
            Self::Disabled => true,
        }
    }
}

/// `D`'s comparisons are those of one order: "farther" is "nearer" with the
/// operands swapped, "nearer or as near" is "nearer" or "as near", "farther or
/// as far" is "farther" or "as near", and "as near" is symmetric. (IEEE
/// floating-point comparison has these properties, NaN included.)
pub open spec fn depth_order_consistent<D: DepthFormat>() -> bool {
    &&& forall|a: D, b: D| #[trigger] D::greater_spec(&a, &b) == D::less_spec(&b, &a)
    &&& forall|a: D, b: D| #[trigger] D::less_equal_spec(&a, &b) == (D::less_spec(&a, &b) || D::equal_spec(&a, &b))
    &&& forall|a: D, b: D| #[trigger] D::greater_equal_spec(&a, &b) == (D::less_spec(&b, &a) || D::equal_spec(&a, &b))
    &&& forall|a: D, b: D| #[trigger] D::equal_spec(&a, &b) == D::equal_spec(&b, &a)
}

/// What each depth test means, for a depth format whose comparisons form one
/// order: with `new` the incoming depth and `old` the stored one, `Less`
/// passes exactly when `new` is nearer than `old`, `Greater` when `old` is
/// nearer than `new`, `LessEqual` when `new` is nearer or as near,
/// `GreaterEqual` when `old` is nearer or they are as near, and `Equal` when
/// they are as near. So a nearer fragment always passes `LessEqual` and a
/// farther one never does.
pub proof fn lemma_depth_test_meaning<D: DepthFormat>(old: D, new: D)
    requires
        depth_order_consistent::<D>(),
    ensures
        DepthTest::Less.passes(old, new) == D::less_spec(&new, &old),
        DepthTest::Greater.passes(old, new) == D::less_spec(&old, &new),
        DepthTest::LessEqual.passes(old, new) == (D::less_spec(&new, &old) || D::equal_spec(&old, &new)),
        DepthTest::GreaterEqual.passes(old, new) == (D::less_spec(&old, &new) || D::equal_spec(&old, &new)),
        DepthTest::Equal.passes(old, new) == D::equal_spec(&old, &new),
{
    assert(D::greater_spec(&new, &old) == D::less_spec(&old, &new));
    assert(D::less_equal_spec(&new, &old) == (D::less_spec(&new, &old) || D::equal_spec(&new, &old)));
    assert(D::greater_equal_spec(&new, &old) == (D::less_spec(&old, &new) || D::equal_spec(&new, &old)));
    assert(D::equal_spec(&new, &old) == D::equal_spec(&old, &new));
}

/// The depth buffer after a fragment: once the depth stage has run for pixel
/// `(x, y)` with depth `new`, every entry of a writing state's buffer holds
/// `new` if it is the entry of `(x, y)` and the fragment was kept, and
/// otherwise what it held before; in particular a fragment that fails a
/// compare-and-write test leaves the buffer as it was, so the next fragment
/// is compared against the old depth. A compare-only state keeps its buffer.
pub proof fn lemma_depth_buffer_after_fragment<'a, D: DepthFormat>(
    pre: DepthState<'a, D>,
    post: DepthState<'a, D>,
    x: u32,
    y: u32,
    new: D,
)
    requires
        pre.addresses(x, y),
        pre.after_fragment(&post, x, y, new, pre.keeps(x, y, new)),
    ensures
        match (pre, post) {
            (DepthState::CompareAndWrite(view, test), DepthState::CompareAndWrite(view2, _)) => {
                let at = pixel_index(view.width, x, y);
                let kept = test.passes(view.pixels()[at], new);
                &&& view2.width == view.width && view2.height == view.height
                &&& view2.pixels().len() == view.pixels().len()
                &&& forall|i: int|
                    0 <= i < view.pixels().len() ==> #[trigger] view2.pixels()[i] == if i == at && kept {
                        new
                    } else {
                        view.pixels()[i]
                    }
                &&& !kept ==> view2.pixels() == view.pixels()
            },
            (DepthState::WriteOnly(view), DepthState::WriteOnly(view2)) => {
                let at = pixel_index(view.width, x, y);
                &&& view2.pixels().len() == view.pixels().len()
                &&& forall|i: int|
                    0 <= i < view.pixels().len() ==> #[trigger] view2.pixels()[i] == if i == at {
                        new
                    } else {
                        view.pixels()[i]
                    }
            },
            (DepthState::CompareOnly(view, _), DepthState::CompareOnly(view2, _)) => view2 == view,
            _ => true,
        },
{
}

/// Which fragments the depth stage keeps: a comparing state keeps exactly the
/// fragments whose depth passes its test against the depth stored at their
/// pixel; a state that only writes, or has no depth buffer, keeps every
/// fragment.
pub proof fn lemma_depth_stage_verdict<'a, D: DepthFormat>(state: DepthState<'a, D>, x: u32, y: u32, new: D)
    requires
        state.addresses(x, y),
    ensures
        match state {
            DepthState::CompareOnly(view, test) => state.keeps(x, y, new) == test.passes(
                view.pixels()[y * view.spec_width() + x],
                new,
            ),
            DepthState::CompareAndWrite(view, test) => state.keeps(x, y, new) == test.passes(
                view.pixels()[y * view.width + x],
                new,
            ),
            DepthState::WriteOnly(_) => state.keeps(x, y, new),
            DepthState::Disabled => state.keeps(x, y, new),
        },
{
}

} // verus!
