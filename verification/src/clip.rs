use vstd::prelude::*;

verus! {

/// A vertex of a clipped triangle: one of the input vertices, or the point
/// where the edge from an outside vertex to an inside vertex crosses the
/// clipping plane.
#[derive(Clone, Copy, PartialEq, Eq, Structural, Debug)]
pub enum ClipVertex {
    Vertex(usize),
    Intersection { outside: usize, inside: usize },
}

/// Number of input vertices outside the plane.
pub open spec fn outside_count(outside: [bool; 3]) -> int {
    (if outside[0] { 1int } else { 0int }) + (if outside[1] { 1int } else { 0int }) + (if outside[2] {
        1int
    } else {
        0int
    })
}

/// Index `k` steps after `i` around the triangle.
pub open spec fn next_vertex(i: int, k: int) -> int {
    (i + k) % 3
}

/// The clipped triangles of a triangle with exactly one vertex `o` outside:
/// the quadrilateral `a, b, P, Q` (with `a`, `b` the inside vertices in
/// winding order, `P` on edge `o-b` and `Q` on edge `o-a`) split into
/// `a, b, P` and `P, Q, a`.
pub open spec fn one_outside_plan(o: int) -> Seq<ClipVertex> {
    let a = next_vertex(o, 1) as usize;
    let b = next_vertex(o, 2) as usize;
    let p = ClipVertex::Intersection { outside: o as usize, inside: b };
    let q = ClipVertex::Intersection { outside: o as usize, inside: a };
    seq![ClipVertex::Vertex(a), ClipVertex::Vertex(b), p, p, q, ClipVertex::Vertex(a)]
}

/// The clipped triangle of a triangle with exactly one vertex `i` inside: `i`
/// and the crossings on its two edges, in winding order.
pub open spec fn one_inside_plan(i: int) -> Seq<ClipVertex> {
    seq![
        ClipVertex::Vertex(i as usize),
        ClipVertex::Intersection { outside: next_vertex(i, 1) as usize, inside: i as usize },
        ClipVertex::Intersection { outside: next_vertex(i, 2) as usize, inside: i as usize },
    ]
}

/// The vertices, three per output triangle, of a triangle clipped against a
/// plane, given which of its vertices lie outside: the whole triangle when
/// none does, nothing when all do, two triangles when one does and one
/// triangle when two do. The first outside (or inside) vertex in index order
/// is the one the plan is built around.
pub open spec fn clip_plan_spec(outside: [bool; 3]) -> Seq<ClipVertex> {
    if outside_count(outside) == 0 {
        seq![ClipVertex::Vertex(0), ClipVertex::Vertex(1), ClipVertex::Vertex(2)]
    } else if outside_count(outside) == 3 {
        Seq::empty()
    } else if outside_count(outside) == 1 {
        one_outside_plan(if outside[0] { 0 } else if outside[1] { 1 } else { 2 })
    } else {
        one_inside_plan(if !outside[0] { 0 } else if !outside[1] { 1 } else { 2 })
    }
}

/// Which vertices, input or interpolated, make up the triangles left when a
/// triangle is clipped against a plane; `outside[k]` tells whether vertex `k`
/// lies on the negative side of the plane.
pub fn clip_plan(outside: [bool; 3]) -> (plan: Vec<ClipVertex>)
    ensures
        plan@ == clip_plan_spec(outside),
{
    let count = (outside[0] as usize) + (outside[1] as usize) + (outside[2] as usize);
    let mut plan: Vec<ClipVertex> = Vec::new();
    if count == 0 {
        plan.push(ClipVertex::Vertex(0));
        plan.push(ClipVertex::Vertex(1));
        plan.push(ClipVertex::Vertex(2));
    } else if count == 1 {
        let (o, inside0, inside1) = if outside[0] {
            (0usize, 1usize, 2usize)
        } else if outside[1] {
            (1, 2, 0)
        } else {
            (2, 0, 1)
        };
        let v2 = ClipVertex::Intersection { outside: o, inside: inside1 };
        let v3 = ClipVertex::Intersection { outside: o, inside: inside0 };
        plan.push(ClipVertex::Vertex(inside0));
        plan.push(ClipVertex::Vertex(inside1));
        plan.push(v2);
        plan.push(v2);
        plan.push(v3);
        plan.push(ClipVertex::Vertex(inside0));
    } else if count == 2 {
        let (inside, outside0, outside1) = if !outside[0] {
            (0usize, 1usize, 2usize)
        } else if !outside[1] {
            (1, 2, 0)
        } else {
            (2, 0, 1)
        };
        plan.push(ClipVertex::Vertex(inside));
        plan.push(ClipVertex::Intersection { outside: outside0, inside });
        plan.push(ClipVertex::Intersection { outside: outside1, inside });
    }
    assert(plan@ =~= clip_plan_spec(outside));
    plan
}

/// Clipping keeps what is inside and cuts only across the plane: the plan
/// holds whole triangles (a multiple of three vertices), every input vertex it
/// keeps lies inside, and every crossing it makes is on an edge from an
/// outside vertex to an inside one.
pub proof fn lemma_clip_plan_sound(outside: [bool; 3])
    ensures
        clip_plan_spec(outside).len() % 3 == 0,
        forall|k: int|
            0 <= k < clip_plan_spec(outside).len() ==> match #[trigger] clip_plan_spec(outside)[k] {
                ClipVertex::Vertex(i) => i < 3 && !outside[i as int],
                ClipVertex::Intersection { outside: o, inside: i } => o < 3 && i < 3 && outside[o as int]
                    && !outside[i as int],
            },
        outside_count(outside) == 0 ==> clip_plan_spec(outside).len() == 3,
        outside_count(outside) == 1 ==> clip_plan_spec(outside).len() == 6,
        outside_count(outside) == 2 ==> clip_plan_spec(outside).len() == 3,
        outside_count(outside) == 3 ==> clip_plan_spec(outside).len() == 0,
{
    let plan = clip_plan_spec(outside);
    assert forall|k: int| 0 <= k < plan.len() implies match #[trigger] plan[k] {
        ClipVertex::Vertex(i) => i < 3 && !outside[i as int],
        ClipVertex::Intersection { outside: o, inside: i } => o < 3 && i < 3 && outside[o as int]
            && !outside[i as int],
    } by {
        if outside_count(outside) == 1 {
            let o: int = if outside[0] { 0 } else if outside[1] { 1 } else { 2 };
            assert(plan == one_outside_plan(o));
            assert(next_vertex(o, 1) == (o + 1) % 3 && next_vertex(o, 2) == (o + 2) % 3);
        } else if outside_count(outside) == 2 {
            let i: int = if !outside[0] { 0 } else if !outside[1] { 1 } else { 2 };
            assert(plan == one_inside_plan(i));
        }
    }
}

/// Where a vertex of a clipped triangle lies on the boundary of the input
/// triangle, going round it in its winding order: input vertex `k` at `2k`,
/// and a point on the edge from vertex `k` to vertex `k + 1` (mod 3) at
/// `2k + 1`.
pub open spec fn boundary_position(v: ClipVertex) -> int {
    match v {
        ClipVertex::Vertex(i) => 2 * i,
        ClipVertex::Intersection { outside: o, inside: i } => if i as int == (o + 1) % 3 {
            2 * o + 1
        } else {
            2 * i + 1
        },
    }
}

/// Three points on the boundary of the input triangle, listed in its winding
/// order: they are distinct places on the boundary and one turn round it
/// visits them as `a`, `b`, `c`. Such points make a triangle wound like the
/// input.
pub open spec fn winds_like_input(a: ClipVertex, b: ClipVertex, c: ClipVertex) -> bool {
    let d1 = (boundary_position(b) - boundary_position(a)) % 6;
    let d2 = (boundary_position(c) - boundary_position(b)) % 6;
    let d3 = (boundary_position(a) - boundary_position(c)) % 6;
    &&& d1 > 0 && d2 > 0 && d3 > 0
    &&& d1 + d2 + d3 == 6
}

/// Clipping keeps the winding: every triangle of the plan lists its corners
/// in the input triangle's winding order, so clipped triangles face the same
/// way as the triangle they come from (and back-face culling treats them
/// alike).
pub proof fn lemma_clip_plan_keeps_winding(outside: [bool; 3])
    ensures
        forall|t: int|
            0 <= t < clip_plan_spec(outside).len() / 3 ==> winds_like_input(
                #[trigger] clip_plan_spec(outside)[3 * t],
                clip_plan_spec(outside)[3 * t + 1],
                clip_plan_spec(outside)[3 * t + 2],
            ),
{
    let plan = clip_plan_spec(outside);
    assert forall|t: int| 0 <= t < plan.len() / 3 implies winds_like_input(
        #[trigger] plan[3 * t],
        plan[3 * t + 1],
        plan[3 * t + 2],
    ) by {
        if outside_count(outside) == 1 {
            let o: int = if outside[0] { 0 } else if outside[1] { 1 } else { 2 };
            assert(plan == one_outside_plan(o));
            assert(o == 0 || o == 1 || o == 2);
            assert(t == 0 || t == 1);
        } else if outside_count(outside) == 2 {
            let i: int = if !outside[0] { 0 } else if !outside[1] { 1 } else { 2 };
            assert(plan == one_inside_plan(i));
            assert(i == 0 || i == 1 || i == 2);
            assert(t == 0);
        } else if outside_count(outside) == 0 {
            assert(t == 0);
        }
    }
}

/// `v` is a corner of the part of the triangle inside the plane: an inside
/// input vertex, or the crossing on an edge from an outside vertex to an
/// inside one.
pub open spec fn is_clipped_corner(outside: [bool; 3], v: ClipVertex) -> bool {
    match v {
        ClipVertex::Vertex(i) => i < 3 && !outside[i as int],
        ClipVertex::Intersection { outside: o, inside: i } => o < 3 && i < 3 && outside[o as int]
            && !outside[i as int],
    }
}

/// Output triangle `t` of a plan has `v` as a corner.
pub open spec fn triangle_has_corner(plan: Seq<ClipVertex>, t: int, v: ClipVertex) -> bool {
    plan[3 * t] == v || plan[3 * t + 1] == v || plan[3 * t + 2] == v
}

/// The plan covers exactly the part of the triangle inside the plane: every
/// corner of that part is a corner of some output triangle, and when one
/// vertex is outside (the inside part is a quadrilateral) the two output
/// triangles share a diagonal, two opposite corners of the quadrilateral
/// (three steps apart around the boundary), so that together with
/// `lemma_clip_plan_keeps_winding` they split it without overlap.
pub proof fn lemma_clip_plan_covers_inside(outside: [bool; 3])
    ensures
        forall|v: ClipVertex|
            is_clipped_corner(outside, v) ==> #[trigger] clip_plan_spec(outside).contains(v),
        outside_count(outside) == 1 ==> exists|d1: ClipVertex, d2: ClipVertex|
            #![trigger triangle_has_corner(clip_plan_spec(outside), 0, d1), triangle_has_corner(clip_plan_spec(outside), 0, d2)]
            {
                &&& (boundary_position(d2) - boundary_position(d1)) % 6 == 3
                &&& triangle_has_corner(clip_plan_spec(outside), 0, d1)
                &&& triangle_has_corner(clip_plan_spec(outside), 0, d2)
                &&& triangle_has_corner(clip_plan_spec(outside), 1, d1)
                &&& triangle_has_corner(clip_plan_spec(outside), 1, d2)
            },
{
    let plan = clip_plan_spec(outside);
    assert forall|v: ClipVertex| is_clipped_corner(outside, v) implies #[trigger] plan.contains(v) by {
        let k: int = if plan.len() > 0 && plan[0] == v {
            0
        } else if plan.len() > 1 && plan[1] == v {
            1
        } else if plan.len() > 2 && plan[2] == v {
            2
        } else if plan.len() > 4 && plan[4] == v {
            4
        } else {
            5
        };
        if outside_count(outside) == 1 {
            let o: int = if outside[0] { 0 } else if outside[1] { 1 } else { 2 };
            assert(plan == one_outside_plan(o));
        } else if outside_count(outside) == 2 {
            let i: int = if !outside[0] { 0 } else if !outside[1] { 1 } else { 2 };
            assert(plan == one_inside_plan(i));
        }
        assert(plan[k] == v);
    }
    if outside_count(outside) == 1 {
        let o: int = if outside[0] { 0 } else if outside[1] { 1 } else { 2 };
        assert(plan == one_outside_plan(o));
        let d1 = plan[0];
        let d2 = plan[2];
        assert(triangle_has_corner(plan, 0, d1) && triangle_has_corner(plan, 1, d1));
        assert(triangle_has_corner(plan, 0, d2) && triangle_has_corner(plan, 1, d2));
    }
}

} // verus!
