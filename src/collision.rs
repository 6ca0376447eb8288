use vstd::prelude::*;

use crate::geometry::{clamp, clamp_spec, in_limit, is_unit, len_sq, Vec2};

verus! {

/// Largest magnitude of a rectangle coordinate or of a ball radius.
pub const COORD_LIMIT: i64 = 0x4000_0000;

/// An axis-aligned rectangle; `top` is the smaller `y`.
#[derive(Clone, Copy, Debug, PartialEq, Eq, Structural)]
pub struct Rect {
    pub left: i64,
    pub top: i64,
    pub right: i64,
    pub bottom: i64,
}

impl Rect {
    pub open spec fn wf(&self) -> bool {
        &&& -COORD_LIMIT <= self.left <= self.right <= COORD_LIMIT
        &&& -COORD_LIMIT <= self.top <= self.bottom <= COORD_LIMIT
    }
}

/// The ball: its center, its radius and its displacement per frame.
#[derive(Clone, Copy, Debug, PartialEq, Eq, Structural)]
pub struct Ball {
    pub pos: Vec2,
    pub radius: i64,
    pub speed: Vec2,
}

/// Point of `r` nearest to `p`.
pub open spec fn closest_spec(p: (int, int), r: Rect) -> (int, int) {
    (clamp_spec(p.0, r.left as int, r.right as int), clamp_spec(p.1, r.top as int, r.bottom as int))
}

/// Vector from the nearest point of `r` to `p`.
pub open spec fn offset_spec(p: (int, int), r: Rect) -> (int, int) {
    let c = closest_spec(p, r);
    (p.0 - c.0, p.1 - c.1)
}

pub open spec fn sign(v: int) -> int {
    if v < 0 {
        -1
    } else {
        1
    }
}

pub open spec fn abs(v: int) -> int {
    if v < 0 {
        -v
    } else {
        v
    }
}

/// Axis-aligned outward normal of the side of `r` that `p` is against.
///
/// Outside the rectangle it is the axis along which `p` lies farther out (the
/// horizontal one on a tie). Inside or on the boundary it is the side nearest
/// to `p`, ties going to top, bottom, left, right in that order.
pub open spec fn normal_spec(p: (int, int), r: Rect) -> (int, int) {
    let o = offset_spec(p, r);
    if o.0 == 0 && o.1 == 0 {
        let t = p.1 - r.top;
        let b = r.bottom - p.1;
        let l = p.0 - r.left;
        let rt = r.right - p.0;
        if t <= b && t <= l && t <= rt {
            (0, -1)
        } else if b <= l && b <= rt {
            (0, 1)
        } else if l <= rt {
            (-1, 0)
        } else {
            (1, 0)
        }
    } else if abs(o.0) >= abs(o.1) {
        (sign(o.0), 0)
    } else {
        (0, sign(o.1))
    }
}

/// Contact of a ball centered at `p` with radius `radius` against `r`: the
/// ball touches the rectangle when it overlaps it by a positive depth, that
/// is when its center is strictly closer than `radius` to the rectangle.
pub open spec fn contact_spec(p: (int, int), radius: int, r: Rect) -> Option<(int, int)> {
    if len_sq(offset_spec(p, r)) < radius * radius {
        Some(normal_spec(p, r))
    } else {
        None
    }
}

/// Every contact normal is a unit vector.
pub proof fn lemma_normal_is_unit(p: (int, int), r: Rect)
    ensures
        is_unit(normal_spec(p, r)),
{
    let n = normal_spec(p, r);
    assert(n == (0int, -1int) || n == (0int, 1int) || n == (-1int, 0int) || n == (1int, 0int));
}

proof fn lemma_square_lt(a: int, b: int)
    requires
        a >= 0,
        b > 0,
    ensures
        (a * a < b * b) == (a < b),
{
    if a < b {
        assert(a * a < b * b) by (nonlinear_arith)
            requires
                0 <= a < b,
        {
        }
    } else {
        assert(a * a >= b * b) by (nonlinear_arith)
            requires
                0 < b <= a,
        {
        }
    }
}

/// A ball whose center lies level with a rectangle and outside its left or
/// right side, at distance `gap` from that side, touches the rectangle exactly
/// when `gap` is less than its radius, and then with the normal of that side.
/// In particular a ball at distance exactly `radius` does not touch it.
pub proof fn lemma_side_contact(p: (int, int), radius: int, r: Rect)
    requires
        r.wf(),
        radius > 0,
        r.top <= p.1 <= r.bottom,
        p.0 < r.left || p.0 > r.right,
    ensures
        ({
            let gap = if p.0 < r.left { r.left - p.0 } else { p.0 - r.right };
            let side = if p.0 < r.left { -1int } else { 1int };
            contact_spec(p, radius, r) == if gap < radius { Some((side, 0int)) } else { None }
        }),
{
    let gap = if p.0 < r.left { r.left - p.0 } else { p.0 - r.right };
    let o = offset_spec(p, r);
    assert(o.1 == 0);
    assert(len_sq(o) == gap * gap) by (nonlinear_arith)
        requires
            o.1 == 0,
            o.0 == gap || o.0 == -gap,
    {
    }
    lemma_square_lt(gap, radius);
}

/// A ball whose center lies within a rectangle's horizontal span and above or
/// below it, at distance `gap` from that side, touches the rectangle exactly
/// when `gap` is less than its radius, and then with the normal of that side.
/// In particular a ball at distance exactly `radius` does not touch it.
pub proof fn lemma_top_bottom_contact(p: (int, int), radius: int, r: Rect)
    requires
        r.wf(),
        radius > 0,
        r.left <= p.0 <= r.right,
        p.1 < r.top || p.1 > r.bottom,
    ensures
        ({
            let gap = if p.1 < r.top { r.top - p.1 } else { p.1 - r.bottom };
            let side = if p.1 < r.top { -1int } else { 1int };
            contact_spec(p, radius, r) == if gap < radius { Some((0int, side)) } else { None }
        }),
{
    let gap = if p.1 < r.top { r.top - p.1 } else { p.1 - r.bottom };
    let o = offset_spec(p, r);
    assert(o.0 == 0);
    assert(len_sq(o) == gap * gap) by (nonlinear_arith)
        requires
            o.0 == 0,
            o.1 == gap || o.1 == -gap,
    {
    }
    lemma_square_lt(gap, radius);
}

/// A horizontal segment (a rectangle of zero height) behaves as that single
/// edge: a ball whose center lies within its span touches it exactly when the
/// center is closer than the radius, and is pushed back to the side its center
/// is on, upwards when the center lies on the segment itself.
pub proof fn lemma_segment_contact(p: (int, int), radius: int, r: Rect)
    requires
        r.wf(),
        r.top == r.bottom,
        radius > 0,
        r.left <= p.0 <= r.right,
    ensures
        ({
            let gap = abs(p.1 - r.top);
            let side = if p.1 <= r.top { -1int } else { 1int };
            contact_spec(p, radius, r) == if gap < radius { Some((0int, side)) } else { None }
        }),
{
    if p.1 == r.top {
        assert(offset_spec(p, r) == (0int, 0int));
        assert(len_sq(offset_spec(p, r)) == 0);
        assert(radius * radius > 0) by (nonlinear_arith)
            requires
                radius > 0,
        {
        }
    } else {
        lemma_top_bottom_contact(p, radius, r);
    }
}

impl Ball {
    pub open spec fn wf(&self) -> bool {
        &&& in_limit(self.pos@)
        &&& 0 < self.radius <= COORD_LIMIT
    }

    /// Point of `rect` nearest to the center of the ball.
    pub fn closest_point(&self, rect: &Rect) -> (r: Vec2)
        requires
            rect.wf(),
        ensures
            r@ == closest_spec(self.pos@, *rect),
    {
        Vec2 {
            x: clamp(self.pos.x, rect.left, rect.right),
            y: clamp(self.pos.y, rect.top, rect.bottom),
        }
    }

    /// Unit normal of the contact of the ball with `rect`, if they overlap.
    pub fn collides(&self, rect: &Rect) -> (r: Option<Vec2>)
        requires
            self.wf(),
            rect.wf(),
        ensures
            r matches Some(n) ==> is_unit(n@),
            r.is_some() == contact_spec(self.pos@, self.radius as int, *rect).is_some(),
            r matches Some(n) ==> contact_spec(self.pos@, self.radius as int, *rect) == Some(n@),
    {
        let c = self.closest_point(rect);
        let dx = self.pos.x - c.x;
        let dy = self.pos.y - c.y;
        let (wx, wy, rad) = (dx as i128, dy as i128, self.radius as i128);
        proof {
            let lim = 0x2000_0000_0000int;
            assert(wx * wx <= lim * lim && wy * wy <= lim * lim && rad * rad <= lim * lim)
                by (nonlinear_arith)
                requires
                    -lim <= wx <= lim,
                    -lim <= wy <= lim,
                    0 < rad <= lim,
            {
            }
            assert(wx * wx >= 0 && wy * wy >= 0) by (nonlinear_arith);
        }
        let dist_sq = wx * wx + wy * wy;
        if dist_sq >= rad * rad {
            return None;
        }
        let n = if dx == 0 && dy == 0 {
            let t = self.pos.y - rect.top;
            let b = rect.bottom - self.pos.y;
            let l = self.pos.x - rect.left;
            let rt = rect.right - self.pos.x;
            if t <= b && t <= l && t <= rt {
                Vec2 { x: 0, y: -1 }
            } else if b <= l && b <= rt {
                Vec2 { x: 0, y: 1 }
            } else if l <= rt {
                Vec2 { x: -1, y: 0 }
            } else {
                Vec2 { x: 1, y: 0 }
            }
        } else {
            let ax = if dx < 0 { -dx } else { dx };
            let ay = if dy < 0 { -dy } else { dy };
            if ax >= ay {
                Vec2 { x: if dx < 0 { -1 } else { 1 }, y: 0 }
            } else {
                Vec2 { x: 0, y: if dy < 0 { -1 } else { 1 } }
            }
        };
        proof {
            lemma_normal_is_unit(self.pos@, *rect);
        }
        Some(n)
    }
}

} // verus!
