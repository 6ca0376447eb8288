use vstd::prelude::*;

verus! {

/// Largest magnitude of a coordinate component that [`reflect`] accepts.
pub const VEC_LIMIT: i64 = 0x1000_0000_0000;

/// A point, a displacement or a direction in whole world units.
#[derive(Clone, Copy, Debug, PartialEq, Eq, Structural)]
pub struct Vec2 {
    pub x: i64,
    pub y: i64,
}

impl View for Vec2 {
    type V = (int, int);

    open spec fn view(&self) -> (int, int) {
        (self.x as int, self.y as int)
    }
}

pub open spec fn dot_spec(a: (int, int), b: (int, int)) -> int {
    a.0 * b.0 + a.1 * b.1
}

/// Squared Euclidean length.
pub open spec fn len_sq(a: (int, int)) -> int {
    dot_spec(a, a)
}

pub open spec fn is_unit(n: (int, int)) -> bool {
    len_sq(n) == 1
}

/// Mirror image of `v` across the line orthogonal to `n`: `v - 2 (v . n) n`.
pub open spec fn reflect_spec(v: (int, int), n: (int, int)) -> (int, int) {
    let d = dot_spec(v, n);
    (v.0 - 2 * d * n.0, v.1 - 2 * d * n.1)
}

pub open spec fn clamp_spec(v: int, lo: int, hi: int) -> int {
    if v < lo {
        lo
    } else if v > hi {
        hi
    } else {
        v
    }
}

pub open spec fn in_limit(v: (int, int)) -> bool {
    -VEC_LIMIT <= v.0 <= VEC_LIMIT && -VEC_LIMIT <= v.1 <= VEC_LIMIT
}

/// An integer vector of length one is one of the four axis directions.
pub proof fn lemma_unit_is_axis(n: (int, int))
    requires
        is_unit(n),
    ensures
        (n.0 == 0 && (n.1 == 1 || n.1 == -1)) || (n.1 == 0 && (n.0 == 1 || n.0 == -1)),
{
    assert(n.0 * n.0 >= 0 && n.1 * n.1 >= 0) by (nonlinear_arith);
    if n.0 != 0 {
        assert(n.0 * n.0 >= 1) by (nonlinear_arith)
            requires n.0 != 0;
        assert(n.1 * n.1 == 0);
        assert(n.1 == 0) by (nonlinear_arith)
            requires n.1 * n.1 == 0;
        assert(n.0 == 1 || n.0 == -1) by (nonlinear_arith)
            requires n.0 * n.0 == 1;
    } else {
        assert(n.1 == 1 || n.1 == -1) by (nonlinear_arith)
            requires n.1 * n.1 == 1;
    }
}

/// Reflection across a unit normal keeps the speed: `|reflect(v, n)| == |v|`.
pub proof fn lemma_reflect_preserves_speed(v: (int, int), n: (int, int))
    requires
        is_unit(n),
    ensures
        len_sq(reflect_spec(v, n)) == len_sq(v),
{
    lemma_unit_is_axis(n);
    let r = reflect_spec(v, n);
    if n.0 == 0 {
        assert(r == (v.0, -v.1));
    } else {
        assert(r == (-v.0, v.1));
    }
    assert(len_sq(r) == len_sq(v)) by (nonlinear_arith)
        requires
            r == (v.0, -v.1) || r == (-v.0, v.1),
    {
    }
}

/// Reflecting twice across the same unit normal gives back the original vector.
pub proof fn lemma_reflect_twice(v: (int, int), n: (int, int))
    requires
        is_unit(n),
    ensures
        reflect_spec(reflect_spec(v, n), n) == v,
{
    lemma_unit_is_axis(n);
    let w = reflect_spec(v, n);
    if n.0 == 0 {
        assert(w == (v.0, -v.1));
        assert(reflect_spec(w, n) == (w.0, -w.1));
    } else {
        assert(w == (-v.0, v.1));
        assert(reflect_spec(w, n) == (-w.0, w.1));
    }
}

/// Mirrors the velocity `v` off a surface with unit normal `n`.
pub fn reflect(v: Vec2, n: Vec2) -> (r: Vec2)
    requires
        in_limit(v@),
        is_unit(n@),
    ensures
        r@ == reflect_spec(v@, n@),
        in_limit(r@),
        len_sq(r@) == len_sq(v@),
{
    proof {
        lemma_unit_is_axis(n@);
        lemma_reflect_preserves_speed(v@, n@);
        assert(-VEC_LIMIT <= v.x * n.x <= VEC_LIMIT && -VEC_LIMIT <= v.y * n.y <= VEC_LIMIT)
            by (nonlinear_arith)
            requires
                in_limit(v@),
                -1 <= n.x <= 1,
                -1 <= n.y <= 1,
        {
        }
    }
    let d = v.x * n.x + v.y * n.y;
    proof {
        let di = d as int;
        assert(-VEC_LIMIT <= n.x * d <= VEC_LIMIT && -VEC_LIMIT <= n.y * d <= VEC_LIMIT
            && (n.x * d == 0 || n.y * d == 0))
            by (nonlinear_arith)
            requires
                (n.x == 0 && (n.y == 1 || n.y == -1)) || (n.y == 0 && (n.x == 1 || n.x == -1)),
                d == v.x * n.x + v.y * n.y,
                in_limit(v@),
        {
        }
    }
    let r = Vec2 { x: v.x - 2 * n.x * d, y: v.y - 2 * n.y * d };
    proof {
        assert(r@ == reflect_spec(v@, n@)) by (nonlinear_arith)
            requires
                r.x == v.x - 2 * n.x * d,
                r.y == v.y - 2 * n.y * d,
                d == v.x * n.x + v.y * n.y,
        {
        }
        assert(in_limit(r@)) by (nonlinear_arith)
            requires
                (n.x == 0 && (n.y == 1 || n.y == -1)) || (n.y == 0 && (n.x == 1 || n.x == -1)),
                r.x == v.x - 2 * n.x * d,
                r.y == v.y - 2 * n.y * d,
                d == v.x * n.x + v.y * n.y,
                in_limit(v@),
        {
        }
    }
    r
}

/// `v` limited to the range `lo..=hi`.
pub fn clamp(v: i64, lo: i64, hi: i64) -> (r: i64)
    requires
        lo <= hi,
    ensures
        r == clamp_spec(v as int, lo as int, hi as int),
        lo <= r <= hi,
{
    if v < lo {
        lo
    } else if v > hi {
        hi
    } else {
        v
    }
}

} // verus!
