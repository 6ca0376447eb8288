use vstd::prelude::*;

use crate::collision::{contact_spec, normal_spec, Ball, Rect, COORD_LIMIT};
use crate::geometry::{in_limit, reflect, reflect_spec};

verus! {

/// A destructible brick: its outline, its remaining hit points and its
/// position in the level.
#[derive(Clone, Copy, Debug, PartialEq, Eq, Structural)]
pub struct Shard {
    pub rect: Rect,
    pub hp: u32,
    pub id: usize,
}

/// A shard with no hit points left takes no part in play.
pub open spec fn is_live(s: Shard) -> bool {
    s.hp >= 1
}

/// Whether a ball centered at `p` with radius `radius` strikes `s`.
pub open spec fn hits(s: Shard, p: (int, int), radius: int) -> bool {
    is_live(s) && contact_spec(p, radius, s.rect).is_some()
}

/// The shard after the ball has been tested against it: one hit point less
/// when struck, unchanged otherwise.
pub open spec fn shard_after(s: Shard, p: (int, int), radius: int) -> Shard {
    if hits(s, p, radius) {
        Shard { hp: (s.hp - 1) as u32, ..s }
    } else {
        s
    }
}

/// The ball's velocity `v` after it has been tested against `s`.
pub open spec fn bounce_off(s: Shard, p: (int, int), radius: int, v: (int, int)) -> (int, int) {
    if hits(s, p, radius) {
        reflect_spec(v, normal_spec(p, s.rect))
    } else {
        v
    }
}

/// A shard with one hit point is live until it is struck once, and from then
/// on every ball passes through it: it is not struck again, its hit points
/// stay at zero and it deflects nothing.
pub proof fn lemma_last_hit(
    s: Shard,
    p: (int, int),
    radius: int,
    q: (int, int),
    later_radius: int,
    v: (int, int),
)
    requires
        s.hp == 1,
        hits(s, p, radius),
    ensures
        is_live(s),
        !is_live(shard_after(s, p, radius)),
        shard_after(s, p, radius).hp == 0,
        !hits(shard_after(s, p, radius), q, later_radius),
        shard_after(shard_after(s, p, radius), q, later_radius) == shard_after(s, p, radius),
        bounce_off(shard_after(s, p, radius), q, later_radius, v) == v,
{
}

/// Cell `k` of a grid with `cols` columns of `cell_w` by `cell_h` cells
/// anchored at the origin, filled row by row, with `hp` hit points.
pub open spec fn grid_cell(k: int, cols: int, cell_w: int, cell_h: int, hp: u32) -> Shard {
    let row = k / cols;
    let col = k % cols;
    Shard {
        rect: Rect {
            left: (col * cell_w) as i64,
            top: (row * cell_h) as i64,
            right: ((col + 1) * cell_w) as i64,
            bottom: ((row + 1) * cell_h) as i64,
        },
        hp,
        id: k as usize,
    }
}

/// Whether a grid of `cols` by `rows` cells of `cell_w` by `cell_h` can be
/// built with the hit points `hps`: one positive count per cell, and a grid
/// whose extent stays within `COORD_LIMIT`.
pub open spec fn grid_ok(cols: int, rows: int, cell_w: int, cell_h: int, hps: Seq<u32>) -> bool {
    &&& 0 < cell_w <= COORD_LIMIT
    &&& 0 < cell_h <= COORD_LIMIT
    &&& cols * cell_w <= COORD_LIMIT
    &&& rows * cell_h <= COORD_LIMIT
    &&& hps.len() == cols * rows
    &&& forall|k: int| 0 <= k < hps.len() ==> #[trigger] hps[k] >= 1
}

/// Builds a level of `cols` by `rows` rectangular shards of `cell_w` by
/// `cell_h`, row by row from the top-left corner, shard `k` having `hps[k]`
/// hit points and id `k`. Returns `None` when the grid cannot be built.
pub fn grid(cols: usize, rows: usize, cell_w: i64, cell_h: i64, hps: &Vec<u32>) -> (r: Option<
    Vec<Shard>,
>)
    ensures
        r.is_some() == grid_ok(cols as int, rows as int, cell_w as int, cell_h as int, hps@),
        r matches Some(v) ==> v@.len() == hps@.len() && forall|k: int|
            0 <= k < v@.len() ==> #[trigger] v@[k] == grid_cell(
                k,
                cols as int,
                cell_w as int,
                cell_h as int,
                hps@[k],
            ),
{
    if !(0 < cell_w && cell_w <= COORD_LIMIT && 0 < cell_h && cell_h <= COORD_LIMIT) {
        return None;
    }
    if cols as u64 > COORD_LIMIT as u64 || rows as u64 > COORD_LIMIT as u64 {
        proof {
            assert(cols * cell_w > COORD_LIMIT || rows * cell_h > COORD_LIMIT) by (nonlinear_arith)
                requires
                    cols > COORD_LIMIT || rows > COORD_LIMIT,
                    cell_w >= 1,
                    cell_h >= 1,
            {
            }
        }
        return None;
    }
    proof {
        assert(0 <= cols * cell_w <= COORD_LIMIT * COORD_LIMIT && 0 <= rows * cell_h <= COORD_LIMIT
            * COORD_LIMIT && cols * rows <= COORD_LIMIT * COORD_LIMIT) by (nonlinear_arith)
            requires
                0 <= cols <= COORD_LIMIT,
                0 <= rows <= COORD_LIMIT,
                0 < cell_w <= COORD_LIMIT,
                0 < cell_h <= COORD_LIMIT,
        {
        }
    }
    let width = (cols as i64) * cell_w;
    let height = (rows as i64) * cell_h;
    if width > COORD_LIMIT || height > COORD_LIMIT || (cols as u64) * (rows as u64) != hps.len() as u64 {
        return None;
    }
    let n = hps.len();
    let mut out: Vec<Shard> = Vec::new();
    let mut k: usize = 0;
    let mut row: usize = 0;
    let mut col: usize = 0;
    let mut x: i64 = 0;
    let mut y: i64 = 0;
    while k < n
        invariant
            n == hps@.len(),
            n == cols * rows,
            cols * cell_w <= COORD_LIMIT,
            rows * cell_h <= COORD_LIMIT,
            0 < cell_w <= COORD_LIMIT,
            0 < cell_h <= COORD_LIMIT,
            0 <= k <= n,
            k == row * cols + col,
            col < cols || k == n,
            x == col * cell_w,
            y == row * cell_h,
            out@.len() == k,
            forall|j: int|
                0 <= j < k ==> #[trigger] out@[j] == grid_cell(
                    j,
                    cols as int,
                    cell_w as int,
                    cell_h as int,
                    hps@[j],
                ),
            forall|j: int| 0 <= j < k ==> #[trigger] hps@[j] >= 1,
        decreases n - k,
    {
        if hps[k] < 1 {
            return None;
        }
        proof {
            assert(row < rows) by (nonlinear_arith)
                requires
                    k == row * cols + col,
                    k < cols * rows,
                    0 <= col,
            {
            }
            assert((col + 1) * cell_w <= COORD_LIMIT && (row + 1) * cell_h <= COORD_LIMIT)
                by (nonlinear_arith)
                requires
                    col < cols,
                    row < rows,
                    cols * cell_w <= COORD_LIMIT,
                    rows * cell_h <= COORD_LIMIT,
                    0 < cell_w,
                    0 < cell_h,
            {
            }
            vstd::arithmetic::div_mod::lemma_fundamental_div_mod_converse(
                k as int,
                cols as int,
                row as int,
                col as int,
            );
        }
        proof {
            assert((col + 1) * cell_w == x + cell_w && (row + 1) * cell_h == y + cell_h)
                by (nonlinear_arith)
                requires
                    x == col * cell_w,
                    y == row * cell_h,
            {
            }
        }
        let rect = Rect { left: x, top: y, right: x + cell_w, bottom: y + cell_h };
        out.push(Shard { rect, hp: hps[k], id: k });
        k = k + 1;
        if col + 1 == cols {
            col = 0;
            x = 0;
            row = row + 1;
            y = y + cell_h;
            proof {
                assert(k == row * cols + col) by (nonlinear_arith)
                    requires
                        k == (row - 1) * cols + cols,
                        col == 0,
                {
                }
                assert(y == row * cell_h) by (nonlinear_arith)
                    requires
                        y == (row - 1) * cell_h + cell_h,
                {
                }
            }
        } else {
            col = col + 1;
            x = x + cell_w;
        }
    }
    Some(out)
}

impl Shard {
    /// Tests the ball against this shard; when it strikes a live shard the
    /// ball bounces off and the shard loses one hit point.
    pub fn hit(&mut self, ball: &mut Ball) -> (struck: bool)
        requires
            old(self).rect.wf(),
            old(ball).wf(),
            in_limit(old(ball).speed@),
        ensures
            struck == hits(*old(self), old(ball).pos@, old(ball).radius as int),
            *final(self) == shard_after(*old(self), old(ball).pos@, old(ball).radius as int),
            final(ball).pos == old(ball).pos,
            final(ball).radius == old(ball).radius,
            final(ball).speed@ == bounce_off(
                *old(self),
                old(ball).pos@,
                old(ball).radius as int,
                old(ball).speed@,
            ),
            in_limit(final(ball).speed@),
    {
        if self.hp < 1 {
            return false;
        }
        match ball.collides(&self.rect) {
            Some(n) => {
                ball.speed = reflect(ball.speed, n);
                self.hp = self.hp - 1;
                true
            },
            None => false,
        }
    }
}

} // verus!
