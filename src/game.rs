use vstd::prelude::*;

use crate::collision::{contact_spec, normal_spec, Ball, Rect, COORD_LIMIT};
use crate::geometry::{clamp_spec, in_limit, reflect, reflect_spec, Vec2, VEC_LIMIT};
use crate::obstacle::{bounce_off, shard_after, Shard};

verus! {

/// The player's paddle.
#[derive(Clone, Copy, Debug, PartialEq, Eq, Structural)]
pub struct Pad {
    pub rect: Rect,
}

/// Whether `rect` lies within the horizontal span `0..=width`.
pub open spec fn within_field(rect: Rect, width: int) -> bool {
    &&& rect.wf()
    &&& 0 <= rect.left
    &&& rect.right <= width
}

/// `rect` shifted sideways by `dx`, stopped at the walls `0` and `width`.
pub open spec fn translated(rect: Rect, dx: int, width: int) -> Rect {
    let left = clamp_spec(rect.left + dx, 0, width - (rect.right - rect.left));
    Rect { left: left as i64, right: (left + (rect.right - rect.left)) as i64, ..rect }
}

impl Pad {
    /// Moves the paddle sideways by `dx`, keeping it between the walls `0`
    /// and `width` however large `dx` is.
    pub fn translate(&mut self, dx: i64, width: i64)
        requires
            within_field(old(self).rect, width as int),
            width <= COORD_LIMIT,
        ensures
            final(self).rect == translated(old(self).rect, dx as int, width as int),
            within_field(final(self).rect, width as int),
            final(self).rect.right - final(self).rect.left == old(self).rect.right
                - old(self).rect.left,
    {
        let size = self.rect.right - self.rect.left;
        let target = (self.rect.left as i128) + (dx as i128);
        let left = if target < 0 {
            0
        } else if target > (width - size) as i128 {
            width - size
        } else {
            target as i64
        };
        self.rect.left = left;
        self.rect.right = left + size;
    }
}

/// The ball's velocity after it has moved to `p`: each component is inverted
/// when the ball reaches the matching pair of walls of a `width` by `height`
/// playfield.
pub open spec fn wall_bounce(p: (int, int), radius: int, v: (int, int), width: int, height: int) -> (
    int,
    int,
) {
    let vx = if p.0 <= radius || p.0 >= width - radius { -v.0 } else { v.0 };
    let vy = if p.1 <= radius || p.1 >= height - radius { -v.1 } else { v.1 };
    (vx, vy)
}

/// The velocity `v` after the ball at `p` has been tested against `pad`.
pub open spec fn pad_bounce(pad: Rect, p: (int, int), radius: int, v: (int, int)) -> (int, int) {
    if contact_spec(p, radius, pad).is_some() {
        reflect_spec(v, normal_spec(p, pad))
    } else {
        v
    }
}

/// The velocity `v` after the ball at `p` has been tested, in order, against
/// the first `k` shards of `shards`.
pub open spec fn shards_bounce(shards: Seq<Shard>, k: nat, p: (int, int), radius: int, v: (int, int)) -> (
    int,
    int,
)
    decreases k,
{
    if k == 0 {
        v
    } else {
        let before = shards_bounce(shards, (k - 1) as nat, p, radius, v);
        bounce_off(shards[k - 1], p, radius, before)
    }
}

fn rect_ok(r: &Rect) -> (ok: bool)
    ensures
        ok == r.wf(),
{
    -COORD_LIMIT <= r.left && r.left <= r.right && r.right <= COORD_LIMIT && -COORD_LIMIT <= r.top
        && r.top <= r.bottom && r.bottom <= COORD_LIMIT
}

fn vec_ok(v: Vec2) -> (ok: bool)
    ensures
        ok == in_limit(v@),
{
    -VEC_LIMIT <= v.x && v.x <= VEC_LIMIT && -VEC_LIMIT <= v.y && v.y <= VEC_LIMIT
}

/// The whole play state.
pub struct Game {
    pub pad: Pad,
    pub shards: Vec<Shard>,
    pub ball: Ball,
    pub width: i64,
    pub height: i64,
}

impl Game {
    pub open spec fn wf(&self) -> bool {
        &&& 0 < self.width <= COORD_LIMIT
        &&& 0 < self.height <= COORD_LIMIT
        &&& within_field(self.pad.rect, self.width as int)
        &&& self.ball.wf()
        &&& in_limit(self.ball.speed@)
        &&& forall|i: int| 0 <= i < self.shards@.len() ==> (#[trigger] self.shards@[i]).rect.wf()
    }

    /// Assembles a game on a `width` by `height` playfield, or `None` when the
    /// parts do not make a valid one: a side of the playfield not in
    /// `1..=COORD_LIMIT`, the paddle not within the playfield's width, a
    /// malformed ball or shard outline, or a ball speed out of range.
    pub fn new(width: i64, height: i64, pad: Pad, ball: Ball, shards: Vec<Shard>) -> (r: Option<
        Game,
    >)
        ensures
            r.is_some() == (Game { pad, shards, ball, width, height }).wf(),
            r matches Some(g) ==> g.pad == pad && g.ball == ball && g.shards@ == shards@
                && g.width == width && g.height == height,
    {
        let ghost whole = Game { pad, shards, ball, width, height };
        if !(0 < width && width <= COORD_LIMIT && 0 < height && height <= COORD_LIMIT) {
            return None;
        }
        if !(rect_ok(&pad.rect) && 0 <= pad.rect.left && pad.rect.right <= width) {
            return None;
        }
        if !(0 < ball.radius && ball.radius <= COORD_LIMIT && vec_ok(ball.pos) && vec_ok(
            ball.speed,
        )) {
            return None;
        }
        let mut i: usize = 0;
        while i < shards.len()
            invariant
                0 <= i <= shards@.len(),
                whole == (Game { pad, shards, ball, width, height }),
                forall|j: int| 0 <= j < i ==> (#[trigger] shards@[j]).rect.wf(),
            decreases shards@.len() - i,
        {
            if !rect_ok(&shards[i].rect) {
                assert(!whole.shards@[i as int].rect.wf());
                return None;
            }
            i = i + 1;
        }
        Some(Game { pad, shards, ball, width, height })
    }

    /// Whether the ball's next position is still representable.
    pub open spec fn can_update_spec(&self) -> bool {
        in_limit((self.ball.pos.x + self.ball.speed.x, self.ball.pos.y + self.ball.speed.y))
    }

    /// Whether [`Game::update`] may be called on this state.
    pub fn can_update(&self) -> (r: bool)
        requires
            self.wf(),
        ensures
            r == self.can_update_spec(),
    {
        let x = self.ball.pos.x + self.ball.speed.x;
        let y = self.ball.pos.y + self.ball.speed.y;
        vec_ok(Vec2 { x, y })
    }

    /// Advances the game by one frame, with `dx` the sideways input: moves
    /// the paddle, moves the ball by its velocity, bounces it off the walls,
    /// then off the paddle, then off every live shard in order, each struck
    /// shard losing one hit point.
    pub fn update(&mut self, dx: i64)
        requires
            old(self).wf(),
            old(self).can_update_spec(),
        ensures
            final(self).wf(),
            final(self).width == old(self).width,
            final(self).height == old(self).height,
            final(self).pad.rect == translated(old(self).pad.rect, dx as int, old(self).width as int),
            final(self).ball.radius == old(self).ball.radius,
            final(self).ball.pos@ == (
                old(self).ball.pos@.0 + old(self).ball.speed@.0,
                old(self).ball.pos@.1 + old(self).ball.speed@.1,
            ),
            final(self).shards@.len() == old(self).shards@.len(),
            forall|i: int|
                0 <= i < old(self).shards@.len() ==> #[trigger] final(self).shards@[i]
                    == shard_after(
                    old(self).shards@[i],
                    final(self).ball.pos@,
                    old(self).ball.radius as int,
                ),
            final(self).ball.speed@ == shards_bounce(
                old(self).shards@,
                old(self).shards@.len(),
                final(self).ball.pos@,
                old(self).ball.radius as int,
                pad_bounce(
                    final(self).pad.rect,
                    final(self).ball.pos@,
                    old(self).ball.radius as int,
                    wall_bounce(
                        final(self).ball.pos@,
                        old(self).ball.radius as int,
                        old(self).ball.speed@,
                        old(self).width as int,
                        old(self).height as int,
                    ),
                ),
            ),
    {
        self.pad.translate(dx, self.width);

        self.ball.pos = Vec2 {
            x: self.ball.pos.x + self.ball.speed.x,
            y: self.ball.pos.y + self.ball.speed.y,
        };
        let r = self.ball.radius;
        if self.ball.pos.x <= r || self.ball.pos.x >= self.width - r {
            self.ball.speed.x = -self.ball.speed.x;
        }
        if self.ball.pos.y <= r || self.ball.pos.y >= self.height - r {
            self.ball.speed.y = -self.ball.speed.y;
        }

        if let Some(n) = self.ball.collides(&self.pad.rect) {
            self.ball.speed = reflect(self.ball.speed, n);
        }

        let ghost start = self.shards@;
        let ghost v0 = self.ball.speed@;
        let ghost p = self.ball.pos@;
        let ghost pad = self.pad;
        let n = self.shards.len();
        let mut i: usize = 0;
        while i < n
            invariant
                0 <= i <= n,
                n == start.len(),
                self.shards@.len() == n,
                self.ball.pos@ == p,
                self.ball.wf(),
                self.ball.radius == old(self).ball.radius,
                in_limit(self.ball.speed@),
                self.ball.speed@ == shards_bounce(start, i as nat, p, self.ball.radius as int, v0),
                forall|j: int| 0 <= j < i ==> #[trigger] self.shards@[j] == shard_after(
                    start[j],
                    p,
                    self.ball.radius as int,
                ),
                forall|j: int| i <= j < n ==> #[trigger] self.shards@[j] == start[j],
                forall|j: int| 0 <= j < n ==> (#[trigger] start[j]).rect.wf(),
                self.pad == pad,
                self.width == old(self).width,
                self.height == old(self).height,
            decreases n - i,
        {
            let mut s = self.shards[i];
            s.hit(&mut self.ball);
            self.shards.set(i, s);
            i = i + 1;
        }
    }
}

} // verus!
