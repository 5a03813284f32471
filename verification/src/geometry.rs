//! Axis-aligned rectangles, fixed-point vectors and the bounce rule.

use vstd::prelude::*;

verus! {

/// One in the fixed-point scale of directions.
pub const UNIT: i64 = 1000;

/// Nano-pixels in one pixel.
pub const PIXEL: i64 = 1_000_000_000;

/// Every coordinate and size is kept within this many nano-pixels of zero.
pub const WORLD_LIMIT: i64 = 1_000_000_000_000_000_000;

/// A pair of fixed-point numbers: a position in nano-pixels or a direction
/// in thousandths.
#[derive(Clone, Copy, Debug, PartialEq, Eq, Structural)]
pub struct Vec2 {
    pub x: i64,
    pub y: i64,
}

/// An axis-aligned rectangle: top-left corner and size, in nano-pixels.
#[derive(Clone, Copy, Debug, PartialEq, Eq, Structural)]
pub struct Rect {
    pub x: i64,
    pub y: i64,
    pub w: i64,
    pub h: i64,
}

/// The sign of `v`: -1, 0 or 1.
pub open spec fn sign(v: int) -> int {
    if v > 0 {
        1
    } else if v < 0 {
        -1
    } else {
        0
    }
}

/// The side on which `v` lies: -1 below zero, 1 otherwise. Zero counts as
/// positive, so that every overlap has a side to bounce away from.
pub open spec fn side(v: int) -> int {
    if v < 0 {
        -1
    } else {
        1
    }
}

/// The magnitude of `v`.
pub open spec fn magnitude(v: int) -> int {
    if v < 0 {
        -v
    } else {
        v
    }
}

/// `s * m` for a sign `s`, written without a product.
pub open spec fn signed(s: int, m: int) -> int {
    if s > 0 {
        m
    } else if s < 0 {
        -m
    } else {
        0
    }
}

/// `v` brought into the world: the nearest value within `WORLD_LIMIT` of zero.
pub open spec fn confine(v: int) -> int {
    if v < -WORLD_LIMIT {
        -WORLD_LIMIT as int
    } else if v > WORLD_LIMIT {
        WORLD_LIMIT as int
    } else {
        v
    }
}

/// The larger of two numbers.
pub open spec fn larger(a: int, b: int) -> int {
    if a >= b {
        a
    } else {
        b
    }
}

/// The smaller of two numbers.
pub open spec fn smaller(a: int, b: int) -> int {
    if a <= b {
        a
    } else {
        b
    }
}

/// Left edge of the region shared by `a` and `b`.
pub open spec fn overlap_left(a: Rect, b: Rect) -> int {
    larger(a.x as int, b.x as int)
}

/// Top edge of the region shared by `a` and `b`.
pub open spec fn overlap_top(a: Rect, b: Rect) -> int {
    larger(a.y as int, b.y as int)
}

/// Width of the region shared by `a` and `b`; negative where they are apart.
pub open spec fn overlap_w(a: Rect, b: Rect) -> int {
    smaller(a.x + a.w, b.x + b.w) - overlap_left(a, b)
}

/// Height of the region shared by `a` and `b`; negative where they are apart.
pub open spec fn overlap_h(a: Rect, b: Rect) -> int {
    smaller(a.y + a.h, b.y + b.h) - overlap_top(a, b)
}

/// Whether `a` and `b` share a region. Rectangles that only touch along an
/// edge or at a corner share an empty one, and count.
pub open spec fn overlaps(a: Rect, b: Rect) -> bool {
    overlap_w(a, b) >= 0 && overlap_h(a, b) >= 0
}

/// Side, per axis, of the vector from the centre of `a` to the centre of `b`.
/// Twice each centre is compared, so that no half is ever rounded.
pub open spec fn toward_x(a: Rect, b: Rect) -> int {
    side((2 * b.x + b.w) - (2 * a.x + a.w))
}

/// The same along the vertical axis.
pub open spec fn toward_y(a: Rect, b: Rect) -> int {
    side((2 * b.y + b.h) - (2 * a.y + a.h))
}

/// Whether an overlap of `a` with `b` is resolved along the vertical axis:
/// only where the shared region is strictly wider than it is tall.
pub open spec fn bounces_vertically(a: Rect, b: Rect) -> bool {
    overlap_w(a, b) > overlap_h(a, b)
}

/// Where `a` stands once its overlap with `b` is resolved.
pub open spec fn resolved_rect(a: Rect, b: Rect) -> Rect {
    if !overlaps(a, b) {
        a
    } else if bounces_vertically(a, b) {
        Rect { y: confine(a.y - signed(toward_y(a, b), overlap_h(a, b))) as i64, ..a }
    } else {
        Rect { x: confine(a.x - signed(toward_x(a, b), overlap_w(a, b))) as i64, ..a }
    }
}

/// The velocity of `a` once its overlap with `b` is resolved.
pub open spec fn resolved_vel(a: Rect, vel: Vec2, b: Rect) -> Vec2 {
    if !overlaps(a, b) {
        vel
    } else if bounces_vertically(a, b) {
        Vec2 { y: signed(-toward_y(a, b), magnitude(vel.y as int)) as i64, ..vel }
    } else {
        Vec2 { x: signed(-toward_x(a, b), magnitude(vel.x as int)) as i64, ..vel }
    }
}

impl Vec2 {
    pub fn new(x: i64, y: i64) -> (v: Vec2)
        ensures
            v.x == x,
            v.y == y,
    {
        Vec2 { x, y }
    }

    /// Both components can be negated.
    pub open spec fn negatable(self) -> bool {
        self.x > i64::MIN && self.y > i64::MIN
    }

    /// Both components are at most one in magnitude.
    pub open spec fn is_direction(self) -> bool {
        -UNIT <= self.x <= UNIT && -UNIT <= self.y <= UNIT
    }
}

impl Rect {
    pub fn new(x: i64, y: i64, w: i64, h: i64) -> (r: Rect)
        ensures
            r.x == x,
            r.y == y,
            r.w == w,
            r.h == h,
    {
        Rect { x, y, w, h }
    }

    /// The rectangle lies in the world and its size is not negative.
    pub open spec fn wf(self) -> bool {
        &&& -WORLD_LIMIT <= self.x <= WORLD_LIMIT
        &&& -WORLD_LIMIT <= self.y <= WORLD_LIMIT
        &&& 0 <= self.w <= WORLD_LIMIT
        &&& 0 <= self.h <= WORLD_LIMIT
    }

    /// The region that `self` shares with `other`, if there is one.
    pub fn intersect(&self, other: Rect) -> (shared: Option<Rect>)
        requires
            self.wf(),
            other.wf(),
        ensures
            shared.is_some() == overlaps(*self, other),
            shared.is_some() ==> shared.unwrap().x == overlap_left(*self, other)
                && shared.unwrap().y == overlap_top(*self, other)
                && shared.unwrap().w == overlap_w(*self, other)
                && shared.unwrap().h == overlap_h(*self, other),
    {
        let left: i64 = if self.x >= other.x { self.x } else { other.x };
        let top: i64 = if self.y >= other.y { self.y } else { other.y };
        let self_right: i64 = self.x + self.w;
        let other_right: i64 = other.x + other.w;
        let self_bottom: i64 = self.y + self.h;
        let other_bottom: i64 = other.y + other.h;
        let right: i64 = if self_right <= other_right { self_right } else { other_right };
        let bottom: i64 = if self_bottom <= other_bottom { self_bottom } else { other_bottom };
        if right < left || bottom < top {
            None
        } else {
            Some(Rect { x: left, y: top, w: right - left, h: bottom - top })
        }
    }
}

/// Brings a wide number into the world.
pub fn confined(v: i128) -> (r: i64)
    ensures
        r == confine(v as int),
{
    if v < -(WORLD_LIMIT as i128) {
        -WORLD_LIMIT
    } else if v > WORLD_LIMIT as i128 {
        WORLD_LIMIT
    } else {
        v as i64
    }
}

/// The side on which `v` lies.
fn side_of(v: i64) -> (s: i64)
    ensures
        s == side(v as int),
{
    if v < 0 {
        -1
    } else {
        1
    }
}

/// `m` with the sign `s`.
fn with_sign(s: i64, m: i64) -> (r: i64)
    requires
        -1 <= s <= 1,
        m > i64::MIN,
    ensures
        r == signed(s as int, m as int),
{
    if s > 0 {
        m
    } else if s < 0 {
        -m
    } else {
        0
    }
}

/// Resolves an overlap of the moving rectangle `a`, which travels with `vel`,
/// against the obstacle `b`, and says whether there was one.
///
/// Without an overlap nothing changes. With one, `a` is pushed out of `b`
/// along one axis and the velocity on that axis points away from `b`'s
/// centre, its magnitude kept: along the vertical axis where the shared
/// region is wider than tall, along the horizontal axis otherwise, a square
/// region included. The obstacle is never touched.
pub fn resolve_collision(a: &mut Rect, vel: &mut Vec2, b: &Rect) -> (hit: bool)
    requires
        old(a).wf(),
        b.wf(),
        old(vel).negatable(),
    ensures
        hit == overlaps(*old(a), *b),
        *final(a) == resolved_rect(*old(a), *b),
        *final(vel) == resolved_vel(*old(a), *old(vel), *b),
        final(a).wf(),
        final(vel).negatable(),
        old(vel).is_direction() ==> final(vel).is_direction(),
{
    let shared = match a.intersect(*b) {
        Some(shared) => shared,
        None => {
            return false;
        },
    };
    let to_x: i64 = side_of((2 * b.x + b.w) - (2 * a.x + a.w));
    let to_y: i64 = side_of((2 * b.y + b.h) - (2 * a.y + a.h));
    if shared.w > shared.h {
        let push: i64 = with_sign(to_y, shared.h);
        let speed: i64 = if vel.y < 0 { -vel.y } else { vel.y };
        a.y = confined(a.y as i128 - push as i128);
        vel.y = with_sign(-to_y, speed);
    } else {
        let push: i64 = with_sign(to_x, shared.w);
        let speed: i64 = if vel.x < 0 { -vel.x } else { vel.x };
        a.x = confined(a.x as i128 - push as i128);
        vel.x = with_sign(-to_x, speed);
    }
    true
}

/// An overlap whose shared region is a square is resolved along the
/// horizontal axis: the vertical position and velocity stay as they were.
pub proof fn lemma_square_overlap_is_horizontal(a: Rect, vel: Vec2, b: Rect)
    requires
        a.wf(),
        b.wf(),
        vel.negatable(),
        overlaps(a, b),
        overlap_w(a, b) == overlap_h(a, b),
    ensures
        !bounces_vertically(a, b),
        resolved_rect(a, b).y == a.y,
        resolved_vel(a, vel, b).y == vel.y,
        resolved_rect(a, b).x == confine(a.x - signed(toward_x(a, b), overlap_w(a, b))),
        resolved_vel(a, vel, b).x == signed(-toward_x(a, b), magnitude(vel.x as int)),
{
}

/// After a resolved overlap the velocity on the axis of the bounce keeps its
/// magnitude and, unless it is zero, has the sign opposite to the side on
/// which `b`'s centre lies from `a`'s; the other axis is unchanged. That side
/// is the sign of the difference of the two centres wherever they differ.
pub proof fn lemma_bounce_flips_sign(a: Rect, vel: Vec2, b: Rect)
    requires
        a.wf(),
        b.wf(),
        vel.negatable(),
        overlaps(a, b),
    ensures
        bounces_vertically(a, b) ==> {
            &&& resolved_vel(a, vel, b).x == vel.x
            &&& magnitude(resolved_vel(a, vel, b).y as int) == magnitude(vel.y as int)
            &&& vel.y != 0 ==> sign(resolved_vel(a, vel, b).y as int) == -toward_y(a, b)
            &&& 2 * b.y + b.h != 2 * a.y + a.h ==> toward_y(a, b) == sign(
                (2 * b.y + b.h) - (2 * a.y + a.h),
            )
        },
        !bounces_vertically(a, b) ==> {
            &&& resolved_vel(a, vel, b).y == vel.y
            &&& magnitude(resolved_vel(a, vel, b).x as int) == magnitude(vel.x as int)
            &&& vel.x != 0 ==> sign(resolved_vel(a, vel, b).x as int) == -toward_x(a, b)
            &&& 2 * b.x + b.w != 2 * a.x + a.w ==> toward_x(a, b) == sign(
                (2 * b.x + b.w) - (2 * a.x + a.w),
            )
        },
{
}

} // verus!
