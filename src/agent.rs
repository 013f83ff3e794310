use vstd::prelude::*;
use crate::numeric::{div_toward_zero, isqrt, lemma_div_bounds, trunc_div};

verus! {

/// Bound on a world half extent plus its margin, in world units.
pub const COORD_LIMIT: i64 = 16777216;

/// Bound on the cruise speed, in world units per second.
pub const SPEED_LIMIT: i64 = 1048576;

/// Bound on the denominator of the vision cosine.
pub const MAX_COS_DEN: i64 = 4096;

/// Bound on the number of ticks in one second.
pub const MAX_TICKS_PER_SECOND: i64 = 1000;

/// Bound on each component of a steering vector that the velocity pass takes.
pub const STEER_LIMIT: i64 = 274877906944;

/// A vector of the plane in integer world units.
#[derive(Clone, Copy, Debug, PartialEq, Eq, Structural)]
pub struct Vec2 {
    pub x: i64,
    pub y: i64,
}

/// One flocking agent: its stable id, position and velocity (units per second).
#[derive(Clone, Copy, Debug, PartialEq, Eq, Structural)]
pub struct Agent {
    pub id: usize,
    pub pos: Vec2,
    pub vel: Vec2,
}

/// The constants of a simulation.
///
/// The vision half-angle is given by its cosine `cos_vision_num / cos_vision_den`:
/// an agent sees a neighbour when the angle between its velocity and the
/// displacement to the neighbour is below that half-angle. One tick lasts
/// `1 / ticks_per_second` seconds.
#[derive(Clone, Copy, Debug, PartialEq, Eq, Structural)]
pub struct Params {
    pub half_width: i64,
    pub half_height: i64,
    pub margin: i64,
    pub cruise_speed: i64,
    pub range: i64,
    pub cos_vision_num: i64,
    pub cos_vision_den: i64,
    pub ticks_per_second: i64,
}

impl Params {
    pub open spec fn wf(&self) -> bool {
        &&& 0 <= self.half_width
        &&& 0 <= self.half_height
        &&& 0 <= self.margin
        &&& self.half_width + self.margin <= COORD_LIMIT
        &&& self.half_height + self.margin <= COORD_LIMIT
        &&& 0 < self.cruise_speed <= SPEED_LIMIT
        &&& 0 < self.range <= 2 * COORD_LIMIT
        &&& 0 < self.cos_vision_den <= MAX_COS_DEN
        &&& -self.cos_vision_den <= self.cos_vision_num < self.cos_vision_den
        &&& 0 < self.ticks_per_second <= MAX_TICKS_PER_SECOND
    }

    /// Whether the constants are within the limits that the kernel takes.
    pub fn is_valid(&self) -> (r: bool)
        ensures
            r == self.wf(),
    {
        0 <= self.half_width && 0 <= self.half_height && 0 <= self.margin && self.half_width
            <= COORD_LIMIT - self.margin && self.half_height <= COORD_LIMIT - self.margin && 0
            < self.cruise_speed && self.cruise_speed <= SPEED_LIMIT && 0 < self.range
            && self.range <= 2 * COORD_LIMIT && 0 < self.cos_vision_den && self.cos_vision_den
            <= MAX_COS_DEN && -self.cos_vision_den <= self.cos_vision_num && self.cos_vision_num
            < self.cos_vision_den && 0 < self.ticks_per_second && self.ticks_per_second
            <= MAX_TICKS_PER_SECOND
    }
}

/// The agent lies inside the world with its margin and moves no faster on
/// either axis than the cruise speed.
pub open spec fn agent_in_bounds(p: Params, a: Agent) -> bool {
    &&& -(p.half_width + p.margin) <= a.pos.x <= p.half_width + p.margin
    &&& -(p.half_height + p.margin) <= a.pos.y <= p.half_height + p.margin
    &&& -p.cruise_speed <= a.vel.x <= p.cruise_speed
    &&& -p.cruise_speed <= a.vel.y <= p.cruise_speed
}

/// The angle between the nonzero vectors `v` and `d` is below the angle whose
/// cosine is `num / den`, that is `v·d / (|v| |d|) > num / den`, written
/// without square roots.
pub open spec fn in_cone(vx: int, vy: int, dx: int, dy: int, num: int, den: int) -> bool {
    let dot = vx * dx + vy * dy;
    let vv = vx * vx + vy * vy;
    let dd = dx * dx + dy * dy;
    &&& vv > 0
    &&& dd > 0
    &&& if num >= 0 {
        dot > 0 && dot * dot * (den * den) > (num * num) * (vv * dd)
    } else {
        dot >= 0 || dot * dot * (den * den) < (num * num) * (vv * dd)
    }
}

/// Agent `a` perceives agent `b`: `b` lies strictly within range of `a` and
/// inside the vision cone around the velocity of `a`.
pub open spec fn visible(p: Params, a: Agent, b: Agent) -> bool {
    let dx = b.pos.x - a.pos.x;
    let dy = b.pos.y - a.pos.y;
    &&& dx * dx + dy * dy < p.range * p.range
    &&& in_cone(a.vel.x as int, a.vel.y as int, dx, dy, p.cos_vision_num as int, p.cos_vision_den as int)
}

/// `q` is the component `c` of a vector of squared length `cc`, rescaled to
/// length `s` and rounded toward zero: `|q| = floor(s |c| / sqrt(cc))`, with the
/// sign of `c`.
pub open spec fn scaled_floor(c: int, cc: int, s: int, q: int) -> bool {
    let m = if q >= 0 { q } else { -q };
    &&& c * q >= 0
    &&& m * m * cc <= c * c * (s * s)
    &&& c * c * (s * s) < (m + 1) * (m + 1) * cc
}

/// `r` is the velocity `v` after the steering `(sx, sy)` is added and the sum
/// is renormalised to speed `s`; a zero sum leaves `v` as it was.
pub open spec fn velocity_stepped(v: Vec2, sx: int, sy: int, s: int, r: Vec2) -> bool {
    let cx = v.x + sx;
    let cy = v.y + sy;
    if cx == 0 && cy == 0 {
        r == v
    } else {
        scaled_floor(cx, cx * cx + cy * cy, s, r.x as int) && scaled_floor(
            cy,
            cx * cx + cy * cy,
            s,
            r.y as int,
        )
    }
}

/// A coordinate beyond `half + margin` on either side moves to the opposite
/// edge `∓half`; any other coordinate stays.
pub open spec fn wrapped(x: int, half: int, margin: int) -> int {
    if x > half + margin {
        -half
    } else if x < -(half + margin) {
        half
    } else {
        x
    }
}

/// `r` is `pos` advanced by one tick of `vel` (each component of
/// `vel / ticks_per_second` rounded toward zero), then wrapped on each axis.
pub open spec fn position_stepped(p: Params, pos: Vec2, vel: Vec2, r: Vec2) -> bool {
    &&& r.x == wrapped(
        pos.x + div_toward_zero(vel.x as int, p.ticks_per_second as int),
        p.half_width as int,
        p.margin as int,
    )
    &&& r.y == wrapped(
        pos.y + div_toward_zero(vel.y as int, p.ticks_per_second as int),
        p.half_height as int,
        p.margin as int,
    )
}

pub proof fn lemma_mul_abs_bound(a: int, b: int, ka: int, kb: int)
    requires
        -ka <= a <= ka,
        -kb <= b <= kb,
    ensures
        -(ka * kb) <= a * b <= ka * kb,
{
    assert(-(ka * kb) <= a * b <= ka * kb) by (nonlinear_arith)
        requires
            -ka <= a <= ka,
            -kb <= b <= kb,
    ;
}

pub proof fn lemma_square_bound(a: int, ka: int)
    requires
        -ka <= a <= ka,
    ensures
        0 <= a * a <= ka * ka,
{
    assert(0 <= a * a <= ka * ka) by (nonlinear_arith)
        requires
            -ka <= a <= ka,
    ;
}

/// Whether agent `a` perceives agent `b` (see `visible`).
pub fn sees(params: &Params, a: &Agent, b: &Agent) -> (r: bool)
    requires
        params.wf(),
        agent_in_bounds(*params, *a),
        agent_in_bounds(*params, *b),
    ensures
        r == visible(*params, *a, *b),
{
    let dx: i128 = b.pos.x as i128 - a.pos.x as i128;
    let dy: i128 = b.pos.y as i128 - a.pos.y as i128;
    let range: i128 = params.range as i128;
    proof {
        lemma_square_bound(dx as int, 2 * COORD_LIMIT);
        lemma_square_bound(dy as int, 2 * COORD_LIMIT);
        lemma_square_bound(range as int, 2 * COORD_LIMIT);
    }
    let dd: i128 = dx * dx + dy * dy;
    if dd >= range * range {
        return false;
    }
    let vx: i128 = a.vel.x as i128;
    let vy: i128 = a.vel.y as i128;
    let num: i128 = params.cos_vision_num as i128;
    let den: i128 = params.cos_vision_den as i128;
    proof {
        lemma_mul_abs_bound(vx as int, dx as int, SPEED_LIMIT as int, 2 * COORD_LIMIT);
        lemma_mul_abs_bound(vy as int, dy as int, SPEED_LIMIT as int, 2 * COORD_LIMIT);
        lemma_square_bound(vx as int, SPEED_LIMIT as int);
        lemma_square_bound(vy as int, SPEED_LIMIT as int);
        lemma_square_bound(num as int, MAX_COS_DEN as int);
        lemma_square_bound(den as int, MAX_COS_DEN as int);
    }
    let dot: i128 = vx * dx + vy * dy;
    let vv: i128 = vx * vx + vy * vy;
    if vv == 0 || dd == 0 {
        return false;
    }
    proof {
        // |dot| <= 2^46, |vv| <= 2^41, dd < range^2 <= 2^50, den^2 and num^2 <= 2^24
        lemma_square_bound(dot as int, 0x4000_0000_0000);
        lemma_mul_abs_bound(dot * dot, den * den, 0x1000_0000_0000_0000_0000_0000, 0x100_0000);
        lemma_mul_abs_bound(vv as int, dd as int, 0x200_0000_0000, 0x4_0000_0000_0000);
        lemma_mul_abs_bound(num * num, vv * dd, 0x100_0000, 0x800_0000_0000_0000_0000_0000);
    }
    let lhs: i128 = dot * dot * (den * den);
    let rhs: i128 = (num * num) * (vv * dd);
    if num >= 0 {
        dot > 0 && lhs > rhs
    } else {
        dot >= 0 || lhs < rhs
    }
}

/// The component `c` of a nonzero vector of squared length `cc`, rescaled to
/// length `s` and rounded toward zero.
fn rescale_axis(c: i128, cc: i128, s: i128) -> (q: i64)
    requires
        cc > 0,
        c * c <= cc,
        cc <= 0x1_0000_0000_0000_0000_0000,
        0 < s <= SPEED_LIMIT,
    ensures
        scaled_floor(c as int, cc as int, s as int, q as int),
        -s <= q <= s,
{
    proof {
        lemma_square_bound(s as int, SPEED_LIMIT as int);
        assert(0 <= c * c) by (nonlinear_arith);
        assert(0 <= c * c * (s * s)) by (nonlinear_arith);
        assert(c * c * (s * s) <= cc * (s * s)) by (nonlinear_arith)
            requires
                c * c <= cc,
                s * s >= 0,
        ;
        lemma_mul_abs_bound(cc as int, s * s, 0x1_0000_0000_0000_0000_0000, 0x100_0000_0000);
    }
    let a: i128 = c * c * (s * s);
    let q: i128 = a / cc;
    proof {
        lemma_div_bounds(a as int, cc as int);
        assert(q <= s * s) by (nonlinear_arith)
            requires
                q * cc <= a,
                a <= cc * (s * s),
                cc > 0,
        ;
    }
    let r: u64 = isqrt(q as u64);
    proof {
        let ri = r as int;
        assert(ri * ri * cc <= q * cc) by (nonlinear_arith)
            requires
                ri * ri <= q,
                cc > 0,
        ;
        assert((q + 1) * cc <= (ri + 1) * (ri + 1) * cc) by (nonlinear_arith)
            requires
                q + 1 <= (ri + 1) * (ri + 1),
                cc > 0,
        ;
        assert(ri <= s) by (nonlinear_arith)
            requires
                ri * ri <= s * s,
                ri >= 0,
                s > 0,
        ;
    }
    if c >= 0 {
        proof {
            assert(c * r >= 0) by (nonlinear_arith)
                requires
                    c >= 0,
                    r >= 0,
            ;
        }
        r as i64
    } else {
        proof {
            assert(c * (-r) >= 0) by (nonlinear_arith)
                requires
                    c < 0,
                    r >= 0,
            ;
        }
        -(r as i64)
    }
}

/// The velocity pass for one agent: `v + steer`, renormalised to `speed`, or
/// `v` itself where that sum is the zero vector.
pub fn velocity_step(v: Vec2, steer: Vec2, speed: i64) -> (r: Vec2)
    requires
        0 < speed <= SPEED_LIMIT,
        -speed <= v.x <= speed,
        -speed <= v.y <= speed,
        -STEER_LIMIT <= steer.x <= STEER_LIMIT,
        -STEER_LIMIT <= steer.y <= STEER_LIMIT,
    ensures
        velocity_stepped(v, steer.x as int, steer.y as int, speed as int, r),
        -speed <= r.x <= speed,
        -speed <= r.y <= speed,
{
    let cx: i64 = v.x + steer.x;
    let cy: i64 = v.y + steer.y;
    if cx == 0 && cy == 0 {
        return v;
    }
    rescale(Vec2 { x: cx, y: cy }, speed)
}

/// The nonzero vector `c` rescaled to length `speed`, each component rounded
/// toward zero.
pub fn rescale(c: Vec2, speed: i64) -> (r: Vec2)
    requires
        c.x != 0 || c.y != 0,
        -2 * STEER_LIMIT <= c.x <= 2 * STEER_LIMIT,
        -2 * STEER_LIMIT <= c.y <= 2 * STEER_LIMIT,
        0 < speed <= SPEED_LIMIT,
    ensures
        scaled_floor(c.x as int, c.x * c.x + c.y * c.y, speed as int, r.x as int),
        scaled_floor(c.y as int, c.x * c.x + c.y * c.y, speed as int, r.y as int),
        at_speed(r.x as int, r.y as int, speed as int),
        -speed <= r.x <= speed,
        -speed <= r.y <= speed,
{
    let cx: i128 = c.x as i128;
    let cy: i128 = c.y as i128;
    proof {
        lemma_square_bound(cx as int, 0x80_0000_0000);
        lemma_square_bound(cy as int, 0x80_0000_0000);
    }
    let cc: i128 = cx * cx + cy * cy;
    proof {
        assert(cc > 0) by (nonlinear_arith)
            requires
                cc == cx * cx + cy * cy,
                cx != 0 || cy != 0,
        ;
    }
    let rx = rescale_axis(cx, cc, speed as i128);
    let ry = rescale_axis(cy, cc, speed as i128);
    proof {
        lemma_rescaled_speed(cx as int, cy as int, speed as int, rx as int, ry as int);
    }
    Vec2 { x: rx, y: ry }
}

/// `v` has length at most `s`, and adding one unit away from zero on each
/// axis would make it longer than `s`: the cruise speed up to rounding.
pub open spec fn at_speed(vx: int, vy: int, s: int) -> bool {
    let mx: int = if vx >= 0 { vx } else { -vx };
    let my: int = if vy >= 0 { vy } else { -vy };
    &&& vx * vx + vy * vy <= s * s
    &&& s * s < (mx + 1) * (mx + 1) + (my + 1) * (my + 1)
}

/// A nonzero vector rescaled to length `s` has the length `s` up to rounding.
pub proof fn lemma_rescaled_speed(cx: int, cy: int, s: int, qx: int, qy: int)
    requires
        cx != 0 || cy != 0,
        s > 0,
        scaled_floor(cx, cx * cx + cy * cy, s, qx),
        scaled_floor(cy, cx * cx + cy * cy, s, qy),
    ensures
        at_speed(qx, qy, s),
{
    let cc = cx * cx + cy * cy;
    let mx: int = if qx >= 0 { qx } else { -qx };
    let my: int = if qy >= 0 { qy } else { -qy };
    assert(cc > 0) by (nonlinear_arith)
        requires
            cc == cx * cx + cy * cy,
            cx != 0 || cy != 0,
    ;
    assert(mx * mx == qx * qx && my * my == qy * qy) by (nonlinear_arith)
        requires
            mx == qx || mx == -qx,
            my == qy || my == -qy,
    ;
    assert(cx * cx * (s * s) + cy * cy * (s * s) == cc * (s * s)) by (nonlinear_arith)
        requires
            cc == cx * cx + cy * cy,
    ;
    assert(mx * mx * cc == qx * qx * cc && my * my * cc == qy * qy * cc) by (nonlinear_arith)
        requires
            mx * mx == qx * qx,
            my * my == qy * qy,
    ;
    assert(qx * qx + qy * qy <= s * s) by (nonlinear_arith)
        requires
            qx * qx * cc + qy * qy * cc <= cc * (s * s),
            cc > 0,
    ;
    assert(s * s < (mx + 1) * (mx + 1) + (my + 1) * (my + 1)) by (nonlinear_arith)
        requires
            cc * (s * s) < (mx + 1) * (mx + 1) * cc + (my + 1) * (my + 1) * cc,
            cc > 0,
    ;
}

/// The position pass for one axis: `x` moved beyond `half + margin` goes to
/// the opposite edge.
pub fn wrap_axis(x: i64, half: i64, margin: i64) -> (r: i64)
    requires
        0 <= half,
        0 <= margin,
        half + margin <= COORD_LIMIT,
    ensures
        r == wrapped(x as int, half as int, margin as int),
        -(half + margin) <= r <= half + margin,
{
    if x > half + margin {
        -half
    } else if x < -(half + margin) {
        half
    } else {
        x
    }
}

/// The position pass for one agent: `pos` advanced by one tick of `vel`, then
/// wrapped.
pub fn position_step(params: &Params, pos: Vec2, vel: Vec2) -> (r: Vec2)
    requires
        params.wf(),
        -(params.half_width + params.margin) <= pos.x <= params.half_width + params.margin,
        -(params.half_height + params.margin) <= pos.y <= params.half_height + params.margin,
        -SPEED_LIMIT <= vel.x <= SPEED_LIMIT,
        -SPEED_LIMIT <= vel.y <= SPEED_LIMIT,
    ensures
        position_stepped(*params, pos, vel, r),
        -(params.half_width + params.margin) <= r.x <= params.half_width + params.margin,
        -(params.half_height + params.margin) <= r.y <= params.half_height + params.margin,
{
    let tps: i128 = params.ticks_per_second as i128;
    let sx: i128 = trunc_div(vel.x as i128, tps);
    let sy: i128 = trunc_div(vel.y as i128, tps);
    let x: i64 = (pos.x as i128 + sx) as i64;
    let y: i64 = (pos.y as i128 + sy) as i64;
    Vec2 {
        x: wrap_axis(x, params.half_width, params.margin),
        y: wrap_axis(y, params.half_height, params.margin),
    }
}

/// A velocity at speed `s` is at most `s` on each axis.
pub proof fn lemma_at_speed_bounded(vx: int, vy: int, s: int)
    requires
        at_speed(vx, vy, s),
        s > 0,
    ensures
        -s <= vx <= s,
        -s <= vy <= s,
{
    assert(-s <= vx <= s && -s <= vy <= s) by (nonlinear_arith)
        requires
            vx * vx + vy * vy <= s * s,
            s > 0,
    ;
}

} // verus!
