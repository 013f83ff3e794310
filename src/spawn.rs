use vstd::prelude::*;
use rand::rngs::StdRng;
use crate::agent::{agent_in_bounds, at_speed, lemma_at_speed_bounded, lemma_rescaled_speed, rescale, scaled_floor, Agent, Params, Vec2};
use crate::flock::{Flock, MAX_AGENTS};

verus! {

#[verifier::external_type_specification]
#[verifier::external_body]
pub struct ExStdRng(StdRng);

/// Relies on rand's `Rng::gen_range`: a value drawn from `0..bound`; it
/// panics only on an empty range, which `requires` leaves out.
#[verifier::external_body]
fn draw_below(rng: &mut StdRng, bound: i64) -> (r: i64)
    requires
        bound > 0,
    ensures
        0 <= r < bound,
{
    rand::Rng::gen_range(rng, 0..bound)
}

/// `a` is the agent with id `id` made from four draws: `px` in `0..=2·half_width`
/// and `py` in `0..=2·half_height` place it, centred on the origin; `vx` and
/// `vy` in `0..=2·cruise_speed`, centred on zero, give the direction of its
/// velocity, which is rescaled to the cruise speed (straight along +x where
/// both are centred at zero).
pub open spec fn drawn_agent(p: Params, id: int, px: int, py: int, vx: int, vy: int, a: Agent) -> bool {
    let cx = vx - p.cruise_speed;
    let cy = vy - p.cruise_speed;
    &&& a.id == id
    &&& a.pos.x == px - p.half_width
    &&& a.pos.y == py - p.half_height
    &&& if cx == 0 && cy == 0 {
        a.vel.x == p.cruise_speed && a.vel.y == 0
    } else {
        scaled_floor(cx, cx * cx + cy * cy, p.cruise_speed as int, a.vel.x as int)
            && scaled_floor(cy, cx * cx + cy * cy, p.cruise_speed as int, a.vel.y as int)
    }
}

/// What holds of every agent placed at random: it lies within the world and
/// moves at the cruise speed.
pub open spec fn placed_at_random(p: Params, a: Agent) -> bool {
    &&& -p.half_width <= a.pos.x <= p.half_width
    &&& -p.half_height <= a.pos.y <= p.half_height
    &&& at_speed(a.vel.x as int, a.vel.y as int, p.cruise_speed as int)
}

/// The agent with id `id` made from four draws (see `drawn_agent`).
pub fn agent_from_draws(params: &Params, id: usize, px: i64, py: i64, vx: i64, vy: i64) -> (r: Agent)
    requires
        params.wf(),
        0 <= px <= 2 * params.half_width,
        0 <= py <= 2 * params.half_height,
        0 <= vx <= 2 * params.cruise_speed,
        0 <= vy <= 2 * params.cruise_speed,
    ensures
        drawn_agent(*params, id as int, px as int, py as int, vx as int, vy as int, r),
        placed_at_random(*params, r),
{
    let s = params.cruise_speed;
    let pos = Vec2 { x: px - params.half_width, y: py - params.half_height };
    let c = Vec2 { x: vx - s, y: vy - s };
    if c.x == 0 && c.y == 0 {
        proof {
            assert(s * s < (s + 1) * (s + 1) + 1) by (nonlinear_arith)
                requires
                    s > 0,
            ;
        }
        Agent { id, pos, vel: Vec2 { x: s, y: 0 } }
    } else {
        let vel = rescale(c, s);
        Agent { id, pos, vel }
    }
}

/// A flock of `n` agents, each placed uniformly at random in the world and
/// headed in a random direction at the cruise speed, with draws from `rng`.
pub fn spawn(params: Params, n: usize, rng: &mut StdRng) -> (r: Flock)
    requires
        params.wf(),
        n <= MAX_AGENTS,
    ensures
        r.wf(),
        r.params == params,
        r.agents.len() == n,
        forall|i: int| 0 <= i < n ==> placed_at_random(params, #[trigger] r.agents@[i]),
{
    let mut agents: Vec<Agent> = Vec::new();
    let mut i: usize = 0;
    while i < n
        invariant
            params.wf(),
            n <= MAX_AGENTS,
            i <= n,
            agents.len() == i,
            forall|k: int|
                0 <= k < i ==> (#[trigger] agents@[k]).id == k && placed_at_random(params, agents@[k])
                    && agent_in_bounds(params, agents@[k]),
        decreases n - i,
    {
        let px = draw_below(rng, 2 * params.half_width + 1);
        let py = draw_below(rng, 2 * params.half_height + 1);
        let vx = draw_below(rng, 2 * params.cruise_speed + 1);
        let vy = draw_below(rng, 2 * params.cruise_speed + 1);
        let a = agent_from_draws(&params, i, px, py, vx, vy);
        proof {
            lemma_at_speed_bounded(a.vel.x as int, a.vel.y as int, params.cruise_speed as int);
        }
        agents.push(a);
        i = i + 1;
    }
    Flock::new(params, agents)
}

} // verus!
