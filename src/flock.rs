use vstd::prelude::*;
use crate::agent::{
    agent_in_bounds, position_step, position_stepped, sees, velocity_step, velocity_stepped,
    visible, Agent, Params, Vec2, STEER_LIMIT,
};
use crate::numeric::{div_toward_zero, lemma_quotient_bound, trunc_div};

verus! {

/// Bound on the number of agents of a flock.
pub const MAX_AGENTS: usize = 4096;

/// What agent `i` has gathered from the agents it perceives: their number,
/// the sum of the displacements to them and the sum of the velocity
/// differences to them.
pub struct NeighborSums {
    pub count: int,
    pub dx: int,
    pub dy: int,
    pub dvx: int,
    pub dvy: int,
}

/// The sums of agent `i` over the agents with an index in `(i, hi)` that it
/// perceives.
///
/// Each unordered pair of agents is examined once, and only its member with
/// the lower index gathers from it: agent `i` takes no account of the agents
/// before it, even where it would perceive them.
pub open spec fn neighbor_sums(p: Params, agents: Seq<Agent>, i: int, hi: int) -> NeighborSums
    decreases hi - i,
{
    if hi <= i + 1 {
        NeighborSums { count: 0, dx: 0, dy: 0, dvx: 0, dvy: 0 }
    } else {
        let s = neighbor_sums(p, agents, i, hi - 1);
        let a = agents[i];
        let b = agents[hi - 1];
        if visible(p, a, b) {
            NeighborSums {
                count: s.count + 1,
                dx: s.dx + (b.pos.x - a.pos.x),
                dy: s.dy + (b.pos.y - a.pos.y),
                dvx: s.dvx + (b.vel.x - a.vel.x),
                dvy: s.dvy + (b.vel.y - a.vel.y),
            }
        } else {
            s
        }
    }
}

/// One component of a steering vector, from `n` perceived neighbours whose
/// displacements sum to `sd` and velocity differences to `sv`, with a tick of
/// `1 / tps` seconds: cohesion `dt · sd / n`, plus alignment `dt · sv / n`,
/// plus separation `−dt · sd / 2`, rounded toward zero once. No neighbour
/// gives zero.
pub open spec fn steer_axis(sd: int, sv: int, n: int, tps: int) -> int {
    if n == 0 {
        0
    } else {
        div_toward_zero(2 * (sd + sv) - n * sd, 2 * n * tps)
    }
}

pub open spec fn steering_x(p: Params, agents: Seq<Agent>, i: int) -> int {
    let s = neighbor_sums(p, agents, i, agents.len() as int);
    steer_axis(s.dx, s.dvx, s.count, p.ticks_per_second as int)
}

pub open spec fn steering_y(p: Params, agents: Seq<Agent>, i: int) -> int {
    let s = neighbor_sums(p, agents, i, agents.len() as int);
    steer_axis(s.dy, s.dvy, s.count, p.ticks_per_second as int)
}

/// Every agent lies in bounds, and each one's id is its index.
pub open spec fn agents_wf(p: Params, agents: Seq<Agent>) -> bool {
    &&& agents.len() <= MAX_AGENTS
    &&& forall|i: int|
        0 <= i < agents.len() ==> (#[trigger] agents[i]).id == i && agent_in_bounds(p, agents[i])
}

/// Agent `a` is agent `i` of `before` after one tick: its velocity has taken
/// the steering computed from `before` and its position the new velocity.
pub open spec fn agent_ticked(p: Params, before: Seq<Agent>, i: int, a: Agent) -> bool {
    &&& a.id == before[i].id
    &&& velocity_stepped(
        before[i].vel,
        steering_x(p, before, i),
        steering_y(p, before, i),
        p.cruise_speed as int,
        a.vel,
    )
    &&& position_stepped(p, before[i].pos, a.vel, a.pos)
}

/// `after` is `before` after one tick.
pub open spec fn ticked(p: Params, before: Seq<Agent>, after: Seq<Agent>) -> bool {
    &&& after.len() == before.len()
    &&& forall|i: int| 0 <= i < before.len() ==> #[trigger] agent_ticked(p, before, i, after[i])
}

proof fn lemma_steer_bound(sd: int, sv: int, n: int, tps: int)
    requires
        0 < n <= MAX_AGENTS,
        0 < tps,
        -(n * 0x200_0000) <= sd <= n * 0x200_0000,
        -(n * 0x20_0000) <= sv <= n * 0x20_0000,
    ensures
        -STEER_LIMIT <= steer_axis(sd, sv, n, tps) <= STEER_LIMIT,
        -0x4000_0000_0000_0000 <= 2 * (sd + sv) - n * sd <= 0x4000_0000_0000_0000,
{
    assert(-0x20_0000_0000 <= sd <= 0x20_0000_0000);
    assert(-(n * 0x20_0000_0000) <= n * sd <= n * 0x20_0000_0000) by (nonlinear_arith)
        requires
            n > 0,
            -0x20_0000_0000 <= sd <= 0x20_0000_0000,
    ;
    let num = 2 * (sd + sv) - n * sd;
    let k: int = 0x20_0440_0000;
    assert(-(n * k) <= num <= n * k);
    assert(n * k <= 0x4000_0000_0000_0000);
    assert(2 * n * tps >= n) by (nonlinear_arith)
        requires
            n > 0,
            tps > 0,
    ;
    if num >= 0 {
        lemma_quotient_bound(num, 2 * n * tps, n, k);
    } else {
        lemma_quotient_bound(-num, 2 * n * tps, n, k);
    }
}

/// The steering vector of agent `i`, from the agents after it that it perceives.
fn agent_steering(params: &Params, agents: &Vec<Agent>, i: usize) -> (r: Vec2)
    requires
        params.wf(),
        agents_wf(*params, agents@),
        i < agents.len(),
    ensures
        r.x == steering_x(*params, agents@, i as int),
        r.y == steering_y(*params, agents@, i as int),
        -STEER_LIMIT <= r.x <= STEER_LIMIT,
        -STEER_LIMIT <= r.y <= STEER_LIMIT,
{
    let n = agents.len();
    let a = agents[i];
    assert(agent_in_bounds(*params, agents@[i as int]));
    let mut count: i64 = 0;
    let mut sdx: i64 = 0;
    let mut sdy: i64 = 0;
    let mut svx: i64 = 0;
    let mut svy: i64 = 0;
    let mut j: usize = i + 1;
    while j < n
        invariant
            params.wf(),
            agents_wf(*params, agents@),
            n == agents.len(),
            i < j <= n,
            a == agents@[i as int],
            ({
                let s = neighbor_sums(*params, agents@, i as int, j as int);
                s.count == count && s.dx == sdx && s.dy == sdy && s.dvx == svx && s.dvy == svy
            }),
            0 <= count < j,
            -(count * 0x200_0000) <= sdx <= count * 0x200_0000,
            -(count * 0x200_0000) <= sdy <= count * 0x200_0000,
            -(count * 0x20_0000) <= svx <= count * 0x20_0000,
            -(count * 0x20_0000) <= svy <= count * 0x20_0000,
        decreases n - j,
    {
        let b = agents[j];
        assert(agent_in_bounds(*params, agents@[j as int]));
        if sees(params, &a, &b) {
            count = count + 1;
            sdx = sdx + (b.pos.x - a.pos.x);
            sdy = sdy + (b.pos.y - a.pos.y);
            svx = svx + (b.vel.x - a.vel.x);
            svy = svy + (b.vel.y - a.vel.y);
        }
        j = j + 1;
    }
    if count == 0 {
        return Vec2 { x: 0, y: 0 };
    }
    let tps: i128 = params.ticks_per_second as i128;
    let c: i128 = count as i128;
    proof {
        lemma_steer_bound(sdx as int, svx as int, count as int, tps as int);
        lemma_steer_bound(sdy as int, svy as int, count as int, tps as int);
    }
    proof {
        assert(0 < 2 * c * tps <= 2 * 4096 * 1000) by (nonlinear_arith)
            requires
                0 < c <= 4096,
                0 < tps <= 1000,
        ;
    }
    let den: i128 = 2 * c * tps;
    let rx = trunc_div(2 * (sdx as i128 + svx as i128) - c * sdx as i128, den);
    let ry = trunc_div(2 * (sdy as i128 + svy as i128) - c * sdy as i128, den);
    Vec2 { x: rx as i64, y: ry as i64 }
}

/// The neighbour influence pass: the steering vector of every agent, computed
/// from the agents as they are, which it leaves untouched.
pub fn steering_vectors(params: &Params, agents: &Vec<Agent>) -> (r: Vec<Vec2>)
    requires
        params.wf(),
        agents_wf(*params, agents@),
    ensures
        r.len() == agents.len(),
        forall|i: int|
            0 <= i < r.len() ==> (#[trigger] r@[i]).x == steering_x(*params, agents@, i) && r@[i].y
                == steering_y(*params, agents@, i),
        forall|i: int|
            0 <= i < r.len() ==> -STEER_LIMIT <= (#[trigger] r@[i]).x <= STEER_LIMIT && -STEER_LIMIT
                <= r@[i].y <= STEER_LIMIT,
{
    let mut r: Vec<Vec2> = Vec::new();
    let mut i: usize = 0;
    while i < agents.len()
        invariant
            params.wf(),
            agents_wf(*params, agents@),
            i <= agents.len(),
            r.len() == i,
            forall|k: int|
                0 <= k < i ==> (#[trigger] r@[k]).x == steering_x(*params, agents@, k) && r@[k].y
                    == steering_y(*params, agents@, k),
            forall|k: int|
                0 <= k < i ==> -STEER_LIMIT <= (#[trigger] r@[k]).x <= STEER_LIMIT && -STEER_LIMIT
                    <= r@[k].y <= STEER_LIMIT,
        decreases agents.len() - i,
    {
        let s = agent_steering(params, agents, i);
        r.push(s);
        i = i + 1;
    }
    r
}

/// The velocity pass: each agent's velocity takes its steering vector and is
/// renormalised to the cruise speed; ids and positions stay.
pub fn integrate_velocities(params: &Params, agents: &mut Vec<Agent>, steer: &Vec<Vec2>)
    requires
        params.wf(),
        agents_wf(*params, old(agents)@),
        steer.len() == old(agents).len(),
        forall|i: int|
            0 <= i < steer.len() ==> -STEER_LIMIT <= (#[trigger] steer@[i]).x <= STEER_LIMIT
                && -STEER_LIMIT <= steer@[i].y <= STEER_LIMIT,
    ensures
        agents_wf(*params, final(agents)@),
        final(agents).len() == old(agents).len(),
        forall|i: int|
            0 <= i < final(agents).len() ==> {
                let a = #[trigger] final(agents)@[i];
                &&& a.id == old(agents)@[i].id
                &&& a.pos == old(agents)@[i].pos
                &&& velocity_stepped(
                    old(agents)@[i].vel,
                    steer@[i].x as int,
                    steer@[i].y as int,
                    params.cruise_speed as int,
                    a.vel,
                )
            },
{
    let ghost before = agents@;
    let mut i: usize = 0;
    while i < agents.len()
        invariant
            params.wf(),
            agents_wf(*params, agents@),
            agents.len() == before.len(),
            steer.len() == before.len(),
            i <= agents.len(),
            forall|k: int|
                0 <= k < steer.len() ==> -STEER_LIMIT <= (#[trigger] steer@[k]).x <= STEER_LIMIT
                    && -STEER_LIMIT <= steer@[k].y <= STEER_LIMIT,
            forall|k: int| i <= k < agents.len() ==> #[trigger] agents@[k] == before[k],
            forall|k: int|
                0 <= k < i ==> {
                    let a = #[trigger] agents@[k];
                    &&& a.id == before[k].id
                    &&& a.pos == before[k].pos
                    &&& velocity_stepped(
                        before[k].vel,
                        steer@[k].x as int,
                        steer@[k].y as int,
                        params.cruise_speed as int,
                        a.vel,
                    )
                },
        decreases agents.len() - i,
    {
        let a = agents[i];
        assert(agent_in_bounds(*params, agents@[i as int]));
        let s = steer[i];
        assert(-STEER_LIMIT <= steer@[i as int].x <= STEER_LIMIT);
        let v = velocity_step(a.vel, s, params.cruise_speed);
        agents.set(i, Agent { id: a.id, pos: a.pos, vel: v });
        i = i + 1;
    }
}

/// The position pass: each agent advances by one tick of its velocity and
/// wraps; ids and velocities stay.
pub fn integrate_positions(params: &Params, agents: &mut Vec<Agent>)
    requires
        params.wf(),
        agents_wf(*params, old(agents)@),
    ensures
        agents_wf(*params, final(agents)@),
        final(agents).len() == old(agents).len(),
        forall|i: int|
            0 <= i < final(agents).len() ==> {
                let a = #[trigger] final(agents)@[i];
                &&& a.id == old(agents)@[i].id
                &&& a.vel == old(agents)@[i].vel
                &&& position_stepped(*params, old(agents)@[i].pos, a.vel, a.pos)
            },
{
    let ghost before = agents@;
    let mut i: usize = 0;
    while i < agents.len()
        invariant
            params.wf(),
            agents_wf(*params, agents@),
            agents.len() == before.len(),
            i <= agents.len(),
            forall|k: int| i <= k < agents.len() ==> #[trigger] agents@[k] == before[k],
            forall|k: int|
                0 <= k < i ==> {
                    let a = #[trigger] agents@[k];
                    &&& a.id == before[k].id
                    &&& a.vel == before[k].vel
                    &&& position_stepped(*params, before[k].pos, a.vel, a.pos)
                },
        decreases agents.len() - i,
    {
        let a = agents[i];
        assert(agent_in_bounds(*params, agents@[i as int]));
        let p = position_step(params, a.pos, a.vel);
        agents.set(i, Agent { id: a.id, pos: p, vel: a.vel });
        i = i + 1;
    }
}

/// A flock: the constants of the simulation and its agents, indexed by id.
pub struct Flock {
    pub params: Params,
    pub agents: Vec<Agent>,
}

impl Flock {
    pub open spec fn wf(&self) -> bool {
        self.params.wf() && agents_wf(self.params, self.agents@)
    }

    /// A flock of the given agents.
    pub fn new(params: Params, agents: Vec<Agent>) -> (r: Flock)
        requires
            params.wf(),
            agents_wf(params, agents@),
        ensures
            r.wf(),
            r.params == params,
            r.agents@ == agents@,
    {
        Flock { params, agents }
    }

    /// One tick: the steering vectors of all agents are computed before any
    /// velocity changes, then every velocity, then every position.
    pub fn tick(&mut self)
        requires
            old(self).wf(),
        ensures
            final(self).wf(),
            final(self).params == old(self).params,
            ticked(old(self).params, old(self).agents@, final(self).agents@),
    {
        let ghost before = self.agents@;
        let steer = steering_vectors(&self.params, &self.agents);
        integrate_velocities(&self.params, &mut self.agents, &steer);
        integrate_positions(&self.params, &mut self.agents);
        assert forall|i: int| 0 <= i < before.len() implies #[trigger] agent_ticked(
            self.params,
            before,
            i,
            self.agents@[i],
        ) by {
            assert(steer@[i].x == steering_x(self.params, before, i));
        }
    }
}

} // verus!
