use vstd::prelude::*;
use crate::agent::{
    at_speed, lemma_rescaled_speed, scaled_floor, velocity_stepped, visible, Agent, Params,
};
use crate::flock::{agent_ticked, neighbor_sums, steering_x, steering_y, ticked};
use crate::numeric::div_toward_zero;

verus! {

/// A component rescaled to a given length is unique.
pub proof fn lemma_scaled_floor_unique(c: int, cc: int, s: int, q1: int, q2: int)
    requires
        cc > 0,
        scaled_floor(c, cc, s, q1),
        scaled_floor(c, cc, s, q2),
    ensures
        q1 == q2,
{
    let m1: int = if q1 >= 0 { q1 } else { -q1 };
    let m2: int = if q2 >= 0 { q2 } else { -q2 };
    let a = c * c * (s * s);
    if m1 > m2 {
        assert((m2 + 1) * (m2 + 1) * cc <= m1 * m1 * cc) by (nonlinear_arith)
            requires
                0 <= m2 + 1 <= m1,
                cc > 0,
        ;
    } else if m2 > m1 {
        assert((m1 + 1) * (m1 + 1) * cc <= m2 * m2 * cc) by (nonlinear_arith)
            requires
                0 <= m1 + 1 <= m2,
                cc > 0,
        ;
    }
    assert(m1 == m2);
    if c == 0 {
        assert(m1 == 0) by (nonlinear_arith)
            requires
                m1 * m1 * cc <= c * c * (s * s),
                c == 0,
                cc > 0,
                m1 >= 0,
        ;
    } else if m1 != 0 {
        assert(q1 == q2) by (nonlinear_arith)
            requires
                c * q1 >= 0,
                c * q2 >= 0,
                c != 0,
                q1 == m1 || q1 == -m1,
                q2 == m1 || q2 == -m1,
                m1 > 0,
        ;
    }
}

/// Speed: after a tick every agent moves at the cruise speed (up to rounding),
/// except where its velocity plus its steering vector is the zero vector, in
/// which case it keeps its velocity exactly.
pub proof fn lemma_speed_after_tick(p: Params, before: Seq<Agent>, after: Seq<Agent>, i: int)
    requires
        p.wf(),
        ticked(p, before, after),
        0 <= i < before.len(),
    ensures
        ({
            let cx = before[i].vel.x + steering_x(p, before, i);
            let cy = before[i].vel.y + steering_y(p, before, i);
            if cx == 0 && cy == 0 {
                after[i].vel == before[i].vel
            } else {
                at_speed(after[i].vel.x as int, after[i].vel.y as int, p.cruise_speed as int)
            }
        }),
{
    assert(agent_ticked(p, before, i, after[i]));
    let cx = before[i].vel.x + steering_x(p, before, i);
    let cy = before[i].vel.y + steering_y(p, before, i);
    if !(cx == 0 && cy == 0) {
        lemma_rescaled_speed(
            cx,
            cy,
            p.cruise_speed as int,
            after[i].vel.x as int,
            after[i].vel.y as int,
        );
    }
}

/// Wraparound: an agent that a tick carries beyond `half + margin` on an axis
/// lands on the opposite edge of that axis in the same tick, and after a tick
/// no agent lies beyond the margin.
pub proof fn lemma_wrap_after_tick(p: Params, before: Seq<Agent>, after: Seq<Agent>, i: int)
    requires
        p.wf(),
        ticked(p, before, after),
        0 <= i < before.len(),
    ensures
        ({
            let x = before[i].pos.x + div_toward_zero(after[i].vel.x as int, p.ticks_per_second as int);
            let y = before[i].pos.y + div_toward_zero(after[i].vel.y as int, p.ticks_per_second as int);
            &&& x > p.half_width + p.margin ==> after[i].pos.x == -p.half_width
            &&& x < -(p.half_width + p.margin) ==> after[i].pos.x == p.half_width
            &&& y > p.half_height + p.margin ==> after[i].pos.y == -p.half_height
            &&& y < -(p.half_height + p.margin) ==> after[i].pos.y == p.half_height
        }),
        -(p.half_width + p.margin) <= after[i].pos.x <= p.half_width + p.margin,
        -(p.half_height + p.margin) <= after[i].pos.y <= p.half_height + p.margin,
{
    assert(agent_ticked(p, before, i, after[i]));
}

/// Determinism: one state has exactly one successor under a tick.
pub proof fn lemma_tick_deterministic(
    p: Params,
    before: Seq<Agent>,
    after1: Seq<Agent>,
    after2: Seq<Agent>,
)
    requires
        ticked(p, before, after1),
        ticked(p, before, after2),
    ensures
        after1 == after2,
{
    assert forall|i: int| 0 <= i < after1.len() implies after1[i] == after2[i] by {
        assert(agent_ticked(p, before, i, after1[i]));
        assert(agent_ticked(p, before, i, after2[i]));
        let v = before[i].vel;
        let cx = v.x + steering_x(p, before, i);
        let cy = v.y + steering_y(p, before, i);
        if !(cx == 0 && cy == 0) {
            let cc = cx * cx + cy * cy;
            assert(cc > 0) by (nonlinear_arith)
                requires
                    cc == cx * cx + cy * cy,
                    cx != 0 || cy != 0,
            ;
            lemma_scaled_floor_unique(cx, cc, p.cruise_speed as int, after1[i].vel.x as int, after2[i].vel.x as int);
            lemma_scaled_floor_unique(cy, cc, p.cruise_speed as int, after1[i].vel.y as int, after2[i].vel.y as int);
        }
    }
    assert(after1 =~= after2);
}

/// `states` is a run: each state is the one before it after one tick.
pub open spec fn is_run(p: Params, states: Seq<Seq<Agent>>) -> bool {
    forall|k: int| 0 <= k < states.len() - 1 ==> ticked(p, #[trigger] states[k], states[k + 1])
}

/// Determinism over many ticks: two runs of equal length from one initial
/// state are equal, state by state.
pub proof fn lemma_runs_deterministic(p: Params, run1: Seq<Seq<Agent>>, run2: Seq<Seq<Agent>>)
    requires
        is_run(p, run1),
        is_run(p, run2),
        run1.len() == run2.len(),
        run1.len() > 0,
        run1[0] == run2[0],
    ensures
        run1 == run2,
    decreases run1.len(),
{
    let n = run1.len();
    if n > 1 {
        let (r1, r2) = (run1.drop_last(), run2.drop_last());
        assert forall|k: int| 0 <= k < r1.len() - 1 implies ticked(p, #[trigger] r1[k], r1[k + 1]) by {
            assert(ticked(p, run1[k], run1[k + 1]));
        }
        assert forall|k: int| 0 <= k < r2.len() - 1 implies ticked(p, #[trigger] r2[k], r2[k + 1]) by {
            assert(ticked(p, run2[k], run2[k + 1]));
        }
        lemma_runs_deterministic(p, r1, r2);
        assert forall|k: int| 0 <= k < n - 1 implies run1[k] == run2[k] by {
            assert(r1[k] == run1[k] && r2[k] == run2[k]);
        }
        assert(ticked(p, run1[n - 2], run1[n - 1]));
        assert(ticked(p, run2[n - 2], run2[n - 1]));
        lemma_tick_deterministic(p, run1[n - 2], run1[n - 1], run2[n - 1]);
    }
    assert(run1 =~= run2);
}

proof fn lemma_no_visible_sums(p: Params, agents: Seq<Agent>, i: int, hi: int)
    requires
        0 <= i < agents.len(),
        hi <= agents.len(),
        forall|j: int| i < j < hi ==> !visible(p, agents[i], #[trigger] agents[j]),
    ensures
        neighbor_sums(p, agents, i, hi).count == 0,
        neighbor_sums(p, agents, i, hi).dx == 0,
        neighbor_sums(p, agents, i, hi).dy == 0,
    decreases hi - i,
{
    if hi > i + 1 {
        lemma_no_visible_sums(p, agents, i, hi - 1);
        assert(!visible(p, agents[i], agents[hi - 1]));
    }
}

/// No neighbour: an agent that perceives no other agent gets a zero steering
/// vector, so its velocity is its own velocity renormalised to the cruise
/// speed, with the sign of each component kept.
pub proof fn lemma_no_neighbor(p: Params, before: Seq<Agent>, after: Seq<Agent>, i: int)
    requires
        p.wf(),
        0 <= i < before.len(),
        forall|j: int| 0 <= j < before.len() && j != i ==> !visible(p, before[i], #[trigger] before[j]),
        ticked(p, before, after),
    ensures
        steering_x(p, before, i) == 0,
        steering_y(p, before, i) == 0,
        velocity_stepped(before[i].vel, 0, 0, p.cruise_speed as int, after[i].vel),
        after[i].vel.x * before[i].vel.x >= 0,
        after[i].vel.y * before[i].vel.y >= 0,
{
    lemma_no_visible_sums(p, before, i, before.len() as int);
    assert(agent_ticked(p, before, i, after[i]));
    let v = before[i].vel;
    if v.x == 0 && v.y == 0 {
        assert(after[i].vel == v);
        assert(after[i].vel.x * v.x == 0);
        assert(after[i].vel.y * v.y == 0);
    } else {
        assert(v.x * after[i].vel.x >= 0 && v.y * after[i].vel.y >= 0);
        assert(after[i].vel.x * v.x >= 0 && after[i].vel.y * v.y >= 0) by (nonlinear_arith)
            requires
                v.x * after[i].vel.x >= 0,
                v.y * after[i].vel.y >= 0,
        ;
    }
}

} // verus!
