use boids::{
    agent_from_draws, isqrt, position_step, rescale, sees, spawn, steering_vectors, trunc_div,
    velocity_step, wrap_axis, Agent, Flock, Params, Vec2,
};
use rand::rngs::StdRng;
use rand::SeedableRng;

fn params() -> Params {
    Params {
        half_width: 640,
        half_height: 360,
        margin: 10,
        cruise_speed: 200,
        range: 250,
        cos_vision_num: -1,
        cos_vision_den: 2,
        ticks_per_second: 60,
    }
}

fn agent(id: usize, x: i64, y: i64, vx: i64, vy: i64) -> Agent {
    Agent { id, pos: Vec2 { x, y }, vel: Vec2 { x: vx, y: vy } }
}

fn v(x: i64, y: i64) -> Vec2 {
    Vec2 { x, y }
}

#[test]
fn isqrt_values() {
    assert_eq!(isqrt(0), 0);
    assert_eq!(isqrt(1), 1);
    assert_eq!(isqrt(15), 3);
    assert_eq!(isqrt(16), 4);
    assert_eq!(isqrt(17), 4);
    assert_eq!(isqrt(u64::MAX), 4294967295);
}

#[test]
fn trunc_div_rounds_toward_zero() {
    assert_eq!(trunc_div(7, 2), 3);
    assert_eq!(trunc_div(-7, 2), -3);
    assert_eq!(trunc_div(-700, 120), -5);
    assert_eq!(trunc_div(0, 5), 0);
}

#[test]
fn rescale_exact_and_rounded() {
    assert_eq!(rescale(v(3, 4), 10), v(6, 8));
    assert_eq!(rescale(v(-3, 4), 10), v(-6, 8));
    assert_eq!(rescale(v(1, 1), 200), v(141, 141));
    assert_eq!(rescale(v(0, -7), 200), v(0, -200));
}

#[test]
fn velocity_step_zero_candidate_keeps_velocity() {
    assert_eq!(velocity_step(v(5, 0), v(-5, 0), 200), v(5, 0));
}

#[test]
fn velocity_step_renormalises() {
    assert_eq!(velocity_step(v(200, 0), v(-5, 0), 200), v(200, 0));
    assert_eq!(velocity_step(v(200, 0), v(0, 200), 200), v(141, 141));
    let r = velocity_step(v(120, 50), v(7, -3), 200);
    let sq = r.x * r.x + r.y * r.y;
    assert!(sq <= 200 * 200);
    assert!(200 * 200 < (r.x.abs() + 1).pow(2) + (r.y.abs() + 1).pow(2));
}

#[test]
fn wrap_axis_cases() {
    assert_eq!(wrap_axis(410, 400, 10), 410);
    assert_eq!(wrap_axis(411, 400, 10), -400);
    assert_eq!(wrap_axis(-411, 400, 10), 400);
    assert_eq!(wrap_axis(-410, 400, 10), -410);
    assert_eq!(wrap_axis(0, 400, 10), 0);
}

#[test]
fn vision_cone_and_range() {
    let p = params();
    let a = agent(0, 0, 0, 200, 0);
    // straight ahead
    assert!(sees(&p, &a, &agent(1, 100, 0, 0, 0)));
    // straight behind
    assert!(!sees(&p, &a, &agent(1, -100, 0, 0, 0)));
    // 135 degrees off the heading
    assert!(!sees(&p, &a, &agent(1, -100, 100, 0, 0)));
    // about 116.6 degrees off the heading
    assert!(sees(&p, &a, &agent(1, -100, 200, 0, 0)));
    // exactly at the range is out of range
    assert!(!sees(&p, &a, &agent(1, 250, 0, 0, 0)));
    assert!(sees(&p, &a, &agent(1, 249, 0, 0, 0)));
    // a coincident agent is not perceived
    assert!(!sees(&p, &a, &agent(1, 0, 0, 0, 0)));
}

#[test]
fn head_on_pair() {
    let p = params();
    let agents = vec![agent(0, 0, 0, 200, 0), agent(1, 100, 0, -200, 0)];
    let steer = steering_vectors(&p, &agents);
    // cohesion 100/60, alignment -400/60, separation -100/120: -5.83, toward zero
    assert_eq!(steer[0], v(-5, 0));
    // only the lower id of a pair gathers from it
    assert_eq!(steer[1], v(0, 0));
    let mut flock = Flock::new(p, agents);
    flock.tick();
    assert_eq!(flock.agents[0], agent(0, 3, 0, 200, 0));
    assert_eq!(flock.agents[1], agent(1, 97, 0, -200, 0));
}

#[test]
fn head_on_pair_off_axis_rotates() {
    let p = params();
    let agents = vec![agent(0, 0, 0, 200, 0), agent(1, 100, 60, -200, 0)];
    let steer = steering_vectors(&p, &agents);
    // x: (2 * (100 - 400) - 100) / 120; y: (2 * 60 - 60) / 120
    assert_eq!(steer[0], v(-5, 0));
    let agents = vec![agent(0, 0, 0, 200, 0), agent(1, 100, 200, -200, 0)];
    let steer = steering_vectors(&p, &agents);
    // y: (2 * 200 - 200) / 120 = 1.67
    assert_eq!(steer[0], v(-5, 1));
    let mut flock = Flock::new(p, agents);
    flock.tick();
    let vel = flock.agents[0].vel;
    assert!(vel.y > 0);
    assert_eq!(vel, velocity_step(v(200, 0), v(-5, 1), 200));
}

#[test]
fn out_of_range_pair() {
    let p = params();
    let agents = vec![agent(0, 0, 0, 200, 0), agent(1, 1000, 0, -200, 0)];
    let steer = steering_vectors(&p, &agents);
    assert_eq!(steer[0], v(0, 0));
    assert_eq!(steer[1], v(0, 0));
    let mut flock = Flock::new(p, agents);
    flock.tick();
    assert_eq!(flock.agents[0].vel, v(200, 0));
    assert_eq!(flock.agents[0].pos, v(3, 0));
}

#[test]
fn boundary_teleport() {
    let p = Params { half_width: 400, half_height: 300, margin: 10, cruise_speed: 300, ..params() };
    let vel = v(300, 0);
    let pos = position_step(&p, v(395, 0), vel);
    assert_eq!(pos, v(400, 0));
    let pos = position_step(&p, pos, vel);
    assert_eq!(pos, v(405, 0));
    let pos = position_step(&p, pos, vel);
    assert_eq!(pos, v(410, 0));
    let pos = position_step(&p, pos, vel);
    assert_eq!(pos, v(-400, 0));
}

#[test]
fn boundary_teleport_through_ticks() {
    let p = Params { half_width: 400, half_height: 300, margin: 10, cruise_speed: 300, ..params() };
    let mut flock = Flock::new(p, vec![agent(0, 395, 0, 300, 0)]);
    let mut xs = Vec::new();
    for _ in 0..4 {
        flock.tick();
        xs.push(flock.agents[0].pos.x);
    }
    assert_eq!(xs, vec![400, 405, 410, -400]);
    assert_eq!(flock.agents[0].vel, v(300, 0));
}

#[test]
fn wrap_on_y_axis_negative() {
    let p = params();
    let pos = position_step(&p, v(0, -368), v(0, -200));
    assert_eq!(pos, v(0, 360));
}

#[test]
fn no_neighbor_keeps_direction() {
    let p = params();
    let agents = vec![agent(0, 0, 0, 120, 160), agent(1, -200, -200, 0, 200)];
    let steer = steering_vectors(&p, &agents);
    assert_eq!(steer[0], v(0, 0));
    let mut flock = Flock::new(p, agents);
    flock.tick();
    assert_eq!(flock.agents[0].vel, v(120, 160));
}

#[test]
fn empty_flock_tick() {
    let mut flock = Flock::new(params(), Vec::new());
    flock.tick();
    assert!(flock.agents.is_empty());
}

#[test]
fn agent_from_draws_cases() {
    let p = params();
    let a = agent_from_draws(&p, 3, 640, 360, 200, 200);
    assert_eq!(a, agent(3, 0, 0, 200, 0));
    let a = agent_from_draws(&p, 0, 0, 720, 400, 200);
    assert_eq!(a, agent(0, -640, 360, 200, 0));
    let a = agent_from_draws(&p, 1, 1280, 0, 0, 0);
    assert_eq!(a, agent(1, 640, -360, -141, -141));
}

#[test]
fn spawn_places_agents_in_world() {
    let p = params();
    let mut rng = StdRng::seed_from_u64(7);
    let flock = spawn(p, 100, &mut rng);
    assert_eq!(flock.agents.len(), 100);
    let mut moved = false;
    for (i, a) in flock.agents.iter().enumerate() {
        assert_eq!(a.id, i);
        assert!(a.pos.x.abs() <= 640 && a.pos.y.abs() <= 360);
        let sq = a.vel.x * a.vel.x + a.vel.y * a.vel.y;
        assert!(sq <= 200 * 200);
        assert!(200 * 200 < (a.vel.x.abs() + 1).pow(2) + (a.vel.y.abs() + 1).pow(2));
        if a.pos != v(0, 0) {
            moved = true;
        }
    }
    assert!(moved);
}

#[test]
fn determinism_of_runs() {
    let p = params();
    let mut a = spawn(p, 60, &mut StdRng::seed_from_u64(11));
    let mut b = spawn(p, 60, &mut StdRng::seed_from_u64(11));
    assert_eq!(a.agents, b.agents);
    for _ in 0..50 {
        a.tick();
        b.tick();
    }
    assert_eq!(a.agents, b.agents);
}

#[test]
fn speed_holds_over_ticks() {
    let p = params();
    let mut flock = spawn(p, 80, &mut StdRng::seed_from_u64(3));
    for _ in 0..30 {
        flock.tick();
        for a in flock.agents.iter() {
            let sq = a.vel.x * a.vel.x + a.vel.y * a.vel.y;
            assert!(sq <= 200 * 200);
            assert!(200 * 200 < (a.vel.x.abs() + 1).pow(2) + (a.vel.y.abs() + 1).pow(2));
            assert!(a.pos.x.abs() <= 650 && a.pos.y.abs() <= 370);
        }
    }
}

#[test]
fn passes_one_by_one() {
    let p = params();
    let mut agents = vec![agent(0, 0, 0, 200, 0), agent(1, 100, 200, -200, 0)];
    let steer = steering_vectors(&p, &agents);
    boids::integrate_velocities(&p, &mut agents, &steer);
    assert_eq!(agents[0].pos, v(0, 0));
    assert_eq!(agents[0].vel, velocity_step(v(200, 0), v(-5, 1), 200));
    assert_eq!(agents[1].vel, v(-200, 0));
    boids::integrate_positions(&p, &mut agents);
    assert_eq!(agents[1].pos, v(97, 200));
    assert_eq!(agents[1].vel, v(-200, 0));
    assert_eq!(agents[0].id, 0);
    assert_eq!(agents[1].id, 1);
}

#[test]
fn params_validation() {
    assert!(params().is_valid());
    assert!(!Params { range: 0, ..params() }.is_valid());
    assert!(!Params { cos_vision_num: 2, ..params() }.is_valid());
    assert!(!Params { ticks_per_second: 0, ..params() }.is_valid());
    assert!(!Params { half_width: 16777216, margin: 1, ..params() }.is_valid());
}
