use fd_rs::base::{Boundary, Equation, SimError, Simluation};
use fd_rs::equations::{Advection, InviscidBurger};
use fd_rs::rational::Rat;
use fd_rs::schemes::{run, speed, BeamWarming, LaxFriedrichs, LaxWendroff, Upwind};

fn r(n: i64, d: i64) -> Rat {
    Rat::new(n, d)
}

fn ri(n: i64) -> Rat {
    Rat::from_int(n)
}

fn sum(v: &[Rat]) -> Rat {
    let mut acc = ri(0);
    for x in v {
        acc = acc.checked_add(*x).unwrap();
    }
    acc
}

fn step_sim(dx: Rat, dt: Rat, lo: Rat, hi: Rat) -> Simluation {
    // 1 on [0, hi), 0 elsewhere.
    let zero = ri(0);
    let one = ri(1);
    Simluation::new(dx, dt, [lo, hi], move |x: Rat| {
        if !x.lt(&zero) && x.lt(&one) {
            one
        } else {
            zero
        }
    })
    .unwrap()
}

#[test]
fn advection_flux_is_linear() {
    let eq = Advection { a: r(2, 1) };
    assert_eq!(eq.f(ri(3)).unwrap(), ri(6));
    assert_eq!(eq.f(r(-7, 2)).unwrap(), ri(-7));
    assert_eq!(eq.df(ri(123)).unwrap(), ri(2));
    assert_eq!(eq.df(r(-5, 3)).unwrap(), ri(2));
}

#[test]
fn periodic_burgers_step_conserves_the_sum() {
    let eq = InviscidBurger;
    let mut sim = Simluation::new(r(1, 2), r(1, 2), [ri(0), ri(2)], |x: Rat| x).unwrap();
    sim.set_state(vec![ri(0), ri(1), ri(0), ri(1)]).unwrap();
    let before = sum(sim.state());
    let after = sum(&run(&Upwind, &sim, &eq).unwrap());
    assert_eq!(after, before);
}

#[test]
fn burgers_flux_is_quadratic() {
    let eq = InviscidBurger;
    assert_eq!(eq.f(ri(3)).unwrap(), r(9, 2));
    assert_eq!(eq.f(r(1, 2)).unwrap(), r(1, 8));
    assert_eq!(eq.f(ri(-4)).unwrap(), ri(8));
    assert_eq!(eq.df(ri(3)).unwrap(), ri(3));
    assert_eq!(eq.df(r(-1, 7)).unwrap(), r(-1, 7));
}

#[test]
fn rational_arithmetic_is_exact() {
    let a = r(1, 3);
    let b = r(1, 6);
    assert_eq!(a.checked_add(b).unwrap(), r(1, 2));
    assert_eq!(a.checked_sub(b).unwrap(), r(1, 6));
    assert_eq!(a.checked_mul(b).unwrap(), r(1, 18));
    assert_eq!(a.checked_div(b).unwrap(), ri(2));
    assert_eq!(r(4, 2), ri(2));
    assert!(r(1, 3).lt(&r(1, 2)));
    assert!(ri(i64::MAX).checked_mul(ri(2)).is_none());
}

#[test]
fn grid_roundtrip_applies_init_to_grid() {
    let three = ri(3);
    let sim = Simluation::new(r(1, 2), r(1, 4), [ri(0), ri(2)], |x: Rat| {
        x.checked_mul(three).unwrap()
    })
    .unwrap();
    let grid = sim.grid().clone();
    let state = sim.state().clone();
    assert_eq!(grid, vec![ri(0), r(1, 2), ri(1), r(3, 2)]);
    assert_eq!(state.len(), grid.len());
    for i in 0..grid.len() {
        assert_eq!(state[i], grid[i].checked_mul(three).unwrap());
    }
}

#[test]
fn grid_rejects_bad_configuration() {
    let id = |x: Rat| x;
    match Simluation::new(ri(0), r(1, 4), [ri(0), ri(2)], id) {
        Err(SimError::ConfigurationError) => (),
        _ => panic!("non-positive dx must be rejected"),
    }
    match Simluation::new(r(1, 2), ri(-1), [ri(0), ri(2)], id) {
        Err(SimError::ConfigurationError) => (),
        _ => panic!("non-positive dt must be rejected"),
    }
    match Simluation::new(r(1, 2), r(1, 4), [ri(2), ri(2)], id) {
        Err(SimError::ConfigurationError) => (),
        _ => panic!("an empty range must be rejected"),
    }
}

#[test]
fn extended_state_periodic_wraps() {
    let mut sim = Simluation::new(ri(1), r(1, 2), [ri(0), ri(4)], |x: Rat| x).unwrap();
    sim.set_state(vec![ri(1), ri(2), ri(3), ri(4)]).unwrap();
    let u = sim.get_u(2);
    assert_eq!(
        u,
        vec![ri(3), ri(4), ri(1), ri(2), ri(3), ri(4), ri(1), ri(2)]
    );
    // Left pad slot i (counted from the boundary) is state[len - 1 - i],
    // right pad slot i is state[i].
    assert_eq!(u[1], ri(4));
    assert_eq!(u[0], ri(3));
    assert_eq!(u[6], ri(1));
    assert_eq!(u[7], ri(2));
}

#[test]
fn extended_state_dirichlet_broadcasts() {
    let mut sim = Simluation::new(ri(1), r(1, 2), [ri(0), ri(4)], |x: Rat| x).unwrap();
    sim.set_state(vec![ri(1), ri(2), ri(3), ri(4)]).unwrap();
    sim.set_boundary(Boundary::Dirichlet(ri(9), ri(7)));
    let u = sim.get_u(2);
    assert_eq!(
        u,
        vec![ri(9), ri(9), ri(1), ri(2), ri(3), ri(4), ri(7), ri(7)]
    );
}

#[test]
fn extended_state_dirichlet_wide_halo() {
    // With held edge values the halo may be wider than the state itself.
    let mut sim = Simluation::new(ri(1), r(1, 2), [ri(0), ri(2)], |x: Rat| x).unwrap();
    sim.set_state(vec![ri(1), ri(2)]).unwrap();
    sim.set_boundary(Boundary::Dirichlet(ri(9), ri(7)));
    let u = sim.get_u(3);
    assert_eq!(
        u,
        vec![ri(9), ri(9), ri(9), ri(1), ri(2), ri(7), ri(7), ri(7)]
    );
}

#[test]
fn set_state_rejects_length_mismatch() {
    let mut sim = Simluation::new(ri(1), r(1, 2), [ri(0), ri(4)], |x: Rat| x).unwrap();
    let before = sim.state().clone();
    match sim.set_state(vec![ri(1), ri(2), ri(3)]) {
        Err(SimError::LengthMismatchError) => (),
        _ => panic!("a short state vector must be rejected"),
    }
    assert_eq!(sim.state().clone(), before);
}

#[test]
fn cfl_violation_is_reported_by_every_scheme() {
    // dt/dx * |df(u)| = 2 > 1.
    let eq = Advection { a: ri(1) };
    let sim = step_sim(r(1, 100), r(2, 100), ri(-1), ri(1));
    match run(&Upwind, &sim, &eq) {
        Err(SimError::CflViolation) => (),
        _ => panic!("upwind must report the unstable step"),
    }
    match run(&BeamWarming, &sim, &eq) {
        Err(SimError::CflViolation) => (),
        _ => panic!("beam-warming must report the unstable step"),
    }
    match run(&LaxWendroff, &sim, &eq) {
        Err(SimError::CflViolation) => (),
        _ => panic!("lax-wendroff must report the unstable step"),
    }
    match run(&LaxFriedrichs, &sim, &eq) {
        Err(SimError::CflViolation) => (),
        _ => panic!("lax-friedrichs must report the unstable step"),
    }
}

#[test]
fn overflow_is_reported_not_mangled() {
    let eq = Advection { a: ri(1 << 40) };
    let mut sim = Simluation::new(ri(1), r(1, 2), [ri(0), ri(2)], |x: Rat| x).unwrap();
    sim.set_state(vec![ri(1 << 40), ri(1 << 40)]).unwrap();
    match run(&Upwind, &sim, &eq) {
        Err(SimError::Overflow) => (),
        _ => panic!("an out-of-range flux must be reported as overflow"),
    }
}

#[test]
fn speed_estimates_advection_characteristic() {
    let eq = Advection { a: ri(1) };
    let sim = step_sim(r(1, 10), r(1, 20), ri(-1), ri(1));
    let (v_neg, v_pos) = speed(&sim, &eq, 0).unwrap();
    assert_eq!(v_neg.len(), 20);
    assert_eq!(v_pos.len(), 20);
    for v in v_neg.iter().chain(v_pos.iter()) {
        assert_eq!(*v, r(1, 2));
    }
}

#[test]
fn upwind_step_moves_the_front() {
    // Advection(a = 1), dx = 1/10, dt = 1/20 (CFL 1/2), domain [-1, 1),
    // step initial state, periodic boundary.
    let eq = Advection { a: ri(1) };
    let sim = step_sim(r(1, 10), r(1, 20), ri(-1), ri(1));
    assert_eq!(sim.len(), 20);
    let new_state = run(&Upwind, &sim, &eq).unwrap();
    assert_eq!(new_state.len(), 20);
    for j in 0..20 {
        let expected = if j == 0 || j == 10 {
            r(1, 2)
        } else if j < 10 {
            ri(0)
        } else {
            ri(1)
        };
        assert_eq!(new_state[j], expected, "cell {}", j);
    }
}

#[test]
fn lax_friedrichs_step_exact_values() {
    // a = 1, dt/dx = 1/2, periodic: h_plus[j] = (3 u[j] + u[j+1]) / 4 and
    // the update works out to [2, 3/2, 5/2, 4].
    let eq = Advection { a: ri(1) };
    let mut sim = Simluation::new(r(1, 4), r(1, 8), [ri(0), ri(1)], |x: Rat| x).unwrap();
    sim.set_state(vec![ri(1), ri(2), ri(3), ri(4)]).unwrap();
    let out = run(&LaxFriedrichs, &sim, &eq).unwrap();
    assert_eq!(out, vec![ri(2), r(3, 2), r(5, 2), ri(4)]);
}

#[test]
fn lax_wendroff_step_exact_values() {
    // For a linear flux the Lax-Wendroff step agrees with Lax-Friedrichs.
    let eq = Advection { a: ri(1) };
    let mut sim = Simluation::new(r(1, 4), r(1, 8), [ri(0), ri(1)], |x: Rat| x).unwrap();
    sim.set_state(vec![ri(1), ri(2), ri(3), ri(4)]).unwrap();
    let out = run(&LaxWendroff, &sim, &eq).unwrap();
    assert_eq!(out, vec![ri(2), r(3, 2), r(5, 2), ri(4)]);
}

#[test]
fn beam_warming_step_exact_values() {
    // a = 1, dt/dx = 1/2, periodic, positive speeds everywhere:
    // h_plus[j] = (5 u[j] - u[j-1]) / 4 and the update works out to
    // [3, 1, 5/2, 7/2].
    let eq = Advection { a: ri(1) };
    let mut sim = Simluation::new(r(1, 4), r(1, 8), [ri(0), ri(1)], |x: Rat| x).unwrap();
    sim.set_state(vec![ri(1), ri(2), ri(3), ri(4)]).unwrap();
    let out = run(&BeamWarming, &sim, &eq).unwrap();
    assert_eq!(out, vec![ri(3), ri(1), r(5, 2), r(7, 2)]);
}

#[test]
fn periodic_step_conserves_the_sum() {
    let eq = Advection { a: ri(1) };
    let mut sim = Simluation::new(r(1, 4), r(1, 4), [ri(0), ri(1)], |x: Rat| x).unwrap();
    sim.set_state(vec![ri(1), ri(2), ri(3), ri(4)]).unwrap();
    let before = sum(sim.state());
    let after_up = sum(&run(&Upwind, &sim, &eq).unwrap());
    assert_eq!(after_up, before);
    let after_bw = sum(&run(&BeamWarming, &sim, &eq).unwrap());
    assert_eq!(after_bw, before);
    let after_lw = sum(&run(&LaxWendroff, &sim, &eq).unwrap());
    assert_eq!(after_lw, before);
    let after_lf = sum(&run(&LaxFriedrichs, &sim, &eq).unwrap());
    assert_eq!(after_lf, before);
}

#[test]
fn dirichlet_step_need_not_conserve() {
    // The telescoping argument needs the periodic wrap; with held edges a
    // step may change the total.
    let eq = Advection { a: ri(1) };
    let mut sim = Simluation::new(r(1, 4), r(1, 8), [ri(0), ri(1)], |x: Rat| x).unwrap();
    sim.set_state(vec![ri(1), ri(2), ri(3), ri(4)]).unwrap();
    sim.set_boundary(Boundary::Dirichlet(ri(0), ri(0)));
    let before = sum(sim.state());
    let after = sum(&run(&Upwind, &sim, &eq).unwrap());
    assert_ne!(after, before);
}

#[test]
fn default_simulation_is_quiet() {
    let sim = Simluation::default();
    assert_eq!(sim.len(), 1000);
    assert_eq!(sim.grid()[0], ri(-5));
    assert_eq!(sim.grid()[999], r(499, 100));
    assert!(sim.state().iter().all(|x| *x == ri(0)));
    assert_eq!(sim.dt_over_dx().unwrap(), r(3, 5));
}
