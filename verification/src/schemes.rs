//! The explicit conservative schemes.
//!
//! Every scheme advances the state by the conservative update
//! `new[j] = u[j] - (dt/dx) * (h_plus[j] - h_minus[j])`, where the pair
//! `(h_minus, h_plus)` is the scheme's numerical flux. The shared speed
//! estimator computes the discrete Rankine-Hugoniot speed at each interface
//! and rejects the step with `CflViolation` when any speed magnitude
//! exceeds one.

use vstd::prelude::*;

use crate::base::{all_wf, ext_seq, vals, Equation, SimError, Simluation};
use crate::rational::{
    rv_abs, rv_add, rv_div, rv_fits, rv_int, rv_le, rv_lt, rv_mul, rv_sub, Rat, Rv,
};

verus! {

/// The ratio `dt / dx` of a simulation.
pub open spec fn lam_of(s: Simluation) -> Rv {
    rv_div(s.dt@, s.dx@)
}

pub open spec fn lam_ok(s: Simluation) -> bool {
    rv_fits(lam_of(s))
}

/// The state extended by `k` ghost cells, as mathematical values.
pub open spec fn uext(s: Simluation, k: nat) -> Seq<Rv> {
    ext_seq(vals(s.state@), s.boundary, k)
}

/// The flux of the extended state.
pub open spec fn fext<E: Equation>(eq: E, s: Simluation, k: nat) -> Seq<Rv> {
    uext(s, k).map_values(|u: Rv| eq.spec_f(u))
}

/// One interface speed times `dt/dx`: the difference quotient
/// `df / du`, or the analytic derivative at `ufb` when the cell values
/// coincide exactly.
pub open spec fn sp_v<E: Equation>(eq: E, lam: Rv, ufb: Rv, du: Rv, dfv: Rv) -> Rv {
    rv_mul(if du.n == 0 { eq.spec_df(ufb) } else { rv_div(dfv, du) }, lam)
}

/// The speed attached to the `j - 1/2` interface of extended cell `k`,
/// over state `u` and flux `f` extended by `ext + 1` cells.
pub open spec fn vneg_at<E: Equation>(
    eq: E,
    lam: Rv,
    u: Seq<Rv>,
    f: Seq<Rv>,
    ext: int,
    k: int,
) -> Rv {
    sp_v(eq, lam, u[k + ext], rv_sub(u[k + 1], u[k]), rv_sub(f[k + 1], f[k]))
}

/// The speed attached to the `j + 1/2` interface of extended cell `k`.
pub open spec fn vpos_at<E: Equation>(eq: E, lam: Rv, u: Seq<Rv>, f: Seq<Rv>, k: int) -> Rv {
    sp_v(eq, lam, u[k + 1], rv_sub(u[k + 2], u[k + 1]), rv_sub(f[k + 2], f[k + 1]))
}

/// The machine-range conditions for computing one interface speed with
/// fallback cell `fb` and difference index `j`.
pub open spec fn v_fits<E: Equation>(eq: E, lam: Rv, u: Seq<Rv>, f: Seq<Rv>, fb: int, j: int) -> bool {
    let du = rv_sub(u[j + 1], u[j]);
    let dfv = rv_sub(f[j + 1], f[j]);
    &&& rv_fits(du)
    &&& rv_fits(dfv)
    &&& (du.n == 0 ==> eq.df_ok(u[fb]))
    &&& (du.n != 0 ==> rv_fits(rv_div(dfv, du)))
    &&& rv_fits(rv_mul(if du.n == 0 { eq.spec_df(u[fb]) } else { rv_div(dfv, du) }, lam))
}

/// All machine-range conditions of the speed estimator at width `ext`.
pub open spec fn speed_fits<E: Equation>(eq: E, s: Simluation, ext: int) -> bool {
    let u = uext(s, (ext + 1) as nat);
    let f = fext(eq, s, (ext + 1) as nat);
    let n = s.state@.len() as int;
    &&& (forall|i: int| 0 <= i < n + 2 * (ext + 1) ==> eq.f_ok(#[trigger] u[i]))
    &&& (forall|k: int| 0 <= k < n + 2 * ext ==> #[trigger] v_fits(eq, lam_of(s), u, f, k + ext, k))
    &&& (forall|k: int|
        0 <= k < n + 2 * ext ==> #[trigger] v_fits(eq, lam_of(s), u, f, k + 1, k + 1))
}

/// The CFL stability bound: every interface speed magnitude is at most one.
pub open spec fn speed_bounded<E: Equation>(eq: E, s: Simluation, ext: int) -> bool {
    let u = uext(s, (ext + 1) as nat);
    let f = fext(eq, s, (ext + 1) as nat);
    let n = s.state@.len() as int;
    &&& (forall|k: int|
        0 <= k < n + 2 * ext ==> rv_le(
            rv_abs(#[trigger] vneg_at(eq, lam_of(s), u, f, ext, k)),
            rv_int(1),
        ))
    &&& (forall|k: int|
        0 <= k < n + 2 * ext ==> rv_le(
            rv_abs(#[trigger] vpos_at(eq, lam_of(s), u, f, k)),
            rv_int(1),
        ))
}

/// One interface speed: difference quotient or analytic fallback, scaled by
/// `lam`, with the CFL bound checked.
fn compute_v<E: Equation>(eq: &E, lam: Rat, ufb: Rat, du: Rat, dfv: Rat) -> (r: Result<
    Rat,
    SimError,
>)
    requires
        eq.wf(),
        lam.wf(),
        ufb.wf(),
        du.wf(),
        dfv.wf(),
    ensures
        ({
            let val = sp_v(*eq, lam@, ufb@, du@, dfv@);
            let fits = {
                &&& (du@.n == 0 ==> eq.df_ok(ufb@))
                &&& (du@.n != 0 ==> rv_fits(rv_div(dfv@, du@)))
                &&& rv_fits(val)
            };
            &&& (r matches Ok(c) ==> c@ == val && c.wf() && rv_le(rv_abs(val), rv_int(1)))
            &&& (r is Ok <==> fits && rv_le(rv_abs(val), rv_int(1)))
            &&& (r == Err::<Rat, SimError>(SimError::CflViolation) ==> fits && !rv_le(
                rv_abs(val),
                rv_int(1),
            ))
            &&& (r == Err::<Rat, SimError>(SimError::Overflow) ==> !fits)
            &&& (r is Err ==> r == Err::<Rat, SimError>(SimError::CflViolation) || r == Err::<
                Rat,
                SimError,
            >(SimError::Overflow))
        }),
{
    let quot = if du.is_zero() {
        match eq.df(ufb) {
            Some(q) => q,
            None => {
                return Err(SimError::Overflow);
            },
        }
    } else {
        match dfv.checked_div(du) {
            Some(q) => q,
            None => {
                return Err(SimError::Overflow);
            },
        }
    };
    let v = match quot.checked_mul(lam) {
        Some(v) => v,
        None => {
            return Err(SimError::Overflow);
        },
    };
    let one = Rat::from_int(1);
    if v.abs().le(&one) {
        Ok(v)
    } else {
        Err(SimError::CflViolation)
    }
}

/// The shared wave-speed estimator: the pair `(v_minus, v_plus)` of
/// interface speeds for every cell of the state extended by `ext` cells,
/// checked against the CFL bound.
pub fn speed<E: Equation>(sim: &Simluation, eq: &E, ext: usize) -> (r: Result<
    (Vec<Rat>, Vec<Rat>),
    SimError,
>)
    requires
        sim.wf(),
        eq.wf(),
        ext <= 2,
        ext + 1 <= sim.state@.len(),
        sim.state@.len() + 2 * ext + 2 <= usize::MAX,
    ensures
        ({
            let u = uext(*sim, (ext + 1) as nat);
            let f = fext(*eq, *sim, (ext + 1) as nat);
            let n = sim.state@.len() as int;
            let lam = lam_of(*sim);
            &&& (r matches Ok(vv) ==> {
                &&& vv.0@.len() == n + 2 * ext
                &&& vv.1@.len() == n + 2 * ext
                &&& all_wf(vv.0@)
                &&& all_wf(vv.1@)
                &&& (forall|k: int|
                    0 <= k < n + 2 * ext ==> (#[trigger] vv.0@[k])@ == vneg_at(
                        *eq,
                        lam,
                        u,
                        f,
                        ext as int,
                        k,
                    ) && vv.1@[k]@ == vpos_at(*eq, lam, u, f, k))
            })
            &&& (r is Ok <==> lam_ok(*sim) && speed_fits(*eq, *sim, ext as int) && speed_bounded(
                *eq,
                *sim,
                ext as int,
            ))
            &&& (lam_ok(*sim) && speed_fits(*eq, *sim, ext as int) && !speed_bounded(
                *eq,
                *sim,
                ext as int,
            ) ==> r == Err::<(Vec<Rat>, Vec<Rat>), SimError>(SimError::CflViolation))
            &&& (r is Err ==> r == Err::<(Vec<Rat>, Vec<Rat>), SimError>(SimError::CflViolation)
                || r == Err::<(Vec<Rat>, Vec<Rat>), SimError>(SimError::Overflow))
            &&& (r == Err::<(Vec<Rat>, Vec<Rat>), SimError>(SimError::Overflow) ==> !(lam_ok(*sim)
                && speed_fits(*eq, *sim, ext as int)))
        }),
{
    let n = sim.len();
    let lam = match sim.dt_over_dx() {
        Some(l) => l,
        None => {
            return Err(SimError::Overflow);
        },
    };
    let u = sim.get_u(ext + 1);
    let f = match sim.get_f(eq, ext + 1) {
        Ok(f) => f,
        Err(_) => {
            proof {
                let uu = uext(*sim, (ext + 1) as nat);
                assert(uu == ext_seq(vals(sim.state@), sim.boundary, (ext + 1) as nat));
                assert(!(forall|i: int|
                    0 <= i < sim.state@.len() + 2 * (ext + 1) ==> eq.f_ok(#[trigger] uu[i])));
                assert(!speed_fits(*eq, *sim, ext as int));
            }
            return Err(SimError::Overflow);
        },
    };
    let ghost uv = uext(*sim, (ext + 1) as nat);
    let ghost fv = fext(*eq, *sim, (ext + 1) as nat);
    let m = n + 2 * ext;
    let mut vn: Vec<Rat> = Vec::new();
    let mut vp: Vec<Rat> = Vec::new();
    let mut k: usize = 0;
    while k < m
        invariant
            sim.wf(),
            eq.wf(),
            ext + 1 <= n,
            n == sim.state@.len(),
            n + 2 * ext + 2 <= usize::MAX,
            m == n + 2 * ext,
            uv == uext(*sim, (ext + 1) as nat),
            fv == fext(*eq, *sim, (ext + 1) as nat),
            lam.wf(),
            lam@ == lam_of(*sim),
            u@.len() == n + 2 * ext + 2,
            f@.len() == n + 2 * ext + 2,
            vals(u@) == uv,
            vals(f@) == fv,
            all_wf(u@),
            all_wf(f@),
            k <= m,
            ext <= 2,
            lam_ok(*sim),
            forall|i: int| 0 <= i < n + 2 * (ext + 1) ==> eq.f_ok(#[trigger] uv[i]),
            vn@.len() == k,
            vp@.len() == k,
            forall|j: int| 0 <= j < k ==> (#[trigger] vn@[j])@ == vneg_at(*eq, lam@, uv, fv, ext as int, j)
                && vn@[j].wf(),
            forall|j: int| 0 <= j < k ==> (#[trigger] vp@[j])@ == vpos_at(*eq, lam@, uv, fv, j)
                && vp@[j].wf(),
            forall|j: int| 0 <= j < k ==> #[trigger] v_fits(*eq, lam@, uv, fv, j + ext, j),
            forall|j: int| 0 <= j < k ==> #[trigger] v_fits(*eq, lam@, uv, fv, j + 1, j + 1),
            forall|j: int| 0 <= j < k ==> rv_le(
                rv_abs(#[trigger] vneg_at(*eq, lam@, uv, fv, ext as int, j)),
                rv_int(1),
            ),
            forall|j: int| 0 <= j < k ==> rv_le(
                rv_abs(#[trigger] vpos_at(*eq, lam@, uv, fv, j)),
                rv_int(1),
            ),
        decreases m - k,
    {
        let du_n = match u[k + 1].checked_sub(u[k]) {
            Some(d) => d,
            None => {
                proof {
                    assert(!v_fits(*eq, lam@, uv, fv, k + ext, k as int));
                }
                return Err(SimError::Overflow);
            },
        };
        let df_n = match f[k + 1].checked_sub(f[k]) {
            Some(d) => d,
            None => {
                proof {
                    assert(!v_fits(*eq, lam@, uv, fv, k + ext, k as int));
                }
                return Err(SimError::Overflow);
            },
        };
        let v_neg_k = match compute_v(eq, lam, u[k + ext], du_n, df_n) {
            Ok(v) => v,
            Err(e) => {
                proof {
                    if e == SimError::Overflow {
                        assert(!v_fits(*eq, lam@, uv, fv, k + ext, k as int));
                    } else {
                        assert(!rv_le(
                            rv_abs(vneg_at(*eq, lam@, uv, fv, ext as int, k as int)),
                            rv_int(1),
                        ));
                    }
                }
                return Err(e);
            },
        };
        let du_p = match u[k + 2].checked_sub(u[k + 1]) {
            Some(d) => d,
            None => {
                proof {
                    assert(!v_fits(*eq, lam@, uv, fv, k as int + 1, k as int + 1));
                }
                return Err(SimError::Overflow);
            },
        };
        let df_p = match f[k + 2].checked_sub(f[k + 1]) {
            Some(d) => d,
            None => {
                proof {
                    assert(!v_fits(*eq, lam@, uv, fv, k as int + 1, k as int + 1));
                }
                return Err(SimError::Overflow);
            },
        };
        let v_pos_k = match compute_v(eq, lam, u[k + 1], du_p, df_p) {
            Ok(v) => v,
            Err(e) => {
                proof {
                    if e == SimError::Overflow {
                        assert(!v_fits(*eq, lam@, uv, fv, k as int + 1, k as int + 1));
                    } else {
                        assert(!rv_le(rv_abs(vpos_at(*eq, lam@, uv, fv, k as int)), rv_int(1)));
                    }
                }
                return Err(e);
            },
        };
        vn.push(v_neg_k);
        vp.push(v_pos_k);
        k += 1;
    }
    Ok((vn, vp))
}

} // verus!

verus! {

/// The conservative update of cell `j`:
/// `u[j] - (dt/dx) * (h_plus[j] - h_minus[j])`.
pub open spec fn new_state_at<E: Equation, S: Scheme<E>>(
    scheme: S,
    eq: E,
    s: Simluation,
    j: int,
) -> Rv {
    rv_sub(
        vals(s.state@)[j],
        rv_mul(lam_of(s), rv_sub(scheme.hp_at(eq, s, j), scheme.hm_at(eq, s, j))),
    )
}

/// The machine-range conditions of updating cell `j`.
pub open spec fn run_fit_at<E: Equation, S: Scheme<E>>(scheme: S, eq: E, s: Simluation, j: int) -> bool {
    let t = rv_sub(scheme.hp_at(eq, s, j), scheme.hm_at(eq, s, j));
    &&& rv_fits(t)
    &&& rv_fits(rv_mul(lam_of(s), t))
    &&& rv_fits(new_state_at(scheme, eq, s, j))
}

/// The machine-range conditions of the conservative update itself.
pub open spec fn run_fits<E: Equation, S: Scheme<E>>(scheme: S, eq: E, s: Simluation) -> bool {
    forall|j: int| 0 <= j < s.state@.len() ==> #[trigger] run_fit_at(scheme, eq, s, j)
}

/// A conservative scheme: its numerical flux pair. `hm_at`/`hp_at` are the
/// exact flux values at the `j - 1/2` and `j + 1/2` interfaces, `flux_ok`
/// the machine-range conditions of computing them, and `cfl_ok` the CFL
/// bound on the interface speeds the scheme checks.
pub trait Scheme<E: Equation>: Sized {
    spec fn wf(&self) -> bool;

    /// The halo width the flux formula needs.
    spec fn halo(&self) -> nat;

    spec fn hm_at(&self, eq: E, s: Simluation, j: int) -> Rv;

    spec fn hp_at(&self, eq: E, s: Simluation, j: int) -> Rv;

    spec fn flux_ok(&self, eq: E, s: Simluation) -> bool;

    spec fn cfl_ok(&self, eq: E, s: Simluation) -> bool;

    /// The numerical flux pair `(h_minus, h_plus)`, both of the state's
    /// length.
    fn flux(&self, sim: &Simluation, eq: &E) -> (r: Result<(Vec<Rat>, Vec<Rat>), SimError>)
        requires
            self.wf(),
            sim.wf(),
            eq.wf(),
            self.halo() <= sim.state@.len(),
            sim.state@.len() + 2 * self.halo() <= usize::MAX,
        ensures
            r matches Ok(h) ==> {
                &&& h.0@.len() == sim.state@.len()
                &&& h.1@.len() == sim.state@.len()
                &&& all_wf(h.0@)
                &&& all_wf(h.1@)
                &&& (forall|j: int|
                    0 <= j < sim.state@.len() ==> (#[trigger] h.0@[j])@ == self.hm_at(*eq, *sim, j)
                        && h.1@[j]@ == self.hp_at(*eq, *sim, j))
            },
            r is Ok <==> lam_ok(*sim) && self.flux_ok(*eq, *sim) && self.cfl_ok(*eq, *sim),
            lam_ok(*sim) && self.flux_ok(*eq, *sim) && !self.cfl_ok(*eq, *sim) ==> r == Err::<
                (Vec<Rat>, Vec<Rat>),
                SimError,
            >(SimError::CflViolation),
            r is Err ==> r == Err::<(Vec<Rat>, Vec<Rat>), SimError>(SimError::CflViolation) || r
                == Err::<(Vec<Rat>, Vec<Rat>), SimError>(SimError::Overflow),
            r == Err::<(Vec<Rat>, Vec<Rat>), SimError>(SimError::Overflow) ==> !(lam_ok(*sim)
                && self.flux_ok(*eq, *sim)),
    ;
}

/// One conservative step: the state advanced by the scheme's flux
/// difference. Fails with `CflViolation` on an unstable speed and with
/// `Overflow` when an exact value leaves the machine range; the input is
/// never mutated.
pub fn run<E: Equation, S: Scheme<E>>(scheme: &S, sim: &Simluation, eq: &E) -> (r: Result<
    Vec<Rat>,
    SimError,
>)
    requires
        scheme.wf(),
        sim.wf(),
        eq.wf(),
        scheme.halo() <= sim.state@.len(),
        sim.state@.len() + 2 * scheme.halo() <= usize::MAX,
    ensures
        r matches Ok(v) ==> {
            &&& v@.len() == sim.state@.len()
            &&& all_wf(v@)
            &&& (forall|j: int|
                0 <= j < sim.state@.len() ==> (#[trigger] v@[j])@ == new_state_at(
                    *scheme,
                    *eq,
                    *sim,
                    j,
                ))
        },
        r is Ok <==> lam_ok(*sim) && scheme.flux_ok(*eq, *sim) && scheme.cfl_ok(*eq, *sim)
            && run_fits(*scheme, *eq, *sim),
        lam_ok(*sim) && scheme.flux_ok(*eq, *sim) && !scheme.cfl_ok(*eq, *sim) ==> r == Err::<
            Vec<Rat>,
            SimError,
        >(SimError::CflViolation),
        r is Err ==> r == Err::<Vec<Rat>, SimError>(SimError::CflViolation) || r == Err::<
            Vec<Rat>,
            SimError,
        >(SimError::Overflow),
        r == Err::<Vec<Rat>, SimError>(SimError::Overflow) ==> !(lam_ok(*sim) && scheme.flux_ok(
            *eq,
            *sim,
        ) && run_fits(*scheme, *eq, *sim)),
{
    let h = match scheme.flux(sim, eq) {
        Ok(h) => h,
        Err(e) => {
            return Err(e);
        },
    };
    let ghost hg = h;
    let (hn, hp) = h;
    proof {
        assert(hn@ == hg.0@ && hp@ == hg.1@);
        assert forall|i: int| 0 <= i < sim.state@.len() implies (#[trigger] hn@[i])@
            == scheme.hm_at(*eq, *sim, i) && hp@[i]@ == scheme.hp_at(*eq, *sim, i) by {
            assert((hg.0@[i])@ == scheme.hm_at(*eq, *sim, i) && hg.1@[i]@ == scheme.hp_at(
                *eq,
                *sim,
                i,
            ));
        }
    }
    let lam = match sim.dt_over_dx() {
        Some(l) => l,
        None => {
            proof {
                assert(false);
            }
            return Err(SimError::Overflow);
        },
    };
    let n = sim.len();
    let mut out: Vec<Rat> = Vec::new();
    let mut j: usize = 0;
    while j < n
        invariant
            scheme.wf(),
            sim.wf(),
            eq.wf(),
            n == sim.state@.len(),
            hn@.len() == n,
            hp@.len() == n,
            all_wf(hn@),
            all_wf(hp@),
            forall|i: int|
                0 <= i < n ==> (#[trigger] hn@[i])@ == scheme.hm_at(*eq, *sim, i) && hp@[i]@
                    == scheme.hp_at(*eq, *sim, i),
            lam.wf(),
            lam@ == lam_of(*sim),
            lam_ok(*sim),
            scheme.flux_ok(*eq, *sim),
            scheme.cfl_ok(*eq, *sim),
            j <= n,
            out@.len() == j,
            forall|i: int|
                0 <= i < j ==> (#[trigger] out@[i])@ == new_state_at(*scheme, *eq, *sim, i)
                    && out@[i].wf(),
            forall|i: int| 0 <= i < j ==> #[trigger] run_fit_at(*scheme, *eq, *sim, i),
        decreases n - j,
    {
        let t = match hp[j].checked_sub(hn[j]) {
            Some(t) => t,
            None => {
                proof {
                    assert(hp@[j as int]@ == scheme.hp_at(*eq, *sim, j as int));
                    assert(!rv_fits(rv_sub(
                        scheme.hp_at(*eq, *sim, j as int),
                        scheme.hm_at(*eq, *sim, j as int),
                    )));
                    assert(!run_fit_at(*scheme, *eq, *sim, j as int));
                    assert(!run_fits(*scheme, *eq, *sim));
                }
                return Err(SimError::Overflow);
            },
        };
        let t2 = match lam.checked_mul(t) {
            Some(t2) => t2,
            None => {
                proof {
                    assert(t@ == rv_sub(
                        scheme.hp_at(*eq, *sim, j as int),
                        scheme.hm_at(*eq, *sim, j as int),
                    ));
                    assert(!rv_fits(rv_mul(lam_of(*sim), t@)));
                    assert(!run_fit_at(*scheme, *eq, *sim, j as int));
                    assert(!run_fits(*scheme, *eq, *sim));
                }
                return Err(SimError::Overflow);
            },
        };
        let nv = match sim.state[j].checked_sub(t2) {
            Some(nv) => nv,
            None => {
                proof {
                    assert(vals(sim.state@)[j as int] == sim.state@[j as int]@);
                    assert(!run_fit_at(*scheme, *eq, *sim, j as int));
                    assert(!run_fits(*scheme, *eq, *sim));
                }
                return Err(SimError::Overflow);
            },
        };
        proof {
            assert(vals(sim.state@)[j as int] == sim.state@[j as int]@);
            assert(run_fit_at(*scheme, *eq, *sim, j as int));
        }
        out.push(nv);
        j += 1;
    }
    proof {
        assert(run_fits(*scheme, *eq, *sim));
    }
    Ok(out)
}

} // verus!

verus! {

/// First-order upwind: the flux follows the sign of the local
/// characteristic speed.
#[derive(Clone, Copy, Debug)]
pub struct Upwind;

impl<E: Equation> Scheme<E> for Upwind {
    open spec fn wf(&self) -> bool {
        true
    }

    open spec fn halo(&self) -> nat {
        1
    }

    open spec fn hm_at(&self, eq: E, s: Simluation, j: int) -> Rv {
        let u = uext(s, 1);
        let f = fext(eq, s, 1);
        if rv_lt(vneg_at(eq, lam_of(s), u, f, 0, j), rv_int(0)) {
            f[j + 1]
        } else {
            f[j]
        }
    }

    open spec fn hp_at(&self, eq: E, s: Simluation, j: int) -> Rv {
        let u = uext(s, 1);
        let f = fext(eq, s, 1);
        if rv_lt(rv_int(0), vpos_at(eq, lam_of(s), u, f, j)) {
            f[j + 1]
        } else {
            f[j + 2]
        }
    }

    open spec fn flux_ok(&self, eq: E, s: Simluation) -> bool {
        speed_fits(eq, s, 0)
    }

    open spec fn cfl_ok(&self, eq: E, s: Simluation) -> bool {
        speed_bounded(eq, s, 0)
    }

    fn flux(&self, sim: &Simluation, eq: &E) -> (r: Result<(Vec<Rat>, Vec<Rat>), SimError>) {
        let n = sim.len();
        let f = match sim.get_f(eq, 1) {
            Ok(f) => f,
            Err(_) => {
                proof {
                    assert(uext(*sim, (0 + 1) as nat) == ext_seq(vals(sim.state@), sim.boundary, 1));
                    assert(!(forall|i: int|
                        0 <= i < sim.state@.len() + 2 * (0 + 1) ==> eq.f_ok(
                            #[trigger] uext(*sim, (0 + 1) as nat)[i],
                        )));
                    assert(!speed_fits(*eq, *sim, 0));
                }
                return Err(SimError::Overflow);
            },
        };
        let sp = match speed(sim, eq, 0) {
            Ok(sp) => sp,
            Err(e) => {
                return Err(e);
            },
        };
        let (vn, vp) = sp;
        let zero = Rat::from_int(0);
        let ghost uv = uext(*sim, 1);
        let ghost fv = fext(*eq, *sim, 1);
        let mut hn: Vec<Rat> = Vec::new();
        let mut hp: Vec<Rat> = Vec::new();
        let mut j: usize = 0;
        while j < n
            invariant
                sim.wf(),
                eq.wf(),
                n == sim.state@.len(),
                1 <= n,
                n + 2 <= usize::MAX,
                uv == uext(*sim, 1),
                fv == fext(*eq, *sim, 1),
                f@.len() == n + 2,
                vals(f@) == fv,
                all_wf(f@),
                vn@.len() == n,
                vp@.len() == n,
                all_wf(vn@),
                all_wf(vp@),
                forall|i: int|
                    0 <= i < n ==> (#[trigger] vn@[i])@ == vneg_at(*eq, lam_of(*sim), uv, fv, 0, i)
                        && vp@[i]@ == vpos_at(*eq, lam_of(*sim), uv, fv, i),
                lam_ok(*sim),
                speed_fits(*eq, *sim, 0),
                speed_bounded(*eq, *sim, 0),
                zero.wf(),
                zero@ == rv_int(0),
                j <= n,
                hn@.len() == j,
                hp@.len() == j,
                forall|i: int|
                    0 <= i < j ==> (#[trigger] hn@[i])@ == self.hm_at(*eq, *sim, i) && hn@[i].wf(),
                forall|i: int|
                    0 <= i < j ==> (#[trigger] hp@[i])@ == self.hp_at(*eq, *sim, i) && hp@[i].wf(),
            decreases n - j,
        {
            let hp_j = if zero.lt(&vp[j]) {
                f[j + 1]
            } else {
                f[j + 2]
            };
            let hn_j = if vn[j].lt(&zero) {
                f[j + 1]
            } else {
                f[j]
            };
            proof {
                assert(vals(f@)[j as int] == f@[j as int]@);
                assert(vals(f@)[j as int + 1] == f@[j as int + 1]@);
                assert(vals(f@)[j as int + 2] == f@[j as int + 2]@);
            }
            hn.push(hn_j);
            hp.push(hp_j);
            j += 1;
        }
        Ok((hn, hp))
    }
}

} // verus!

verus! {

/// The Lax-Friedrichs interface flux
/// `((fa + fb) - lam * (ua - ub)) / 2`.
pub open spec fn lf_val(lam: Rv, fa: Rv, fb: Rv, ua: Rv, ub: Rv) -> Rv {
    rv_div(rv_sub(rv_add(fa, fb), rv_mul(lam, rv_sub(ua, ub))), rv_int(2))
}

/// The machine-range conditions of computing `lf_val`.
pub open spec fn lf_fits(lam: Rv, fa: Rv, fb: Rv, ua: Rv, ub: Rv) -> bool {
    &&& rv_fits(rv_add(fa, fb))
    &&& rv_fits(rv_sub(ua, ub))
    &&& rv_fits(rv_mul(lam, rv_sub(ua, ub)))
    &&& rv_fits(rv_sub(rv_add(fa, fb), rv_mul(lam, rv_sub(ua, ub))))
    &&& rv_fits(lf_val(lam, fa, fb, ua, ub))
}

/// Both Lax-Friedrichs interface fluxes of cell `j` stay in range.
pub open spec fn lf_fit_at<E: Equation>(eq: E, s: Simluation, j: int) -> bool {
    let u = uext(s, 1);
    let f = fext(eq, s, 1);
    &&& lf_fits(lam_of(s), f[j + 1], f[j], u[j + 1], u[j])
    &&& lf_fits(lam_of(s), f[j + 2], f[j + 1], u[j + 2], u[j + 1])
}

fn lf_exec(lam: Rat, fa: Rat, fb: Rat, ua: Rat, ub: Rat) -> (r: Option<Rat>)
    requires
        lam.wf(),
        fa.wf(),
        fb.wf(),
        ua.wf(),
        ub.wf(),
    ensures
        r is Some <==> lf_fits(lam@, fa@, fb@, ua@, ub@),
        r matches Some(c) ==> c@ == lf_val(lam@, fa@, fb@, ua@, ub@) && c.wf(),
{
    let a = match fa.checked_add(fb) {
        Some(a) => a,
        None => {
            return None;
        },
    };
    let d = match ua.checked_sub(ub) {
        Some(d) => d,
        None => {
            return None;
        },
    };
    let m = match lam.checked_mul(d) {
        Some(m) => m,
        None => {
            return None;
        },
    };
    let e = match a.checked_sub(m) {
        Some(e) => e,
        None => {
            return None;
        },
    };
    let two = Rat::from_int(2);
    e.checked_div(two)
}

/// Lax-Friedrichs: first-order, centered, strongly diffusive.
#[derive(Clone, Copy, Debug)]
pub struct LaxFriedrichs;

impl<E: Equation> Scheme<E> for LaxFriedrichs {
    open spec fn wf(&self) -> bool {
        true
    }

    open spec fn halo(&self) -> nat {
        1
    }

    open spec fn hm_at(&self, eq: E, s: Simluation, j: int) -> Rv {
        let u = uext(s, 1);
        let f = fext(eq, s, 1);
        lf_val(lam_of(s), f[j + 1], f[j], u[j + 1], u[j])
    }

    open spec fn hp_at(&self, eq: E, s: Simluation, j: int) -> Rv {
        let u = uext(s, 1);
        let f = fext(eq, s, 1);
        lf_val(lam_of(s), f[j + 2], f[j + 1], u[j + 2], u[j + 1])
    }

    open spec fn flux_ok(&self, eq: E, s: Simluation) -> bool {
        speed_fits(eq, s, 0) && (forall|j: int|
            0 <= j < s.state@.len() ==> #[trigger] lf_fit_at(eq, s, j))
    }

    open spec fn cfl_ok(&self, eq: E, s: Simluation) -> bool {
        speed_bounded(eq, s, 0)
    }

    fn flux(&self, sim: &Simluation, eq: &E) -> (r: Result<(Vec<Rat>, Vec<Rat>), SimError>) {
        let n = sim.len();
        let u = sim.get_u(1);
        let f = match sim.get_f(eq, 1) {
            Ok(f) => f,
            Err(_) => {
                proof {
                    assert(uext(*sim, (0 + 1) as nat) == ext_seq(
                        vals(sim.state@),
                        sim.boundary,
                        1,
                    ));
                    assert(!(forall|i: int|
                        0 <= i < sim.state@.len() + 2 * (0 + 1) ==> eq.f_ok(
                            #[trigger] uext(*sim, (0 + 1) as nat)[i],
                        )));
                    assert(!speed_fits(*eq, *sim, 0));
                }
                return Err(SimError::Overflow);
            },
        };
        let lam = match sim.dt_over_dx() {
            Some(l) => l,
            None => {
                return Err(SimError::Overflow);
            },
        };
        match speed(sim, eq, 0) {
            Ok(_) => (),
            Err(e) => {
                return Err(e);
            },
        };
        let ghost uv = uext(*sim, 1);
        let ghost fv = fext(*eq, *sim, 1);
        proof {
            assert(uv == uext(*sim, (0 + 1) as nat));
        }
        let mut hn: Vec<Rat> = Vec::new();
        let mut hp: Vec<Rat> = Vec::new();
        let mut j: usize = 0;
        while j < n
            invariant
                sim.wf(),
                eq.wf(),
                n == sim.state@.len(),
                1 <= n,
                n + 2 <= usize::MAX,
                uv == uext(*sim, 1),
                fv == fext(*eq, *sim, 1),
                u@.len() == n + 2,
                f@.len() == n + 2,
                vals(u@) == uv,
                vals(f@) == fv,
                all_wf(u@),
                all_wf(f@),
                lam.wf(),
                lam@ == lam_of(*sim),
                lam_ok(*sim),
                speed_fits(*eq, *sim, 0),
                speed_bounded(*eq, *sim, 0),
                j <= n,
                hn@.len() == j,
                hp@.len() == j,
                forall|i: int|
                    0 <= i < j ==> (#[trigger] hn@[i])@ == self.hm_at(*eq, *sim, i) && hn@[i].wf(),
                forall|i: int|
                    0 <= i < j ==> (#[trigger] hp@[i])@ == self.hp_at(*eq, *sim, i) && hp@[i].wf(),
                forall|i: int| 0 <= i < j ==> #[trigger] lf_fit_at(*eq, *sim, i),
            decreases n - j,
        {
            proof {
                assert(vals(f@)[j as int] == f@[j as int]@);
                assert(vals(f@)[j as int + 1] == f@[j as int + 1]@);
                assert(vals(f@)[j as int + 2] == f@[j as int + 2]@);
                assert(vals(u@)[j as int] == u@[j as int]@);
                assert(vals(u@)[j as int + 1] == u@[j as int + 1]@);
                assert(vals(u@)[j as int + 2] == u@[j as int + 2]@);
            }
            let hn_j = match lf_exec(lam, f[j + 1], f[j], u[j + 1], u[j]) {
                Some(h) => h,
                None => {
                    proof {
                        assert(!lf_fit_at(*eq, *sim, j as int));
                    }
                    return Err(SimError::Overflow);
                },
            };
            let hp_j = match lf_exec(lam, f[j + 2], f[j + 1], u[j + 2], u[j + 1]) {
                Some(h) => h,
                None => {
                    proof {
                        assert(!lf_fit_at(*eq, *sim, j as int));
                    }
                    return Err(SimError::Overflow);
                },
            };
            proof {
                assert(lf_fit_at(*eq, *sim, j as int));
            }
            hn.push(hn_j);
            hp.push(hp_j);
            j += 1;
        }
        Ok((hn, hp))
    }
}

} // verus!

verus! {

/// The Lax-Wendroff intermediate state
/// `((ua + ub) - lam * (fa - fb)) / 2`; the interface flux is the
/// equation's flux of this value.
pub open spec fn lw_arg(lam: Rv, ua: Rv, ub: Rv, fa: Rv, fb: Rv) -> Rv {
    rv_div(rv_sub(rv_add(ua, ub), rv_mul(lam, rv_sub(fa, fb))), rv_int(2))
}

/// The machine-range conditions of computing the Lax-Wendroff flux.
pub open spec fn lw_fits<E: Equation>(eq: E, lam: Rv, ua: Rv, ub: Rv, fa: Rv, fb: Rv) -> bool {
    &&& rv_fits(rv_add(ua, ub))
    &&& rv_fits(rv_sub(fa, fb))
    &&& rv_fits(rv_mul(lam, rv_sub(fa, fb)))
    &&& rv_fits(rv_sub(rv_add(ua, ub), rv_mul(lam, rv_sub(fa, fb))))
    &&& rv_fits(lw_arg(lam, ua, ub, fa, fb))
    &&& eq.f_ok(lw_arg(lam, ua, ub, fa, fb))
}

/// Both Lax-Wendroff interface fluxes of cell `j` stay in range.
pub open spec fn lw_fit_at<E: Equation>(eq: E, s: Simluation, j: int) -> bool {
    let u = uext(s, 1);
    let f = fext(eq, s, 1);
    &&& lw_fits(eq, lam_of(s), u[j + 1], u[j], f[j + 1], f[j])
    &&& lw_fits(eq, lam_of(s), u[j + 2], u[j + 1], f[j + 2], f[j + 1])
}

fn lw_exec<E: Equation>(eq: &E, lam: Rat, ua: Rat, ub: Rat, fa: Rat, fb: Rat) -> (r: Option<Rat>)
    requires
        eq.wf(),
        lam.wf(),
        ua.wf(),
        ub.wf(),
        fa.wf(),
        fb.wf(),
    ensures
        r is Some <==> lw_fits(*eq, lam@, ua@, ub@, fa@, fb@),
        r matches Some(c) ==> c@ == eq.spec_f(lw_arg(lam@, ua@, ub@, fa@, fb@)) && c.wf(),
{
    let a = match ua.checked_add(ub) {
        Some(a) => a,
        None => {
            return None;
        },
    };
    let d = match fa.checked_sub(fb) {
        Some(d) => d,
        None => {
            return None;
        },
    };
    let m = match lam.checked_mul(d) {
        Some(m) => m,
        None => {
            return None;
        },
    };
    let e = match a.checked_sub(m) {
        Some(e) => e,
        None => {
            return None;
        },
    };
    let two = Rat::from_int(2);
    let mid = match e.checked_div(two) {
        Some(mid) => mid,
        None => {
            return None;
        },
    };
    eq.f(mid)
}

/// Lax-Wendroff: second-order, centered, oscillatory near
/// discontinuities. The shared speed estimator is still consulted for the
/// CFL bound.
#[derive(Clone, Copy, Debug)]
pub struct LaxWendroff;

impl<E: Equation> Scheme<E> for LaxWendroff {
    open spec fn wf(&self) -> bool {
        true
    }

    open spec fn halo(&self) -> nat {
        1
    }

    open spec fn hm_at(&self, eq: E, s: Simluation, j: int) -> Rv {
        let u = uext(s, 1);
        let f = fext(eq, s, 1);
        eq.spec_f(lw_arg(lam_of(s), u[j + 1], u[j], f[j + 1], f[j]))
    }

    open spec fn hp_at(&self, eq: E, s: Simluation, j: int) -> Rv {
        let u = uext(s, 1);
        let f = fext(eq, s, 1);
        eq.spec_f(lw_arg(lam_of(s), u[j + 2], u[j + 1], f[j + 2], f[j + 1]))
    }

    open spec fn flux_ok(&self, eq: E, s: Simluation) -> bool {
        speed_fits(eq, s, 0) && (forall|j: int|
            0 <= j < s.state@.len() ==> #[trigger] lw_fit_at(eq, s, j))
    }

    open spec fn cfl_ok(&self, eq: E, s: Simluation) -> bool {
        speed_bounded(eq, s, 0)
    }

    fn flux(&self, sim: &Simluation, eq: &E) -> (r: Result<(Vec<Rat>, Vec<Rat>), SimError>) {
        let n = sim.len();
        let u = sim.get_u(1);
        let f = match sim.get_f(eq, 1) {
            Ok(f) => f,
            Err(_) => {
                proof {
                    assert(uext(*sim, (0 + 1) as nat) == ext_seq(
                        vals(sim.state@),
                        sim.boundary,
                        1,
                    ));
                    assert(!(forall|i: int|
                        0 <= i < sim.state@.len() + 2 * (0 + 1) ==> eq.f_ok(
                            #[trigger] uext(*sim, (0 + 1) as nat)[i],
                        )));
                    assert(!speed_fits(*eq, *sim, 0));
                }
                return Err(SimError::Overflow);
            },
        };
        let lam = match sim.dt_over_dx() {
            Some(l) => l,
            None => {
                return Err(SimError::Overflow);
            },
        };
        match speed(sim, eq, 0) {
            Ok(_) => (),
            Err(e) => {
                return Err(e);
            },
        };
        let ghost uv = uext(*sim, 1);
        let ghost fv = fext(*eq, *sim, 1);
        proof {
            assert(uv == uext(*sim, (0 + 1) as nat));
        }
        let mut hn: Vec<Rat> = Vec::new();
        let mut hp: Vec<Rat> = Vec::new();
        let mut j: usize = 0;
        while j < n
            invariant
                sim.wf(),
                eq.wf(),
                n == sim.state@.len(),
                1 <= n,
                n + 2 <= usize::MAX,
                uv == uext(*sim, 1),
                fv == fext(*eq, *sim, 1),
                u@.len() == n + 2,
                f@.len() == n + 2,
                vals(u@) == uv,
                vals(f@) == fv,
                all_wf(u@),
                all_wf(f@),
                lam.wf(),
                lam@ == lam_of(*sim),
                lam_ok(*sim),
                speed_fits(*eq, *sim, 0),
                speed_bounded(*eq, *sim, 0),
                j <= n,
                hn@.len() == j,
                hp@.len() == j,
                forall|i: int|
                    0 <= i < j ==> (#[trigger] hn@[i])@ == self.hm_at(*eq, *sim, i) && hn@[i].wf(),
                forall|i: int|
                    0 <= i < j ==> (#[trigger] hp@[i])@ == self.hp_at(*eq, *sim, i) && hp@[i].wf(),
                forall|i: int| 0 <= i < j ==> #[trigger] lw_fit_at(*eq, *sim, i),
            decreases n - j,
        {
            proof {
                assert(vals(f@)[j as int] == f@[j as int]@);
                assert(vals(f@)[j as int + 1] == f@[j as int + 1]@);
                assert(vals(f@)[j as int + 2] == f@[j as int + 2]@);
                assert(vals(u@)[j as int] == u@[j as int]@);
                assert(vals(u@)[j as int + 1] == u@[j as int + 1]@);
                assert(vals(u@)[j as int + 2] == u@[j as int + 2]@);
            }
            let hn_j = match lw_exec(eq, lam, u[j + 1], u[j], f[j + 1], f[j]) {
                Some(h) => h,
                None => {
                    proof {
                        assert(!lw_fit_at(*eq, *sim, j as int));
                    }
                    return Err(SimError::Overflow);
                },
            };
            let hp_j = match lw_exec(eq, lam, u[j + 2], u[j + 1], f[j + 2], f[j + 1]) {
                Some(h) => h,
                None => {
                    proof {
                        assert(!lw_fit_at(*eq, *sim, j as int));
                    }
                    return Err(SimError::Overflow);
                },
            };
            proof {
                assert(lw_fit_at(*eq, *sim, j as int));
            }
            hn.push(hn_j);
            hp.push(hp_j);
            j += 1;
        }
        Ok((hn, hp))
    }
}

} // verus!

verus! {

/// The Beam-Warming upwind-biased interface flux
/// `((3 x - y) - v * (x - y)) / 2`.
pub open spec fn bw_up_val(v: Rv, x: Rv, y: Rv) -> Rv {
    rv_div(rv_sub(rv_sub(rv_mul(rv_int(3), x), y), rv_mul(v, rv_sub(x, y))), rv_int(2))
}

/// The mirrored Beam-Warming interface flux
/// `((3 x - y) - v * (y - x)) / 2`.
pub open spec fn bw_dn_val(v: Rv, x: Rv, y: Rv) -> Rv {
    rv_div(rv_sub(rv_sub(rv_mul(rv_int(3), x), y), rv_mul(v, rv_sub(y, x))), rv_int(2))
}

pub open spec fn bw_up_fits(v: Rv, x: Rv, y: Rv) -> bool {
    &&& rv_fits(rv_mul(rv_int(3), x))
    &&& rv_fits(rv_sub(rv_mul(rv_int(3), x), y))
    &&& rv_fits(rv_sub(x, y))
    &&& rv_fits(rv_mul(v, rv_sub(x, y)))
    &&& rv_fits(rv_sub(rv_sub(rv_mul(rv_int(3), x), y), rv_mul(v, rv_sub(x, y))))
    &&& rv_fits(bw_up_val(v, x, y))
}

pub open spec fn bw_dn_fits(v: Rv, x: Rv, y: Rv) -> bool {
    &&& rv_fits(rv_mul(rv_int(3), x))
    &&& rv_fits(rv_sub(rv_mul(rv_int(3), x), y))
    &&& rv_fits(rv_sub(y, x))
    &&& rv_fits(rv_mul(v, rv_sub(y, x)))
    &&& rv_fits(rv_sub(rv_sub(rv_mul(rv_int(3), x), y), rv_mul(v, rv_sub(y, x))))
    &&& rv_fits(bw_dn_val(v, x, y))
}

/// Both Beam-Warming interface fluxes of cell `j` stay in range, in
/// whichever branch the speed signs select.
pub open spec fn bw_fit_at<E: Equation>(eq: E, s: Simluation, j: int) -> bool {
    let u = uext(s, 2);
    let f = fext(eq, s, 2);
    let lam = lam_of(s);
    &&& (if rv_lt(rv_int(0), vneg_at(eq, lam, u, f, 1, j + 1)) {
        bw_up_fits(vneg_at(eq, lam, u, f, 1, j), f[j + 1], f[j])
    } else {
        bw_dn_fits(vpos_at(eq, lam, u, f, j + 1), f[j + 2], f[j + 3])
    })
    &&& (if rv_lt(rv_int(0), vpos_at(eq, lam, u, f, j + 1)) {
        bw_up_fits(vneg_at(eq, lam, u, f, 1, j + 1), f[j + 2], f[j + 1])
    } else {
        bw_dn_fits(vpos_at(eq, lam, u, f, j + 2), f[j + 3], f[j + 4])
    })
}

fn bw_up_exec(v: Rat, x: Rat, y: Rat) -> (r: Option<Rat>)
    requires
        v.wf(),
        x.wf(),
        y.wf(),
    ensures
        r is Some <==> bw_up_fits(v@, x@, y@),
        r matches Some(c) ==> c@ == bw_up_val(v@, x@, y@) && c.wf(),
{
    let three = Rat::from_int(3);
    let a = match three.checked_mul(x) {
        Some(a) => a,
        None => {
            return None;
        },
    };
    let b = match a.checked_sub(y) {
        Some(b) => b,
        None => {
            return None;
        },
    };
    let d = match x.checked_sub(y) {
        Some(d) => d,
        None => {
            return None;
        },
    };
    let m = match v.checked_mul(d) {
        Some(m) => m,
        None => {
            return None;
        },
    };
    let e = match b.checked_sub(m) {
        Some(e) => e,
        None => {
            return None;
        },
    };
    let two = Rat::from_int(2);
    e.checked_div(two)
}

fn bw_dn_exec(v: Rat, x: Rat, y: Rat) -> (r: Option<Rat>)
    requires
        v.wf(),
        x.wf(),
        y.wf(),
    ensures
        r is Some <==> bw_dn_fits(v@, x@, y@),
        r matches Some(c) ==> c@ == bw_dn_val(v@, x@, y@) && c.wf(),
{
    let three = Rat::from_int(3);
    let a = match three.checked_mul(x) {
        Some(a) => a,
        None => {
            return None;
        },
    };
    let b = match a.checked_sub(y) {
        Some(b) => b,
        None => {
            return None;
        },
    };
    let d = match y.checked_sub(x) {
        Some(d) => d,
        None => {
            return None;
        },
    };
    let m = match v.checked_mul(d) {
        Some(m) => m,
        None => {
            return None;
        },
    };
    let e = match b.checked_sub(m) {
        Some(e) => e,
        None => {
            return None;
        },
    };
    let two = Rat::from_int(2);
    e.checked_div(two)
}

/// Beam-Warming: second-order upwind-biased extrapolation. The flux of
/// each cell needs speeds at three adjacent interfaces.
#[derive(Clone, Copy, Debug)]
pub struct BeamWarming;

impl<E: Equation> Scheme<E> for BeamWarming {
    open spec fn wf(&self) -> bool {
        true
    }

    open spec fn halo(&self) -> nat {
        2
    }

    open spec fn hm_at(&self, eq: E, s: Simluation, j: int) -> Rv {
        let u = uext(s, 2);
        let f = fext(eq, s, 2);
        let lam = lam_of(s);
        if rv_lt(rv_int(0), vneg_at(eq, lam, u, f, 1, j + 1)) {
            bw_up_val(vneg_at(eq, lam, u, f, 1, j), f[j + 1], f[j])
        } else {
            bw_dn_val(vpos_at(eq, lam, u, f, j + 1), f[j + 2], f[j + 3])
        }
    }

    open spec fn hp_at(&self, eq: E, s: Simluation, j: int) -> Rv {
        let u = uext(s, 2);
        let f = fext(eq, s, 2);
        let lam = lam_of(s);
        if rv_lt(rv_int(0), vpos_at(eq, lam, u, f, j + 1)) {
            bw_up_val(vneg_at(eq, lam, u, f, 1, j + 1), f[j + 2], f[j + 1])
        } else {
            bw_dn_val(vpos_at(eq, lam, u, f, j + 2), f[j + 3], f[j + 4])
        }
    }

    open spec fn flux_ok(&self, eq: E, s: Simluation) -> bool {
        speed_fits(eq, s, 1) && (forall|j: int|
            0 <= j < s.state@.len() ==> #[trigger] bw_fit_at(eq, s, j))
    }

    open spec fn cfl_ok(&self, eq: E, s: Simluation) -> bool {
        speed_bounded(eq, s, 1)
    }

    fn flux(&self, sim: &Simluation, eq: &E) -> (r: Result<(Vec<Rat>, Vec<Rat>), SimError>) {
        let n = sim.len();
        let f = match sim.get_f(eq, 2) {
            Ok(f) => f,
            Err(_) => {
                proof {
                    assert(uext(*sim, (1 + 1) as nat) == ext_seq(
                        vals(sim.state@),
                        sim.boundary,
                        2,
                    ));
                    assert(!(forall|i: int|
                        0 <= i < sim.state@.len() + 2 * (1 + 1) ==> eq.f_ok(
                            #[trigger] uext(*sim, (1 + 1) as nat)[i],
                        )));
                    assert(!speed_fits(*eq, *sim, 1));
                }
                return Err(SimError::Overflow);
            },
        };
        let sp = match speed(sim, eq, 1) {
            Ok(sp) => sp,
            Err(e) => {
                return Err(e);
            },
        };
        let ghost spg = sp;
        let (vn, vp) = sp;
        let zero = Rat::from_int(0);
        let ghost uv = uext(*sim, 2);
        let ghost fv = fext(*eq, *sim, 2);
        proof {
            assert(uv == uext(*sim, (1 + 1) as nat));
            assert(vn@ == spg.0@ && vp@ == spg.1@);
            assert forall|i: int| 0 <= i < sim.state@.len() + 2 implies (#[trigger] vp@[i])@
                == vpos_at(*eq, lam_of(*sim), uv, fv, i) && (vn@[i])@ == vneg_at(
                *eq,
                lam_of(*sim),
                uv,
                fv,
                1,
                i,
            ) by {
                assert((spg.0@[i])@ == vneg_at(*eq, lam_of(*sim), uv, fv, 1, i) && spg.1@[i]@
                    == vpos_at(*eq, lam_of(*sim), uv, fv, i));
            }
        }
        let mut hn: Vec<Rat> = Vec::new();
        let mut hp: Vec<Rat> = Vec::new();
        let mut j: usize = 0;
        while j < n
            invariant
                sim.wf(),
                eq.wf(),
                n == sim.state@.len(),
                2 <= n,
                n + 4 <= usize::MAX,
                uv == uext(*sim, 2),
                fv == fext(*eq, *sim, 2),
                f@.len() == n + 4,
                vals(f@) == fv,
                all_wf(f@),
                vn@.len() == n + 2,
                vp@.len() == n + 2,
                all_wf(vn@),
                all_wf(vp@),
                forall|i: int|
                    0 <= i < n + 2 ==> (#[trigger] vn@[i])@ == vneg_at(*eq, lam_of(*sim), uv, fv, 1, i),
                forall|i: int|
                    0 <= i < n + 2 ==> (#[trigger] vp@[i])@ == vpos_at(*eq, lam_of(*sim), uv, fv, i),
                lam_ok(*sim),
                speed_fits(*eq, *sim, 1),
                speed_bounded(*eq, *sim, 1),
                zero.wf(),
                zero@ == rv_int(0),
                j <= n,
                hn@.len() == j,
                hp@.len() == j,
                forall|i: int|
                    0 <= i < j ==> (#[trigger] hn@[i])@ == self.hm_at(*eq, *sim, i) && hn@[i].wf(),
                forall|i: int|
                    0 <= i < j ==> (#[trigger] hp@[i])@ == self.hp_at(*eq, *sim, i) && hp@[i].wf(),
                forall|i: int| 0 <= i < j ==> #[trigger] bw_fit_at(*eq, *sim, i),
            decreases n - j,
        {
            proof {
                assert(vals(f@)[j as int] == f@[j as int]@);
                assert(vals(f@)[j as int + 1] == f@[j as int + 1]@);
                assert(vals(f@)[j as int + 2] == f@[j as int + 2]@);
                assert(vals(f@)[j as int + 3] == f@[j as int + 3]@);
                assert(vals(f@)[j as int + 4] == f@[j as int + 4]@);
            }
            let hn_j = if zero.lt(&vn[j + 1]) {
                match bw_up_exec(vn[j], f[j + 1], f[j]) {
                    Some(h) => h,
                    None => {
                        proof {
                            assert(!bw_fit_at(*eq, *sim, j as int));
                        }
                        return Err(SimError::Overflow);
                    },
                }
            } else {
                match bw_dn_exec(vp[j + 1], f[j + 2], f[j + 3]) {
                    Some(h) => h,
                    None => {
                        proof {
                            assert(!bw_fit_at(*eq, *sim, j as int));
                        }
                        return Err(SimError::Overflow);
                    },
                }
            };
            let hp_j = if zero.lt(&vp[j + 1]) {
                match bw_up_exec(vn[j + 1], f[j + 2], f[j + 1]) {
                    Some(h) => h,
                    None => {
                        proof {
                            assert(!bw_fit_at(*eq, *sim, j as int));
                        }
                        return Err(SimError::Overflow);
                    },
                }
            } else {
                match bw_dn_exec(vp[j + 2], f[j + 3], f[j + 4]) {
                    Some(h) => h,
                    None => {
                        proof {
                            assert(!bw_fit_at(*eq, *sim, j as int));
                        }
                        return Err(SimError::Overflow);
                    },
                }
            };
            proof {
                assert(bw_fit_at(*eq, *sim, j as int));
            }
            hn.push(hn_j);
            hp.push(hp_j);
            j += 1;
        }
        Ok((hn, hp))
    }
}

} // verus!
