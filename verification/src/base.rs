//! The discretized grid/state container and the equation abstraction.
//!
//! A `Simluation` owns the uniform grid, the current state vector, the fixed
//! `dx` and `dt`, and the boundary-extension policy. Its state is only ever
//! replaced wholesale (`set_state`), never mutated in place, and the
//! halo-padded views (`get_u`, `get_f`) are recomputed on demand.

use vstd::prelude::*;

use crate::rational::{
    rv_add, rv_div, rv_eq, rv_fits, rv_int, rv_lt, rv_mul, rv_wf, Rat, Rv,
};

verus! {

/// How the state is extended past the physical boundary: wrap around, or
/// hold the two edges at fixed values.
#[derive(Clone, Copy, Debug)]
pub enum Boundary {
    Periodic,
    Dirichlet(Rat, Rat),
}

pub open spec fn boundary_wf(b: Boundary) -> bool {
    match b {
        Boundary::Periodic => true,
        Boundary::Dirichlet(l, r) => l.wf() && r.wf(),
    }
}

/// Everything that can go wrong in the engine. `CflViolation` is
/// recoverable: the caller may shrink `dt` and retry the step. `Overflow`
/// reports an exact rational that left the machine range.
#[derive(Clone, Copy, Debug, PartialEq, Eq, Structural)]
pub enum SimError {
    ConfigurationError,
    LengthMismatchError,
    CflViolation,
    Overflow,
}

/// The views of a sequence of machine rationals.
pub open spec fn vals(s: Seq<Rat>) -> Seq<Rv> {
    s.map_values(|x: Rat| x@)
}

pub open spec fn all_wf(s: Seq<Rat>) -> bool {
    forall|i: int| 0 <= i < s.len() ==> (#[trigger] s[i]).wf()
}

/// The halo-padded extension of `s` by `k` slots on each side. Under
/// `Periodic` the left pad mirrors the right end by wrap distance and the
/// right pad the left end; under `Dirichlet` each pad broadcasts its
/// constant.
pub open spec fn ext_seq(s: Seq<Rv>, b: Boundary, k: nat) -> Seq<Rv> {
    Seq::new(
        s.len() + 2 * k,
        |i: int|
            if i < k {
                match b {
                    Boundary::Periodic => s[s.len() - k + i],
                    Boundary::Dirichlet(l, _) => l@,
                }
            } else if i < k + s.len() {
                s[i - k]
            } else {
                match b {
                    Boundary::Periodic => s[i - k - s.len()],
                    Boundary::Dirichlet(_, r) => r@,
                }
            },
    )
}

/// A conservation law `u_t + f(u)_x = 0`: the flux `f` and its derivative
/// `df`, exact over the rationals. `spec_f`/`spec_df` are the mathematical
/// functions; `f_ok`/`df_ok` say on which inputs the machine computation
/// stays in range.
pub trait Equation: Sized {
    spec fn wf(&self) -> bool;

    spec fn spec_f(&self, u: Rv) -> Rv;

    spec fn spec_df(&self, u: Rv) -> Rv;

    spec fn f_ok(&self, u: Rv) -> bool;

    spec fn df_ok(&self, u: Rv) -> bool;

    fn f(&self, u: Rat) -> (r: Option<Rat>)
        requires
            self.wf(),
            u.wf(),
        ensures
            r is Some <==> self.f_ok(u@),
            r matches Some(c) ==> c@ == self.spec_f(u@) && c.wf(),
    ;

    fn df(&self, u: Rat) -> (r: Option<Rat>)
        requires
            self.wf(),
            u.wf(),
        ensures
            r is Some <==> self.df_ok(u@),
            r matches Some(c) ==> c@ == self.spec_df(u@) && c.wf(),
    ;

    /// The flux and its derivative keep denominators positive.
    proof fn lemma_wf(&self, u: Rv)
        requires
            self.wf(),
            rv_wf(u),
        ensures
            rv_wf(self.spec_f(u)),
            rv_wf(self.spec_df(u)),
    ;

    /// The flux and its derivative respect value equality of fractions.
    proof fn lemma_congr(&self, u: Rv, v: Rv)
        requires
            self.wf(),
            rv_wf(u),
            rv_wf(v),
            rv_eq(u, v),
        ensures
            rv_eq(self.spec_f(u), self.spec_f(v)),
            rv_eq(self.spec_df(u), self.spec_df(v)),
    ;
}

/// The grid point `lo + i * dx`.
pub open spec fn grid_pt(lo: Rv, dx: Rv, i: int) -> Rv {
    rv_add(lo, rv_mul(rv_int(i), dx))
}

/// Whether grid construction gets as far as sample `i`: every earlier
/// sample lies strictly below `hi`.
pub open spec fn grid_reach(lo: Rv, dx: Rv, hi: Rv, i: int) -> bool {
    i >= 0 && (i == 0 || rv_lt(grid_pt(lo, dx, i - 1), hi))
}

/// Whether sample `i` itself can be computed and stored on the machine.
pub open spec fn grid_step_fits(lo: Rv, dx: Rv, i: int) -> bool {
    i <= i64::MAX && i < usize::MAX && rv_fits(rv_mul(rv_int(i), dx)) && rv_fits(
        grid_pt(lo, dx, i),
    )
}

/// Every sample the construction reaches can be computed on the machine.
pub open spec fn grid_fits(lo: Rv, dx: Rv, hi: Rv) -> bool {
    forall|i: int| grid_reach(lo, dx, hi, i) ==> #[trigger] grid_step_fits(lo, dx, i)
}

proof fn lemma_pt_lt(lo: Rv, dx: Rv, hi: Rv, i: int)
    requires
        rv_wf(lo),
        rv_wf(dx),
        rv_wf(hi),
        dx.n > 0,
    ensures
        rv_lt(grid_pt(lo, dx, i), hi) <==> i * (dx.n * (lo.d * hi.d)) < hi.n * (lo.d * dx.d)
            - lo.n * (dx.d * hi.d),
        dx.n * (lo.d * hi.d) > 0,
{
    let p = grid_pt(lo, dx, i);
    assert(p.n == lo.n * dx.d + (i * dx.n) * lo.d && p.d == lo.d * dx.d);
    assert(((i * dx.n) * lo.d) * hi.d == i * (dx.n * (lo.d * hi.d))) by (nonlinear_arith);
    assert((lo.n * dx.d) * hi.d == lo.n * (dx.d * hi.d)) by (nonlinear_arith);
    assert((lo.n * dx.d + (i * dx.n) * lo.d) * hi.d == (lo.n * dx.d) * hi.d + ((i * dx.n) * lo.d)
        * hi.d) by (nonlinear_arith);
    assert(dx.n * (lo.d * hi.d) > 0) by (nonlinear_arith)
        requires dx.n > 0 && lo.d > 0 && hi.d > 0;
}

/// One simulation: grid, state, step sizes, boundary policy.
pub struct Simluation {
    pub state: Vec<Rat>,
    pub dt: Rat,
    pub dx: Rat,
    pub grid: Vec<Rat>,
    pub boundary: Boundary,
}

impl Simluation {
    /// The container invariant: grid and state are index-aligned, every
    /// value is a well-formed rational, and the step sizes are positive.
    pub open spec fn wf(self) -> bool {
        &&& self.grid@.len() == self.state@.len()
        &&& all_wf(self.state@)
        &&& all_wf(self.grid@)
        &&& self.dt.wf()
        &&& self.dx.wf()
        &&& rv_lt(rv_int(0), self.dt@)
        &&& rv_lt(rv_int(0), self.dx@)
        &&& boundary_wf(self.boundary)
    }

    pub fn len(&self) -> (r: usize)
        ensures
            r == self.state@.len(),
    {
        self.state.len()
    }

    /// Replaces the whole state vector; rejects a vector of the wrong
    /// length and leaves the state unchanged in that case.
    pub fn set_state(&mut self, new_state: Vec<Rat>) -> (r: Result<(), SimError>)
        requires
            old(self).wf(),
            all_wf(new_state@),
        ensures
            final(self).wf(),
            r is Ok <==> new_state@.len() == old(self).state@.len(),
            r is Ok ==> final(self).state@ == new_state@,
            r is Err ==> *final(self) == *old(self) && r == Err::<(), SimError>(
                SimError::LengthMismatchError,
            ),
            final(self).grid == old(self).grid,
            final(self).dt == old(self).dt,
            final(self).dx == old(self).dx,
            final(self).boundary == old(self).boundary,
    {
        if new_state.len() != self.state.len() {
            return Err(SimError::LengthMismatchError);
        }
        self.state = new_state;
        Ok(())
    }

    /// The ratio `dt / dx`, exact, or `None` when it leaves the machine
    /// range.
    pub fn dt_over_dx(&self) -> (r: Option<Rat>)
        requires
            self.wf(),
        ensures
            r is Some <==> rv_fits(rv_div(self.dt@, self.dx@)),
            r matches Some(c) ==> c@ == rv_div(self.dt@, self.dx@) && c.wf(),
    {
        self.dt.checked_div(self.dx)
    }

    /// The state extended by `halo` ghost cells on each side.
    pub fn get_u(&self, halo: usize) -> (r: Vec<Rat>)
        requires
            self.wf(),
            self.boundary is Dirichlet || halo <= self.state@.len(),
            self.state@.len() + 2 * halo <= usize::MAX,
        ensures
            r@.len() == self.state@.len() + 2 * halo,
            vals(r@) == ext_seq(vals(self.state@), self.boundary, halo as nat),
            all_wf(r@),
    {
        let n = self.state.len();
        let ghost target = ext_seq(vals(self.state@), self.boundary, halo as nat);
        let mut v: Vec<Rat> = Vec::new();
        let mut j: usize = 0;
        while j < halo
            invariant
                self.wf(),
                self.boundary is Dirichlet || halo <= n,
                n == self.state@.len(),
                n + 2 * halo <= usize::MAX,
                j <= halo,
                v@.len() == j,
                target == ext_seq(vals(self.state@), self.boundary, halo as nat),
                forall|i: int| 0 <= i < j ==> (#[trigger] v@[i])@ == target[i] && v@[i].wf(),
            decreases halo - j,
        {
            let x = match &self.boundary {
                Boundary::Periodic => self.state[n - halo + j],
                Boundary::Dirichlet(l, _) => *l,
            };
            v.push(x);
            j += 1;
        }
        let mut i: usize = 0;
        while i < n
            invariant
                self.wf(),
                self.boundary is Dirichlet || halo <= n,
                n == self.state@.len(),
                n + 2 * halo <= usize::MAX,
                i <= n,
                v@.len() == halo + i,
                target == ext_seq(vals(self.state@), self.boundary, halo as nat),
                forall|k: int| 0 <= k < halo + i ==> (#[trigger] v@[k])@ == target[k] && v@[k].wf(),
            decreases n - i,
        {
            v.push(self.state[i]);
            i += 1;
        }
        let mut j: usize = 0;
        while j < halo
            invariant
                self.wf(),
                self.boundary is Dirichlet || halo <= n,
                n == self.state@.len(),
                n + 2 * halo <= usize::MAX,
                j <= halo,
                v@.len() == halo + n + j,
                target == ext_seq(vals(self.state@), self.boundary, halo as nat),
                forall|k: int| 0 <= k < halo + n + j ==> (#[trigger] v@[k])@ == target[k]
                    && v@[k].wf(),
            decreases halo - j,
        {
            let x = match &self.boundary {
                Boundary::Periodic => self.state[j],
                Boundary::Dirichlet(_, r) => *r,
            };
            v.push(x);
            j += 1;
        }
        proof {
            assert(vals(v@) =~= target);
        }
        v
    }

    /// The flux `f` applied to the state extended by `halo` ghost cells.
    pub fn get_f<E: Equation>(&self, eq: &E, halo: usize) -> (r: Result<Vec<Rat>, SimError>)
        requires
            self.wf(),
            eq.wf(),
            self.boundary is Dirichlet || halo <= self.state@.len(),
            self.state@.len() + 2 * halo <= usize::MAX,
        ensures
            r matches Ok(v) ==> {
                &&& v@.len() == self.state@.len() + 2 * halo
                &&& vals(v@) == ext_seq(vals(self.state@), self.boundary, halo as nat).map_values(
                    |u: Rv| eq.spec_f(u),
                )
                &&& all_wf(v@)
            },
            r is Ok <==> (forall|i: int|
                0 <= i < self.state@.len() + 2 * halo ==> eq.f_ok(
                    #[trigger] ext_seq(vals(self.state@), self.boundary, halo as nat)[i],
                )),
            r is Err ==> r == Err::<Vec<Rat>, SimError>(SimError::Overflow),
    {
        let u = self.get_u(halo);
        let ghost uv = ext_seq(vals(self.state@), self.boundary, halo as nat);
        let m = u.len();
        let mut v: Vec<Rat> = Vec::new();
        let mut i: usize = 0;
        while i < m
            invariant
                self.wf(),
                eq.wf(),
                m == uv.len(),
                uv == ext_seq(vals(self.state@), self.boundary, halo as nat),
                u@.len() == m,
                vals(u@) == uv,
                all_wf(u@),
                i <= m,
                v@.len() == i,
                forall|k: int| 0 <= k < i ==> (#[trigger] v@[k])@ == eq.spec_f(uv[k]) && v@[k].wf(),
                forall|k: int| 0 <= k < i ==> eq.f_ok(#[trigger] uv[k]),
            decreases m - i,
        {
            assert(u@[i as int]@ == uv[i as int]);
            match eq.f(u[i]) {
                Some(y) => {
                    v.push(y);
                },
                None => {
                    proof {
                        assert(vals(u@)[i as int] == u@[i as int]@);
                        assert(!eq.f_ok(u@[i as int]@));
                        assert(!eq.f_ok(
                            ext_seq(vals(self.state@), self.boundary, halo as nat)[i as int],
                        ));
                    }
                    return Err(SimError::Overflow);
                },
            }
            i += 1;
        }
        proof {
            assert(vals(v@) =~= uv.map_values(|x: Rv| eq.spec_f(x)));
            assert forall|k: int| 0 <= k < self.state@.len() + 2 * halo implies eq.f_ok(
                #[trigger] ext_seq(vals(self.state@), self.boundary, halo as nat)[k],
            ) by {
                assert(eq.f_ok(uv[k]));
            }
        }
        Ok(v)
    }

    /// Builds a simulation over `[lo, hi)`: samples `lo, lo + dx,
    /// lo + 2 dx, ...` while strictly below `hi`, applies `init` to each
    /// sample, and starts under the periodic boundary.
    pub fn new<F: Fn(Rat) -> Rat>(dx: Rat, dt: Rat, range: [Rat; 2], init: F) -> (r: Result<
        Simluation,
        SimError,
    >)
        requires
            dx.wf(),
            dt.wf(),
            range[0].wf(),
            range[1].wf(),
            forall|x: Rat| x.wf() ==> call_requires(init, (x,)),
            forall|x: Rat, y: Rat| call_ensures(init, (x,), y) ==> y.wf(),
        ensures
            r == Err::<Simluation, SimError>(SimError::ConfigurationError) <==> !(rv_lt(
                rv_int(0),
                dx@,
            ) && rv_lt(rv_int(0), dt@) && rv_lt(range[0]@, range[1]@)),
            r matches Ok(s) ==> {
                &&& s.wf()
                &&& s.dx == dx
                &&& s.dt == dt
                &&& s.boundary is Periodic
                &&& s.grid@.len() == s.state@.len()
                &&& forall|i: int|
                    0 <= i < s.grid@.len() ==> (#[trigger] s.grid@[i])@ == grid_pt(
                        range[0]@,
                        dx@,
                        i,
                    ) && rv_lt(grid_pt(range[0]@, dx@, i), range[1]@)
                &&& !rv_lt(grid_pt(range[0]@, dx@, s.grid@.len() as int), range[1]@)
                &&& forall|i: int|
                    0 <= i < s.grid@.len() ==> call_ensures(
                        init,
                        (s.grid@[i],),
                        #[trigger] s.state@[i],
                    )
            },
            rv_lt(rv_int(0), dx@) && rv_lt(rv_int(0), dt@) && rv_lt(range[0]@, range[1]@) ==> (
            r is Ok <==> grid_fits(range[0]@, dx@, range[1]@)),
            r == Err::<Simluation, SimError>(SimError::Overflow) ==> !grid_fits(
                range[0]@,
                dx@,
                range[1]@,
            ),
    {
        let lo = range[0];
        let hi = range[1];
        let zero = Rat::from_int(0);
        if !zero.lt(&dx) || !zero.lt(&dt) || !lo.lt(&hi) {
            return Err(SimError::ConfigurationError);
        }
        let ghost lov = lo@;
        let ghost dxv = dx@;
        let ghost hiv = hi@;
        let ghost dd: int = dxv.n * (lov.d * hiv.d);
        let ghost cc: int = hiv.n * (lov.d * dxv.d) - lov.n * (dxv.d * hiv.d);
        proof {
            assert(dxv.n > 0);
        }
        let mut grid: Vec<Rat> = Vec::new();
        let mut state: Vec<Rat> = Vec::new();
        let mut i: usize = 0;
        let mut ii: i64 = 0;
        loop
            invariant
                ii as int == i as int,
                i < usize::MAX,
                dx.wf(),
                dt.wf(),
                lo.wf(),
                hi.wf(),
                lov == lo@,
                dxv == dx@,
                hiv == hi@,
                lo@ == range[0]@,
                hi@ == range[1]@,
                dxv.n > 0,
                dd == dxv.n * (lov.d * hiv.d),
                cc == hiv.n * (lov.d * dxv.d) - lov.n * (dxv.d * hiv.d),
                rv_lt(rv_int(0), dx@),
                rv_lt(rv_int(0), dt@),
                rv_lt(lov, hiv),
                forall|x: Rat| x.wf() ==> call_requires(init, (x,)),
                forall|x: Rat, y: Rat| call_ensures(init, (x,), y) ==> y.wf(),
                grid@.len() == i,
                state@.len() == i,
                forall|j: int| 0 <= j < i ==> (#[trigger] grid@[j])@ == grid_pt(lov, dxv, j)
                    && grid@[j].wf() && rv_lt(grid_pt(lov, dxv, j), hiv),
                forall|j: int| 0 <= j < i ==> call_ensures(init, (grid@[j],), #[trigger] state@[j])
                    && state@[j].wf(),
                forall|j: int| 0 <= j < i ==> #[trigger] grid_step_fits(lov, dxv, j),
            decreases (if i * dd <= cc { cc - i * dd } else { 0 }),
        {
            proof {
                lemma_pt_lt(lov, dxv, hiv, i as int);
                if i > 0 {
                    assert(grid@[i as int - 1]@ == grid_pt(lov, dxv, i as int - 1));
                    lemma_pt_lt(lov, dxv, hiv, i as int - 1);
                }
                assert(grid_reach(lov, dxv, hiv, i as int));
            }
            let step = match Rat::from_int(ii).checked_mul(dx) {
                Some(s) => s,
                None => {
                    proof {
                        assert(!grid_step_fits(lov, dxv, i as int));
                    }
                    return Err(SimError::Overflow);
                },
            };
            let g = match lo.checked_add(step) {
                Some(g) => g,
                None => {
                    proof {
                        assert(!grid_step_fits(lov, dxv, i as int));
                    }
                    return Err(SimError::Overflow);
                },
            };
            if g.lt(&hi) {
                grid.push(g);
                state.push(init(g));
                proof {
                    assert(grid_step_fits(lov, dxv, i as int));
                    assert(i * dd < cc);
                    vstd::arithmetic::mul::lemma_mul_is_distributive_add_other_way(
                        dd,
                        i as int,
                        1,
                    );
                    assert((i as int + 1) * dd == i as int * dd + dd);
                    assert(grid@[i as int]@ == grid_pt(lov, dxv, i as int));
                    assert(grid@[i as int].wf());
                    assert(rv_lt(grid_pt(lov, dxv, i as int), hiv));
                }
                if ii == i64::MAX {
                    proof {
                        assert(grid@[i as int]@ == grid_pt(lov, dxv, i as int));
                        assert(grid_reach(lov, dxv, hiv, i as int + 1));
                        assert(!grid_step_fits(lov, dxv, i as int + 1));
                    }
                    return Err(SimError::Overflow);
                }
                if i == usize::MAX - 1 {
                    proof {
                        assert(grid@[i as int]@ == grid_pt(lov, dxv, i as int));
                        assert(grid_reach(lov, dxv, hiv, i as int + 1));
                        assert(!grid_step_fits(lov, dxv, i as int + 1));
                    }
                    return Err(SimError::Overflow);
                }
                i += 1;
                ii += 1;
            } else {
                proof {
                    assert(grid_step_fits(lov, dxv, i as int));
                    assert forall|k: int| grid_reach(lov, dxv, hiv, k) implies #[trigger]
                        grid_step_fits(lov, dxv, k) by {
                        if k > i {
                            lemma_pt_lt(lov, dxv, hiv, k - 1);
                            vstd::arithmetic::mul::lemma_mul_inequality(i as int, k - 1, dd);
                            assert(false);
                        } else if k < i {
                            assert(grid_step_fits(lov, dxv, k));
                        }
                    }
                }
                return Ok(Simluation { state, dt, dx, grid, boundary: Boundary::Periodic });
            }
        }
    }
}


impl Simluation {
    pub fn state(&self) -> (r: &Vec<Rat>)
        ensures
            r == &self.state,
    {
        &self.state
    }

    pub fn grid(&self) -> (r: &Vec<Rat>)
        ensures
            r == &self.grid,
    {
        &self.grid
    }

    /// Replaces the boundary-extension policy.
    pub fn set_boundary(&mut self, b: Boundary) -> (r: ())
        requires
            old(self).wf(),
            boundary_wf(b),
        ensures
            final(self).wf(),
            final(self).boundary == b,
            final(self).state == old(self).state,
            final(self).grid == old(self).grid,
            final(self).dt == old(self).dt,
            final(self).dx == old(self).dx,
    {
        self.boundary = b;
    }
}

impl Default for Simluation {
    /// A zero state over `[-5, 5)` with spacing `1/100` and a time step
    /// of six tenths of the spacing, under the periodic boundary.
    fn default() -> (r: Simluation)
        ensures
            r.wf(),
            r.state@.len() == 1000,
            r.grid@.len() == 1000,
            forall|i: int|
                0 <= i < 1000 ==> (#[trigger] r.grid@[i])@ == (Rv { n: i - 500, d: 100 }),
            forall|i: int| 0 <= i < 1000 ==> (#[trigger] r.state@[i])@ == rv_int(0),
            r.dx@ == (Rv { n: 1, d: 100 }),
            r.dt@ == (Rv { n: 6, d: 1000 }),
            r.boundary is Periodic,
    {
        let mut grid: Vec<Rat> = Vec::new();
        let mut state: Vec<Rat> = Vec::new();
        let mut i: usize = 0;
        while i < 1000
            invariant
                i <= 1000,
                grid@.len() == i,
                state@.len() == i,
                forall|j: int|
                    0 <= j < i ==> (#[trigger] grid@[j])@ == (Rv { n: j - 500, d: 100 })
                        && grid@[j].wf(),
                forall|j: int|
                    0 <= j < i ==> (#[trigger] state@[j])@ == rv_int(0) && state@[j].wf(),
            decreases 1000 - i,
        {
            grid.push(Rat::new((i as i64) - 500, 100));
            state.push(Rat::from_int(0));
            i += 1;
        }
        Simluation {
            state,
            dt: Rat::new(6, 1000),
            dx: Rat::new(1, 100),
            grid,
            boundary: Boundary::Periodic,
        }
    }
}

} // verus!
