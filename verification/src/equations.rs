//! The concrete conservation laws.

use vstd::prelude::*;

use crate::base::Equation;
use crate::rational::{
    lemma_rv_mul_congr, lemma_rv_ops_wf, rv_div, rv_eq, rv_fits, rv_int, rv_mul, rv_wf, Rat, Rv,
};

verus! {

/// Linear advection: `f(u) = a * u`, `df(u) = a`.
#[derive(Clone, Copy, Debug)]
pub struct Advection {
    pub a: Rat,
}

impl Equation for Advection {
    open spec fn wf(&self) -> bool {
        self.a.wf()
    }

    open spec fn spec_f(&self, u: Rv) -> Rv {
        rv_mul(u, self.a@)
    }

    open spec fn spec_df(&self, u: Rv) -> Rv {
        self.a@
    }

    open spec fn f_ok(&self, u: Rv) -> bool {
        rv_fits(rv_mul(u, self.a@))
    }

    open spec fn df_ok(&self, u: Rv) -> bool {
        true
    }

    fn f(&self, u: Rat) -> (r: Option<Rat>) {
        u.checked_mul(self.a)
    }

    fn df(&self, _u: Rat) -> (r: Option<Rat>) {
        Some(self.a)
    }

    proof fn lemma_wf(&self, u: Rv) {
        lemma_rv_ops_wf(u, self.a@);
    }

    proof fn lemma_congr(&self, u: Rv, v: Rv) {
        lemma_rv_mul_congr(u, self.a@, v, self.a@);
    }
}

/// The inviscid Burgers equation: `f(u) = u^2 / 2`, `df(u) = u`.
#[derive(Clone, Copy, Debug)]
pub struct InviscidBurger;

impl Equation for InviscidBurger {
    open spec fn wf(&self) -> bool {
        true
    }

    open spec fn spec_f(&self, u: Rv) -> Rv {
        rv_div(rv_mul(u, u), rv_int(2))
    }

    open spec fn spec_df(&self, u: Rv) -> Rv {
        u
    }

    open spec fn f_ok(&self, u: Rv) -> bool {
        rv_fits(rv_mul(u, u)) && rv_fits(rv_div(rv_mul(u, u), rv_int(2)))
    }

    open spec fn df_ok(&self, u: Rv) -> bool {
        true
    }

    fn f(&self, u: Rat) -> (r: Option<Rat>) {
        let two = Rat::from_int(2);
        match u.checked_mul(u) {
            Some(sq) => sq.checked_div(two),
            None => None,
        }
    }

    fn df(&self, u: Rat) -> (r: Option<Rat>) {
        Some(u)
    }

    proof fn lemma_wf(&self, u: Rv) {
        lemma_rv_ops_wf(u, u);
        lemma_rv_ops_wf(rv_mul(u, u), rv_int(2));
    }

    proof fn lemma_congr(&self, u: Rv, v: Rv) {
        lemma_rv_mul_congr(u, u, v, v);
        lemma_rv_ops_wf(u, u);
        lemma_rv_ops_wf(v, v);
        let x = rv_mul(u, u);
        let y = rv_mul(v, v);
        assert(x.n * (y.d * 2) == y.n * (x.d * 2)) by (nonlinear_arith)
            requires x.n * y.d == y.n * x.d;
    }
}

} // verus!
